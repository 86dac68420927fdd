//! Encoding of the model as canonical IDF 3.0 text.
use crate::idf30::{
    BoardSide, ComponentDefinition, ComponentPlacement, DefinitionView, DesignatorView, FileType,
    FileTypeView, Header, HeaderView, Idf30, Idf30View, IdfSection, IdfValue, LoopLabel,
    PlacementStatus, PlacementView, Point, ReferenceDesignator, SectionView, Unit, ValueView,
    definitions_view,
};
use crate::number::{digits, fixed_text, int_text, push_char, push_digits, push_fixed, push_int};
use vstd::prelude::*;

verus! {

/// A string as it is written: as it stands, or `""` when it is empty.
pub open spec fn shown(s: Seq<char>) -> Seq<char> {
    if s.len() == 0 {
        seq!['"', '"']
    } else {
        s
    }
}

pub open spec fn unit_name(u: Unit) -> Seq<char> {
    match u {
        Unit::SImm => "MM"@,
        Unit::Mils => "THOU"@,
    }
}

pub open spec fn side_name(s: BoardSide) -> Seq<char> {
    match s {
        BoardSide::Top => "TOP"@,
        BoardSide::Bottom => "BOTTOM"@,
    }
}

pub open spec fn status_name(s: PlacementStatus) -> Seq<char> {
    match s {
        PlacementStatus::Placed => "PLACED"@,
        PlacementStatus::Unplaced => "UNPLACED"@,
        PlacementStatus::MCad => "MCAD"@,
        PlacementStatus::ECad => "ECAD"@,
    }
}

pub open spec fn file_type_name(t: FileTypeView) -> Seq<char> {
    match t {
        FileTypeView::BoardFile { .. } => "BOARD_FILE"@,
        FileTypeView::PanelFile { .. } => "PANEL_FILE"@,
        FileTypeView::LibraryFile { .. } => "LIBRARY_FILE"@,
    }
}

pub open spec fn designator_text(d: DesignatorView) -> Seq<char> {
    match d {
        DesignatorView::Any(s) => shown(s),
        DesignatorView::NoRefDes => "NOREFDES"@,
        DesignatorView::Board => "BOARD"@,
    }
}

pub open spec fn value_text(v: ValueView) -> Seq<char> {
    match v {
        ValueView::Integer(i) => int_text(i as int),
        ValueView::Float(d) => fixed_text(d, 4),
        ValueView::String(s) => shown(s),
    }
}

/// The values of a record, each after a space.
pub open spec fn values_text(r: Seq<ValueView>) -> Seq<char>
    decreases r.len(),
{
    if r.len() == 0 {
        seq![]
    } else {
        values_text(r.drop_last()) + seq![' '] + value_text(r.last())
    }
}

/// The records of a section, one line each, indented by one space.
pub open spec fn value_records_text(rs: Seq<Seq<ValueView>>) -> Seq<char>
    decreases rs.len(),
{
    if rs.len() == 0 {
        seq![]
    } else {
        value_records_text(rs.drop_last()) + seq![' '] + values_text(rs.last()) + seq!['\n']
    }
}

/// The arguments of a section header, each after a space.
pub open spec fn args_text(a: Seq<Seq<char>>) -> Seq<char>
    decreases a.len(),
{
    if a.len() == 0 {
        seq![]
    } else {
        args_text(a.drop_last()) + seq![' '] + shown(a.last())
    }
}

pub open spec fn section_text(s: SectionView) -> Seq<char> {
    seq!['.'] + s.name + args_text(s.args) + seq!['\n'] + value_records_text(s.records) + ".END_"@
        + s.name + seq!['\n']
}

pub open spec fn sections_text(ss: Seq<SectionView>) -> Seq<char>
    decreases ss.len(),
{
    if ss.len() == 0 {
        seq![]
    } else {
        sections_text(ss.drop_last()) + section_text(ss.last())
    }
}

/// A placement's identity record: package, part number, designator.
pub open spec fn identity_text(c: PlacementView) -> Seq<char> {
    shown(c.package_name) + seq![' '] + shown(c.part_number) + seq![' '] + designator_text(
        c.designator,
    ) + seq!['\n']
}

/// A placement's geometry record, indented by two spaces; the rotation has
/// three decimals, the coordinates four.
pub open spec fn geometry_text(c: PlacementView) -> Seq<char> {
    seq![' ', ' '] + fixed_text(c.x, 4) + seq![' '] + fixed_text(c.y, 4) + seq![' '] + fixed_text(
        c.z,
        4,
    ) + seq![' '] + fixed_text(c.rotation, 3) + seq![' '] + side_name(c.board_side) + seq![' ']
        + status_name(c.placement_status) + seq!['\n']
}

/// A placement's two records.
pub open spec fn placement_text(c: PlacementView) -> Seq<char> {
    identity_text(c) + geometry_text(c)
}

pub open spec fn placements_text(ps: Seq<PlacementView>) -> Seq<char>
    decreases ps.len(),
{
    if ps.len() == 0 {
        seq![]
    } else {
        placements_text(ps.drop_last()) + placement_text(ps.last())
    }
}

pub open spec fn point_text(p: Point) -> Seq<char> {
    (if p.label == LoopLabel::CounterClockwise {
        seq!['0']
    } else {
        seq!['1']
    }) + seq![' '] + fixed_text(p.x, 4) + seq![' '] + fixed_text(p.y, 4) + seq![' '] + fixed_text(
        p.angle,
        4,
    ) + seq!['\n']
}

pub open spec fn points_text(ps: Seq<Point>) -> Seq<char>
    decreases ps.len(),
{
    if ps.len() == 0 {
        seq![]
    } else {
        points_text(ps.drop_last()) + point_text(ps.last())
    }
}

pub open spec fn definition_text(d: DefinitionView) -> Seq<char> {
    ".ELECTRICAL\n"@ + shown(d.geometry_name) + seq![' '] + shown(d.part_number) + seq![' ']
        + unit_name(d.units) + seq![' '] + fixed_text(d.height, 4) + seq!['\n'] + points_text(
        d.points,
    ) + ".END_ELECTRICAL\n"@
}

pub open spec fn definitions_text(ds: Seq<DefinitionView>) -> Seq<char>
    decreases ds.len(),
{
    if ds.len() == 0 {
        seq![]
    } else {
        definitions_text(ds.drop_last()) + definition_text(ds.last())
    }
}

/// The board record of the header: board name and unit, for board and
/// panel files only.
pub open spec fn board_record_text(t: FileTypeView) -> Seq<char> {
    match t {
        FileTypeView::BoardFile { board_name, units } => shown(board_name) + seq![' '] + unit_name(
            units,
        ) + seq!['\n'],
        FileTypeView::PanelFile { board_name, units } => shown(board_name) + seq![' '] + unit_name(
            units,
        ) + seq!['\n'],
        FileTypeView::LibraryFile { .. } => seq![],
    }
}

pub open spec fn header_text(h: HeaderView) -> Seq<char> {
    ".HEADER\n"@ + file_type_name(h.ty) + " 3.0 "@ + shown(h.source) + seq![' '] + shown(h.date)
        + seq![' '] + digits(h.board_file_version as nat) + seq!['\n'] + board_record_text(h.ty)
        + ".END_HEADER\n"@
}

/// The canonical text of a document: the header, the kept sections, then
/// one `PLACEMENT` section for a board file or one `ELECTRICAL` section per
/// component definition for a library file.
pub open spec fn encode(d: Idf30View) -> Seq<char> {
    header_text(d.header) + sections_text(d.other_sections) + match d.header.ty {
        FileTypeView::BoardFile { .. } => ".PLACEMENT\n"@ + placements_text(d.placement)
            + ".END_PLACEMENT\n"@,
        FileTypeView::PanelFile { .. } => seq![],
        FileTypeView::LibraryFile { components } => definitions_text(components),
    }
}

/// Appends `s` as it is written: `""` when it is empty.
fn escape_string(out: &mut String, s: &String)
    ensures
        final(out)@ == old(out)@ + shown(s@),
{
    if s.as_str().is_empty() {
        push_char(out, '"');
        push_char(out, '"');
        assert(final(out)@ =~= old(out)@ + shown(s@));
    } else {
        out.append(s.as_str());
    }
}

impl Unit {
    /// The unit's token, `MM` or `THOU`.
    pub fn to_string(&self) -> (r: String)
        ensures
            r@ == unit_name(*self),
    {
        match self {
            Unit::SImm => String::from_str("MM"),
            Unit::Mils => String::from_str("THOU"),
        }
    }
}

impl BoardSide {
    /// The side's token, `TOP` or `BOTTOM`.
    pub fn to_string(&self) -> (r: String)
        ensures
            r@ == side_name(*self),
    {
        match self {
            BoardSide::Top => String::from_str("TOP"),
            BoardSide::Bottom => String::from_str("BOTTOM"),
        }
    }
}

impl PlacementStatus {
    /// The status token: `PLACED`, `UNPLACED`, `MCAD` or `ECAD`.
    pub fn to_string(&self) -> (r: String)
        ensures
            r@ == status_name(*self),
    {
        match self {
            PlacementStatus::Placed => String::from_str("PLACED"),
            PlacementStatus::Unplaced => String::from_str("UNPLACED"),
            PlacementStatus::MCad => String::from_str("MCAD"),
            PlacementStatus::ECad => String::from_str("ECAD"),
        }
    }
}

impl FileType {
    /// The file type token of the header.
    pub fn to_string(&self) -> (r: String)
        ensures
            r@ == file_type_name(self@),
    {
        match self {
            FileType::BoardFile { .. } => String::from_str("BOARD_FILE"),
            FileType::PanelFile { .. } => String::from_str("PANEL_FILE"),
            FileType::LibraryFile { .. } => String::from_str("LIBRARY_FILE"),
        }
    }
}

impl ReferenceDesignator {
    /// The designator as it is written in a placement record.
    pub fn to_string(&self) -> (r: String)
        ensures
            r@ == designator_text(self@),
    {
        match self {
            ReferenceDesignator::Any(d) => {
                let mut s = String::new();
                escape_string(&mut s, d);
                s
            },
            ReferenceDesignator::NoRefDes => String::from_str("NOREFDES"),
            ReferenceDesignator::Board => String::from_str("BOARD"),
        }
    }
}

impl IdfValue {
    /// The value as it is written: an integer in full, a float with four
    /// decimals, a string as it stands.
    pub fn to_string(&self) -> (r: String)
        ensures
            r@ == value_text(self@),
    {
        let mut s = String::new();
        match self {
            IdfValue::Integer(i) => push_int(&mut s, *i),
            IdfValue::Float(d) => push_fixed(&mut s, *d, 4),
            IdfValue::String(t) => escape_string(&mut s, t),
        }
        assert(s@ =~= value_text(self@));
        s
    }
}

fn write_str_of(out: &mut String, s: &String)
    ensures
        final(out)@ == old(out)@ + s@,
{
    out.append(s.as_str());
}

fn write_values(out: &mut String, r: &Vec<IdfValue>)
    ensures
        final(out)@ == old(out)@ + values_text(r@.map_values(|v: IdfValue| v@)),
{
    let ghost o = out@;
    let ghost rv = r@.map_values(|v: IdfValue| v@);
    let mut k: usize = 0;
    assert(rv.subrange(0, 0) =~= Seq::<ValueView>::empty());
    while k < r.len()
        invariant
            rv == r@.map_values(|v: IdfValue| v@),
            k <= r@.len(),
            out@ == o + values_text(rv.subrange(0, k as int)),
        decreases r@.len() - k,
    {
        push_char(out, ' ');
        let t = r[k].to_string();
        write_str_of(out, &t);
        let ghost pre = rv.subrange(0, k as int);
        k = k + 1;
        assert(rv.subrange(0, k as int).drop_last() =~= pre);
        assert(out@ =~= o + values_text(rv.subrange(0, k as int)));
    }
    assert(rv.subrange(0, k as int) =~= rv);
}

fn write_section(out: &mut String, sec: &IdfSection)
    ensures
        final(out)@ == old(out)@ + section_text(sec@),
{
    let ghost o = out@;
    let ghost sv = sec@;
    push_char(out, '.');
    write_str_of(out, &sec.name);
    let mut a: usize = 0;
    let ghost o1 = out@;
    assert(sv.args.subrange(0, 0) =~= Seq::<Seq<char>>::empty());
    while a < sec.args.len()
        invariant
            sv == sec@,
            a <= sv.args.len(),
            out@ == o1 + args_text(sv.args.subrange(0, a as int)),
        decreases sv.args.len() - a,
    {
        push_char(out, ' ');
        escape_string(out, &sec.args[a]);
        let ghost pre = sv.args.subrange(0, a as int);
        a = a + 1;
        assert(sv.args.subrange(0, a as int).drop_last() =~= pre);
        assert(out@ =~= o1 + args_text(sv.args.subrange(0, a as int)));
    }
    assert(sv.args.subrange(0, a as int) =~= sv.args);
    push_char(out, '\n');
    let ghost o2 = out@;
    let mut k: usize = 0;
    assert(sv.records.subrange(0, 0) =~= Seq::<Seq<ValueView>>::empty());
    while k < sec.records.len()
        invariant
            sv == sec@,
            k <= sv.records.len(),
            out@ == o2 + value_records_text(sv.records.subrange(0, k as int)),
        decreases sv.records.len() - k,
    {
        push_char(out, ' ');
        write_values(out, &sec.records[k]);
        push_char(out, '\n');
        let ghost pre = sv.records.subrange(0, k as int);
        k = k + 1;
        assert(sv.records.subrange(0, k as int).drop_last() =~= pre);
        assert(out@ =~= o2 + value_records_text(sv.records.subrange(0, k as int)));
    }
    assert(sv.records.subrange(0, k as int) =~= sv.records);
    out.append(".END_");
    write_str_of(out, &sec.name);
    push_char(out, '\n');
    assert(final(out)@ =~= o + section_text(sv));
}

impl IdfSection {
    /// The section as it is written: header line, one indented line per
    /// record, terminator.
    pub fn to_string(&self) -> (r: String)
        ensures
            r@ == section_text(self@),
    {
        let mut s = String::new();
        write_section(&mut s, self);
        assert(s@ =~= section_text(self@));
        s
    }
}

fn write_identity(out: &mut String, c: &ComponentPlacement)
    ensures
        final(out)@ == old(out)@ + identity_text(c@),
{
    let ghost o = out@;
    escape_string(out, &c.package_name);
    push_char(out, ' ');
    escape_string(out, &c.part_number);
    push_char(out, ' ');
    let d = c.designator.to_string();
    write_str_of(out, &d);
    push_char(out, '\n');
    assert(final(out)@ =~= o + identity_text(c@));
}

fn write_geometry(out: &mut String, c: &ComponentPlacement)
    ensures
        final(out)@ == old(out)@ + geometry_text(c@),
{
    let ghost o = out@;
    push_char(out, ' ');
    push_char(out, ' ');
    push_fixed(out, c.x, 4);
    push_char(out, ' ');
    push_fixed(out, c.y, 4);
    push_char(out, ' ');
    push_fixed(out, c.z, 4);
    push_char(out, ' ');
    push_fixed(out, c.rotation, 3);
    push_char(out, ' ');
    let side = c.board_side.to_string();
    write_str_of(out, &side);
    push_char(out, ' ');
    let status = c.placement_status.to_string();
    write_str_of(out, &status);
    push_char(out, '\n');
    assert(final(out)@ =~= o + geometry_text(c@));
}

fn write_placement(out: &mut String, c: &ComponentPlacement)
    ensures
        final(out)@ == old(out)@ + placement_text(c@),
{
    let ghost o = out@;
    write_identity(out, c);
    write_geometry(out, c);
    assert(final(out)@ =~= o + placement_text(c@));
}

impl ComponentPlacement {
    /// The placement's two records as they are written.
    pub fn to_string(&self) -> (r: String)
        ensures
            r@ == placement_text(self@),
    {
        let mut s = String::new();
        write_placement(&mut s, self);
        assert(s@ =~= placement_text(self@));
        s
    }
}

fn write_point(out: &mut String, p: &Point)
    ensures
        final(out)@ == old(out)@ + point_text(*p),
{
    let ghost o = out@;
    if p.label == LoopLabel::CounterClockwise {
        push_char(out, '0');
    } else {
        push_char(out, '1');
    }
    push_char(out, ' ');
    push_fixed(out, p.x, 4);
    push_char(out, ' ');
    push_fixed(out, p.y, 4);
    push_char(out, ' ');
    push_fixed(out, p.angle, 4);
    push_char(out, '\n');
    assert(final(out)@ =~= o + point_text(*p));
}

#[verifier::rlimit(40)]
fn write_definition(out: &mut String, d: &ComponentDefinition)
    ensures
        final(out)@ == old(out)@ + definition_text(d@),
{
    let ghost o = out@;
    out.append(".ELECTRICAL\n");
    escape_string(out, &d.geometry_name);
    push_char(out, ' ');
    escape_string(out, &d.part_number);
    push_char(out, ' ');
    let u = d.units.to_string();
    write_str_of(out, &u);
    push_char(out, ' ');
    push_fixed(out, d.height, 4);
    push_char(out, '\n');
    let ghost o1 = out@;
    let mut k: usize = 0;
    assert(d.points@.subrange(0, 0) =~= Seq::<Point>::empty());
    while k < d.points.len()
        invariant
            k <= d.points@.len(),
            out@ == o1 + points_text(d.points@.subrange(0, k as int)),
        decreases d.points@.len() - k,
    {
        write_point(out, &d.points[k]);
        let ghost pre = d.points@.subrange(0, k as int);
        k = k + 1;
        assert(d.points@.subrange(0, k as int).drop_last() =~= pre);
        assert(out@ =~= o1 + points_text(d.points@.subrange(0, k as int)));
    }
    assert(d.points@.subrange(0, k as int) =~= d.points@);
    out.append(".END_ELECTRICAL\n");
    assert(final(out)@ =~= o + definition_text(d@));
}

impl ComponentDefinition {
    /// The `ELECTRICAL` section that defines this component.
    pub fn to_string(&self) -> (r: String)
        ensures
            r@ == definition_text(self@),
    {
        let mut s = String::new();
        write_definition(&mut s, self);
        assert(s@ =~= definition_text(self@));
        s
    }
}

fn write_header(out: &mut String, h: &Header)
    ensures
        final(out)@ == old(out)@ + header_text(h@),
{
    let ghost o = out@;
    out.append(".HEADER\n");
    let t = h.ty.to_string();
    write_str_of(out, &t);
    out.append(" 3.0 ");
    escape_string(out, &h.source);
    push_char(out, ' ');
    escape_string(out, &h.date);
    push_char(out, ' ');
    push_digits(out, h.board_file_version as u128);
    push_char(out, '\n');
    let ghost o1 = out@;
    match &h.ty {
        FileType::BoardFile { board_name, units } | FileType::PanelFile { board_name, units } => {
            escape_string(out, board_name);
            push_char(out, ' ');
            let u = units.to_string();
            write_str_of(out, &u);
            push_char(out, '\n');
        },
        FileType::LibraryFile { .. } => {},
    }
    assert(out@ =~= o1 + board_record_text(h@.ty));
    out.append(".END_HEADER\n");
    assert(final(out)@ =~= o + header_text(h@));
}

impl Header {
    /// The `HEADER` section as it is written.
    pub fn to_string(&self) -> (r: String)
        ensures
            r@ == header_text(self@),
    {
        let mut s = String::new();
        write_header(&mut s, self);
        assert(s@ =~= header_text(self@));
        s
    }
}

impl Idf30 {
    /// The canonical text of the document.
    pub fn to_string(&self) -> (r: String)
        ensures
            r@ == encode(self@),
    {
        let mut s = String::new();
        write_header(&mut s, &self.header);
        let ghost o1 = s@;
        let ghost ss = self@.other_sections;
        let mut k: usize = 0;
        assert(ss.subrange(0, 0) =~= Seq::<SectionView>::empty());
        while k < self.other_sections.len()
            invariant
                ss == self@.other_sections,
                k <= ss.len(),
                s@ == o1 + sections_text(ss.subrange(0, k as int)),
            decreases ss.len() - k,
        {
            write_section(&mut s, &self.other_sections[k]);
            let ghost pre = ss.subrange(0, k as int);
            k = k + 1;
            assert(ss.subrange(0, k as int).drop_last() =~= pre);
            assert(s@ =~= o1 + sections_text(ss.subrange(0, k as int)));
        }
        assert(ss.subrange(0, k as int) =~= ss);
        let ghost o2 = s@;
        match &self.header.ty {
            FileType::BoardFile { .. } => {
                s.append(".PLACEMENT\n");
                let ghost o3 = s@;
                let ghost ps = self@.placement;
                let mut k: usize = 0;
                assert(ps.subrange(0, 0) =~= Seq::<PlacementView>::empty());
                while k < self.placement.len()
                    invariant
                        ps == self@.placement,
                        k <= ps.len(),
                        s@ == o3 + placements_text(ps.subrange(0, k as int)),
                    decreases ps.len() - k,
                {
                    write_placement(&mut s, &self.placement[k]);
                    let ghost pre = ps.subrange(0, k as int);
                    k = k + 1;
                    assert(ps.subrange(0, k as int).drop_last() =~= pre);
                    assert(s@ =~= o3 + placements_text(ps.subrange(0, k as int)));
                }
                assert(ps.subrange(0, k as int) =~= ps);
                s.append(".END_PLACEMENT\n");
            },
            FileType::PanelFile { .. } => {},
            FileType::LibraryFile { components } => {
                let ghost ds = definitions_view(components@);
                let mut k: usize = 0;
                assert(ds.subrange(0, 0) =~= Seq::<DefinitionView>::empty());
                while k < components.len()
                    invariant
                        ds == definitions_view(components@),
                        k <= ds.len(),
                        s@ == o2 + definitions_text(ds.subrange(0, k as int)),
                    decreases ds.len() - k,
                {
                    write_definition(&mut s, &components[k]);
                    let ghost pre = ds.subrange(0, k as int);
                    k = k + 1;
                    assert(ds.subrange(0, k as int).drop_last() =~= pre);
                    assert(s@ =~= o2 + definitions_text(ds.subrange(0, k as int)));
                }
                assert(ds.subrange(0, k as int) =~= ds);
            },
        }
        assert(s@ =~= encode(self@));
        s
    }
}

} // verus!
