//! Decoders for the records of the sections that the model interprets.
use crate::idf30::{
    definitions_view, placements_view, strings_view, values_view, BoardSide, ComponentDefinition,
    ComponentPlacement, DefinitionView, DesignatorView, Error, FileType, FileTypeView, Header,
    HeaderView, IdfSection, IdfValue, LoopLabel, PlacementStatus, PlacementView, Point,
    ReferenceDesignator, SectionView, Unit, ValueView,
};
use crate::lexer::{tokens_view, Token, TokenView};
use crate::number::{
    decimal_of_text, i64_of, is_float, is_float_text, is_integer, is_integer_text, parse_decimal,
    parse_i64, parse_u32, push_char, u32_of, Decimal,
};
use crate::sections::{records_view, RawSection, RawSectionView};
use vstd::prelude::*;
use vstd::string::StrSliceExecFns;

verus! {

/// The text of a token as it stands in the file, quotes included.
pub open spec fn raw_text(t: TokenView) -> Seq<char> {
    if t.quoted {
        seq!['"'] + t.text + seq!['"']
    } else {
        t.text
    }
}

pub open spec fn unit_of(t: Seq<char>) -> Option<Unit> {
    if t == "MM"@ {
        Some(Unit::SImm)
    } else if t == "THOU"@ {
        Some(Unit::Mils)
    } else {
        None
    }
}

pub open spec fn side_of(t: Seq<char>) -> Option<BoardSide> {
    if t == "TOP"@ {
        Some(BoardSide::Top)
    } else if t == "BOTTOM"@ {
        Some(BoardSide::Bottom)
    } else {
        None
    }
}

pub open spec fn status_of(t: Seq<char>) -> Option<PlacementStatus> {
    if t == "PLACED"@ {
        Some(PlacementStatus::Placed)
    } else if t == "UNPLACED"@ {
        Some(PlacementStatus::Unplaced)
    } else if t == "MCAD"@ {
        Some(PlacementStatus::MCad)
    } else if t == "ECAD"@ {
        Some(PlacementStatus::ECad)
    } else {
        None
    }
}

pub open spec fn designator_of(t: Seq<char>) -> DesignatorView {
    if t == "NOREFDES"@ {
        DesignatorView::NoRefDes
    } else if t == "BOARD"@ {
        DesignatorView::Board
    } else {
        DesignatorView::Any(t)
    }
}

/// A field that holds a float: a bare float token that fits.
pub open spec fn float_field(t: TokenView) -> Result<Decimal, Error> {
    if t.quoted || !is_float_text(t.text) {
        Err(Error::GrammarExpectedRule)
    } else {
        match decimal_of_text(t.text) {
            Some(d) => Ok(d),
            None => Err(Error::ParseFloat),
        }
    }
}

/// Whether `t` holds the characters of `lit`.
pub fn text_is(t: &Vec<char>, lit: &str) -> (r: bool)
    ensures
        r == (t@ == lit@),
{
    let n = lit.unicode_len();
    if t.len() != n {
        return false;
    }
    let mut k: usize = 0;
    while k < n
        invariant
            n == lit@.len() == t@.len(),
            k <= n,
            forall|j: int| 0 <= j < k ==> t@[j] == lit@[j],
        decreases n - k,
    {
        if t[k] != lit.get_char(k) {
            return false;
        }
        k = k + 1;
    }
    assert(t@ =~= lit@);
    true
}

/// A string that holds the characters of `t`.
pub fn string_of(t: &Vec<char>) -> (r: String)
    ensures
        r@ == t@,
{
    let mut s = String::new();
    let mut k: usize = 0;
    while k < t.len()
        invariant
            k <= t@.len(),
            s@ == t@.subrange(0, k as int),
        decreases t@.len() - k,
    {
        push_char(&mut s, t[k]);
        k = k + 1;
        assert(s@ =~= t@.subrange(0, k as int));
    }
    assert(t@.subrange(0, t@.len() as int) =~= t@);
    s
}

/// The text of `t` as it stands in the file.
pub fn raw_string(t: &Token) -> (r: String)
    ensures
        r@ == raw_text(t@),
{
    if t.quoted {
        let mut s = String::new();
        push_char(&mut s, '"');
        let inner = string_of(&t.text);
        s.append(inner.as_str());
        push_char(&mut s, '"');
        assert(s@ =~= raw_text(t@));
        s
    } else {
        string_of(&t.text)
    }
}

pub fn unit_from(t: &Vec<char>) -> (r: Option<Unit>)
    ensures
        r == unit_of(t@),
{
    if text_is(t, "MM") {
        Some(Unit::SImm)
    } else if text_is(t, "THOU") {
        Some(Unit::Mils)
    } else {
        None
    }
}

fn side_from(t: &Vec<char>) -> (r: Option<BoardSide>)
    ensures
        r == side_of(t@),
{
    if text_is(t, "TOP") {
        Some(BoardSide::Top)
    } else if text_is(t, "BOTTOM") {
        Some(BoardSide::Bottom)
    } else {
        None
    }
}

fn status_from(t: &Vec<char>) -> (r: Option<PlacementStatus>)
    ensures
        r == status_of(t@),
{
    if text_is(t, "PLACED") {
        Some(PlacementStatus::Placed)
    } else if text_is(t, "UNPLACED") {
        Some(PlacementStatus::Unplaced)
    } else if text_is(t, "MCAD") {
        Some(PlacementStatus::MCad)
    } else if text_is(t, "ECAD") {
        Some(PlacementStatus::ECad)
    } else {
        None
    }
}

fn designator_from(t: &Vec<char>) -> (r: ReferenceDesignator)
    ensures
        r@ == designator_of(t@),
{
    if text_is(t, "NOREFDES") {
        ReferenceDesignator::NoRefDes
    } else if text_is(t, "BOARD") {
        ReferenceDesignator::Board
    } else {
        ReferenceDesignator::Any(string_of(t))
    }
}

fn float_from(t: &Token) -> (r: Result<Decimal, Error>)
    ensures
        r == float_field(t@),
{
    if t.quoted || !is_float(&t.text) {
        return Err(Error::GrammarExpectedRule);
    }
    match parse_decimal(&t.text) {
        Some(d) => Ok(d),
        None => Err(Error::ParseFloat),
    }
}

/// The placement that an identity record `a` (package, part number,
/// designator) and a geometry record `b` (x, y, z, rotation, side, status)
/// describe.
#[verifier::opaque]
pub open spec fn placement_of(a: Seq<TokenView>, b: Seq<TokenView>) -> Result<PlacementView, Error> {
    if a.len() < 3 || b.len() < 6 {
        Err(Error::GrammarExpectedPair)
    } else if float_field(b[0]) is Err {
        Err(float_field(b[0])->Err_0)
    } else if float_field(b[1]) is Err {
        Err(float_field(b[1])->Err_0)
    } else if float_field(b[2]) is Err {
        Err(float_field(b[2])->Err_0)
    } else if float_field(b[3]) is Err {
        Err(float_field(b[3])->Err_0)
    } else if side_of(b[4].text) is None {
        Err(Error::WrongSide)
    } else if status_of(b[5].text) is None {
        Err(Error::WrongStatus)
    } else {
        Ok(
            PlacementView {
                package_name: a[0].text,
                part_number: a[1].text,
                designator: designator_of(a[2].text),
                x: float_field(b[0])->Ok_0,
                y: float_field(b[1])->Ok_0,
                z: float_field(b[2])->Ok_0,
                rotation: float_field(b[3])->Ok_0,
                board_side: side_of(b[4].text)->Some_0,
                placement_status: status_of(b[5].text)->Some_0,
            },
        )
    }
}

/// The placements of the record pairs of `recs` from record `k` on, after
/// the placements `acc`.
pub open spec fn placements_from(recs: Seq<Seq<TokenView>>, k: int, acc: Seq<PlacementView>) -> Result<
    Seq<PlacementView>,
    Error,
>
    decreases recs.len() - k,
{
    if k < 0 || k + 1 >= recs.len() {
        Ok(acc)
    } else {
        match placement_of(recs[k], recs[k + 1]) {
            Ok(p) => placements_from(recs, k + 2, acc.push(p)),
            Err(e) => Err(e),
        }
    }
}

/// The placements of a `PLACEMENT` section with the records `recs`.
pub open spec fn placement_section(recs: Seq<Seq<TokenView>>) -> Result<Seq<PlacementView>, Error> {
    if recs.len() % 2 == 1 {
        Err(Error::MalformedPlacementSection)
    } else {
        placements_from(recs, 0, seq![])
    }
}

fn decode_placement(a: &Vec<Token>, b: &Vec<Token>) -> (r: Result<ComponentPlacement, Error>)
    ensures
        match r {
            Ok(c) => placement_of(tokens_view(a@), tokens_view(b@)) == Ok::<PlacementView, Error>(c@),
            Err(e) => placement_of(tokens_view(a@), tokens_view(b@)) == Err::<PlacementView, Error>(e),
        },
{
    reveal(placement_of);
    if a.len() < 3 || b.len() < 6 {
        return Err(Error::GrammarExpectedPair);
    }
    let x = match float_from(&b[0]) {
        Ok(v) => v,
        Err(e) => return Err(e),
    };
    let y = match float_from(&b[1]) {
        Ok(v) => v,
        Err(e) => return Err(e),
    };
    let z = match float_from(&b[2]) {
        Ok(v) => v,
        Err(e) => return Err(e),
    };
    let rotation = match float_from(&b[3]) {
        Ok(v) => v,
        Err(e) => return Err(e),
    };
    let board_side = match side_from(&b[4].text) {
        Some(v) => v,
        None => return Err(Error::WrongSide),
    };
    let placement_status = match status_from(&b[5].text) {
        Some(v) => v,
        None => return Err(Error::WrongStatus),
    };
    Ok(
        ComponentPlacement {
            package_name: string_of(&a[0].text),
            part_number: string_of(&a[1].text),
            designator: designator_from(&a[2].text),
            x,
            y,
            z,
            rotation,
            board_side,
            placement_status,
        },
    )
}

/// Decodes the records of a `PLACEMENT` section, two for each placement.
/// An odd number of records is refused before any pair is read.
pub fn parse_placement_section(records: &Vec<Vec<Token>>) -> (r: Result<
    Vec<ComponentPlacement>,
    Error,
>)
    ensures
        match r {
            Ok(v) => placement_section(records_view(records@)) == Ok::<Seq<PlacementView>, Error>(
                placements_view(v@),
            ),
            Err(e) => placement_section(records_view(records@)) == Err::<Seq<PlacementView>, Error>(
                e,
            ),
        },
        records@.len() % 2 == 1 ==> r == Err::<Vec<ComponentPlacement>, Error>(
            Error::MalformedPlacementSection,
        ),
{
    let ghost recs = records_view(records@);
    if records.len() % 2 == 1 {
        return Err(Error::MalformedPlacementSection);
    }
    let mut out: Vec<ComponentPlacement> = Vec::new();
    let mut k: usize = 0;
    assert(placements_view(out@) =~= Seq::<PlacementView>::empty());
    while k + 1 < records.len()
        invariant
            recs == records_view(records@),
            records@.len() % 2 == 0,
            k % 2 == 0,
            k <= records@.len(),
            placement_section(recs) == placements_from(recs, k as int, placements_view(out@)),
        decreases records@.len() - k,
    {
        assert(recs[k as int] == tokens_view(records@[k as int]@));
        assert(recs[k + 1] == tokens_view(records@[k + 1]@));
        let c = match decode_placement(&records[k], &records[k + 1]) {
            Ok(c) => c,
            Err(e) => return Err(e),
        };
        let ghost before = out@;
        out.push(c);
        assert(placements_view(out@) =~= placements_view(before).push(c@));
        k = k + 2;
    }
    Ok(out)
}

/// The outline point of a record: loop label, x, y and angle. A label of
/// zero marks a counter-clockwise loop, any other a clockwise one.
#[verifier::opaque]
pub open spec fn point_of(r: Seq<TokenView>) -> Result<Point, Error> {
    if r.len() < 4 {
        Err(Error::GrammarExpectedPair)
    } else if r[0].quoted || !is_integer_text(r[0].text) {
        Err(Error::GrammarExpectedRule)
    } else if u32_of(r[0].text) is None {
        Err(Error::ParseInt)
    } else if float_field(r[1]) is Err {
        Err(float_field(r[1])->Err_0)
    } else if float_field(r[2]) is Err {
        Err(float_field(r[2])->Err_0)
    } else if float_field(r[3]) is Err {
        Err(float_field(r[3])->Err_0)
    } else {
        Ok(
            Point {
                label: if u32_of(r[0].text)->Some_0 == 0 {
                    LoopLabel::CounterClockwise
                } else {
                    LoopLabel::Clockwise
                },
                x: float_field(r[1])->Ok_0,
                y: float_field(r[2])->Ok_0,
                angle: float_field(r[3])->Ok_0,
            },
        )
    }
}

/// A property record, `PROP ...`, which carries no point.
pub open spec fn is_prop(r: Seq<TokenView>) -> bool {
    r.len() > 0 && !r[0].quoted && r[0].text == "PROP"@
}

/// The points of the records of `recs` from record `k` on, after `acc`.
pub open spec fn points_from(recs: Seq<Seq<TokenView>>, k: int, acc: Seq<Point>) -> Result<
    Seq<Point>,
    Error,
>
    decreases recs.len() - k,
{
    if k < 0 || k >= recs.len() {
        Ok(acc)
    } else if is_prop(recs[k]) {
        points_from(recs, k + 1, acc)
    } else {
        match point_of(recs[k]) {
            Ok(p) => points_from(recs, k + 1, acc.push(p)),
            Err(e) => Err(e),
        }
    }
}

/// The component that the records of an `ELECTRICAL` section define: a
/// record (geometry name, part number, unit, height), then outline points.
pub open spec fn definition_of(recs: Seq<Seq<TokenView>>) -> Result<DefinitionView, Error> {
    if recs.len() == 0 || recs[0].len() < 4 {
        Err(Error::GrammarExpectedPair)
    } else if unit_of(recs[0][2].text) is None {
        Err(Error::WrongUnit)
    } else if float_field(recs[0][3]) is Err {
        Err(float_field(recs[0][3])->Err_0)
    } else {
        match points_from(recs, 1, seq![]) {
            Ok(points) => Ok(
                DefinitionView {
                    geometry_name: recs[0][0].text,
                    part_number: recs[0][1].text,
                    units: unit_of(recs[0][2].text)->Some_0,
                    height: float_field(recs[0][3])->Ok_0,
                    points,
                },
            ),
            Err(e) => Err(e),
        }
    }
}

fn decode_point(r: &Vec<Token>) -> (p: Result<Point, Error>)
    ensures
        match p {
            Ok(p) => point_of(tokens_view(r@)) == Ok::<Point, Error>(p),
            Err(e) => point_of(tokens_view(r@)) == Err::<Point, Error>(e),
        },
{
    reveal(point_of);
    if r.len() < 4 {
        return Err(Error::GrammarExpectedPair);
    }
    if r[0].quoted || !is_integer(&r[0].text) {
        return Err(Error::GrammarExpectedRule);
    }
    let label = match parse_u32(&r[0].text) {
        Some(v) => v,
        None => return Err(Error::ParseInt),
    };
    let x = match float_from(&r[1]) {
        Ok(v) => v,
        Err(e) => return Err(e),
    };
    let y = match float_from(&r[2]) {
        Ok(v) => v,
        Err(e) => return Err(e),
    };
    let angle = match float_from(&r[3]) {
        Ok(v) => v,
        Err(e) => return Err(e),
    };
    let label = if label == 0 {
        LoopLabel::CounterClockwise
    } else {
        LoopLabel::Clockwise
    };
    Ok(Point { label, x, y, angle })
}

/// Decodes the records of an `ELECTRICAL` section into one component
/// definition; `PROP` records are skipped.
pub fn parse_component_definition(records: &Vec<Vec<Token>>) -> (r: Result<
    ComponentDefinition,
    Error,
>)
    ensures
        match r {
            Ok(d) => definition_of(records_view(records@)) == Ok::<DefinitionView, Error>(d@),
            Err(e) => definition_of(records_view(records@)) == Err::<DefinitionView, Error>(e),
        },
        records@.len() > 0 && records@[0]@.len() >= 4 && unit_of(records@[0]@[2].text@) is None
            ==> r == Err::<ComponentDefinition, Error>(Error::WrongUnit),
{
    let ghost recs = records_view(records@);
    if records.len() == 0 || records[0].len() < 4 {
        return Err(Error::GrammarExpectedPair);
    }
    assert(recs[0] == tokens_view(records@[0]@));
    let head = &records[0];
    assert(recs[0][0] == head@[0]@);
    assert(recs[0][1] == head@[1]@);
    assert(recs[0][2] == head@[2]@);
    assert(recs[0][3] == head@[3]@);
    let units = match unit_from(&head[2].text) {
        Some(u) => u,
        None => return Err(Error::WrongUnit),
    };
    let height = match float_from(&head[3]) {
        Ok(h) => h,
        Err(e) => return Err(e),
    };
    let mut points: Vec<Point> = Vec::new();
    let mut k: usize = 1;
    while k < records.len()
        invariant
            recs == records_view(records@),
            1 <= k <= records@.len(),
            recs[0].len() >= 4,
            unit_of(recs[0][2].text) == Some(units),
            float_field(recs[0][3]) == Ok::<Decimal, Error>(height),
            points_from(recs, 1, seq![]) == points_from(recs, k as int, points@),
        decreases records@.len() - k,
    {
        assert(recs[k as int] == tokens_view(records@[k as int]@));
        let rec = &records[k];
        let prop = rec.len() > 0 && !rec[0].quoted && text_is(&rec[0].text, "PROP");
        proof {
            if rec@.len() > 0 {
                assert(recs[k as int][0] == rec@[0]@);
            }
        }
        assert(prop == is_prop(recs[k as int]));
        if !prop {
            let p = match decode_point(rec) {
                Ok(p) => p,
                Err(e) => return Err(e),
            };
            points.push(p);
        }
        k = k + 1;
    }
    Ok(
        ComponentDefinition {
            geometry_name: string_of(&head[0].text),
            part_number: string_of(&head[1].text),
            units,
            height,
            points,
        },
    )
}

/// The header that the records of a `HEADER` section give. The first record
/// is (file type, version token, source, date, version number); board and
/// panel files add a record (board name, unit).
#[verifier::opaque]
pub open spec fn header_of(recs: Seq<Seq<TokenView>>) -> Result<HeaderView, Error> {
    if recs.len() == 0 || recs[0].len() < 2 {
        Err(Error::GrammarExpectedPair)
    } else if recs[0][1].text != "3.0"@ {
        Err(Error::UnsupportedVersion)
    } else if !(recs[0][0].text == "BOARD_FILE"@ || recs[0][0].text == "PANEL_FILE"@
        || recs[0][0].text == "LIBRARY_FILE"@) {
        Err(Error::WrongFileType)
    } else if recs[0].len() < 5 {
        Err(Error::GrammarExpectedPair)
    } else if u32_of(recs[0][4].text) is None {
        Err(Error::ParseInt)
    } else if recs[0][0].text == "LIBRARY_FILE"@ {
        Ok(
            HeaderView {
                ty: FileTypeView::LibraryFile { components: seq![] },
                source: recs[0][2].text,
                date: recs[0][3].text,
                board_file_version: u32_of(recs[0][4].text)->Some_0,
            },
        )
    } else if recs.len() < 2 || recs[1].len() < 2 {
        Err(Error::GrammarExpectedPair)
    } else if unit_of(recs[1][1].text) is None {
        Err(Error::WrongUnit)
    } else {
        let board_name = recs[1][0].text;
        let units = unit_of(recs[1][1].text)->Some_0;
        Ok(
            HeaderView {
                ty: if recs[0][0].text == "BOARD_FILE"@ {
                    FileTypeView::BoardFile { board_name, units }
                } else {
                    FileTypeView::PanelFile { board_name, units }
                },
                source: recs[0][2].text,
                date: recs[0][3].text,
                board_file_version: u32_of(recs[0][4].text)->Some_0,
            },
        )
    }
}

/// A first header record whose version token is not `3.0`, whatever its
/// file type token.
pub open spec fn version_refused(recs: Seq<Seq<TokenView>>) -> bool {
    recs.len() > 0 && recs[0].len() >= 2 && recs[0][1].text != "3.0"@
}

/// A well-formed board or panel header whose unit token is neither `MM`
/// nor `THOU`.
pub open spec fn board_unit_refused(recs: Seq<Seq<TokenView>>) -> bool {
    &&& recs.len() >= 2
    &&& recs[0].len() >= 5
    &&& recs[0][1].text == "3.0"@
    &&& (recs[0][0].text == "BOARD_FILE"@ || recs[0][0].text == "PANEL_FILE"@)
    &&& u32_of(recs[0][4].text) is Some
    &&& recs[1].len() >= 2
    &&& unit_of(recs[1][1].text) is None
}

/// Decodes the records of the `HEADER` section.
pub fn parse_header(records: &Vec<Vec<Token>>) -> (r: Result<Header, Error>)
    ensures
        match r {
            Ok(h) => header_of(records_view(records@)) == Ok::<HeaderView, Error>(h@),
            Err(e) => header_of(records_view(records@)) == Err::<HeaderView, Error>(e),
        },
        version_refused(records_view(records@)) ==> r == Err::<Header, Error>(
            Error::UnsupportedVersion,
        ),
        board_unit_refused(records_view(records@)) ==> r == Err::<Header, Error>(Error::WrongUnit),
{
    reveal(header_of);
    let ghost recs = records_view(records@);
    if records.len() == 0 || records[0].len() < 2 {
        return Err(Error::GrammarExpectedPair);
    }
    let r0 = &records[0];
    assert(recs[0] == tokens_view(r0@));
    assert(recs[0][0] == r0@[0]@);
    assert(recs[0][1] == r0@[1]@);
    if !text_is(&r0[1].text, "3.0") {
        return Err(Error::UnsupportedVersion);
    }
    let board = text_is(&r0[0].text, "BOARD_FILE");
    let panel = text_is(&r0[0].text, "PANEL_FILE");
    let library = text_is(&r0[0].text, "LIBRARY_FILE");
    if !(board || panel || library) {
        return Err(Error::WrongFileType);
    }
    if r0.len() < 5 {
        return Err(Error::GrammarExpectedPair);
    }
    assert(recs[0][2] == r0@[2]@);
    assert(recs[0][3] == r0@[3]@);
    assert(recs[0][4] == r0@[4]@);
    let version = match parse_u32(&r0[4].text) {
        Some(v) => v,
        None => return Err(Error::ParseInt),
    };
    let source = string_of(&r0[2].text);
    let date = string_of(&r0[3].text);
    if library {
        proof {
            reveal_strlit("LIBRARY_FILE");
            reveal_strlit("BOARD_FILE");
            reveal_strlit("PANEL_FILE");
            assert("LIBRARY_FILE"@.len() != "BOARD_FILE"@.len());
        }
        let components: Vec<ComponentDefinition> = Vec::new();
        assert(definitions_view(components@) =~= Seq::<DefinitionView>::empty());
        return Ok(
            Header {
                ty: FileType::LibraryFile { components },
                source,
                date,
                board_file_version: version,
            },
        );
    }
    if records.len() < 2 || records[1].len() < 2 {
        return Err(Error::GrammarExpectedPair);
    }
    let r1 = &records[1];
    assert(recs[1] == tokens_view(r1@));
    assert(recs[1][0] == r1@[0]@);
    assert(recs[1][1] == r1@[1]@);
    let units = match unit_from(&r1[1].text) {
        Some(u) => u,
        None => return Err(Error::WrongUnit),
    };
    let board_name = string_of(&r1[0].text);
    let ty = if board {
        FileType::BoardFile { board_name, units }
    } else {
        FileType::PanelFile { board_name, units }
    };
    Ok(Header { ty, source, date, board_file_version: version })
}

/// The value of a token of a section that the model does not interpret:
/// a bare integer or float token gives a number, any other token its text
/// as it stands in the file.
pub open spec fn value_of(t: TokenView) -> Result<ValueView, Error> {
    if !t.quoted && is_integer_text(t.text) {
        match i64_of(t.text) {
            Some(v) => Ok(ValueView::Integer(v)),
            None => Err(Error::ParseInt),
        }
    } else if !t.quoted && is_float_text(t.text) {
        match decimal_of_text(t.text) {
            Some(d) => Ok(ValueView::Float(d)),
            None => Err(Error::ParseFloat),
        }
    } else {
        Ok(ValueView::String(raw_text(t)))
    }
}

/// The values of the tokens of `r` from token `k` on, after `acc`.
pub open spec fn values_from(r: Seq<TokenView>, k: int, acc: Seq<ValueView>) -> Result<
    Seq<ValueView>,
    Error,
>
    decreases r.len() - k,
{
    if k < 0 || k >= r.len() {
        Ok(acc)
    } else {
        match value_of(r[k]) {
            Ok(v) => values_from(r, k + 1, acc.push(v)),
            Err(e) => Err(e),
        }
    }
}

/// The records of values of `recs` from record `k` on, after `acc`.
pub open spec fn value_records_from(
    recs: Seq<Seq<TokenView>>,
    k: int,
    acc: Seq<Seq<ValueView>>,
) -> Result<Seq<Seq<ValueView>>, Error>
    decreases recs.len() - k,
{
    if k < 0 || k >= recs.len() {
        Ok(acc)
    } else {
        match values_from(recs[k], 0, seq![]) {
            Ok(v) => value_records_from(recs, k + 1, acc.push(v)),
            Err(e) => Err(e),
        }
    }
}

/// A section that the model keeps as it stands.
pub open spec fn generic_section_of(s: RawSectionView) -> Result<SectionView, Error> {
    match value_records_from(s.records, 0, seq![]) {
        Ok(records) => Ok(
            SectionView { name: s.name, args: s.args.map_values(|t: TokenView| raw_text(t)), records },
        ),
        Err(e) => Err(e),
    }
}

fn decode_value(t: &Token) -> (r: Result<IdfValue, Error>)
    ensures
        match r {
            Ok(v) => value_of(t@) == Ok::<ValueView, Error>(v@),
            Err(e) => value_of(t@) == Err::<ValueView, Error>(e),
        },
{
    if !t.quoted && is_integer(&t.text) {
        match parse_i64(&t.text) {
            Some(v) => Ok(IdfValue::Integer(v)),
            None => Err(Error::ParseInt),
        }
    } else if !t.quoted && is_float(&t.text) {
        match parse_decimal(&t.text) {
            Some(d) => Ok(IdfValue::Float(d)),
            None => Err(Error::ParseFloat),
        }
    } else {
        Ok(IdfValue::String(raw_string(t)))
    }
}

fn decode_values(r: &Vec<Token>) -> (out: Result<Vec<IdfValue>, Error>)
    ensures
        match out {
            Ok(v) => values_from(tokens_view(r@), 0, seq![]) == Ok::<Seq<ValueView>, Error>(
                values_view(v@),
            ),
            Err(e) => values_from(tokens_view(r@), 0, seq![]) == Err::<Seq<ValueView>, Error>(e),
        },
{
    let ghost toks = tokens_view(r@);
    let mut out: Vec<IdfValue> = Vec::new();
    let mut k: usize = 0;
    assert(values_view(out@) =~= Seq::<ValueView>::empty());
    while k < r.len()
        invariant
            toks == tokens_view(r@),
            k <= r@.len(),
            values_from(toks, 0, seq![]) == values_from(toks, k as int, values_view(out@)),
        decreases r@.len() - k,
    {
        assert(toks[k as int] == r@[k as int]@);
        let v = match decode_value(&r[k]) {
            Ok(v) => v,
            Err(e) => return Err(e),
        };
        let ghost before = out@;
        out.push(v);
        assert(values_view(out@) =~= values_view(before).push(v@));
        k = k + 1;
    }
    Ok(out)
}

/// Decodes a section that the model keeps as it stands: its arguments and
/// the values of its records.
pub fn parse_generic_section(sec: &RawSection) -> (r: Result<IdfSection, Error>)
    ensures
        match r {
            Ok(s) => generic_section_of(sec@) == Ok::<SectionView, Error>(s@),
            Err(e) => generic_section_of(sec@) == Err::<SectionView, Error>(e),
        },
{
    let ghost recs = records_view(sec.records@);
    let mut records: Vec<Vec<IdfValue>> = Vec::new();
    let mut k: usize = 0;
    let ghost rv = |r: Vec<IdfValue>| values_view(r@);
    assert(records@.map_values(rv) =~= Seq::<Seq<ValueView>>::empty());
    while k < sec.records.len()
        invariant
            recs == records_view(sec.records@),
            k <= recs.len(),
            rv == (|r: Vec<IdfValue>| values_view(r@)),
            value_records_from(recs, 0, seq![]) == value_records_from(
                recs,
                k as int,
                records@.map_values(rv),
            ),
        decreases recs.len() - k,
    {
        assert(recs[k as int] == tokens_view(sec.records@[k as int]@));
        let v = match decode_values(&sec.records[k]) {
            Ok(v) => v,
            Err(e) => return Err(e),
        };
        let ghost before = records@;
        records.push(v);
        assert(records@.map_values(rv) =~= before.map_values(rv).push(values_view(v@)));
        k = k + 1;
    }
    let mut args: Vec<String> = Vec::new();
    let mut a: usize = 0;
    let ghost targs = tokens_view(sec.args@);
    while a < sec.args.len()
        invariant
            targs == tokens_view(sec.args@),
            a <= targs.len(),
            strings_view(args@) =~= targs.subrange(0, a as int).map_values(|t: TokenView| raw_text(t)),
        decreases targs.len() - a,
    {
        let s = raw_string(&sec.args[a]);
        let ghost before = args@;
        args.push(s);
        assert(strings_view(args@) =~= strings_view(before).push(s@));
        a = a + 1;
        assert(targs.subrange(0, a as int) =~= targs.subrange(0, a - 1).push(targs[a - 1]));
    }
    assert(targs.subrange(0, a as int) =~= targs);
    let name = string_of(&sec.name);
    Ok(IdfSection { name, args, records })
}

} // verus!
