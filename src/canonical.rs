//! A board document written by the encoder decodes to the same document.
use crate::encode::{
    args_text, designator_text, encode, geometry_text, header_text, identity_text,
    placement_text, placements_text, section_text, sections_text, shown, side_name, status_name,
    unit_name, value_records_text, value_text, values_text,
};
use crate::idf30::{
    DefinitionView, DesignatorView, Error, FileTypeView, HeaderView, Idf30View, PlacementView,
    SectionView, Unit, ValueView,
};
use crate::decode::{body_from, decode, document_of, with_components};
use crate::lexer::TokenView;
use crate::number::{
    abs, digits, fixed_text, int_text, is_float_text, is_integer_text, pow10, Decimal,
};
use crate::records::{
    designator_of, float_field, generic_section_of, header_of, placement_of, placement_section,
    placements_from, raw_text, side_of, status_of, unit_of, value_of, value_records_from, values_from,
};
use crate::roundtrip::{
    bare_token, joined, lemma_fixed_text_round_trip, lemma_int_text_round_trip,
    lemma_lines_round_trip, lemma_numeral_token, lemma_numerals, lemma_sections_round_trip,
    lemma_u32_text_round_trip, line_text, lines_text, plain_char, raw_of,
    raws_of, record_line_ok, section_lines, section_ok, sections_lines, spaces, writable,
    WrittenLine, WrittenSection,
};
use crate::sections::{end_prefix, is_dot, is_end, RawSectionView};
use vstd::prelude::*;

verus! {

proof fn lemma_lines_text_append(a: Seq<WrittenLine>, b: Seq<WrittenLine>)
    ensures
        lines_text(a + b) == lines_text(a) + lines_text(b),
    decreases a.len(),
{
    if a.len() == 0 {
        assert(a + b =~= b);
        assert(lines_text(a) + lines_text(b) =~= lines_text(b));
    } else {
        assert((a + b).drop_first() =~= a.drop_first() + b);
        lemma_lines_text_append(a.drop_first(), b);
        assert(lines_text(a + b) =~= lines_text(a) + lines_text(b));
    }
}

proof fn lemma_sections_lines_append(a: Seq<WrittenSection>, b: Seq<WrittenSection>)
    ensures
        sections_lines(a + b) == sections_lines(a) + sections_lines(b),
    decreases a.len(),
{
    if a.len() == 0 {
        assert(a + b =~= b);
        assert(sections_lines(a) + sections_lines(b) =~= sections_lines(b));
    } else {
        assert((a + b).drop_first() =~= a.drop_first() + b);
        lemma_sections_lines_append(a.drop_first(), b);
        assert(sections_lines(a + b) =~= sections_lines(a) + sections_lines(b));
    }
}

proof fn lemma_joined_push(ts: Seq<TokenView>, t: TokenView)
    requires
        ts.len() > 0,
    ensures
        joined(ts.push(t)) == joined(ts) + seq![' '] + raw_text(t),
    decreases ts.len(),
{
    if ts.len() == 1 {
        assert(ts.push(t).drop_first() =~= seq![t]);
        assert(joined(seq![t]) == raw_text(seq![t][0]));
        assert(ts.push(t)[0] == ts[0]);
    } else {
        assert(ts.push(t)[0] == ts[0]);
        assert(ts.push(t).drop_first() =~= ts.drop_first().push(t));
        lemma_joined_push(ts.drop_first(), t);
        assert(joined(ts.push(t)) =~= joined(ts) + seq![' '] + raw_text(t));
    }
}

proof fn lemma_lines_text_one(l: WrittenLine)
    ensures
        lines_text(seq![l]) == line_text(l),
{
    assert(seq![l].drop_first() =~= Seq::<WrittenLine>::empty());
    assert(lines_text(Seq::<WrittenLine>::empty()) == Seq::<char>::empty());
    assert(line_text(l) + Seq::<char>::empty() =~= line_text(l));
}

proof fn lemma_sections_lines_one(w: WrittenSection)
    ensures
        sections_lines(seq![w]) == section_lines(w),
{
    assert(seq![w].drop_first() =~= Seq::<WrittenSection>::empty());
    assert(sections_lines(Seq::<WrittenSection>::empty()) == Seq::<WrittenLine>::empty());
    assert(section_lines(w) + Seq::<WrittenLine>::empty() =~= section_lines(w));
}

/// The token that writes a string field: the string, or `""` when empty.
pub open spec fn str_token(s: Seq<char>) -> TokenView {
    if s.len() == 0 {
        TokenView { text: s, quoted: true }
    } else {
        bare_token(s)
    }
}

/// The token whose text as written is `s`: quoted when `s` is in quotes.
pub open spec fn raw_token(s: Seq<char>) -> TokenView {
    if s.len() >= 2 && s[0] == '"' && s[s.len() - 1] == '"' {
        TokenView { text: s.subrange(1, s.len() - 1), quoted: true }
    } else {
        bare_token(s)
    }
}

pub open spec fn value_token(v: ValueView) -> TokenView {
    match v {
        ValueView::Integer(i) => bare_token(int_text(i as int)),
        ValueView::Float(d) => bare_token(fixed_text(d, 4)),
        ValueView::String(s) => raw_token(s),
    }
}

pub open spec fn value_line(r: Seq<ValueView>) -> WrittenLine {
    WrittenLine { indent: 2, tokens: r.map_values(|v: ValueView| value_token(v)) }
}

pub open spec fn generic_written(sec: SectionView) -> WrittenSection {
    WrittenSection {
        name: sec.name,
        args: sec.args.map_values(|a: Seq<char>| raw_token(a)),
        records: sec.records.map_values(|r: Seq<ValueView>| value_line(r)),
    }
}

proof fn lemma_raw_token_text(s: Seq<char>)
    requires
        s.len() > 0,
    ensures
        raw_text(raw_token(s)) == shown(s),
{
    if s.len() >= 2 && s[0] == '"' && s[s.len() - 1] == '"' {
        assert(seq!['"'] + s.subrange(1, s.len() - 1) + seq!['"'] =~= s);
    }
}

/// Values that the encoder writes as their own text.
pub open spec fn value_written_as_is(v: ValueView) -> bool {
    match v {
        ValueView::String(s) => s.len() > 0,
        _ => true,
    }
}

proof fn lemma_value_line_text(r: Seq<ValueView>)
    requires
        r.len() > 0,
        forall|k: int| 0 <= k < r.len() ==> value_written_as_is(#[trigger] r[k]),
    ensures
        seq![' '] + joined(r.map_values(|v: ValueView| value_token(v))) == values_text(r),
    decreases r.len(),
{
    let toks = r.map_values(|v: ValueView| value_token(v));
    let last = r.last();
    assert(raw_text(value_token(last)) == value_text(last)) by {
        assert(value_written_as_is(r[r.len() - 1]));
        match last {
            ValueView::String(s) => lemma_raw_token_text(s),
            _ => {},
        }
    }
    let init = r.drop_last();
    if r.len() == 1 {
        assert(values_text(init) =~= Seq::<char>::empty());
        assert(toks =~= seq![value_token(last)]);
        assert(seq![' '] + joined(toks) =~= values_text(r));
    } else {
        assert forall|k: int| 0 <= k < init.len() implies value_written_as_is(#[trigger] init[k]) by {
            assert(init[k] == r[k]);
        }
        lemma_value_line_text(init);
        let itoks = init.map_values(|v: ValueView| value_token(v));
        assert(toks =~= itoks.push(value_token(last)));
        lemma_joined_push(itoks, value_token(last));
        assert(seq![' '] + joined(toks) =~= values_text(r));
    }
}

proof fn lemma_value_records_text(rs: Seq<Seq<ValueView>>)
    requires
        forall|k: int| 0 <= k < rs.len() ==> (#[trigger] rs[k]).len() > 0,
        forall|k: int, j: int| 0 <= k < rs.len() && 0 <= j < rs[k].len() ==> value_written_as_is(
            #[trigger] rs[k][j],
        ),
    ensures
        lines_text(rs.map_values(|r: Seq<ValueView>| value_line(r))) == value_records_text(rs),
    decreases rs.len(),
{
    let ls = rs.map_values(|r: Seq<ValueView>| value_line(r));
    if rs.len() == 0 {
        assert(ls =~= Seq::<WrittenLine>::empty());
    } else {
        let init = rs.drop_last();
        let last = rs.last();
        assert forall|k: int| 0 <= k < init.len() implies (#[trigger] init[k]).len() > 0 by {
            assert(init[k] == rs[k]);
        }
        assert forall|k: int, j: int| 0 <= k < init.len() && 0 <= j < init[k].len()
            implies value_written_as_is(#[trigger] init[k][j]) by {
            assert(init[k] == rs[k]);
        }
        lemma_value_records_text(init);
        let ils = init.map_values(|r: Seq<ValueView>| value_line(r));
        assert(ls =~= ils + seq![value_line(last)]);
        lemma_lines_text_append(ils, seq![value_line(last)]);
        assert forall|j: int| 0 <= j < last.len() implies value_written_as_is(#[trigger] last[j]) by {
            assert(rs[rs.len() - 1] == last);
        }
        assert(last.len() > 0) by {
            assert(rs[rs.len() - 1] == last);
        }
        lemma_value_line_text(last);
        lemma_lines_text_one(value_line(last));
        assert(spaces(2) =~= seq![' ', ' ']);
        assert(line_text(value_line(last)) =~= seq![' '] + values_text(last) + seq!['\n']);
        assert(lines_text(ls) =~= value_records_text(rs));
    }
}

proof fn lemma_header_line_text(h: TokenView, args: Seq<Seq<char>>)
    requires
        forall|k: int| 0 <= k < args.len() ==> (#[trigger] args[k]).len() > 0,
    ensures
        joined(seq![h] + args.map_values(|a: Seq<char>| raw_token(a))) == raw_text(h) + args_text(
            args,
        ),
    decreases args.len(),
{
    let toks = seq![h] + args.map_values(|a: Seq<char>| raw_token(a));
    if args.len() == 0 {
        assert(toks =~= seq![h]);
        assert(raw_text(h) + args_text(args) =~= raw_text(h));
    } else {
        let init = args.drop_last();
        let last = args.last();
        assert forall|k: int| 0 <= k < init.len() implies (#[trigger] init[k]).len() > 0 by {
            assert(init[k] == args[k]);
        }
        lemma_header_line_text(h, init);
        let itoks = seq![h] + init.map_values(|a: Seq<char>| raw_token(a));
        assert(toks =~= itoks.push(raw_token(last)));
        lemma_joined_push(itoks, raw_token(last));
        assert(last.len() > 0) by {
            assert(args[args.len() - 1] == last);
        }
        lemma_raw_token_text(last);
        assert(joined(toks) =~= raw_text(h) + args_text(args));
    }
}

proof fn lemma_section_lines_text(w: WrittenSection)
    ensures
        lines_text(section_lines(w)) == line_text(
            WrittenLine { indent: 0, tokens: seq![bare_token(seq!['.'] + w.name)] + w.args },
        ) + lines_text(w.records) + end_prefix() + w.name + seq!['\n'],
{
    let hl = WrittenLine { indent: 0, tokens: seq![bare_token(seq!['.'] + w.name)] + w.args };
    let tl = WrittenLine { indent: 0, tokens: seq![bare_token(end_prefix() + w.name)] };
    assert(section_lines(w) == seq![hl] + w.records + seq![tl]);
    lemma_lines_text_append(seq![hl] + w.records, seq![tl]);
    lemma_lines_text_append(seq![hl], w.records);
    lemma_lines_text_one(hl);
    lemma_lines_text_one(tl);
    assert(spaces(0) =~= Seq::<char>::empty());
    assert(joined(tl.tokens) == end_prefix() + w.name);
    assert(line_text(tl) =~= end_prefix() + w.name + seq!['\n']);
    assert(lines_text(section_lines(w)) =~= line_text(hl) + lines_text(w.records) + end_prefix()
        + w.name + seq!['\n']);
}

/// A section whose strings are all written as their own text.
pub open spec fn generic_written_as_is(sec: SectionView) -> bool {
    &&& forall|k: int| 0 <= k < sec.args.len() ==> (#[trigger] sec.args[k]).len() > 0
    &&& forall|k: int| 0 <= k < sec.records.len() ==> (#[trigger] sec.records[k]).len() > 0
    &&& forall|k: int, j: int|
        0 <= k < sec.records.len() && 0 <= j < sec.records[k].len() ==> value_written_as_is(
            #[trigger] sec.records[k][j],
        )
}

proof fn lemma_generic_text(sec: SectionView)
    requires
        generic_written_as_is(sec),
    ensures
        lines_text(section_lines(generic_written(sec))) == section_text(sec),
{
    let w = generic_written(sec);
    lemma_section_lines_text(w);
    lemma_header_line_text(bare_token(seq!['.'] + sec.name), sec.args);
    lemma_value_records_text(sec.records);
    reveal_strlit(".END_");
    assert(".END_"@ =~= end_prefix());
    assert(spaces(0) =~= Seq::<char>::empty());
    assert(lines_text(section_lines(w)) =~= section_text(sec));
}

proof fn lemma_generic_sections_text(os: Seq<SectionView>)
    requires
        forall|k: int| 0 <= k < os.len() ==> generic_written_as_is(#[trigger] os[k]),
    ensures
        lines_text(sections_lines(os.map_values(|s: SectionView| generic_written(s))))
            == sections_text(os),
    decreases os.len(),
{
    let ws = os.map_values(|s: SectionView| generic_written(s));
    if os.len() == 0 {
        assert(ws =~= Seq::<WrittenSection>::empty());
    } else {
        let init = os.drop_last();
        let last = os.last();
        assert forall|k: int| 0 <= k < init.len() implies generic_written_as_is(#[trigger] init[k]) by {
            assert(init[k] == os[k]);
        }
        lemma_generic_sections_text(init);
        let iws = init.map_values(|s: SectionView| generic_written(s));
        assert(ws =~= iws + seq![generic_written(last)]);
        lemma_sections_lines_append(iws, seq![generic_written(last)]);
        lemma_sections_lines_one(generic_written(last));
        lemma_lines_text_append(sections_lines(iws), section_lines(generic_written(last)));
        assert(generic_written_as_is(os[os.len() - 1]));
        lemma_generic_text(last);
        assert(lines_text(sections_lines(ws)) =~= sections_text(os));
    }
}

pub open spec fn header_written(h: HeaderView, board_name: Seq<char>, units: Unit) -> WrittenSection {
    WrittenSection {
        name: "HEADER"@,
        args: seq![],
        records: seq![
            WrittenLine {
                indent: 0,
                tokens: seq![
                    bare_token("BOARD_FILE"@),
                    bare_token("3.0"@),
                    str_token(h.source),
                    str_token(h.date),
                    bare_token(digits(h.board_file_version as nat)),
                ],
            },
            WrittenLine {
                indent: 0,
                tokens: seq![str_token(board_name), bare_token(unit_name(units))],
            },
        ],
    }
}

proof fn lemma_str_token_text(s: Seq<char>)
    ensures
        raw_text(str_token(s)) == shown(s),
{
    if s.len() == 0 {
        assert(seq!['"'] + s + seq!['"'] =~= seq!['"', '"']);
    }
}

proof fn lemma_header_text(h: HeaderView, board_name: Seq<char>, units: Unit)
    requires
        h.ty == (FileTypeView::BoardFile { board_name, units }),
    ensures
        lines_text(section_lines(header_written(h, board_name, units))) == header_text(h),
{
    let w = header_written(h, board_name, units);
    lemma_section_lines_text(w);
    lemma_lines_text_append(seq![w.records[0]], seq![w.records[1]]);
    assert(w.records =~= seq![w.records[0]] + seq![w.records[1]]);
    lemma_lines_text_one(w.records[0]);
    lemma_lines_text_one(w.records[1]);
    lemma_str_token_text(h.source);
    lemma_str_token_text(h.date);
    lemma_str_token_text(board_name);
    reveal_with_fuel(joined, 6);
    reveal_strlit(".HEADER\n");
    reveal_strlit("HEADER");
    reveal_strlit(" 3.0 ");
    reveal_strlit("3.0");
    reveal_strlit(".END_HEADER\n");
    assert(spaces(0) =~= Seq::<char>::empty());
    let hl = WrittenLine { indent: 0, tokens: seq![bare_token(seq!['.'] + w.name)] + w.args };
    assert(hl.tokens =~= seq![bare_token(seq!['.'] + w.name)]);
    assert(line_text(hl) =~= ".HEADER\n"@);
    assert(lines_text(section_lines(w)) =~= header_text(h));
}

pub open spec fn designator_token(d: DesignatorView) -> TokenView {
    match d {
        DesignatorView::Any(s) => str_token(s),
        DesignatorView::NoRefDes => bare_token("NOREFDES"@),
        DesignatorView::Board => bare_token("BOARD"@),
    }
}

pub open spec fn identity_line(c: PlacementView) -> WrittenLine {
    WrittenLine {
        indent: 0,
        tokens: seq![
            str_token(c.package_name),
            str_token(c.part_number),
            designator_token(c.designator),
        ],
    }
}

pub open spec fn geometry_line(c: PlacementView) -> WrittenLine {
    WrittenLine {
        indent: 2,
        tokens: seq![
            bare_token(fixed_text(c.x, 4)),
            bare_token(fixed_text(c.y, 4)),
            bare_token(fixed_text(c.z, 4)),
            bare_token(fixed_text(c.rotation, 3)),
            bare_token(side_name(c.board_side)),
            bare_token(status_name(c.placement_status)),
        ],
    }
}

pub open spec fn placements_lines(ps: Seq<PlacementView>) -> Seq<WrittenLine>
    decreases ps.len(),
{
    if ps.len() == 0 {
        seq![]
    } else {
        placements_lines(ps.drop_last()) + seq![identity_line(ps.last()), geometry_line(ps.last())]
    }
}

pub open spec fn placement_written(ps: Seq<PlacementView>) -> WrittenSection {
    WrittenSection { name: "PLACEMENT"@, args: seq![], records: placements_lines(ps) }
}

proof fn lemma_placement_text(c: PlacementView)
    ensures
        line_text(identity_line(c)) + line_text(geometry_line(c)) == placement_text(c),
{
    lemma_str_token_text(c.package_name);
    lemma_str_token_text(c.part_number);
    assert(raw_text(designator_token(c.designator)) == designator_text(c.designator)) by {
        match c.designator {
            DesignatorView::Any(s) => lemma_str_token_text(s),
            _ => {},
        }
    }
    reveal_with_fuel(joined, 7);
    assert(spaces(0) =~= Seq::<char>::empty());
    assert(spaces(2) =~= seq![' ', ' ']);
    assert(line_text(identity_line(c)) =~= identity_text(c));
    assert(line_text(geometry_line(c)) =~= geometry_text(c));
}

proof fn lemma_placements_text(ps: Seq<PlacementView>)
    ensures
        lines_text(placements_lines(ps)) == placements_text(ps),
    decreases ps.len(),
{
    if ps.len() > 0 {
        let c = ps.last();
        lemma_placements_text(ps.drop_last());
        let two = seq![identity_line(c), geometry_line(c)];
        lemma_lines_text_append(placements_lines(ps.drop_last()), two);
        lemma_lines_text_append(seq![identity_line(c)], seq![geometry_line(c)]);
        assert(two =~= seq![identity_line(c)] + seq![geometry_line(c)]);
        lemma_lines_text_one(identity_line(c));
        lemma_lines_text_one(geometry_line(c));
        lemma_placement_text(c);
        assert(lines_text(placements_lines(ps)) =~= placements_text(ps));
    }
}

proof fn lemma_placement_section_text(ps: Seq<PlacementView>)
    ensures
        lines_text(section_lines(placement_written(ps))) == ".PLACEMENT\n"@ + placements_text(ps)
            + ".END_PLACEMENT\n"@,
{
    let w = placement_written(ps);
    lemma_section_lines_text(w);
    lemma_placements_text(ps);
    reveal_strlit(".PLACEMENT\n");
    reveal_strlit("PLACEMENT");
    reveal_strlit(".END_PLACEMENT\n");
    assert(spaces(0) =~= Seq::<char>::empty());
    let hl = WrittenLine { indent: 0, tokens: seq![bare_token(seq!['.'] + w.name)] + w.args };
    assert(hl.tokens =~= seq![bare_token(seq!['.'] + w.name)]);
    assert(line_text(hl) =~= ".PLACEMENT\n"@);
    assert(lines_text(section_lines(w)) =~= ".PLACEMENT\n"@ + placements_text(ps)
        + ".END_PLACEMENT\n"@);
}

/// The sections in which the encoder writes a board document.
pub open spec fn board_written(m: Idf30View, board_name: Seq<char>, units: Unit) -> Seq<WrittenSection> {
    seq![header_written(m.header, board_name, units)] + m.other_sections.map_values(
        |s: SectionView| generic_written(s),
    ) + seq![placement_written(m.placement)]
}

proof fn lemma_board_text(m: Idf30View, board_name: Seq<char>, units: Unit)
    requires
        m.header.ty == (FileTypeView::BoardFile { board_name, units }),
        forall|k: int| 0 <= k < m.other_sections.len() ==> generic_written_as_is(
            #[trigger] m.other_sections[k],
        ),
    ensures
        lines_text(sections_lines(board_written(m, board_name, units))) == encode(m),
{
    let hw = seq![header_written(m.header, board_name, units)];
    let gw = m.other_sections.map_values(|s: SectionView| generic_written(s));
    let pw = seq![placement_written(m.placement)];
    lemma_sections_lines_append(hw + gw, pw);
    lemma_sections_lines_append(hw, gw);
    lemma_sections_lines_one(header_written(m.header, board_name, units));
    lemma_sections_lines_one(placement_written(m.placement));
    lemma_lines_text_append(sections_lines(hw) + sections_lines(gw), sections_lines(pw));
    lemma_lines_text_append(sections_lines(hw), sections_lines(gw));
    lemma_header_text(m.header, board_name, units);
    lemma_generic_sections_text(m.other_sections);
    lemma_placement_section_text(m.placement);
    assert(lines_text(sections_lines(board_written(m, board_name, units))) =~= encode(m));
}

/// A string field that the encoder writes as one token: empty (written
/// `""`), or characters other than blanks, line feeds and quotes that do not
/// start with `#`.
pub open spec fn field_ok(s: Seq<char>) -> bool {
    s.len() == 0 || writable(bare_token(s))
}

/// A string field that opens a line: it may not start with `.` either.
pub open spec fn first_field_ok(s: Seq<char>) -> bool {
    field_ok(s) && (s.len() == 0 || s[0] != '.')
}

/// A decimal that is written with `p` decimals without rounding and read
/// back within the digits a float token may hold.
pub open spec fn decimal_fits(d: Decimal, p: nat) -> bool {
    d.is_normal() && d.scale <= p && abs(d.mantissa as int) * pow10((p - d.scale) as nat)
        <= i64::MAX
}

/// A value of a kept section that is read back as it is written.
pub open spec fn value_ok(v: ValueView) -> bool {
    match v {
        ValueView::Integer(_) => true,
        ValueView::Float(d) => decimal_fits(d, 4),
        ValueView::String(s) => s.len() > 0 && writable(raw_token(s)) && (raw_token(s).quoted || !(
        is_integer_text(s) || is_float_text(s))),
    }
}

pub open spec fn generic_ok(sec: SectionView) -> bool {
    &&& forall|k: int| 0 <= k < sec.name.len() ==> plain_char(#[trigger] sec.name[k])
    &&& !is_end(seq!['.'] + sec.name)
    &&& sec.name != "PLACEMENT"@
    &&& sec.name != "ELECTRICAL"@
    &&& forall|k: int|
        0 <= k < sec.args.len() ==> (#[trigger] sec.args[k]).len() > 0 && writable(
            raw_token(sec.args[k]),
        )
    &&& forall|k: int|
        0 <= k < sec.records.len() ==> (#[trigger] sec.records[k]).len() > 0 && !is_dot(
            value_token(sec.records[k][0]),
        )
    &&& forall|k: int, j: int|
        0 <= k < sec.records.len() && 0 <= j < sec.records[k].len() ==> value_ok(
            #[trigger] sec.records[k][j],
        )
}

pub open spec fn placement_ok(c: PlacementView) -> bool {
    &&& first_field_ok(c.package_name)
    &&& field_ok(c.part_number)
    &&& match c.designator {
        DesignatorView::Any(s) => field_ok(s) && s != "NOREFDES"@ && s != "BOARD"@,
        _ => true,
    }
    &&& decimal_fits(c.x, 4)
    &&& decimal_fits(c.y, 4)
    &&& decimal_fits(c.z, 4)
    &&& decimal_fits(c.rotation, 3)
}

/// A board document that the encoder writes in a form the decoder reads
/// back unchanged.
pub open spec fn board_writable(m: Idf30View) -> bool {
    &&& match m.header.ty {
        FileTypeView::BoardFile { board_name, .. } => first_field_ok(board_name),
        _ => false,
    }
    &&& field_ok(m.header.source)
    &&& field_ok(m.header.date)
    &&& forall|k: int| 0 <= k < m.other_sections.len() ==> generic_ok(#[trigger] m.other_sections[k])
    &&& forall|k: int| 0 <= k < m.placement.len() ==> placement_ok(#[trigger] m.placement[k])
}

proof fn lemma_keywords()
    ensures
        writable(bare_token("BOARD_FILE"@)),
        writable(bare_token("3.0"@)),
        writable(bare_token("MM"@)),
        writable(bare_token("THOU"@)),
        writable(bare_token("TOP"@)),
        writable(bare_token("BOTTOM"@)),
        writable(bare_token("PLACED"@)),
        writable(bare_token("UNPLACED"@)),
        writable(bare_token("MCAD"@)),
        writable(bare_token("ECAD"@)),
        writable(bare_token("NOREFDES"@)),
        writable(bare_token("BOARD"@)),
        "BOARD_FILE"@[0] != '.',
        "BOARD_FILE"@ != "LIBRARY_FILE"@,
        "MM"@ != "THOU"@,
        "TOP"@ != "BOTTOM"@,
        "PLACED"@ != "UNPLACED"@,
        "PLACED"@ != "MCAD"@,
        "PLACED"@ != "ECAD"@,
        "UNPLACED"@ != "MCAD"@,
        "UNPLACED"@ != "ECAD"@,
        "MCAD"@ != "ECAD"@,
        "NOREFDES"@ != "BOARD"@,
        "HEADER"@ != "PLACEMENT"@,
        forall|k: int| 0 <= k < "HEADER"@.len() ==> plain_char(#[trigger] "HEADER"@[k]),
        forall|k: int| 0 <= k < "PLACEMENT"@.len() ==> plain_char(#[trigger] "PLACEMENT"@[k]),
        !is_end(seq!['.'] + "HEADER"@),
        !is_end(seq!['.'] + "PLACEMENT"@),
{
    reveal_strlit("BOARD_FILE");
    reveal_strlit("LIBRARY_FILE");
    reveal_strlit("3.0");
    reveal_strlit("MM");
    reveal_strlit("THOU");
    reveal_strlit("TOP");
    reveal_strlit("BOTTOM");
    reveal_strlit("PLACED");
    reveal_strlit("UNPLACED");
    reveal_strlit("MCAD");
    reveal_strlit("ECAD");
    reveal_strlit("NOREFDES");
    reveal_strlit("BOARD");
    reveal_strlit("HEADER");
    reveal_strlit("PLACEMENT");
    assert((seq!['.'] + "HEADER"@).subrange(0, 5)[1] != end_prefix()[1]);
    assert((seq!['.'] + "PLACEMENT"@).subrange(0, 5)[1] != end_prefix()[1]);
    assert("MCAD"@[0] != "ECAD"@[0]);
    assert("BOARD_FILE"@.len() != "LIBRARY_FILE"@.len());
    assert("NOREFDES"@.len() != "BOARD"@.len());
    assert("HEADER"@.len() != "PLACEMENT"@.len());
}

proof fn lemma_str_token(s: Seq<char>)
    requires
        field_ok(s),
    ensures
        writable(str_token(s)),
        str_token(s).text == s,
        raw_text(str_token(s)) == shown(s),
{
    lemma_str_token_text(s);
}

proof fn lemma_value_token(v: ValueView)
    requires
        value_ok(v),
    ensures
        writable(value_token(v)),
        value_of(value_token(v)) == Ok::<ValueView, Error>(v),
{
    match v {
        ValueView::Integer(i) => {
            lemma_int_text_round_trip(i);
            lemma_numerals(Decimal { mantissa: 0, scale: 0 }, 1, i, 0);
            lemma_numeral_token(int_text(i as int));
        },
        ValueView::Float(d) => {
            lemma_fixed_text_round_trip(d, 4);
            lemma_numerals(d, 4, 0, 0);
            lemma_numeral_token(fixed_text(d, 4));
        },
        ValueView::String(s) => {
            lemma_raw_token_text(s);
        },
    }
}

proof fn lemma_values_read(r: Seq<ValueView>, k: int)
    requires
        0 <= k <= r.len(),
        forall|j: int| 0 <= j < r.len() ==> value_ok(#[trigger] r[j]),
    ensures
        values_from(r.map_values(|v: ValueView| value_token(v)), k, r.subrange(0, k)) == Ok::<
            Seq<ValueView>,
            Error,
        >(r),
    decreases r.len() - k,
{
    let toks = r.map_values(|v: ValueView| value_token(v));
    if k < r.len() {
        lemma_value_token(r[k]);
        assert(r.subrange(0, k).push(r[k]) =~= r.subrange(0, k + 1));
        lemma_values_read(r, k + 1);
    } else {
        assert(r.subrange(0, k) =~= r);
    }
}

proof fn lemma_records_read(rs: Seq<Seq<ValueView>>, k: int)
    requires
        0 <= k <= rs.len(),
        forall|i: int, j: int| 0 <= i < rs.len() && 0 <= j < rs[i].len() ==> value_ok(
            #[trigger] rs[i][j],
        ),
    ensures
        value_records_from(
            rs.map_values(|r: Seq<ValueView>| r.map_values(|v: ValueView| value_token(v))),
            k,
            rs.subrange(0, k),
        ) == Ok::<Seq<Seq<ValueView>>, Error>(rs),
    decreases rs.len() - k,
{
    if k < rs.len() {
        let r = rs[k];
        assert forall|j: int| 0 <= j < r.len() implies value_ok(#[trigger] r[j]) by {
            assert(value_ok(rs[k][j]));
        }
        lemma_values_read(r, 0);
        assert(r.subrange(0, 0) =~= Seq::<ValueView>::empty());
        assert(rs.subrange(0, k).push(r) =~= rs.subrange(0, k + 1));
        lemma_records_read(rs, k + 1);
    } else {
        assert(rs.subrange(0, k) =~= rs);
    }
}

proof fn lemma_generic_read(sec: SectionView, no: nat)
    requires
        generic_ok(sec),
    ensures
        generic_section_of(raw_of(generic_written(sec), no)) == Ok::<SectionView, Error>(sec),
        section_ok(generic_written(sec)),
{
    let w = generic_written(sec);
    let raw = raw_of(w, no);
    assert(raw.records =~= sec.records.map_values(
        |r: Seq<ValueView>| r.map_values(|v: ValueView| value_token(v)),
    ));
    lemma_records_read(sec.records, 0);
    assert(sec.records.subrange(0, 0) =~= Seq::<Seq<ValueView>>::empty());
    assert(raw.args.map_values(|t: TokenView| raw_text(t)) =~= sec.args) by {
        assert forall|k: int| 0 <= k < sec.args.len() implies raw_text(raw_token(sec.args[k]))
            == sec.args[k] by {
            lemma_raw_token_text(sec.args[k]);
        }
    }
    assert forall|k: int| 0 <= k < w.records.len() implies record_line_ok(#[trigger] w.records[k]) by {
        let r = sec.records[k];
        assert(w.records[k] == value_line(r));
        assert forall|j: int| 0 <= j < r.len() implies writable(
            #[trigger] value_line(r).tokens[j],
        ) by {
            assert(value_ok(sec.records[k][j]));
            lemma_value_token(r[j]);
        }
    }
}

proof fn lemma_header_read(h: HeaderView, board_name: Seq<char>, units: Unit, no: nat)
    requires
        h.ty == (FileTypeView::BoardFile { board_name, units }),
        first_field_ok(board_name),
        field_ok(h.source),
        field_ok(h.date),
    ensures
        header_of(raw_of(header_written(h, board_name, units), no).records) == Ok::<
            HeaderView,
            Error,
        >(h),
        section_ok(header_written(h, board_name, units)),
{
    reveal(header_of);
    lemma_keywords();
    lemma_u32_text_round_trip(h.board_file_version);
    lemma_str_token(h.source);
    lemma_str_token(h.date);
    lemma_str_token(board_name);
    lemma_numerals(Decimal { mantissa: 0, scale: 0 }, 1, 0, h.board_file_version as nat);
    lemma_numeral_token(digits(h.board_file_version as nat));
    let w = header_written(h, board_name, units);
    assert(unit_of(unit_name(units)) == Some(units)) by {
        reveal_strlit("MM");
        reveal_strlit("THOU");
    }
    assert(writable(bare_token(unit_name(units))));
    let r0 = w.records[0];
    let r1 = w.records[1];
    assert forall|k: int| 0 <= k < r0.tokens.len() implies writable(#[trigger] r0.tokens[k]) by {}
    assert forall|k: int| 0 <= k < r1.tokens.len() implies writable(#[trigger] r1.tokens[k]) by {}
    assert(record_line_ok(r0));
    assert(record_line_ok(r1));
    assert forall|k: int| 0 <= k < w.records.len() implies record_line_ok(#[trigger] w.records[k]) by {}
}

proof fn lemma_placements_lines(ps: Seq<PlacementView>)
    ensures
        placements_lines(ps).len() == 2 * ps.len(),
        forall|k: int| 0 <= k < ps.len() ==> #[trigger] placements_lines(ps)[2 * k] == identity_line(ps[k]),
        forall|k: int| 0 <= k < ps.len() ==> #[trigger] placements_lines(ps)[2 * k + 1] == geometry_line(ps[k]),
    decreases ps.len(),
{
    if ps.len() > 0 {
        let init = ps.drop_last();
        lemma_placements_lines(init);
        assert forall|k: int| 0 <= k < ps.len() implies #[trigger] placements_lines(ps)[2 * k]
            == identity_line(ps[k]) by {
            if k < init.len() {
                assert(placements_lines(init)[2 * k] == identity_line(init[k]));
            }
        }
        assert forall|k: int| 0 <= k < ps.len() implies #[trigger] placements_lines(ps)[2 * k + 1]
            == geometry_line(ps[k]) by {
            if k < init.len() {
                assert(placements_lines(init)[2 * k + 1] == geometry_line(init[k]));
            }
        }
    }
}

proof fn lemma_placement_read(c: PlacementView)
    requires
        placement_ok(c),
    ensures
        placement_of(identity_line(c).tokens, geometry_line(c).tokens) == Ok::<PlacementView, Error>(c),
        record_line_ok(identity_line(c)),
        record_line_ok(geometry_line(c)),
{
    reveal(placement_of);
    lemma_keywords();
    lemma_str_token(c.package_name);
    lemma_str_token(c.part_number);
    lemma_fixed_text_round_trip(c.x, 4);
    lemma_fixed_text_round_trip(c.y, 4);
    lemma_fixed_text_round_trip(c.z, 4);
    lemma_fixed_text_round_trip(c.rotation, 3);
    lemma_numerals(c.x, 4, 0, 0);
    lemma_numerals(c.y, 4, 0, 0);
    lemma_numerals(c.z, 4, 0, 0);
    lemma_numerals(c.rotation, 3, 0, 0);
    lemma_numeral_token(fixed_text(c.x, 4));
    lemma_numeral_token(fixed_text(c.y, 4));
    lemma_numeral_token(fixed_text(c.z, 4));
    lemma_numeral_token(fixed_text(c.rotation, 3));
    let g = geometry_line(c).tokens;
    assert(float_field(g[0]) == Ok::<Decimal, Error>(c.x));
    assert(float_field(g[1]) == Ok::<Decimal, Error>(c.y));
    assert(float_field(g[2]) == Ok::<Decimal, Error>(c.z));
    assert(float_field(g[3]) == Ok::<Decimal, Error>(c.rotation));
    assert(side_of(side_name(c.board_side)) == Some(c.board_side)) by {
        reveal_strlit("TOP");
        reveal_strlit("BOTTOM");
    }
    assert(status_of(status_name(c.placement_status)) == Some(c.placement_status)) by {
        reveal_strlit("PLACED");
        reveal_strlit("UNPLACED");
        reveal_strlit("MCAD");
        reveal_strlit("ECAD");
    }
    assert(designator_of(designator_token(c.designator).text) == c.designator) by {
        reveal_strlit("NOREFDES");
        reveal_strlit("BOARD");
    }
    assert(writable(designator_token(c.designator))) by {
        match c.designator {
            DesignatorView::Any(s) => lemma_str_token(s),
            _ => {},
        }
    }
    assert(writable(bare_token(side_name(c.board_side))));
    assert(writable(bare_token(status_name(c.placement_status))));
    let a = identity_line(c).tokens;
    assert forall|k: int| 0 <= k < a.len() implies writable(#[trigger] a[k]) by {}
    assert forall|k: int| 0 <= k < g.len() implies writable(#[trigger] g[k]) by {}
}

proof fn lemma_placements_read(ps: Seq<PlacementView>, k: int)
    requires
        0 <= k <= ps.len(),
        forall|j: int| 0 <= j < ps.len() ==> placement_ok(#[trigger] ps[j]),
    ensures
        placements_from(
            placements_lines(ps).map_values(|l: WrittenLine| l.tokens),
            2 * k,
            ps.subrange(0, k),
        ) == Ok::<Seq<PlacementView>, Error>(ps),
    decreases ps.len() - k,
{
    lemma_placements_lines(ps);
    let recs = placements_lines(ps).map_values(|l: WrittenLine| l.tokens);
    if k < ps.len() {
        assert(recs[2 * k] == identity_line(ps[k]).tokens);
        assert(recs[2 * k + 1] == geometry_line(ps[k]).tokens);
        lemma_placement_read(ps[k]);
        assert(ps.subrange(0, k).push(ps[k]) =~= ps.subrange(0, k + 1));
        lemma_placements_read(ps, k + 1);
        assert(2 * k + 2 == 2 * (k + 1));
    } else {
        assert(ps.subrange(0, k) =~= ps);
    }
}

proof fn lemma_placement_section_read(ps: Seq<PlacementView>, no: nat)
    requires
        forall|j: int| 0 <= j < ps.len() ==> placement_ok(#[trigger] ps[j]),
    ensures
        placement_section(raw_of(placement_written(ps), no).records) == Ok::<
            Seq<PlacementView>,
            Error,
        >(ps),
        section_ok(placement_written(ps)),
{
    lemma_placements_lines(ps);
    lemma_placements_read(ps, 0);
    assert(ps.subrange(0, 0) =~= Seq::<PlacementView>::empty());
    lemma_keywords();
    let w = placement_written(ps);
    assert forall|k: int| 0 <= k < w.records.len() implies record_line_ok(#[trigger] w.records[k]) by {
        let j = k / 2;
        lemma_placement_read(ps[j]);
        if k % 2 == 0 {
            assert(w.records[2 * j] == identity_line(ps[j]));
        } else {
            assert(w.records[2 * j + 1] == geometry_line(ps[j]));
        }
    }
}

proof fn lemma_raws_index(ws: Seq<WrittenSection>, no: nat)
    ensures
        raws_of(ws, no).len() == ws.len(),
        forall|k: int| 0 <= k < ws.len() ==> #[trigger] raws_of(ws, no)[k] == raw_of(
            ws[k],
            raws_of(ws, no)[k].line,
        ),
    decreases ws.len(),
{
    if ws.len() > 0 {
        let rest = ws.drop_first();
        let no2 = no + ws[0].records.len() + 2;
        lemma_raws_index(rest, no2);
        assert forall|k: int| 0 <= k < ws.len() implies #[trigger] raws_of(ws, no)[k] == raw_of(
            ws[k],
            raws_of(ws, no)[k].line,
        ) by {
            if k > 0 {
                assert(raws_of(ws, no)[k] == raws_of(rest, no2)[k - 1]);
                assert(rest[k - 1] == ws[k]);
            }
        }
    }
}

proof fn lemma_body_read(
    secs: Seq<RawSectionView>,
    os: Seq<SectionView>,
    ps: Seq<PlacementView>,
    k: int,
)
    requires
        0 <= k <= os.len(),
        secs.len() == os.len() + 2,
        forall|j: int| 0 <= j < os.len() ==> generic_ok(#[trigger] os[j]),
        forall|j: int| 0 <= j < os.len() ==> #[trigger] secs[1 + j] == raw_of(
            generic_written(os[j]),
            secs[1 + j].line,
        ),
        secs[os.len() as int + 1].name == "PLACEMENT"@,
        placement_section(secs[os.len() as int + 1].records) == Ok::<Seq<PlacementView>, Error>(ps),
    ensures
        body_from(secs, 1 + k, seq![], os.subrange(0, k), seq![]) == Ok::<
            (Seq<PlacementView>, Seq<SectionView>, Seq<DefinitionView>),
            Error,
        >((ps, os, seq![])),
    decreases os.len() - k,
{
    if k < os.len() {
        let sec = os[k];
        assert(secs[1 + k] == raw_of(generic_written(sec), secs[1 + k].line));
        lemma_generic_read(sec, secs[1 + k].line);
        assert(os.subrange(0, k).push(sec) =~= os.subrange(0, k + 1));
        lemma_body_read(secs, os, ps, k + 1);
    } else {
        assert(os.subrange(0, k) =~= os);
        let n = os.len() as int;
        assert(Seq::<PlacementView>::empty() + ps =~= ps);
        assert(body_from(secs, n + 2, ps, os, seq![]) == Ok::<
            (Seq<PlacementView>, Seq<SectionView>, Seq<DefinitionView>),
            Error,
        >((ps, os, seq![])));
    }
}

/// A board document that the encoder writes decodes to the same document,
/// when all its strings and numbers can be written as single tokens (see
/// `board_writable`).
pub proof fn lemma_board_round_trip(m: Idf30View)
    requires
        board_writable(m),
    ensures
        decode(encode(m)) == Ok::<Idf30View, Error>(m),
{
    let (board_name, units) = match m.header.ty {
        FileTypeView::BoardFile { board_name, units } => (board_name, units),
        _ => (seq![], Unit::SImm),
    };
    let hw = header_written(m.header, board_name, units);
    let gw = m.other_sections.map_values(|s: SectionView| generic_written(s));
    let pw = placement_written(m.placement);
    let ws = board_written(m, board_name, units);
    lemma_header_read(m.header, board_name, units, 1);
    lemma_placement_section_read(m.placement, 1);
    assert forall|k: int| 0 <= k < ws.len() implies section_ok(#[trigger] ws[k]) by {
        if 0 < k < ws.len() - 1 {
            assert(ws[k] == generic_written(m.other_sections[k - 1]));
            lemma_generic_read(m.other_sections[k - 1], 1);
        } else if k == 0 {
            assert(ws[k] == hw);
        } else {
            assert(ws[k] == pw);
        }
    }
    lemma_sections_round_trip(ws);
    lemma_lines_round_trip(sections_lines(ws));
    assert forall|k: int| 0 <= k < m.other_sections.len() implies generic_written_as_is(
        #[trigger] m.other_sections[k],
    ) by {
        let sec = m.other_sections[k];
        assert(generic_ok(sec));
        assert forall|i: int, j: int| 0 <= i < sec.records.len() && 0 <= j < sec.records[i].len()
            implies value_written_as_is(#[trigger] sec.records[i][j]) by {
            assert(value_ok(sec.records[i][j]));
        }
    }
    lemma_board_text(m, board_name, units);
    let secs = raws_of(ws, 1);
    lemma_raws_index(ws, 1);
    let n = m.other_sections.len() as int;
    assert(ws.len() == n + 2);
    assert(secs[0] == raw_of(hw, secs[0].line));
    assert(secs[n + 1] == raw_of(pw, secs[n + 1].line));
    lemma_header_read(m.header, board_name, units, secs[0].line);
    lemma_placement_section_read(m.placement, secs[n + 1].line);
    lemma_keywords();
    assert forall|j: int| 0 <= j < n implies #[trigger] secs[1 + j] == raw_of(
        generic_written(m.other_sections[j]),
        secs[1 + j].line,
    ) by {
        assert(ws[1 + j] == generic_written(m.other_sections[j]));
    }
    lemma_body_read(secs, m.other_sections, m.placement, 0);
    assert(m.other_sections.subrange(0, 0) =~= Seq::<SectionView>::empty());
    assert(with_components(m.header, seq![]) == m.header);
    assert(document_of(secs) == Ok::<Idf30View, Error>(m));
}

/// Decoding a board document, encoding it and decoding the text again gives
/// what the first decoding gave, when the document can be written back as
/// it was read (see `board_writable`: no string holds a blank or a quote, no
/// decimal needs more decimals than the encoder writes).
pub proof fn lemma_decode_encode_decode(s: Seq<char>, m: Idf30View)
    requires
        decode(s) == Ok::<Idf30View, Error>(m),
        board_writable(m),
    ensures
        decode(encode(m)) == decode(s),
{
    lemma_board_round_trip(m);
}

} // verus!
