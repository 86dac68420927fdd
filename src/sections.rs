//! Sections: a line `.NAME arg*`, the lines of its records, and a line
//! `.END_NAME` that closes it.
use crate::idf30::Error;
use crate::lexer::{tokens_view, Line, LineView, Token, TokenView, lines_view};
use vstd::prelude::*;

verus! {

pub struct RawSectionView {
    pub name: Seq<char>,
    pub args: Seq<TokenView>,
    pub records: Seq<Seq<TokenView>>,
    pub line: nat,
}

/// A section as it stands in the text, before its records are interpreted.
pub struct RawSection {
    pub name: Vec<char>,
    pub args: Vec<Token>,
    pub records: Vec<Vec<Token>>,
    pub line: usize,
}

pub open spec fn records_view(r: Seq<Vec<Token>>) -> Seq<Seq<TokenView>> {
    r.map_values(|t: Vec<Token>| tokens_view(t@))
}

impl View for RawSection {
    type V = RawSectionView;

    open spec fn view(&self) -> RawSectionView {
        RawSectionView {
            name: self.name@,
            args: tokens_view(self.args@),
            records: records_view(self.records@),
            line: self.line as nat,
        }
    }
}

pub open spec fn raw_sections_view(v: Seq<RawSection>) -> Seq<RawSectionView> {
    v.map_values(|s: RawSection| s@)
}

/// A bare token that starts with `.`: a section header or terminator.
pub open spec fn is_dot(t: TokenView) -> bool {
    !t.quoted && t.text.len() > 0 && t.text[0] == '.'
}

pub open spec fn opens_with_dot(l: LineView) -> bool {
    l.tokens.len() > 0 && is_dot(l.tokens[0])
}

pub open spec fn end_prefix() -> Seq<char> {
    seq!['.', 'E', 'N', 'D', '_']
}

pub open spec fn is_end(text: Seq<char>) -> bool {
    text.len() >= 5 && text.subrange(0, 5) == end_prefix()
}

/// The sections of `lines` from line `i` on, after the complete sections
/// `out` and, if there is one, the section `open` whose terminator is due.
pub open spec fn group(
    lines: Seq<LineView>,
    i: int,
    out: Seq<RawSectionView>,
    open: Option<RawSectionView>,
) -> Result<Seq<RawSectionView>, Error>
    decreases lines.len() - i,
{
    if i < 0 || i >= lines.len() {
        match open {
            None => Ok(out),
            Some(o) => Err(Error::Grammar(o.line as usize)),
        }
    } else {
        let l = lines[i];
        match open {
            None => if opens_with_dot(l) && !is_end(l.tokens[0].text) {
                group(
                    lines,
                    i + 1,
                    out,
                    Some(
                        RawSectionView {
                            name: l.tokens[0].text.drop_first(),
                            args: l.tokens.drop_first(),
                            records: seq![],
                            line: l.number,
                        },
                    ),
                )
            } else {
                Err(Error::Grammar(l.number as usize))
            },
            Some(o) => if opens_with_dot(l) {
                if l.tokens.len() == 1 && l.tokens[0].text == end_prefix() + o.name {
                    group(lines, i + 1, out.push(o), None)
                } else {
                    Err(Error::Grammar(l.number as usize))
                }
            } else {
                group(
                    lines,
                    i + 1,
                    out,
                    Some(RawSectionView { records: o.records.push(l.tokens), ..o }),
                )
            },
        }
    }
}

/// The sections that `lines` form, or the grammar error of the first line
/// that stands outside its place.
pub open spec fn sections_of(lines: Seq<LineView>) -> Result<Seq<RawSectionView>, Error> {
    group(lines, 0, seq![], None)
}

fn is_end_exec(t: &Vec<char>) -> (r: bool)
    ensures
        r == is_end(t@),
{
    if t.len() < 5 {
        return false;
    }
    let r = t[0] == '.' && t[1] == 'E' && t[2] == 'N' && t[3] == 'D' && t[4] == '_';
    assert(r == (t@.subrange(0, 5) =~= end_prefix()));
    r
}

/// Whether `t` is `.END_` followed by `name`.
fn closes(t: &Vec<char>, name: &Vec<char>) -> (r: bool)
    ensures
        r == (t@ == end_prefix() + name@),
{
    if t.len() < 5 || t.len() - 5 != name.len() || !is_end_exec(t) {
        proof {
            if t@ == end_prefix() + name@ {
                assert(t@.subrange(0, 5) =~= end_prefix());
            }
        }
        return false;
    }
    let mut k: usize = 0;
    while k < name.len()
        invariant
            t@.len() == name@.len() + 5,
            t@.len() <= usize::MAX,
            k <= name@.len(),
            forall|j: int| 0 <= j < k ==> t@[j + 5] == name@[j],
        decreases name@.len() - k,
    {
        if t[k + 5] != name[k] {
            proof {
                assert((end_prefix() + name@)[k + 5] == name@[k as int]);
            }
            return false;
        }
        k = k + 1;
    }
    assert(t@ =~= end_prefix() + name@);
    true
}

pub open spec fn open_view(
    is_open: bool,
    name: Seq<char>,
    args: Seq<TokenView>,
    records: Seq<Seq<TokenView>>,
    line: usize,
) -> Option<RawSectionView> {
    if is_open {
        Some(RawSectionView { name, args, records, line: line as nat })
    } else {
        None
    }
}

/// Groups `lines` into sections.
pub fn group_sections(lines: Vec<Line>) -> (r: Result<Vec<RawSection>, Error>)
    ensures
        match r {
            Ok(v) => sections_of(lines_view(lines@)) == Ok::<Seq<RawSectionView>, Error>(
                raw_sections_view(v@),
            ),
            Err(e) => sections_of(lines_view(lines@)) == Err::<Seq<RawSectionView>, Error>(e),
        },
{
    broadcast use vstd::std_specs::vec::axiom_spec_into_iter;
    let ghost all = lines_view(lines@);
    let mut out: Vec<RawSection> = Vec::new();
    let mut is_open = false;
    let mut name: Vec<char> = Vec::new();
    let mut args: Vec<Token> = Vec::new();
    let mut records: Vec<Vec<Token>> = Vec::new();
    let mut line_no: usize = 0;
    assert(raw_sections_view(out@) =~= Seq::<RawSectionView>::empty());
    for line in it: lines.into_iter()
        invariant
            all == lines_view(it.seq()),
            sections_of(all) == group(
                all,
                it.index() as int,
                raw_sections_view(out@),
                open_view(is_open, name@, tokens_view(args@), records_view(records@), line_no),
            ),
    {
        let ghost i = it.index() as int;
        assert(line@ == all[i]);
        let Line { number, tokens } = line;
        let dot = tokens.len() > 0 && !tokens[0].quoted && tokens[0].text.len() > 0
            && tokens[0].text[0] == '.';
        if !is_open {
            if !dot || is_end_exec(&tokens[0].text) {
                return Err(Error::Grammar(number));
            }
            let mut rest = tokens;
            let first = rest.remove(0);
            let mut nm = first.text;
            nm.remove(0);
            assert(tokens_view(rest@) =~= all[i].tokens.drop_first());
            assert(nm@ =~= all[i].tokens[0].text.drop_first());
            name = nm;
            args = rest;
            records = Vec::new();
            assert(records_view(records@) =~= Seq::<Seq<TokenView>>::empty());
            line_no = number;
            is_open = true;
        } else if dot {
            if tokens.len() == 1 && closes(&tokens[0].text, &name) {
                let sec = RawSection { name, args, records, line: line_no };
                let ghost before = out@;
                out.push(sec);
                assert(raw_sections_view(out@) =~= raw_sections_view(before).push(sec@));
                name = Vec::new();
                args = Vec::new();
                records = Vec::new();
                is_open = false;
            } else {
                return Err(Error::Grammar(number));
            }
        } else {
            let ghost t = tokens@;
            let ghost before = records@;
            records.push(tokens);
            assert(records_view(records@) =~= records_view(before).push(tokens_view(t)));
        }
    }
    if is_open {
        return Err(Error::Grammar(line_no));
    }
    Ok(out)
}

} // verus!
