//! The token grammar: text is cut into lines of bare and quoted tokens.
//!
//! A bare token is a maximal run of characters other than blanks (space, tab,
//! carriage return), line feeds and double quotes. A quoted token runs from a
//! double quote to the next one on the same line; its text is what stands
//! between them. A `#` where a token could start opens a comment that runs to
//! the end of the line. Lines without tokens are dropped.
use crate::idf30::Error;
use vstd::prelude::*;
use vstd::std_specs::iter::IteratorSpec;

verus! {

pub struct TokenView {
    pub text: Seq<char>,
    pub quoted: bool,
}

/// A token of the text: for a quoted one, the characters between the quotes.
#[derive(Clone, Debug)]
pub struct Token {
    pub text: Vec<char>,
    pub quoted: bool,
}

impl View for Token {
    type V = TokenView;

    open spec fn view(&self) -> TokenView {
        TokenView { text: self.text@, quoted: self.quoted }
    }
}

pub open spec fn tokens_view(v: Seq<Token>) -> Seq<TokenView> {
    v.map_values(|t: Token| t@)
}

pub struct LineView {
    pub number: nat,
    pub tokens: Seq<TokenView>,
}

/// The tokens of one line of the text, with the line's 1-based number.
pub struct Line {
    pub number: usize,
    pub tokens: Vec<Token>,
}

impl View for Line {
    type V = LineView;

    open spec fn view(&self) -> LineView {
        LineView { number: self.number as nat, tokens: tokens_view(self.tokens@) }
    }
}

pub open spec fn lines_view(v: Seq<Line>) -> Seq<LineView> {
    v.map_values(|l: Line| l@)
}

/// What the tokenizer is in the middle of.
#[derive(Clone, Copy, PartialEq, Eq, Structural)]
pub enum Mode {
    Blank,
    Comment,
    Bare,
    Quoted,
}

pub open spec fn is_blank(c: char) -> bool {
    c == ' ' || c == '\t' || c == '\r'
}

pub open spec fn bare(t: Seq<char>) -> TokenView {
    TokenView { text: t, quoted: false }
}

/// `out` followed by the line `cur`, if it holds a token.
pub open spec fn flush(out: Seq<LineView>, no: nat, cur: Seq<TokenView>) -> Seq<LineView> {
    if cur.len() == 0 {
        out
    } else {
        out.push(LineView { number: no, tokens: cur })
    }
}

/// The lines of `s` from position `i` on, after the complete lines `out`,
/// the tokens `cur` of line `no` and, in `mode`, the token text `buf`.
pub open spec fn lex(
    s: Seq<char>,
    i: int,
    no: nat,
    out: Seq<LineView>,
    cur: Seq<TokenView>,
    mode: Mode,
    buf: Seq<char>,
) -> Result<Seq<LineView>, Error>
    decreases s.len() - i,
{
    if i < 0 || i >= s.len() {
        match mode {
            Mode::Quoted => Err(Error::Grammar(no as usize)),
            Mode::Bare => Ok(flush(out, no, cur.push(bare(buf)))),
            _ => Ok(flush(out, no, cur)),
        }
    } else {
        let c = s[i];
        match mode {
            Mode::Quoted => if c == '"' {
                lex(
                    s,
                    i + 1,
                    no,
                    out,
                    cur.push(TokenView { text: buf, quoted: true }),
                    Mode::Blank,
                    seq![],
                )
            } else if c == '\n' {
                Err(Error::Grammar(no as usize))
            } else {
                lex(s, i + 1, no, out, cur, Mode::Quoted, buf.push(c))
            },
            Mode::Comment => if c == '\n' {
                lex(s, i + 1, no + 1, flush(out, no, cur), seq![], Mode::Blank, seq![])
            } else {
                lex(s, i + 1, no, out, cur, Mode::Comment, buf)
            },
            Mode::Bare => if is_blank(c) {
                lex(s, i + 1, no, out, cur.push(bare(buf)), Mode::Blank, seq![])
            } else if c == '\n' {
                lex(s, i + 1, no + 1, flush(out, no, cur.push(bare(buf))), seq![], Mode::Blank, seq![])
            } else if c == '"' {
                lex(s, i + 1, no, out, cur.push(bare(buf)), Mode::Quoted, seq![])
            } else {
                lex(s, i + 1, no, out, cur, Mode::Bare, buf.push(c))
            },
            Mode::Blank => if is_blank(c) {
                lex(s, i + 1, no, out, cur, Mode::Blank, buf)
            } else if c == '\n' {
                lex(s, i + 1, no + 1, flush(out, no, cur), seq![], Mode::Blank, seq![])
            } else if c == '"' {
                lex(s, i + 1, no, out, cur, Mode::Quoted, seq![])
            } else if c == '#' {
                lex(s, i + 1, no, out, cur, Mode::Comment, seq![])
            } else {
                lex(s, i + 1, no, out, cur, Mode::Bare, seq![c])
            },
        }
    }
}

/// The non-empty lines of `s`, each with its tokens, or the grammar error of
/// a quote that is not closed on its line.
pub open spec fn lines_of(s: Seq<char>) -> Result<Seq<LineView>, Error> {
    lex(s, 0, 1, seq![], seq![], Mode::Blank, seq![])
}

/// The characters of `s`.
pub fn chars_of(s: &str) -> (r: Vec<char>)
    ensures
        r@ == s@,
{
    broadcast use vstd::string::group_string_axioms;
    let mut v: Vec<char> = Vec::new();
    for c in it: s.chars()
        invariant
            v@ == it.seq().take(it.index() as int),
    {
        v.push(c);
    }
    assert(v@ =~= s@);
    v
}

fn push_token(cur: &mut Vec<Token>, text: Vec<char>, quoted: bool)
    ensures
        tokens_view(final(cur)@) == tokens_view(old(cur)@).push(TokenView { text: text@, quoted }),
{
    let t = Token { text, quoted };
    cur.push(t);
    assert(tokens_view(final(cur)@) =~= tokens_view(old(cur)@).push(t@));
}

fn flush_line(out: &mut Vec<Line>, no: usize, cur: Vec<Token>)
    ensures
        lines_view(final(out)@) == flush(lines_view(old(out)@), no as nat, tokens_view(cur@)),
{
    if cur.len() > 0 {
        let l = Line { number: no, tokens: cur };
        out.push(l);
        assert(lines_view(final(out)@) =~= lines_view(old(out)@).push(l@));
    }
}

/// Cuts `s` into its non-empty lines of tokens.
pub fn tokenize(s: &Vec<char>) -> (r: Result<Vec<Line>, Error>)
    requires
        s@.len() < usize::MAX,
    ensures
        match r {
            Ok(lines) => lines_of(s@) == Ok::<Seq<LineView>, Error>(lines_view(lines@)),
            Err(e) => lines_of(s@) == Err::<Seq<LineView>, Error>(e),
        },
{
    let mut i: usize = 0;
    let mut no: usize = 1;
    let mut out: Vec<Line> = Vec::new();
    let mut cur: Vec<Token> = Vec::new();
    let mut mode = Mode::Blank;
    let mut buf: Vec<char> = Vec::new();
    assert(lines_view(out@) =~= Seq::<LineView>::empty());
    assert(tokens_view(cur@) =~= Seq::<TokenView>::empty());
    while i < s.len()
        invariant
            i <= s@.len() < usize::MAX,
            1 <= no <= i + 1,
            lines_of(s@) == lex(s@, i as int, no as nat, lines_view(out@), tokens_view(cur@), mode, buf@),
        decreases s@.len() - i,
    {
        let c = s[i];
        match mode {
            Mode::Quoted => {
                if c == '"' {
                    push_token(&mut cur, buf, true);
                    buf = Vec::new();
                    mode = Mode::Blank;
                } else if c == '\n' {
                    return Err(Error::Grammar(no));
                } else {
                    buf.push(c);
                }
            },
            Mode::Comment => {
                if c == '\n' {
                    flush_line(&mut out, no, cur);
                    cur = Vec::new();
                    no = no + 1;
                    mode = Mode::Blank;
                    buf = Vec::new();
                }
            },
            Mode::Bare => {
                if c == ' ' || c == '\t' || c == '\r' {
                    push_token(&mut cur, buf, false);
                    buf = Vec::new();
                    mode = Mode::Blank;
                } else if c == '\n' {
                    push_token(&mut cur, buf, false);
                    flush_line(&mut out, no, cur);
                    cur = Vec::new();
                    no = no + 1;
                    mode = Mode::Blank;
                    buf = Vec::new();
                } else if c == '"' {
                    push_token(&mut cur, buf, false);
                    buf = Vec::new();
                    mode = Mode::Quoted;
                } else {
                    buf.push(c);
                }
            },
            Mode::Blank => {
                if c == ' ' || c == '\t' || c == '\r' {
                } else if c == '\n' {
                    flush_line(&mut out, no, cur);
                    cur = Vec::new();
                    no = no + 1;
                    buf = Vec::new();
                } else if c == '"' {
                    mode = Mode::Quoted;
                    buf = Vec::new();
                } else if c == '#' {
                    mode = Mode::Comment;
                    buf = Vec::new();
                } else {
                    buf = Vec::new();
                    buf.push(c);
                    mode = Mode::Bare;
                }
            },
        }
        proof {
            if cur@.len() == 0 {
                assert(tokens_view(cur@) =~= Seq::<TokenView>::empty());
            }
        }
        i = i + 1;
    }
    match mode {
        Mode::Quoted => Err(Error::Grammar(no)),
        Mode::Bare => {
            push_token(&mut cur, buf, false);
            flush_line(&mut out, no, cur);
            Ok(out)
        },
        _ => {
            flush_line(&mut out, no, cur);
            Ok(out)
        },
    }
}

} // verus!
