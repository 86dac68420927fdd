//! What the encoder writes, the decoder reads back.
use crate::number::{
    abs, all_digits, decimal_of, decimal_of_text, digit_char, digit_run, digit_value, digits,
    digits_value, fixed_text, frac_end, i64_of, int_text, is_digit, is_float_text,
    is_integer_text, padded, pow10, rounded, sign_len, strip, u32_of, Decimal,
};
use crate::idf30::Error;
use crate::lexer::{flush, is_blank, lex, lines_of, LineView, Mode, TokenView};
use crate::records::raw_text;
use crate::sections::{end_prefix, group, is_dot, is_end, opens_with_dot, sections_of, RawSectionView};
use vstd::arithmetic::div_mod::{lemma_fundamental_div_mod, lemma_mod_pos_bound};
use vstd::prelude::*;

verus! {

proof fn lemma_digit_char(d: nat)
    requires
        d < 10,
    ensures
        is_digit(digit_char(d)),
        digit_value(digit_char(d)) == d,
        digit_char(d) != '-',
        digit_char(d) != '+',
        digit_char(d) != '.',
{
}

proof fn lemma_digits(n: nat)
    ensures
        digits(n).len() >= 1,
        all_digits(digits(n), 0, digits(n).len() as int),
        digits_value(digits(n)) == n,
    decreases n,
{
    lemma_digit_char(n % 10);
    if n >= 10 {
        lemma_digits(n / 10);
        let x = digits(n / 10);
        assert(digits(n).drop_last() =~= x);
        lemma_fundamental_div_mod(n as int, 10);
        assert(digits(n)[digits(n).len() - 1] == digit_char(n % 10));
        assert forall|k: int| 0 <= k < digits(n).len() implies is_digit(#[trigger] digits(n)[k]) by {
            if k < x.len() {
                assert(digits(n)[k] == x[k]);
            }
        }
    } else {
        assert(digits(n).drop_last() =~= Seq::<char>::empty());
        assert(digits_value(Seq::<char>::empty()) == 0);
    }
}

proof fn lemma_padded(a: Seq<char>, r: nat, w: nat)
    requires
        r < pow10(w),
    ensures
        padded(r, w).len() == w,
        all_digits(padded(r, w), 0, w as int),
        digits_value(a + padded(r, w)) == digits_value(a) * pow10(w) + r,
    decreases w,
{
    if w == 0 {
        assert(a + padded(r, w) =~= a);
    } else {
        let q = r / 10;
        lemma_fundamental_div_mod(r as int, 10);
        assert(q < pow10((w - 1) as nat)) by (nonlinear_arith)
            requires r < pow10(w), pow10(w) == 10 * pow10((w - 1) as nat), q == r / 10;
        lemma_padded(a, q, (w - 1) as nat);
        lemma_digit_char(r % 10);
        let x = padded(q, (w - 1) as nat);
        assert((a + padded(r, w)).drop_last() =~= a + x);
        assert((a + padded(r, w)).last() == digit_char(r % 10));
        assert(digits_value(a) * pow10(w) + r == (digits_value(a) * pow10((w - 1) as nat) + q) * 10
            + r % 10) by (nonlinear_arith)
            requires pow10(w) == 10 * pow10((w - 1) as nat), r == q * 10 + r % 10;
        assert forall|k: int| 0 <= k < w implies is_digit(#[trigger] padded(r, w)[k]) by {
            if k < w - 1 {
                assert(padded(r, w)[k] == x[k]);
            }
        }
    }
}

proof fn lemma_digit_run(t: Seq<char>, i: int, j: int)
    requires
        0 <= i <= j <= t.len(),
        all_digits(t, i, j),
        j == t.len() || !is_digit(t[j]),
    ensures
        digit_run(t, i) == j,
    decreases j - i,
{
    if i < j {
        lemma_digit_run(t, i + 1, j);
    }
}

proof fn lemma_pow10_positive(n: nat)
    ensures
        pow10(n) >= 1,
    decreases n,
{
    if n > 0 {
        lemma_pow10_positive((n - 1) as nat);
    }
}

proof fn lemma_strip_zeros(a: nat, k: nat, s: nat)
    ensures
        strip(a * pow10(k), k + s) == strip(a, s),
    decreases k,
{
    if k > 0 {
        let b = a * pow10((k - 1) as nat);
        assert(a * pow10(k) == b * 10) by (nonlinear_arith)
            requires pow10(k) == 10 * pow10((k - 1) as nat), b == a * pow10((k - 1) as nat);
        assert((b * 10) % 10 == 0 && (b * 10) / 10 == b) by (nonlinear_arith);
        lemma_strip_zeros(a, (k - 1) as nat, s);
        assert((k - 1) as nat + s == (k + s - 1) as nat);
    } else {
        assert(pow10(0) == 1);
        assert(a * pow10(0) == a) by (nonlinear_arith)
            requires pow10(0) == 1;
    }
}

/// The shape of `[-] digits(q) . padded(r, p)`.
proof fn lemma_fixed_shape(neg: bool, q: nat, r: nat, p: nat)
    requires
        1 <= p,
        r < pow10(p),
    ensures
        ({
            let body = digits(q) + seq!['.'] + padded(r, p);
            let t = if neg {
                seq!['-'] + body
            } else {
                body
            };
            let a: int = if neg {
                1
            } else {
                0
            };
            let b = a + digits(q).len();
            &&& sign_len(t) == a
            &&& digit_run(t, a) == b
            &&& frac_end(t) == t.len()
            &&& a < b < t.len()
            &&& t[b] == '.'
            &&& b + 1 < t.len()
            &&& t.len() == b + 1 + p
            &&& (t[0] == '-' <==> neg)
            &&& !all_digits(t, a, t.len() as int)
            &&& digits_value(t.subrange(a, b) + t.subrange(b + 1, t.len() as int)) == q * pow10(p)
                + r
        }),
{
    let dq = digits(q);
    let pr = padded(r, p);
    lemma_digits(q);
    lemma_padded(dq, r, p);
    let body = dq + seq!['.'] + pr;
    let t = if neg {
        seq!['-'] + body
    } else {
        body
    };
    let a: int = if neg {
        1
    } else {
        0
    };
    assert(t.subrange(a, t.len() as int) =~= body);
    assert(is_digit(dq[0]));
    assert(t[a] == dq[0]);
    assert(all_digits(t, a, a + dq.len())) by {
        assert forall|j: int| a <= j < a + dq.len() implies is_digit(#[trigger] t[j]) by {
            assert(t[j] == dq[j - a]);
        }
    }
    let b = a + dq.len();
    assert(t[b] == '.');
    lemma_digit_run(t, a, b);
    assert(all_digits(t, b + 1, t.len() as int)) by {
        assert forall|j: int| b + 1 <= j < t.len() implies is_digit(#[trigger] t[j]) by {
            assert(t[j] == pr[j - b - 1]);
        }
    }
    lemma_digit_run(t, b + 1, t.len() as int);
    assert(t.subrange(a, b) =~= dq);
    assert(t.subrange(b + 1, t.len() as int) =~= pr);
    assert(!is_digit(t[b]));
}

/// A decimal that the encoder writes with `p` digits after the point reads
/// back as the same decimal, when it is normal, needs no more than `p`
/// decimals, and its digits written out fit in an `i64`.
pub proof fn lemma_fixed_text_round_trip(d: Decimal, p: nat)
    requires
        1 <= p,
        d.is_normal(),
        d.scale <= p,
        abs(d.mantissa as int) * pow10((p - d.scale) as nat) <= i64::MAX,
    ensures
        is_float_text(fixed_text(d, p)),
        !is_integer_text(fixed_text(d, p)),
        decimal_of_text(fixed_text(d, p)) == Some(d),
{
    let m = abs(d.mantissa as int);
    let k = (p - d.scale) as nat;
    let n = rounded(d.mantissa as int, d.scale as nat, p);
    assert(n == m * pow10(k));
    lemma_pow10_positive(p);
    lemma_pow10_positive(k);
    let q = n / pow10(p);
    let r = n % pow10(p);
    lemma_fundamental_div_mod(n as int, pow10(p) as int);
    let neg = d.mantissa < 0 && n > 0;
    lemma_fixed_shape(neg, q, r, p);
    let t = fixed_text(d, p);
    assert(q * pow10(p) + r == n) by (nonlinear_arith)
        requires n == pow10(p) * (n / pow10(p)) + n % pow10(p), q == n / pow10(p), r == n % pow10(p);
    if m == 0 {
        assert(n == 0) by (nonlinear_arith)
            requires n == m * pow10(k), m == 0;
        assert(d.mantissa == 0);
        assert(d.scale == 0);
    } else {
        assert(n >= 1) by (nonlinear_arith)
            requires n == m * pow10(k), m >= 1, pow10(k) >= 1;
        lemma_strip_zeros(m, k, d.scale as nat);
        assert(k + d.scale == p);
        assert(strip(m, d.scale as nat) == (m, d.scale as nat));
        assert(strip(n, p) == (m, d.scale as nat));
        assert(m <= i64::MAX) by (nonlinear_arith)
            requires m * pow10(k) <= i64::MAX, pow10(k) >= 1;
        let mm: int = if neg { -m } else { m as int };
        assert(mm == d.mantissa);
        assert(decimal_of(neg, n, p as int) == Some(Decimal { mantissa: mm as i64, scale: d.scale }));
    }
}

/// An integer that the encoder writes reads back as the same integer, and
/// as an integer token, not a float one.
pub proof fn lemma_int_text_round_trip(x: i64)
    ensures
        is_integer_text(int_text(x as int)),
        !is_float_text(int_text(x as int)),
        i64_of(int_text(x as int)) == Some(x),
{
    let m = abs(x as int);
    let t = int_text(x as int);
    let dq = digits(m);
    lemma_digits(m);
    lemma_digit_char(m % 10);
    assert(is_digit(dq[0]));
    let a: int = if x < 0 { 1 } else { 0 };
    assert(t.subrange(a, t.len() as int) =~= dq);
    assert(t[a] == dq[0]);
    assert(sign_len(t) == a);
    assert(all_digits(t, a, t.len() as int)) by {
        assert forall|j: int| a <= j < t.len() implies is_digit(#[trigger] t[j]) by {
            assert(t[j] == dq[j - a]);
        }
    }
    lemma_digit_run(t, a, t.len() as int);
}

/// A version number that the encoder writes reads back as the same number.
pub proof fn lemma_u32_text_round_trip(v: u32)
    ensures
        u32_of(digits(v as nat)) == Some(v),
{
    let dq = digits(v as nat);
    lemma_digits(v as nat);
    assert(is_digit(dq[0]));
    assert(dq.subrange(0, dq.len() as int) =~= dq);
}

/// A character that may stand in a bare token.
pub open spec fn plain_char(c: char) -> bool {
    !is_blank(c) && c != '\n' && c != '"'
}

/// A token that the tokenizer reads back from its text as written.
pub open spec fn writable(t: TokenView) -> bool {
    if t.quoted {
        forall|k: int| 0 <= k < t.text.len() ==> #[trigger] t.text[k] != '"' && t.text[k] != '\n'
    } else {
        &&& t.text.len() > 0
        &&& t.text[0] != '#'
        &&& forall|k: int| 0 <= k < t.text.len() ==> plain_char(#[trigger] t.text[k])
    }
}

/// Tokens as written on a line, separated by single spaces.
pub open spec fn joined(ts: Seq<TokenView>) -> Seq<char>
    decreases ts.len(),
{
    if ts.len() == 0 {
        seq![]
    } else if ts.len() == 1 {
        raw_text(ts[0])
    } else {
        raw_text(ts[0]) + seq![' '] + joined(ts.drop_first())
    }
}

pub open spec fn spaces(n: nat) -> Seq<char> {
    Seq::new(n, |i: int| ' ')
}

/// A line as the encoder writes it: an indentation, tokens, a line feed.
pub struct WrittenLine {
    pub indent: nat,
    pub tokens: Seq<TokenView>,
}

pub open spec fn line_text(l: WrittenLine) -> Seq<char> {
    spaces(l.indent) + joined(l.tokens) + seq!['\n']
}

pub open spec fn lines_text(ls: Seq<WrittenLine>) -> Seq<char>
    decreases ls.len(),
{
    if ls.len() == 0 {
        seq![]
    } else {
        line_text(ls[0]) + lines_text(ls.drop_first())
    }
}

/// The lines that the tokenizer gives for `ls`, numbered from `no`.
pub open spec fn numbered(ls: Seq<WrittenLine>, no: nat) -> Seq<LineView> {
    Seq::new(ls.len(), |k: int| LineView { number: no + k as nat, tokens: ls[k].tokens })
}

pub open spec fn line_ok(l: WrittenLine) -> bool {
    l.tokens.len() > 0 && forall|k: int| 0 <= k < l.tokens.len() ==> writable(#[trigger] l.tokens[k])
}

proof fn lemma_blank_run(
    s: Seq<char>,
    i: int,
    j: int,
    no: nat,
    out: Seq<LineView>,
    cur: Seq<TokenView>,
    buf: Seq<char>,
)
    requires
        0 <= i <= j <= s.len(),
        forall|k: int| i <= k < j ==> #[trigger] s[k] == ' ',
    ensures
        lex(s, i, no, out, cur, Mode::Blank, buf) == lex(s, j, no, out, cur, Mode::Blank, buf),
    decreases j - i,
{
    if i < j {
        lemma_blank_run(s, i + 1, j, no, out, cur, buf);
    }
}

proof fn lemma_bare_run(
    s: Seq<char>,
    i: int,
    j: int,
    no: nat,
    out: Seq<LineView>,
    cur: Seq<TokenView>,
    buf: Seq<char>,
)
    requires
        0 <= i <= j <= s.len(),
        forall|k: int| i <= k < j ==> plain_char(#[trigger] s[k]),
    ensures
        lex(s, i, no, out, cur, Mode::Bare, buf) == lex(
            s,
            j,
            no,
            out,
            cur,
            Mode::Bare,
            buf + s.subrange(i, j),
        ),
    decreases j - i,
{
    if i < j {
        lemma_bare_run(s, i + 1, j, no, out, cur, buf.push(s[i]));
        assert(buf.push(s[i]) + s.subrange(i + 1, j) =~= buf + s.subrange(i, j));
    } else {
        assert(buf + s.subrange(i, j) =~= buf);
    }
}

proof fn lemma_quoted_run(
    s: Seq<char>,
    i: int,
    j: int,
    no: nat,
    out: Seq<LineView>,
    cur: Seq<TokenView>,
    buf: Seq<char>,
)
    requires
        0 <= i <= j <= s.len(),
        forall|k: int| i <= k < j ==> #[trigger] s[k] != '"' && s[k] != '\n',
    ensures
        lex(s, i, no, out, cur, Mode::Quoted, buf) == lex(
            s,
            j,
            no,
            out,
            cur,
            Mode::Quoted,
            buf + s.subrange(i, j),
        ),
    decreases j - i,
{
    if i < j {
        lemma_quoted_run(s, i + 1, j, no, out, cur, buf.push(s[i]));
        assert(buf.push(s[i]) + s.subrange(i + 1, j) =~= buf + s.subrange(i, j));
    } else {
        assert(buf + s.subrange(i, j) =~= buf);
    }
}

/// A written token followed by a space or a line feed.
proof fn lemma_token(
    s: Seq<char>,
    i: int,
    no: nat,
    out: Seq<LineView>,
    cur: Seq<TokenView>,
    buf: Seq<char>,
    t: TokenView,
)
    requires
        0 <= i,
        writable(t),
        i + raw_text(t).len() < s.len(),
        s.subrange(i, i + raw_text(t).len()) == raw_text(t),
        s[i + raw_text(t).len()] == ' ' || s[i + raw_text(t).len()] == '\n',
    ensures
        ({
            let e = i + raw_text(t).len() + 1;
            s[e - 1] == ' ' ==> lex(s, i, no, out, cur, Mode::Blank, buf) == lex(
                s,
                e,
                no,
                out,
                cur.push(t),
                Mode::Blank,
                seq![],
            )
        }),
        ({
            let e = i + raw_text(t).len() + 1;
            s[e - 1] == '\n' ==> lex(s, i, no, out, cur, Mode::Blank, buf) == lex(
                s,
                e,
                no + 1,
                flush(out, no, cur.push(t)),
                seq![],
                Mode::Blank,
                seq![],
            )
        }),
{
    let r = raw_text(t);
    let l = r.len() as int;
    assert(forall|k: int| 0 <= k < l ==> s[i + k] == #[trigger] r[k]) by {
        assert forall|k: int| 0 <= k < l implies s[i + k] == #[trigger] r[k] by {
            assert(s.subrange(i, i + l)[k] == s[i + k]);
        }
    }
    if t.quoted {
        let inner = t.text;
        assert(r[0] == '"');
        assert(s[i] == r[0]);
        assert(l == inner.len() + 2);
        assert forall|k: int| i + 1 <= k < i + 1 + inner.len() implies #[trigger] s[k] != '"'
            && s[k] != '\n' by {
            assert(s[k] == r[k - i]);
            assert(r[k - i] == inner[k - i - 1]);
        }
        lemma_quoted_run(s, i + 1, i + 1 + inner.len(), no, out, cur, seq![]);
        assert(seq![] + s.subrange(i + 1, i + 1 + inner.len()) =~= inner) by {
            assert forall|k: int| 0 <= k < inner.len() implies s[i + 1 + k] == inner[k] by {
                assert(s[i + 1 + k] == r[k + 1]);
            }
        }
        assert(s[i + 1 + inner.len()] == r[l - 1]);
        assert(r[l - 1] == '"');
        assert(TokenView { text: inner, quoted: true } == t);
        assert(lex(s, i, no, out, cur, Mode::Blank, buf) == lex(s, i + 1, no, out, cur, Mode::Quoted, seq![]));
        assert(lex(s, i + 1 + inner.len(), no, out, cur, Mode::Quoted, inner) == lex(
            s,
            i + l,
            no,
            out,
            cur.push(t),
            Mode::Blank,
            seq![],
        ));
    } else {
        assert(s[i] == r[0]);
        assert(s[i] == t.text[0]);
        assert(plain_char(t.text[0]));
        assert(lex(s, i, no, out, cur, Mode::Blank, buf) == lex(s, i + 1, no, out, cur, Mode::Bare, seq![s[i]]));
        assert forall|k: int| i + 1 <= k < i + l implies plain_char(#[trigger] s[k]) by {
            assert(s[k] == r[k - i]);
        }
        lemma_bare_run(s, i + 1, i + l, no, out, cur, seq![s[i]]);
        assert(seq![s[i]] + s.subrange(i + 1, i + l) =~= t.text) by {
            assert forall|k: int| 0 <= k < l implies (seq![s[i]] + s.subrange(i + 1, i + l))[k]
                == t.text[k] by {
                assert(s[i + k] == r[k]);
            }
        }
        assert(TokenView { text: t.text, quoted: false } == t);
    }
}

proof fn lemma_tokens(
    s: Seq<char>,
    i: int,
    no: nat,
    out: Seq<LineView>,
    cur: Seq<TokenView>,
    buf: Seq<char>,
    ts: Seq<TokenView>,
)
    requires
        0 <= i,
        ts.len() > 0,
        forall|k: int| 0 <= k < ts.len() ==> writable(#[trigger] ts[k]),
        i + joined(ts).len() < s.len(),
        s.subrange(i, i + joined(ts).len() + 1) == joined(ts) + seq!['\n'],
    ensures
        lex(s, i, no, out, cur, Mode::Blank, buf) == lex(
            s,
            i + joined(ts).len() + 1,
            no + 1,
            out.push(LineView { number: no, tokens: cur + ts }),
            seq![],
            Mode::Blank,
            seq![],
        ),
    decreases ts.len(),
{
    let t = ts[0];
    let r = raw_text(t);
    let w = joined(ts) + seq!['\n'];
    assert forall|k: int| 0 <= k < w.len() implies s[i + k] == #[trigger] w[k] by {
        assert(s.subrange(i, i + joined(ts).len() + 1)[k] == s[i + k]);
    }
    assert(s.subrange(i, i + r.len()) =~= r) by {
        assert forall|k: int| 0 <= k < r.len() implies s.subrange(i, i + r.len())[k] == r[k] by {
            assert(w[k] == r[k]);
            assert(s[i + k] == w[k]);
        }
    }
    assert(s[i + r.len()] == w[r.len() as int]);
    if ts.len() == 1 {
        assert(w[r.len() as int] == '\n');
        lemma_token(s, i, no, out, cur, buf, t);
        assert(cur.push(t) =~= cur + ts);
    } else {
        let rest = ts.drop_first();
        assert(joined(ts) == r + seq![' '] + joined(rest));
        assert(w[r.len() as int] == ' ');
        lemma_token(s, i, no, out, cur, buf, t);
        let i2 = i + r.len() + 1;
        assert forall|k: int| 0 <= k < rest.len() implies writable(#[trigger] rest[k]) by {
            assert(rest[k] == ts[k + 1]);
        }
        assert(s.subrange(i2, i2 + joined(rest).len() + 1) =~= joined(rest) + seq!['\n']) by {
            let w2 = joined(rest) + seq!['\n'];
            assert forall|k: int| 0 <= k < w2.len() implies s.subrange(
                i2,
                i2 + joined(rest).len() + 1,
            )[k] == w2[k] by {
                assert(w[r.len() + 1 + k] == w2[k]);
                assert(s[i + r.len() + 1 + k] == w[r.len() + 1 + k]);
            }
        }
        lemma_tokens(s, i2, no, out, cur.push(t), seq![], rest);
        assert(cur.push(t) + rest =~= cur + ts);
    }
}

proof fn lemma_lines(s: Seq<char>, i: int, no: nat, out: Seq<LineView>, buf: Seq<char>, ls: Seq<WrittenLine>)
    requires
        0 <= i <= s.len(),
        s.subrange(i, s.len() as int) == lines_text(ls),
        forall|k: int| 0 <= k < ls.len() ==> line_ok(#[trigger] ls[k]),
    ensures
        lex(s, i, no, out, seq![], Mode::Blank, buf) == Ok::<Seq<LineView>, Error>(
            out + numbered(ls, no),
        ),
    decreases ls.len(),
{
    if ls.len() == 0 {
        assert(out + numbered(ls, no) =~= out);
        assert(i == s.len());
    } else {
        let l = ls[0];
        assert(line_ok(l));
        let lt = line_text(l);
        let rest = ls.drop_first();
        assert(lines_text(ls) == lt + lines_text(rest));
        let text = lines_text(ls);
        assert forall|k: int| 0 <= k < text.len() implies s[i + k] == #[trigger] text[k] by {
            assert(s.subrange(i, s.len() as int)[k] == s[i + k]);
        }
        let ind = l.indent as int;
        assert forall|k: int| i <= k < i + ind implies #[trigger] s[k] == ' ' by {
            assert(text[k - i] == lt[k - i]);
        }
        lemma_blank_run(s, i, i + ind, no, out, seq![], buf);
        let jt = joined(l.tokens);
        let i1 = i + ind;
        assert(s.subrange(i1, i1 + jt.len() + 1) =~= jt + seq!['\n']) by {
            assert forall|k: int| 0 <= k < jt.len() + 1 implies s.subrange(i1, i1 + jt.len() + 1)[k]
                == (jt + seq!['\n'])[k] by {
                assert(text[ind + k] == lt[ind + k]);
                assert(lt[ind + k] == (jt + seq!['\n'])[k]);
            }
        }
        assert forall|k: int| 0 <= k < l.tokens.len() implies writable(#[trigger] l.tokens[k]) by {}
        lemma_tokens(s, i1, no, out, seq![], buf, l.tokens);
        let i2 = i1 + jt.len() + 1;
        assert(i2 == i + lt.len());
        assert(s.subrange(i2, s.len() as int) =~= lines_text(rest)) by {
            assert forall|k: int| 0 <= k < lines_text(rest).len() implies s.subrange(
                i2,
                s.len() as int,
            )[k] == lines_text(rest)[k] by {
                assert(text[lt.len() + k] == lines_text(rest)[k]);
            }
        }
        assert forall|k: int| 0 <= k < rest.len() implies line_ok(#[trigger] rest[k]) by {
            assert(rest[k] == ls[k + 1]);
        }
        let out1 = out.push(LineView { number: no, tokens: seq![] + l.tokens });
        lemma_lines(s, i2, no + 1, out1, seq![], rest);
        assert(out1 + numbered(rest, no + 1) =~= out + numbered(ls, no)) by {
            assert(seq![] + l.tokens =~= l.tokens);
        }
    }
}

/// The tokenizer reads back the lines that the encoder writes, numbered
/// from one.
pub proof fn lemma_lines_round_trip(ls: Seq<WrittenLine>)
    requires
        forall|k: int| 0 <= k < ls.len() ==> line_ok(#[trigger] ls[k]),
    ensures
        lines_of(lines_text(ls)) == Ok::<Seq<LineView>, Error>(numbered(ls, 1)),
{
    let s = lines_text(ls);
    assert(s.subrange(0, s.len() as int) =~= s);
    lemma_lines(s, 0, 1, seq![], seq![], ls);
    assert(Seq::<LineView>::empty() + numbered(ls, 1) =~= numbered(ls, 1));
}

/// A section as the encoder writes it: a header line `.NAME args`, indented
/// record lines, and a terminator line `.END_NAME`.
pub struct WrittenSection {
    pub name: Seq<char>,
    pub args: Seq<TokenView>,
    pub records: Seq<WrittenLine>,
}

pub open spec fn bare_token(t: Seq<char>) -> TokenView {
    TokenView { text: t, quoted: false }
}

pub open spec fn section_lines(w: WrittenSection) -> Seq<WrittenLine> {
    seq![WrittenLine { indent: 0, tokens: seq![bare_token(seq!['.'] + w.name)] + w.args }]
        + w.records + seq![WrittenLine { indent: 0, tokens: seq![bare_token(end_prefix() + w.name)] }]
}

pub open spec fn sections_lines(ws: Seq<WrittenSection>) -> Seq<WrittenLine>
    decreases ws.len(),
{
    if ws.len() == 0 {
        seq![]
    } else {
        section_lines(ws[0]) + sections_lines(ws.drop_first())
    }
}

/// The section that the decoder groups from a written section whose header
/// stands on line `no`.
pub open spec fn raw_of(w: WrittenSection, no: nat) -> RawSectionView {
    RawSectionView {
        name: w.name,
        args: w.args,
        records: w.records.map_values(|l: WrittenLine| l.tokens),
        line: no,
    }
}

pub open spec fn raws_of(ws: Seq<WrittenSection>, no: nat) -> Seq<RawSectionView>
    decreases ws.len(),
{
    if ws.len() == 0 {
        seq![]
    } else {
        seq![raw_of(ws[0], no)] + raws_of(ws.drop_first(), no + ws[0].records.len() + 2)
    }
}

/// A record line that cannot be taken for a section header or terminator.
pub open spec fn record_line_ok(l: WrittenLine) -> bool {
    line_ok(l) && !is_dot(l.tokens[0])
}

pub open spec fn section_ok(w: WrittenSection) -> bool {
    &&& forall|k: int| 0 <= k < w.name.len() ==> plain_char(#[trigger] w.name[k])
    &&& !is_end(seq!['.'] + w.name)
    &&& forall|k: int| 0 <= k < w.args.len() ==> writable(#[trigger] w.args[k])
    &&& forall|k: int| 0 <= k < w.records.len() ==> record_line_ok(#[trigger] w.records[k])
}

proof fn lemma_section_lines_ok(w: WrittenSection)
    requires
        section_ok(w),
    ensures
        forall|k: int| 0 <= k < section_lines(w).len() ==> line_ok(#[trigger] section_lines(w)[k]),
{
    let ls = section_lines(w);
    let h = seq!['.'] + w.name;
    let e = end_prefix() + w.name;
    assert(writable(bare_token(h))) by {
        assert forall|k: int| 0 <= k < h.len() implies plain_char(#[trigger] h[k]) by {
            if k > 0 {
                assert(h[k] == w.name[k - 1]);
            }
        }
    }
    assert(writable(bare_token(e))) by {
        assert forall|k: int| 0 <= k < e.len() implies plain_char(#[trigger] e[k]) by {
            if k >= 5 {
                assert(e[k] == w.name[k - 5]);
            }
        }
    }
    assert forall|k: int| 0 <= k < ls.len() implies line_ok(#[trigger] ls[k]) by {
        if k == 0 {
            let ts = seq![bare_token(h)] + w.args;
            assert forall|m: int| 0 <= m < ts.len() implies writable(#[trigger] ts[m]) by {
                if m > 0 {
                    assert(ts[m] == w.args[m - 1]);
                }
            }
        } else if k <= w.records.len() {
            assert(ls[k] == w.records[k - 1]);
        } else {
            assert(ls[k].tokens =~= seq![bare_token(e)]);
        }
    }
}

proof fn lemma_group_records(
    lines: Seq<LineView>,
    i: int,
    out: Seq<RawSectionView>,
    o: RawSectionView,
    recs: Seq<WrittenLine>,
    k: int,
)
    requires
        0 <= i,
        0 <= k <= recs.len(),
        i + recs.len() - k <= lines.len(),
        forall|j: int| k <= j < recs.len() ==> record_line_ok(#[trigger] recs[j]),
        forall|j: int| k <= j < recs.len() ==> #[trigger] lines[i + j - k].tokens == recs[j].tokens,
    ensures
        group(lines, i, out, Some(o)) == group(
            lines,
            i + recs.len() - k,
            out,
            Some(
                RawSectionView {
                    records: o.records + recs.subrange(k, recs.len() as int).map_values(
                        |l: WrittenLine| l.tokens,
                    ),
                    ..o
                },
            ),
        ),
    decreases recs.len() - k,
{
    if k < recs.len() {
        assert(lines[i + k - k].tokens == recs[k].tokens);
        assert(record_line_ok(recs[k]));
        assert(!opens_with_dot(lines[i]));
        let o2 = RawSectionView { records: o.records.push(lines[i].tokens), ..o };
        assert forall|j: int| k + 1 <= j < recs.len() implies #[trigger] lines[(i + 1) + j - (k
            + 1)].tokens == recs[j].tokens by {
            assert(lines[i + j - k].tokens == recs[j].tokens);
        }
        lemma_group_records(lines, i + 1, out, o2, recs, k + 1);
        assert(o2.records + recs.subrange(k + 1, recs.len() as int).map_values(
            |l: WrittenLine| l.tokens,
        ) =~= o.records + recs.subrange(k, recs.len() as int).map_values(|l: WrittenLine| l.tokens));
    } else {
        assert(o.records + recs.subrange(k, recs.len() as int).map_values(|l: WrittenLine| l.tokens)
            =~= o.records);
    }
}

proof fn lemma_group_section(
    lines: Seq<LineView>,
    i: int,
    out: Seq<RawSectionView>,
    w: WrittenSection,
    no: nat,
)
    requires
        0 <= i,
        section_ok(w),
        i + section_lines(w).len() <= lines.len(),
        forall|j: int| 0 <= j < section_lines(w).len() ==> #[trigger] lines[i + j] == (LineView {
            number: no + j as nat,
            tokens: section_lines(w)[j].tokens,
        }),
    ensures
        group(lines, i, out, None) == group(
            lines,
            i + section_lines(w).len(),
            out.push(raw_of(w, no)),
            None,
        ),
{
    let ls = section_lines(w);
    let n: int = w.records.len() as int;
    let h = seq!['.'] + w.name;
    assert(lines[i + 0] == LineView { number: no, tokens: ls[0].tokens });
    assert(ls[0].tokens[0] == bare_token(h));
    assert(h.drop_first() =~= w.name);
    assert((seq![bare_token(h)] + w.args).drop_first() =~= w.args);
    let o = RawSectionView { name: w.name, args: w.args, records: seq![], line: no };
    assert(group(lines, i, out, None) == group(lines, i + 1, out, Some(o)));
    assert forall|j: int| 0 <= j < n implies #[trigger] lines[(i + 1) + j - 0].tokens
        == w.records[j].tokens by {
        assert(lines[i + (j + 1)] == LineView { number: no + (j + 1) as nat, tokens: ls[j + 1].tokens });
        assert(ls[j + 1] == w.records[j]);
    }
    lemma_group_records(lines, i + 1, out, o, w.records, 0);
    assert(w.records.subrange(0, n) =~= w.records);
    let o2 = RawSectionView {
        records: seq![] + w.records.map_values(|l: WrittenLine| l.tokens),
        ..o
    };
    assert(o2 == raw_of(w, no)) by {
        assert(seq![] + w.records.map_values(|l: WrittenLine| l.tokens) =~= w.records.map_values(
            |l: WrittenLine| l.tokens,
        ));
    }
    let t = i + 1 + n;
    assert(lines[i + (n + 1)] == LineView { number: no + (n + 1) as nat, tokens: ls[n + 1].tokens });
    assert(ls[n + 1].tokens =~= seq![bare_token(end_prefix() + w.name)]);
    assert(opens_with_dot(lines[t]));
}

proof fn lemma_group_sections(
    lines: Seq<LineView>,
    i: int,
    out: Seq<RawSectionView>,
    ws: Seq<WrittenSection>,
    no: nat,
)
    requires
        0 <= i <= lines.len(),
        forall|k: int| 0 <= k < ws.len() ==> section_ok(#[trigger] ws[k]),
        lines.subrange(i, lines.len() as int) == numbered(sections_lines(ws), no),
    ensures
        group(lines, i, out, None) == Ok::<Seq<RawSectionView>, Error>(out + raws_of(ws, no)),
    decreases ws.len(),
{
    if ws.len() == 0 {
        assert(lines.subrange(i, lines.len() as int).len() == 0);
        assert(out + raws_of(ws, no) =~= out);
    } else {
        let w = ws[0];
        let ls = section_lines(w);
        let rest = ws.drop_first();
        let all = sections_lines(ws);
        assert(all == ls + sections_lines(rest));
        assert(numbered(all, no).len() == all.len());
        assert(lines.len() - i == all.len());
        assert(all.len() == ls.len() + sections_lines(rest).len());
        assert forall|j: int| 0 <= j < ls.len() implies #[trigger] lines[i + j] == (LineView {
            number: no + j as nat,
            tokens: ls[j].tokens,
        }) by {
            assert(lines.subrange(i, lines.len() as int)[j] == lines[i + j]);
            assert(all[j] == ls[j]);
        }
        lemma_group_section(lines, i, out, w, no);
        let i2 = i + ls.len();
        let no2 = no + w.records.len() + 2;
        assert(lines.subrange(i2, lines.len() as int) =~= numbered(sections_lines(rest), no2)) by {
            assert forall|j: int| 0 <= j < lines.len() - i2 implies lines.subrange(
                i2,
                lines.len() as int,
            )[j] == numbered(sections_lines(rest), no2)[j] by {
                assert(lines.subrange(i, lines.len() as int)[ls.len() + j] == lines[i2 + j]);
                assert(all[ls.len() + j] == sections_lines(rest)[j]);
            }
        }
        assert forall|k: int| 0 <= k < rest.len() implies section_ok(#[trigger] rest[k]) by {
            assert(rest[k] == ws[k + 1]);
        }
        lemma_group_sections(lines, i2, out.push(raw_of(w, no)), rest, no2);
        assert(out.push(raw_of(w, no)) + raws_of(rest, no2) =~= out + raws_of(ws, no));
    }
}

/// Written sections group back into the sections they came from.
pub proof fn lemma_sections_round_trip(ws: Seq<WrittenSection>)
    requires
        forall|k: int| 0 <= k < ws.len() ==> section_ok(#[trigger] ws[k]),
    ensures
        forall|k: int| 0 <= k < sections_lines(ws).len() ==> line_ok(#[trigger] sections_lines(ws)[k]),
        sections_of(numbered(sections_lines(ws), 1)) == Ok::<Seq<RawSectionView>, Error>(
            raws_of(ws, 1),
        ),
{
    lemma_sections_lines_ok(ws);
    let lines = numbered(sections_lines(ws), 1);
    assert(lines.subrange(0, lines.len() as int) =~= lines);
    lemma_group_sections(lines, 0, seq![], ws, 1);
    assert(Seq::<RawSectionView>::empty() + raws_of(ws, 1) =~= raws_of(ws, 1));
}

proof fn lemma_sections_lines_ok(ws: Seq<WrittenSection>)
    requires
        forall|k: int| 0 <= k < ws.len() ==> section_ok(#[trigger] ws[k]),
    ensures
        forall|k: int| 0 <= k < sections_lines(ws).len() ==> line_ok(#[trigger] sections_lines(ws)[k]),
    decreases ws.len(),
{
    if ws.len() > 0 {
        let rest = ws.drop_first();
        assert forall|k: int| 0 <= k < rest.len() implies section_ok(#[trigger] rest[k]) by {
            assert(rest[k] == ws[k + 1]);
        }
        lemma_sections_lines_ok(rest);
        lemma_section_lines_ok(ws[0]);
        let a = section_lines(ws[0]);
        let all = sections_lines(ws);
        assert forall|k: int| 0 <= k < all.len() implies line_ok(#[trigger] all[k]) by {
            if k < a.len() {
                assert(all[k] == a[k]);
            } else {
                assert(all[k] == sections_lines(rest)[k - a.len()]);
            }
        }
    }
}

pub open spec fn number_char(c: char) -> bool {
    is_digit(c) || c == '-' || c == '.'
}

/// Text made of digits, signs and points, starting with a digit or `-`.
pub open spec fn numeral(t: Seq<char>) -> bool {
    &&& t.len() > 0
    &&& (is_digit(t[0]) || t[0] == '-')
    &&& forall|k: int| 0 <= k < t.len() ==> number_char(#[trigger] t[k])
}

/// A numeral is written as one bare token that opens no section.
pub proof fn lemma_numeral_token(t: Seq<char>)
    requires
        numeral(t),
    ensures
        writable(bare_token(t)),
        !is_dot(bare_token(t)),
{
    assert forall|k: int| 0 <= k < t.len() implies plain_char(#[trigger] t[k]) by {
        assert(number_char(t[k]));
    }
}

proof fn lemma_digits_numeral(n: nat)
    ensures
        numeral(digits(n)),
{
    lemma_digits(n);
    assert forall|k: int| 0 <= k < digits(n).len() implies number_char(#[trigger] digits(n)[k]) by {
        assert(is_digit(digits(n)[k]));
    }
}

/// The decimals and integers that the encoder writes are numerals.
pub proof fn lemma_numerals(d: Decimal, p: nat, x: i64, v: nat)
    requires
        1 <= p,
    ensures
        numeral(fixed_text(d, p)),
        numeral(int_text(x as int)),
        numeral(digits(v)),
{
    lemma_digits_numeral(v);
    let m = abs(x as int);
    lemma_digits_numeral(m);
    let t = int_text(x as int);
    assert forall|k: int| 0 <= k < t.len() implies number_char(#[trigger] t[k]) by {
        if x < 0 && k > 0 {
            assert(t[k] == digits(m)[k - 1]);
        } else if x >= 0 {
            assert(t[k] == digits(m)[k]);
        }
    }
    let n = rounded(d.mantissa as int, d.scale as nat, p);
    lemma_pow10_positive(p);
    let q = n / pow10(p);
    let r = n % pow10(p);
    lemma_mod_pos_bound(n as int, pow10(p) as int);
    lemma_digits(q);
    lemma_padded(digits(q), r, p);
    let body = digits(q) + seq!['.'] + padded(r, p);
    let f = fixed_text(d, p);
    let a: int = if d.mantissa < 0 && n > 0 { 1 } else { 0 };
    assert(f.subrange(a, f.len() as int) =~= body);
    assert forall|k: int| 0 <= k < f.len() implies number_char(#[trigger] f[k]) by {
        if k >= a {
            assert(f[k] == body[k - a]);
            if k - a < digits(q).len() {
                assert(body[k - a] == digits(q)[k - a]);
            } else if k - a > digits(q).len() {
                assert(body[k - a] == padded(r, p)[k - a - digits(q).len() - 1]);
            }
        }
    }
    assert(f[a] == digits(q)[0]);
}

} // verus!
