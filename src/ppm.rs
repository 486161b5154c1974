//! The plain PPM text of a canvas of byte pixels: a header, then the
//! channels of each row in decimal, separated by spaces and wrapped so that
//! no line of pixel data grows past `MAX_LINE` characters.

use crate::canvas::{Canvas, Rgb8, MAX_LINE};
use vstd::prelude::*;

verus! {

/// The character of decimal digit `d`.
pub open spec fn digit_char(d: nat) -> char {
    ((48 + d) as u8) as char
}

/// `n` written in decimal, without leading zeros.
pub open spec fn decimal(n: nat) -> Seq<char>
    decreases n,
{
    if n < 10 {
        seq![digit_char(n)]
    } else {
        decimal(n / 10).push(digit_char(n % 10))
    }
}

/// Channel `k` (red, green, blue) of a pixel.
pub open spec fn channel(p: Rgb8, k: int) -> u8 {
    if k == 0 {
        p.r
    } else if k == 1 {
        p.g
    } else {
        p.b
    }
}

/// The decimal channels of row `y`, pixel after pixel.
pub open spec fn row_tokens(c: Canvas<Rgb8>, y: int) -> Seq<Seq<char>> {
    Seq::new(3 * c.spec_width(), |i: int| decimal(channel(c.pixel(i / 3, y), i % 3) as nat))
}

/// Adds one token to the line being filled, first closing that line when
/// the token would not fit on it. Returns the text and the open line.
pub open spec fn add_token(text: Seq<char>, line: Seq<char>, tok: Seq<char>) -> (
    Seq<char>,
    Seq<char>,
) {
    if line.len() + 1 + tok.len() > MAX_LINE {
        (text + line + seq!['\n'], tok)
    } else if line.len() == 0 {
        (text, tok)
    } else {
        (text, line + seq![' '] + tok)
    }
}

/// The text and the open line after adding `toks` in order.
pub open spec fn add_tokens(text: Seq<char>, line: Seq<char>, toks: Seq<Seq<char>>) -> (
    Seq<char>,
    Seq<char>,
)
    decreases toks.len(),
{
    if toks.len() == 0 {
        (text, line)
    } else {
        let (t, l) = add_tokens(text, line, toks.drop_last());
        add_token(t, l, toks.last())
    }
}

/// Closes the open line, if it holds anything.
pub open spec fn close_line(text: Seq<char>, line: Seq<char>) -> Seq<char> {
    if line.len() == 0 {
        text
    } else {
        text + line + seq!['\n']
    }
}

/// The header: magic number, size, and largest channel value.
pub open spec fn header(c: Canvas<Rgb8>) -> Seq<char> {
    seq!['P', '3', '\n'] + decimal(c.spec_width()) + seq![' '] + decimal(c.spec_height())
        + seq!['\n', '2', '5', '5', '\n']
}

/// The header followed by the first `n` rows.
pub open spec fn rows_text(c: Canvas<Rgb8>, n: nat) -> Seq<char>
    decreases n,
{
    if n == 0 {
        header(c)
    } else {
        let (t, l) = add_tokens(rows_text(c, (n - 1) as nat), Seq::empty(), row_tokens(c, n - 1));
        close_line(t, l)
    }
}

/// The whole PPM text of a canvas.
pub open spec fn ppm_text(c: Canvas<Rgb8>) -> Seq<char> {
    rows_text(c, c.spec_height())
}

proof fn lemma_decimal_short(n: nat)
    requires
        n < 1000,
    ensures
        1 <= decimal(n).len() <= 3,
    decreases n,
{
    if n >= 10 {
        lemma_decimal_short(n / 10);
        if n >= 100 {
            assert(n / 10 >= 10);
            assert(decimal((n / 10) / 10).len() == 1);
        } else {
            assert(n / 10 < 10);
        }
    }
}

/// Appends `n` in decimal.
fn push_decimal(out: &mut Vec<char>, n: usize)
    ensures
        final(out)@ == old(out)@ + decimal(n as nat),
    decreases n,
{
    if n >= 10 {
        push_decimal(out, n / 10);
    }
    let d = (n % 10) as u8;
    out.push((48 + d) as char);
    proof {
        assert(final(out)@ =~= old(out)@ + decimal(n as nat));
    }
}

/// Adds one channel value to the open line, as `add_token` says.
fn add_pixel_data(text: &mut Vec<char>, line: &mut Vec<char>, value: u8)
    requires
        old(line)@.len() <= MAX_LINE,
    ensures
        (final(text)@, final(line)@) == add_token(old(text)@, old(line)@, decimal(value as nat)),
        final(line)@.len() <= MAX_LINE,
{
    let mut tok: Vec<char> = Vec::new();
    push_decimal(&mut tok, value as usize);
    proof {
        lemma_decimal_short(value as nat);
        assert(tok@ =~= decimal(value as nat));
    }
    if line.len() + 1 + tok.len() > MAX_LINE {
        text.append(line);
        text.push('\n');
        line.append(&mut tok);
    } else {
        if line.len() > 0 {
            line.push(' ');
        }
        line.append(&mut tok);
    }
    proof {
        let (t, l) = add_token(old(text)@, old(line)@, decimal(value as nat));
        assert(final(text)@ =~= t);
        assert(final(line)@ =~= l);
    }
}

/// Relies on `String::from_iter` over `char`s: the string holds the given
/// characters in order.
#[verifier::external_body]
fn string_from_chars(chars: &Vec<char>) -> (s: String)
    ensures
        s@ == chars@,
{
    String::from_iter(chars.iter())
}

impl Canvas<Rgb8> {
    /// The canvas as plain PPM text.
    pub fn ppm(&self) -> (s: String)
        requires
            self.wf(),
        ensures
            s@ == ppm_text(*self),
            lines_fit(s@),
            s@.last() == '\n',
    {
        let mut text: Vec<char> = Vec::new();
        text.push('P');
        text.push('3');
        text.push('\n');
        push_decimal(&mut text, self.width());
        text.push(' ');
        push_decimal(&mut text, self.height());
        text.push('\n');
        text.push('2');
        text.push('5');
        text.push('5');
        text.push('\n');
        assert(text@ =~= header(*self));
        let mut y: usize = 0;
        while y < self.height()
            invariant
                self.wf(),
                y <= self.spec_height(),
                text@ == rows_text(*self, y as nat),
            decreases self.spec_height() - y,
        {
            let ghost start = text@;
            let ghost toks = row_tokens(*self, y as int);
            let mut line: Vec<char> = Vec::new();
            let mut x: usize = 0;
            while x < self.width()
                invariant
                    self.wf(),
                    y < self.spec_height(),
                    x <= self.spec_width(),
                    toks == row_tokens(*self, y as int),
                    line@.len() <= MAX_LINE,
                    (text@, line@) == add_tokens(start, Seq::empty(), toks.take(3 * x)),
                decreases self.spec_width() - x,
            {
                let p = self.at(x, y);
                proof {
                    lemma_take_step(start, toks, 3 * x);
                    assert(toks[3 * x] == decimal(p.r as nat));
                }
                add_pixel_data(&mut text, &mut line, p.r);
                proof {
                    lemma_take_step(start, toks, 3 * x + 1);
                    assert(toks[3 * x + 1] == decimal(p.g as nat));
                }
                add_pixel_data(&mut text, &mut line, p.g);
                proof {
                    lemma_take_step(start, toks, 3 * x + 2);
                    assert(toks[3 * x + 2] == decimal(p.b as nat));
                }
                add_pixel_data(&mut text, &mut line, p.b);
                x = x + 1;
            }
            assert(toks.take(3 * self.spec_width() as int) =~= toks);
            if line.len() > 0 {
                text.append(&mut line);
                text.push('\n');
            }
            assert(text@ =~= rows_text(*self, (y + 1) as nat));
            y = y + 1;
        }
        proof {
            lemma_ppm_lines_fit(*self);
        }
        string_from_chars(&text)
    }
}

proof fn lemma_take_step(start: Seq<char>, toks: Seq<Seq<char>>, k: int)
    requires
        0 <= k < toks.len(),
    ensures
        ({
            let (t, l) = add_tokens(start, Seq::empty(), toks.take(k));
            add_tokens(start, Seq::empty(), toks.take(k + 1)) == add_token(t, l, toks[k])
        }),
{
    assert(toks.take(k + 1).drop_last() =~= toks.take(k));
}

/// How many characters follow the last newline of `s`.
pub open spec fn open_len(s: Seq<char>) -> nat
    decreases s.len(),
{
    if s.len() == 0 {
        0
    } else if s.last() == '\n' {
        0
    } else {
        open_len(s.drop_last()) + 1
    }
}

/// No line of `s`, an unfinished last one included, is longer than
/// `MAX_LINE`: at each position, the characters since the last newline
/// number at most `MAX_LINE`.
pub open spec fn lines_fit(s: Seq<char>) -> bool
    decreases s.len(),
{
    s.len() == 0 || (lines_fit(s.drop_last()) && open_len(s) <= MAX_LINE)
}

pub open spec fn no_newline(s: Seq<char>) -> bool {
    forall|i: int| 0 <= i < s.len() ==> s[i] != '\n'
}

pub open spec fn pow10(k: nat) -> nat
    decreases k,
{
    if k == 0 {
        1
    } else {
        10 * pow10((k - 1) as nat)
    }
}

proof fn lemma_decimal_no_newline(n: nat)
    ensures
        no_newline(decimal(n)),
    decreases n,
{
    if n >= 10 {
        lemma_decimal_no_newline(n / 10);
        let d = decimal(n);
        assert forall|i: int| 0 <= i < d.len() implies d[i] != '\n' by {
            if i < d.len() - 1 {
                assert(d[i] == decimal(n / 10)[i]);
            }
        }
    }
}

proof fn lemma_decimal_len(n: nat, k: nat)
    requires
        n < pow10(k + 1),
    ensures
        decimal(n).len() <= k + 1,
    decreases k,
{
    if n >= 10 {
        if k == 0 {
            assert(pow10(1) == 10 * pow10(0));
        } else {
            let p = pow10(k);
            assert(pow10(k + 1) == 10 * p);
            assert(n / 10 < p) by (nonlinear_arith)
                requires
                    n < 10 * p,
            ;
            lemma_decimal_len(n / 10, (k - 1) as nat);
        }
    }
}

proof fn lemma_line_prefix(a: Seq<char>, l: Seq<char>, k: int)
    requires
        lines_fit(a),
        open_len(a) == 0,
        no_newline(l),
        l.len() <= MAX_LINE,
        0 <= k <= l.len(),
    ensures
        lines_fit(a + l.take(k)),
        open_len(a + l.take(k)) == k,
    decreases k,
{
    if k == 0 {
        assert(a + l.take(0) =~= a);
    } else {
        lemma_line_prefix(a, l, k - 1);
        let s = a + l.take(k);
        assert(s.drop_last() =~= a + l.take(k - 1));
        assert(s.last() == l[k - 1]);
    }
}

/// Appending a short line without newlines, and a newline, keeps the lines
/// short and ends on a newline.
proof fn lemma_append_line(a: Seq<char>, l: Seq<char>)
    requires
        lines_fit(a),
        open_len(a) == 0,
        no_newline(l),
        l.len() <= MAX_LINE,
    ensures
        lines_fit(a + l + seq!['\n']),
        open_len(a + l + seq!['\n']) == 0,
{
    lemma_line_prefix(a, l, l.len() as int);
    let t = a + l + seq!['\n'];
    assert(t.drop_last() =~= a + l.take(l.len() as int));
}

/// The state of the text while a row is written: finished lines that fit,
/// and an open line without newlines that fits.
pub open spec fn row_state_ok(text: Seq<char>, line: Seq<char>) -> bool {
    &&& lines_fit(text)
    &&& open_len(text) == 0
    &&& no_newline(line)
    &&& line.len() <= MAX_LINE
}

proof fn lemma_add_tokens_ok(text: Seq<char>, line: Seq<char>, toks: Seq<Seq<char>>)
    requires
        row_state_ok(text, line),
        forall|i: int| 0 <= i < toks.len() ==> no_newline(#[trigger] toks[i]) && toks[i].len() <= 3,
    ensures
        ({
            let (t, l) = add_tokens(text, line, toks);
            row_state_ok(t, l)
        }),
    decreases toks.len(),
{
    if toks.len() > 0 {
        let rest = toks.drop_last();
        assert forall|i: int| 0 <= i < rest.len() implies no_newline(#[trigger] rest[i])
            && rest[i].len() <= 3 by {
            assert(rest[i] == toks[i]);
        }
        lemma_add_tokens_ok(text, line, rest);
        let (t, l) = add_tokens(text, line, rest);
        let tok = toks.last();
        let j = toks.len() - 1;
        assert(no_newline(toks[j]) && toks[j].len() <= 3);
        if l.len() + 1 + tok.len() > MAX_LINE {
            lemma_append_line(t, l);
        } else if l.len() == 0 {
        } else {
            let n = l + seq![' '] + tok;
            assert forall|i: int| 0 <= i < n.len() implies n[i] != '\n' by {
                if i < l.len() {
                    assert(n[i] == l[i]);
                } else if i > l.len() {
                    assert(n[i] == tok[i - l.len() - 1]);
                }
            }
        }
    }
}

proof fn lemma_rows_fit(c: Canvas<Rgb8>, n: nat)
    ensures
        lines_fit(rows_text(c, n)),
        open_len(rows_text(c, n)) == 0,
    decreases n,
{
    if n == 0 {
        lemma_header_fits(c);
    } else {
        lemma_rows_fit(c, (n - 1) as nat);
        let prev = rows_text(c, (n - 1) as nat);
        let toks = row_tokens(c, n - 1);
        assert forall|i: int| 0 <= i < toks.len() implies no_newline(#[trigger] toks[i])
            && toks[i].len() <= 3 by {
            let v = channel(c.pixel(i / 3, n - 1), i % 3) as nat;
            lemma_decimal_no_newline(v);
            lemma_decimal_short(v);
        }
        assert(row_state_ok(prev, Seq::empty()));
        lemma_add_tokens_ok(prev, Seq::empty(), toks);
        let (t, l) = add_tokens(prev, Seq::empty(), toks);
        if l.len() > 0 {
            lemma_append_line(t, l);
        }
    }
}

proof fn lemma_header_fits(c: Canvas<Rgb8>)
    ensures
        lines_fit(header(c)),
        open_len(header(c)) == 0,
{
    let w = decimal(c.spec_width());
    let h = decimal(c.spec_height());
    reveal_with_fuel(pow10, 21);
    assert(pow10(20) == 100000000000000000000nat);
    c.lemma_size_fits();
    lemma_decimal_len(c.spec_width(), 19);
    lemma_decimal_len(c.spec_height(), 19);
    lemma_decimal_no_newline(c.spec_width());
    lemma_decimal_no_newline(c.spec_height());
    let l1 = seq!['P', '3'];
    let l2 = w + seq![' '] + h;
    let l3 = seq!['2', '5', '5'];
    assert(no_newline(l2)) by {
        assert forall|i: int| 0 <= i < l2.len() implies l2[i] != '\n' by {
            if i < w.len() {
                assert(l2[i] == w[i]);
            } else if i > w.len() {
                assert(l2[i] == h[i - w.len() - 1]);
            }
        }
    }
    let e = Seq::<char>::empty();
    assert(lines_fit(e) && open_len(e) == 0);
    lemma_append_line(e, l1);
    let a1 = e + l1 + seq!['\n'];
    lemma_append_line(a1, l2);
    let a2 = a1 + l2 + seq!['\n'];
    lemma_append_line(a2, l3);
    assert(header(c) =~= a2 + l3 + seq!['\n']);
}

/// The PPM text keeps every line within `MAX_LINE` characters and ends with
/// a newline.
pub proof fn lemma_ppm_lines_fit(c: Canvas<Rgb8>)
    ensures
        lines_fit(ppm_text(c)),
        ppm_text(c).len() > 0,
        ppm_text(c).last() == '\n',
{
    lemma_rows_fit(c, c.spec_height());
    lemma_nonempty_rows(c, c.spec_height());
}

proof fn lemma_nonempty_rows(c: Canvas<Rgb8>, n: nat)
    ensures
        rows_text(c, n).len() > 0,
    decreases n,
{
    if n > 0 {
        lemma_nonempty_rows(c, (n - 1) as nat);
        let toks = row_tokens(c, n - 1);
        lemma_add_tokens_grows(rows_text(c, (n - 1) as nat), Seq::empty(), toks);
    }
}

proof fn lemma_add_tokens_grows(text: Seq<char>, line: Seq<char>, toks: Seq<Seq<char>>)
    ensures
        add_tokens(text, line, toks).0.len() >= text.len(),
    decreases toks.len(),
{
    if toks.len() > 0 {
        lemma_add_tokens_grows(text, line, toks.drop_last());
    }
}

} // verus!
