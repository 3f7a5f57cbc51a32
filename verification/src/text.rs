//! Characters, decimal numbers and the small lexical pieces shared by the text formats.
//!
//! Every format of this crate is described over `Seq<char>`: a position in a text is an index
//! into that sequence, and each scanner says where the piece it reads ends.

use vstd::prelude::*;
use vstd::string::StringExecFns;

verus! {

/// `String::push` appends one character to the end of the string.
pub assume_specification[ String::push ](s: &mut String, ch: char)
    ensures
        final(s)@ == old(s)@.push(ch),
;

/// The classes of characters that the formats tell apart.
#[derive(Clone, Copy, Debug, PartialEq, Eq)]
pub enum CharClass {
    /// A space or a horizontal tab.
    Blank,
    /// A space, a tab, a carriage return or a line feed.
    Gap,
    /// A decimal digit.
    Digit,
    /// Any character that is not white space.
    Word,
    /// Any character but a line feed.
    Inline,
    /// Any character but a space, a tab, a carriage return and a line feed.
    Solid,
}

pub open spec fn is_digit(c: char) -> bool {
    '0' <= c <= '9'
}

pub open spec fn is_blank(c: char) -> bool {
    c == ' ' || c == '\t'
}

pub open spec fn is_gap(c: char) -> bool {
    c == ' ' || c == '\t' || c == '\r' || c == '\n'
}

/// White space in the sense of Unicode's `White_Space` property.
pub open spec fn is_whitespace(c: char) -> bool {
    ||| '\u{9}' <= c <= '\u{D}'
    ||| c == ' '
    ||| c == '\u{85}'
    ||| c == '\u{A0}'
    ||| c == '\u{1680}'
    ||| '\u{2000}' <= c <= '\u{200A}'
    ||| c == '\u{2028}'
    ||| c == '\u{2029}'
    ||| c == '\u{202F}'
    ||| c == '\u{205F}'
    ||| c == '\u{3000}'
}

pub open spec fn in_class(c: char, k: CharClass) -> bool {
    match k {
        CharClass::Blank => is_blank(c),
        CharClass::Gap => is_gap(c),
        CharClass::Digit => is_digit(c),
        CharClass::Word => !is_whitespace(c),
        CharClass::Inline => c != '\n',
        CharClass::Solid => !is_gap(c),
    }
}

/// No character of `s` is white space.
pub open spec fn no_whitespace(s: Seq<char>) -> bool {
    forall|i: int| 0 <= i < s.len() ==> !is_whitespace(#[trigger] s[i])
}

pub open spec fn digit_value(c: char) -> nat {
    (c as u32 - '0' as u32) as nat
}

pub open spec fn digit_char(d: nat) -> char {
    (d + '0' as u32) as char
}

/// The number that the digit string `s` writes in base ten.
pub open spec fn decimal_value(s: Seq<char>) -> nat
    decreases s.len(),
{
    if s.len() == 0 {
        0
    } else {
        10 * decimal_value(s.drop_last()) + digit_value(s.last())
    }
}

/// The shortest digit string that writes `n` in base ten.
pub open spec fn decimal_digits(n: nat) -> Seq<char>
    decreases n,
{
    if n < 10 {
        seq![digit_char(n)]
    } else {
        decimal_digits(n / 10).push(digit_char(n % 10))
    }
}

/// `v` in base ten, with a leading `-` when it is negative.
pub open spec fn signed_decimal(v: int) -> Seq<char> {
    if v < 0 {
        seq!['-'] + decimal_digits((-v) as nat)
    } else {
        decimal_digits(v as nat)
    }
}

/// The end of the longest run of characters of class `k` that starts at `i`.
pub open spec fn span_end(s: Seq<char>, i: int, k: CharClass) -> int
    decreases s.len() - i,
{
    if 0 <= i < s.len() && in_class(s[i], k) {
        span_end(s, i + 1, k)
    } else {
        i
    }
}

/// `tag` stands in `s` at position `i`.
pub open spec fn has_tag(s: Seq<char>, i: int, tag: Seq<char>) -> bool {
    0 <= i && i + tag.len() <= s.len() && s.subrange(i, i + tag.len()) == tag
}

/// A number at `i`: one or more digits whose value is at most `max`. Gives the value and the
/// position after the last digit.
pub open spec fn scan_number(s: Seq<char>, i: int, max: nat) -> Option<(nat, int)> {
    let j = span_end(s, i, CharClass::Digit);
    let v = decimal_value(s.subrange(i, j));
    if 0 <= i < j && v <= max {
        Some((v, j))
    } else {
        None
    }
}

pub proof fn lemma_span_end(s: Seq<char>, i: int, k: CharClass)
    requires
        0 <= i <= s.len(),
    ensures
        i <= span_end(s, i, k) <= s.len(),
        forall|x: int| i <= x < span_end(s, i, k) ==> in_class(#[trigger] s[x], k),
        span_end(s, i, k) < s.len() ==> !in_class(s[span_end(s, i, k)], k),
    decreases s.len() - i,
{
    if i < s.len() && in_class(s[i], k) {
        lemma_span_end(s, i + 1, k);
    }
}

/// A run that is known to hold only characters of the class, and to be followed by none, is
/// the span.
pub proof fn lemma_span_end_is(s: Seq<char>, i: int, j: int, k: CharClass)
    requires
        0 <= i <= j <= s.len(),
        forall|x: int| i <= x < j ==> in_class(#[trigger] s[x], k),
        j < s.len() ==> !in_class(s[j], k),
    ensures
        span_end(s, i, k) == j,
    decreases j - i,
{
    if i < j {
        lemma_span_end_is(s, i + 1, j, k);
    }
}

pub proof fn lemma_decimal_digits(n: nat)
    ensures
        decimal_digits(n).len() >= 1,
        forall|i: int| 0 <= i < decimal_digits(n).len() ==> is_digit(#[trigger] decimal_digits(n)[i]),
        decimal_value(decimal_digits(n)) == n,
    decreases n,
{
    if n < 10 {
        let s = decimal_digits(n);
        assert(s.drop_last() =~= Seq::<char>::empty());
        assert(decimal_value(s.drop_last()) == 0);
    } else {
        lemma_decimal_digits(n / 10);
        let s = decimal_digits(n);
        assert(s.drop_last() =~= decimal_digits(n / 10));
    }
}

/// A digit is no white space, and no blank.
pub proof fn lemma_digit_classes(c: char)
    requires
        is_digit(c),
    ensures
        !is_whitespace(c),
        !is_blank(c),
        !is_gap(c),
        c != '-',
        c != '.',
{
}

/// The digits of `n`, standing at `i` and followed by no digit, scan as `n`.
pub proof fn lemma_scan_number_of_digits(s: Seq<char>, i: int, n: nat, max: nat)
    requires
        n <= max,
        has_tag(s, i, decimal_digits(n)),
        i + decimal_digits(n).len() < s.len() ==> !is_digit(s[i + decimal_digits(n).len()]),
    ensures
        scan_number(s, i, max) == Some((n, i + decimal_digits(n).len())),
{
    let d = decimal_digits(n);
    let j = i + d.len();
    lemma_decimal_digits(n);
    assert forall|x: int| i <= x < j implies in_class(#[trigger] s[x], CharClass::Digit) by {
        assert(s[x] == s.subrange(i, j)[x - i]);
        assert(is_digit(d[x - i]));
    }
    lemma_span_end_is(s, i, j, CharClass::Digit);
}

pub fn exec_is_digit(c: char) -> (b: bool)
    ensures
        b == is_digit(c),
{
    c >= '0' && c <= '9'
}

pub fn exec_is_whitespace(c: char) -> (b: bool)
    ensures
        b == is_whitespace(c),
{
    (c >= '\u{9}' && c <= '\u{D}') || c == ' ' || c == '\u{85}' || c == '\u{A0}' || c == '\u{1680}'
        || (c >= '\u{2000}' && c <= '\u{200A}') || c == '\u{2028}' || c == '\u{2029}' || c
        == '\u{202F}' || c == '\u{205F}' || c == '\u{3000}'
}

pub fn exec_in_class(c: char, k: CharClass) -> (b: bool)
    ensures
        b == in_class(c, k),
{
    match k {
        CharClass::Blank => c == ' ' || c == '\t',
        CharClass::Gap => c == ' ' || c == '\t' || c == '\r' || c == '\n',
        CharClass::Digit => exec_is_digit(c),
        CharClass::Word => !exec_is_whitespace(c),
        CharClass::Inline => c != '\n',
        CharClass::Solid => !(c == ' ' || c == '\t' || c == '\r' || c == '\n'),
    }
}

/// The characters of `s`, in order.
pub fn chars_of(s: &str) -> (out: Vec<char>)
    ensures
        out@ == s@,
{
    let mut out: Vec<char> = Vec::new();
    for c in it: s.chars()
        invariant
            out@ == it.seq().take(it.index() as int),
            it.seq() == s@,
    {
        out.push(c);
    }
    out
}

/// The string made of the characters `v[from..to]`, in order.
pub fn string_of(v: &[char], from: usize, to: usize) -> (out: String)
    requires
        from <= to <= v.len(),
    ensures
        out@ == v@.subrange(from as int, to as int),
{
    let mut out = String::new();
    let mut i: usize = from;
    while i < to
        invariant
            from <= i <= to <= v.len(),
            out@ == v@.subrange(from as int, i as int),
        decreases to - i,
    {
        out.push(v[i]);
        proof {
            assert(v@.subrange(from as int, i as int).push(v@[i as int]) =~= v@.subrange(
                from as int,
                i + 1,
            ));
        }
        i += 1;
    }
    out
}

/// Whether some character of `s` is white space.
pub fn has_whitespace(s: &str) -> (b: bool)
    ensures
        b == !no_whitespace(s@),
{
    let chars = chars_of(s);
    let mut i: usize = 0;
    while i < chars.len()
        invariant
            i <= chars.len(),
            chars@ == s@,
            forall|x: int| 0 <= x < i ==> !is_whitespace(#[trigger] s@[x]),
        decreases chars.len() - i,
    {
        if exec_is_whitespace(chars[i]) {
            return true;
        }
        i += 1;
    }
    false
}

/// Whether two texts hold the same characters.
pub fn same_text(a: &str, b: &str) -> (r: bool)
    ensures
        r == (a@ == b@),
{
    let x = chars_of(a);
    let y = chars_of(b);
    if x.len() != y.len() {
        return false;
    }
    let mut i: usize = 0;
    while i < x.len()
        invariant
            i <= x.len(),
            x.len() == y.len(),
            x@ == a@,
            y@ == b@,
            forall|k: int| 0 <= k < i ==> x@[k] == y@[k],
        decreases x.len() - i,
    {
        if x[i] != y[i] {
            return false;
        }
        i += 1;
    }
    proof {
        assert(x@ =~= y@);
    }
    true
}

/// Moves over the run of characters of class `k` that starts at `i`.
pub fn skip_class(s: &[char], i: usize, k: CharClass) -> (j: usize)
    requires
        i <= s.len(),
    ensures
        j == span_end(s@, i as int, k),
        i <= j <= s.len(),
{
    let mut j: usize = i;
    while j < s.len() && exec_in_class(s[j], k)
        invariant
            i <= j <= s.len(),
            span_end(s@, i as int, k) == span_end(s@, j as int, k),
        decreases s.len() - j,
    {
        j += 1;
    }
    j
}

/// Moves over `tag` where it stands at `i`.
pub fn read_tag(s: &[char], i: usize, tag: &str) -> (r: Option<usize>)
    requires
        i <= s.len(),
    ensures
        has_tag(s@, i as int, tag@) ==> (r matches Some(e) && e == i + tag@.len()),
        !has_tag(s@, i as int, tag@) ==> r is None,
{
    let t = chars_of(tag);
    if t.len() > s.len() - i {
        return None;
    }
    let mut x: usize = 0;
    while x < t.len()
        invariant
            x <= t.len(),
            t@ == tag@,
            i + t.len() <= s.len(),
            forall|y: int| 0 <= y < x ==> s@[i + y] == #[trigger] t@[y],
        decreases t.len() - x,
    {
        if s[i + x] != t[x] {
            proof {
                assert(s@.subrange(i as int, i + t.len())[x as int] != t@[x as int]);
            }
            return None;
        }
        x += 1;
    }
    proof {
        assert(s@.subrange(i as int, i + t.len()) =~= t@);
    }
    Some(i + t.len())
}

/// Reads a number at `i`: one or more digits whose value is at most `max`.
pub fn read_number(s: &[char], i: usize, max: u64) -> (r: Option<(u64, usize)>)
    requires
        i <= s.len(),
    ensures
        match scan_number(s@, i as int, max as nat) {
            Some((v, j)) => r == Some((v as u64, j as usize)) && i < j <= s.len(),
            None => r is None,
        },
{
    let mut j: usize = i;
    let mut acc: u64 = 0;
    let mut fits: bool = true;
    proof {
        assert(s@.subrange(i as int, i as int) =~= Seq::<char>::empty());
    }
    while j < s.len() && exec_is_digit(s[j])
        invariant
            i <= j <= s.len(),
            span_end(s@, i as int, CharClass::Digit) == span_end(s@, j as int, CharClass::Digit),
            fits ==> acc == decimal_value(s@.subrange(i as int, j as int)) && acc <= max,
            !fits ==> decimal_value(s@.subrange(i as int, j as int)) > max,
        decreases s.len() - j,
    {
        let d: u64 = (s[j] as u32 - '0' as u32) as u64;
        proof {
            let next = s@.subrange(i as int, j + 1);
            assert(next.drop_last() =~= s@.subrange(i as int, j as int));
            assert(next.last() == s@[j as int]);
            assert(decimal_value(next) == 10 * decimal_value(s@.subrange(i as int, j as int)) + d);
        }
        if fits {
            if acc > max / 10 || d > max - acc * 10 {
                fits = false;
            } else {
                acc = acc * 10 + d;
            }
        }
        j += 1;
    }
    if j > i && fits {
        Some((acc, j))
    } else {
        None
    }
}

/// Appends the digits of `n`.
pub fn push_decimal(out: &mut String, n: u128)
    ensures
        final(out)@ == old(out)@ + decimal_digits(n as nat),
    decreases n,
{
    if n >= 10 {
        push_decimal(out, n / 10);
    }
    out.push(((n % 10) as u8 + 48u8) as char);
    proof {
        if n >= 10 {
            assert(old(out)@ + decimal_digits(n as nat) =~= (old(out)@ + decimal_digits(
                (n / 10) as nat,
            )).push(digit_char((n % 10) as nat)));
        } else {
            assert(old(out)@ + decimal_digits(n as nat) =~= old(out)@.push(digit_char(n as nat)));
        }
    }
}

/// Appends `v` in base ten, with a leading `-` when it is negative.
pub fn push_signed(out: &mut String, v: i128)
    ensures
        final(out)@ == old(out)@ + signed_decimal(v as int),
{
    if v < 0 {
        out.push('-');
        let m: u128 = if v == i128::MIN {
            170141183460469231731687303715884105728u128
        } else {
            (-v) as u128
        };
        push_decimal(out, m);
        proof {
            assert(old(out)@.push('-') + decimal_digits(m as nat) =~= old(out)@ + (seq!['-']
                + decimal_digits(m as nat)));
        }
    } else {
        push_decimal(out, v as u128);
    }
}

/// Appends the characters of `s`.
pub fn push_text(out: &mut String, s: &str)
    ensures
        final(out)@ == old(out)@ + s@,
{
    out.append(s);
}

} // verus!
