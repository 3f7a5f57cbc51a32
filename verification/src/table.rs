//! Lines of numbers: the body that the taskset and result files share.
//!
//! A line holds a fixed count of unsigned numbers separated by blanks, may end in one signed
//! decimal, and may be padded with blanks on both sides. Lines are separated by one line feed.
//! Reading stops, without an error, in front of the first line that does not have that form.

use vstd::prelude::*;
use crate::text::{
    decimal_digits, exec_is_digit, is_digit, read_number, scan_number, signed_decimal, skip_class,
    span_end, lemma_span_end, lemma_span_end_is, lemma_decimal_digits, lemma_scan_number_of_digits,
    has_tag, in_class, push_decimal, push_signed, CharClass,
};

verus! {

/// What one line says: its numbers and, where the line ends in a signed column, that value.
pub struct Line {
    pub vals: Seq<u64>,
    pub offset: Option<int>,
}

/// `cols` numbers from `i` on: blanks may stand before the first, blanks must stand between
/// two. Gives the numbers and the position after the last digit.
pub open spec fn scan_row(s: Seq<char>, i: int, cols: nat) -> Option<(Seq<u64>, int)>
    decreases cols,
{
    if cols == 0 {
        Some((Seq::<u64>::empty(), i))
    } else {
        match scan_row(s, i, (cols - 1) as nat) {
            None => None,
            Some((vals, j)) => {
                let k = span_end(s, j, CharClass::Blank);
                if cols > 1 && k == j {
                    None
                } else {
                    match scan_number(s, k, u64::MAX as nat) {
                        None => None,
                        Some((v, e)) => Some((vals.push(v as u64), e)),
                    }
                }
            },
        }
    }
}

/// A signed decimal at `i`: an optional `-`, then digits, digits with a fraction, or a
/// fraction alone. Gives the position after it.
pub open spec fn scan_decimal(s: Seq<char>, i: int) -> Option<int> {
    let a = if 0 <= i < s.len() && s[i] == '-' {
        i + 1
    } else {
        i
    };
    let b = span_end(s, a, CharClass::Digit);
    if 0 <= a && b + 1 < s.len() && s[b] == '.' && is_digit(s[b + 1]) {
        Some(span_end(s, b + 1, CharClass::Digit))
    } else if 0 <= a < b {
        Some(b)
    } else {
        None
    }
}

/// One line at `i`. Gives its numbers and the position after its trailing blanks.
pub open spec fn scan_line(s: Seq<char>, i: int, cols: nat, signed_tail: bool) -> Option<
    (Seq<u64>, int),
> {
    match scan_row(s, i, cols) {
        None => None,
        Some((vals, j)) => {
            if signed_tail {
                let k = span_end(s, j, CharClass::Blank);
                if k == j {
                    None
                } else {
                    match scan_decimal(s, k) {
                        None => None,
                        Some(e) => Some((vals, span_end(s, e, CharClass::Blank))),
                    }
                }
            } else {
                Some((vals, span_end(s, j, CharClass::Blank)))
            }
        },
    }
}

/// The lines that follow position `i`, each behind one line feed.
pub open spec fn scan_more_lines(s: Seq<char>, i: int, cols: nat, signed_tail: bool) -> Seq<
    Seq<u64>,
>
    decreases s.len() - i,
{
    let line = scan_line(s, i + 1, cols, signed_tail);
    if 0 <= i < s.len() && s[i] == '\n' && line is Some {
        if i < line.unwrap().1 <= s.len() {
            seq![line.unwrap().0] + scan_more_lines(s, line.unwrap().1, cols, signed_tail)
        } else {
            seq![line.unwrap().0]
        }
    } else {
        Seq::empty()
    }
}

/// One line or more from `i` on.
pub open spec fn scan_table(s: Seq<char>, i: int, cols: nat, signed_tail: bool) -> Option<
    Seq<Seq<u64>>,
> {
    match scan_line(s, i, cols, signed_tail) {
        None => None,
        Some((vals, j)) => Some(seq![vals] + scan_more_lines(s, j, cols, signed_tail)),
    }
}

/// The numbers of a line, each in base ten, with one space between two.
pub open spec fn row_text(vals: Seq<u64>) -> Seq<char>
    decreases vals.len(),
{
    if vals.len() == 0 {
        Seq::empty()
    } else if vals.len() == 1 {
        decimal_digits(vals[0] as nat)
    } else {
        row_text(vals.drop_last()) + seq![' '] + decimal_digits(vals.last() as nat)
    }
}

/// A line as it is written: the numbers, the signed column where there is one, a line feed.
pub open spec fn line_text(line: Line) -> Seq<char> {
    row_text(line.vals) + (match line.offset {
        Some(v) => seq![' '] + signed_decimal(v),
        None => Seq::empty(),
    }) + seq!['\n']
}

/// The lines one after the other.
pub open spec fn table_text(lines: Seq<Line>) -> Seq<char>
    decreases lines.len(),
{
    if lines.len() == 0 {
        Seq::empty()
    } else {
        table_text(lines.drop_last()) + line_text(lines.last())
    }
}

/// The numbers of each line.
pub open spec fn table_rows(lines: Seq<Line>) -> Seq<Seq<u64>> {
    Seq::new(lines.len(), |k: int| lines[k].vals)
}

/// Every line has `cols` numbers, and a signed column exactly when `signed_tail` says so.
pub open spec fn table_shape(lines: Seq<Line>, cols: nat, signed_tail: bool) -> bool {
    forall|k: int|
        0 <= k < lines.len() ==> (#[trigger] lines[k]).vals.len() == cols && (lines[k].offset
            is Some) == signed_tail
}

pub proof fn lemma_scan_row_bounds(s: Seq<char>, i: int, cols: nat)
    requires
        0 <= i <= s.len(),
    ensures
        match scan_row(s, i, cols) {
            Some((vals, j)) => vals.len() == cols && i <= j <= s.len() && (cols > 0 ==> i < j),
            None => true,
        },
    decreases cols,
{
    if cols > 0 {
        lemma_scan_row_bounds(s, i, (cols - 1) as nat);
        match scan_row(s, i, (cols - 1) as nat) {
            None => {},
            Some((vals, j)) => {
                lemma_span_end(s, j, CharClass::Blank);
                let k = span_end(s, j, CharClass::Blank);
                lemma_span_end(s, k, CharClass::Digit);
            },
        }
    }
}

pub proof fn lemma_scan_decimal_bounds(s: Seq<char>, i: int)
    requires
        0 <= i <= s.len(),
    ensures
        match scan_decimal(s, i) {
            Some(e) => i < e <= s.len(),
            None => true,
        },
{
    let a = if i < s.len() && s[i] == '-' {
        i + 1
    } else {
        i
    };
    lemma_span_end(s, a, CharClass::Digit);
    let b = span_end(s, a, CharClass::Digit);
    if b + 1 < s.len() {
        lemma_span_end(s, b + 1, CharClass::Digit);
    }
}

pub proof fn lemma_scan_line_bounds(s: Seq<char>, i: int, cols: nat, signed_tail: bool)
    requires
        0 <= i <= s.len(),
    ensures
        match scan_line(s, i, cols, signed_tail) {
            Some((vals, j)) => vals.len() == cols && i <= j <= s.len(),
            None => true,
        },
{
    lemma_scan_row_bounds(s, i, cols);
    match scan_row(s, i, cols) {
        None => {},
        Some((vals, j)) => {
            lemma_span_end(s, j, CharClass::Blank);
            if signed_tail {
                let k = span_end(s, j, CharClass::Blank);
                lemma_scan_decimal_bounds(s, k);
                match scan_decimal(s, k) {
                    None => {},
                    Some(e) => {
                        lemma_span_end(s, e, CharClass::Blank);
                    },
                }
            }
        },
    }
}

/// A line of at least one number ends behind its start.
pub proof fn lemma_scan_line_advances(s: Seq<char>, i: int, cols: nat, signed_tail: bool)
    requires
        0 <= i <= s.len(),
        cols >= 1,
    ensures
        scan_line(s, i, cols, signed_tail) matches Some((vals, j)) ==> i < j,
{
    lemma_scan_row_bounds(s, i, cols);
    lemma_scan_line_bounds(s, i, cols, signed_tail);
    match scan_row(s, i, cols) {
        None => {},
        Some((vals, j)) => {
            lemma_span_end(s, j, CharClass::Blank);
            if signed_tail {
                let k = span_end(s, j, CharClass::Blank);
                lemma_scan_decimal_bounds(s, k);
                match scan_decimal(s, k) {
                    None => {},
                    Some(e) => {
                        lemma_span_end(s, e, CharClass::Blank);
                    },
                }
            }
        },
    }
}

/// Reads `cols` numbers from `i` on.
pub fn read_row(s: &[char], i: usize, cols: usize) -> (r: Option<(Vec<u64>, usize)>)
    requires
        i <= s.len(),
    ensures
        match scan_row(s@, i as int, cols as nat) {
            Some((vals, j)) => r matches Some((v, e)) && v@ == vals && e == j && i <= e
                <= s.len(),
            None => r is None,
        },
{
    let mut vals: Vec<u64> = Vec::new();
    let mut j: usize = i;
    let mut c: usize = 0;
    while c < cols
        invariant
            c <= cols,
            i <= j <= s.len(),
            scan_row(s@, i as int, c as nat) == Some((vals@, j as int)),
        decreases cols - c,
    {
        let k = skip_class(s, j, CharClass::Blank);
        if c > 0 && k == j {
            proof {
                lemma_row_fails_on(s@, i as int, (c + 1) as nat, cols as nat);
            }
            return None;
        }
        match read_number(s, k, u64::MAX) {
            None => {
                proof {
                    lemma_row_fails_on(s@, i as int, (c + 1) as nat, cols as nat);
                }
                return None;
            },
            Some((v, e)) => {
                vals.push(v);
                j = e;
            },
        }
        c += 1;
    }
    Some((vals, j))
}

/// A row that cannot be read up to some column cannot be read further either.
pub proof fn lemma_row_fails_on(s: Seq<char>, i: int, c: nat, cols: nat)
    requires
        c <= cols,
        scan_row(s, i, c) is None,
    ensures
        scan_row(s, i, cols) is None,
    decreases cols - c,
{
    if c < cols {
        lemma_row_fails_on(s, i, c + 1, cols);
    }
}

/// Reads a signed decimal at `i` and gives the position after it.
pub fn read_decimal(s: &[char], i: usize) -> (r: Option<usize>)
    requires
        i <= s.len(),
    ensures
        match scan_decimal(s@, i as int) {
            Some(e) => r == Some(e as usize) && i < e <= s.len(),
            None => r is None,
        },
{
    proof {
        lemma_scan_decimal_bounds(s@, i as int);
    }
    let a: usize = if i < s.len() && s[i] == '-' {
        i + 1
    } else {
        i
    };
    let b = skip_class(s, a, CharClass::Digit);
    if b < s.len() && s.len() - b > 1 && s[b] == '.' && exec_is_digit(s[b + 1]) {
        Some(skip_class(s, b + 1, CharClass::Digit))
    } else if a < b {
        Some(b)
    } else {
        None
    }
}

/// Reads one line at `i`.
pub fn read_line(s: &[char], i: usize, cols: usize, signed_tail: bool) -> (r: Option<
    (Vec<u64>, usize),
>)
    requires
        i <= s.len(),
    ensures
        match scan_line(s@, i as int, cols as nat, signed_tail) {
            Some((vals, j)) => r matches Some((v, e)) && v@ == vals && e == j && i <= e
                <= s.len(),
            None => r is None,
        },
{
    match read_row(s, i, cols) {
        None => None,
        Some((vals, j)) => {
            if signed_tail {
                let k = skip_class(s, j, CharClass::Blank);
                if k == j {
                    return None;
                }
                match read_decimal(s, k) {
                    None => None,
                    Some(e) => Some((vals, skip_class(s, e, CharClass::Blank))),
                }
            } else {
                Some((vals, skip_class(s, j, CharClass::Blank)))
            }
        },
    }
}

/// The rows that `rows` holds, as sequences.
pub open spec fn rows_view(rows: Seq<Vec<u64>>) -> Seq<Seq<u64>> {
    Seq::new(rows.len(), |k: int| rows[k]@)
}

/// Reads one line or more from `i` on.
pub fn read_table(s: &[char], i: usize, cols: usize, signed_tail: bool) -> (r: Option<
    Vec<Vec<u64>>,
>)
    requires
        i <= s.len(),
    ensures
        match scan_table(s@, i as int, cols as nat, signed_tail) {
            Some(rows) => r matches Some(v) && rows_view(v@) == rows && v.len() >= 1,
            None => r is None,
        },
{
    let mut rows: Vec<Vec<u64>> = Vec::new();
    let mut j: usize;
    match read_line(s, i, cols, signed_tail) {
        None => {
            return None;
        },
        Some((vals, e)) => {
            rows.push(vals);
            j = e;
        },
    }
    let ghost all = scan_table(s@, i as int, cols as nat, signed_tail)->0;
    proof {
        assert(rows_view(rows@) =~= seq![rows@[0]@]);
    }
    loop
        invariant
            i <= j <= s.len(),
            rows.len() >= 1,
            scan_table(s@, i as int, cols as nat, signed_tail) == Some(all),
            all == rows_view(rows@) + scan_more_lines(s@, j as int, cols as nat, signed_tail),
        decreases s.len() - j,
    {
        if j >= s.len() || s[j] != '\n' {
            proof {
                assert(all =~= rows_view(rows@));
            }
            return Some(rows);
        }
        match read_line(s, j + 1, cols, signed_tail) {
            None => {
                proof {
                    assert(all =~= rows_view(rows@));
                }
                return Some(rows);
            },
            Some((vals, e)) => {
                proof {
                    let before = rows_view(rows@);
                    let more = scan_more_lines(s@, e as int, cols as nat, signed_tail);
                    assert(before + (seq![vals@] + more) =~= rows_view(rows@.push(vals)) + more);
                }
                rows.push(vals);
                j = e;
            },
        }
    }
}

/// The text of a table is the text of its first line followed by the text of the others.
pub proof fn lemma_table_text_first(lines: Seq<Line>)
    requires
        lines.len() >= 1,
    ensures
        table_text(lines) == line_text(lines[0]) + table_text(lines.drop_first()),
    decreases lines.len(),
{
    let init = lines.drop_last();
    if lines.len() == 1 {
        assert(table_text(init) =~= Seq::<char>::empty());
        assert(table_text(lines.drop_first()) =~= Seq::<char>::empty());
        assert(table_text(lines) =~= line_text(lines[0]) + table_text(lines.drop_first()));
    } else {
        lemma_table_text_first(init);
        assert(lines.drop_first().drop_last() =~= init.drop_first());
        assert(init[0] == lines[0]);
        assert(lines.drop_first().last() == lines.last());
        assert(table_text(lines) =~= line_text(lines[0]) + table_text(lines.drop_first()));
    }
}

/// The numbers that were written with one space between two are read back as they were.
pub proof fn lemma_scan_row_of_text(s: Seq<char>, i: int, vals: Seq<u64>)
    requires
        vals.len() >= 1,
        has_tag(s, i, row_text(vals)),
        i + row_text(vals).len() < s.len() ==> !is_digit(s[i + row_text(vals).len()]),
    ensures
        scan_row(s, i, vals.len()) == Some((vals, i + row_text(vals).len())),
    decreases vals.len(),
{
    let t = row_text(vals);
    assert(forall|x: int| 0 <= x < t.len() ==> s[i + x] == #[trigger] s.subrange(i, i + t.len())[x]);
    if vals.len() == 1 {
        lemma_decimal_digits(vals[0] as nat);
        assert(s[i] == t[0]);
        lemma_span_end_is(s, i, i, CharClass::Blank);
        lemma_scan_number_of_digits(s, i, vals[0] as nat, u64::MAX as nat);
        assert(scan_row(s, i, 0) == Some((Seq::<u64>::empty(), i)));
        assert(Seq::<u64>::empty().push(vals[0]) =~= vals);
    } else {
        let init = vals.drop_last();
        let d = decimal_digits(vals.last() as nat);
        let ti = row_text(init);
        let j = i + ti.len();
        lemma_decimal_digits(vals.last() as nat);
        assert(t =~= ti + seq![' '] + d);
        assert(s.subrange(i, j) =~= ti) by {
            assert forall|x: int| 0 <= x < ti.len() implies s.subrange(i, j)[x] == ti[x] by {
                assert(s[i + x] == t[x]);
            }
        }
        assert(s[j] == ' ') by {
            assert(s[j] == t[ti.len() as int]);
        }
        lemma_scan_row_of_text(s, i, init);
        assert(s[j + 1] == d[0]) by {
            assert(s[i + (ti.len() + 1)] == t[(ti.len() + 1) as int]);
        }
        lemma_span_end_is(s, j, j + 1, CharClass::Blank);
        assert(s.subrange(j + 1, j + 1 + d.len()) =~= d) by {
            assert forall|x: int| 0 <= x < d.len() implies s.subrange(j + 1, j + 1 + d.len())[x]
                == d[x] by {
                assert(s[i + (ti.len() + 1 + x)] == t[ti.len() + 1 + x]);
            }
        }
        lemma_scan_number_of_digits(s, j + 1, vals.last() as nat, u64::MAX as nat);
        assert(init.push(vals.last()) =~= vals);
    }
}

/// A line that was written is read back as it was, up to its line feed.
pub proof fn lemma_scan_line_of_text(s: Seq<char>, i: int, line: Line)
    requires
        line.vals.len() >= 1,
        has_tag(s, i, line_text(line)),
    ensures
        scan_line(s, i, line.vals.len(), line.offset is Some) == Some(
            (line.vals, i + line_text(line).len() - 1),
        ),
        s[i + line_text(line).len() - 1] == '\n',
{
    let t = line_text(line);
    let r = row_text(line.vals);
    let j = i + r.len();
    assert(forall|x: int| 0 <= x < t.len() ==> s[i + x] == #[trigger] s.subrange(i, i + t.len())[x]);
    assert(s.subrange(i, j) =~= r) by {
        assert forall|x: int| 0 <= x < r.len() implies s.subrange(i, j)[x] == r[x] by {
            assert(s[i + x] == t[x]);
        }
    }
    assert(s[i + t.len() - 1] == t[t.len() - 1]);
    match line.offset {
        None => {
            assert(t =~= r + seq!['\n']);
            assert(s[j] == '\n');
            lemma_scan_row_of_text(s, i, line.vals);
            lemma_span_end_is(s, j, j, CharClass::Blank);
        },
        Some(v) => {
            let m: nat = if v < 0 {
                (-v) as nat
            } else {
                v as nat
            };
            let d = decimal_digits(m);
            let sd = signed_decimal(v);
            lemma_decimal_digits(m);
            assert(t =~= r + (seq![' '] + sd) + seq!['\n']);
            assert(s[j] == ' ') by {
                assert(s[j] == t[r.len() as int]);
            }
            lemma_scan_row_of_text(s, i, line.vals);
            let a: int = if v < 0 {
                j + 2
            } else {
                j + 1
            };
            let b = a + d.len();
            assert(s[j + 1] == sd[0]) by {
                assert(s[i + (r.len() + 1)] == t[(r.len() + 1) as int]);
            }
            assert(forall|x: int| 0 <= x < d.len() ==> s[a + x] == #[trigger] d[x]) by {
                assert forall|x: int| 0 <= x < d.len() implies s[a + x] == #[trigger] d[x] by {
                    assert(s[i + (a - i + x)] == t[a - i + x]);
                }
            }
            assert(b == i + t.len() - 1);
            assert(s[b] == '\n');
            assert(is_digit(d[0]));
            assert(s[a] == d[0]);
            lemma_span_end_is(s, j, j + 1, CharClass::Blank);
            assert forall|x: int| a <= x < b implies in_class(#[trigger] s[x], CharClass::Digit) by {
                assert(s[a + (x - a)] == d[x - a]);
            }
            lemma_span_end_is(s, a, b, CharClass::Digit);
            lemma_span_end_is(s, b, b, CharClass::Blank);
        },
    }
}

/// A table that was written, standing behind a line feed and reaching to the end of the
/// text, is read back line by line.
pub proof fn lemma_scan_more_lines_of_text(
    s: Seq<char>,
    e: int,
    lines: Seq<Line>,
    cols: nat,
    signed_tail: bool,
)
    requires
        0 <= e < s.len(),
        s[e] == '\n',
        cols >= 1,
        table_shape(lines, cols, signed_tail),
        s.subrange(e + 1, s.len() as int) == table_text(lines),
    ensures
        scan_more_lines(s, e, cols, signed_tail) == table_rows(lines),
    decreases lines.len(),
{
    if lines.len() == 0 {
        assert(e + 1 == s.len());
        lemma_scan_row_bounds(s, e + 1, cols);
        assert(scan_more_lines(s, e, cols, signed_tail) =~= table_rows(lines));
    } else {
        let first = lines[0];
        let rest = lines.drop_first();
        let body = table_text(lines);
        let t = line_text(first);
        lemma_table_text_first(lines);
        assert(body =~= t + table_text(rest));
        assert(s.subrange(e + 1, e + 1 + t.len()) =~= t) by {
            assert forall|x: int| 0 <= x < t.len() implies s.subrange(e + 1, e + 1 + t.len())[x]
                == t[x] by {
                assert(s.subrange(e + 1, s.len() as int)[x] == body[x]);
            }
        }
        lemma_scan_line_of_text(s, e + 1, first);
        let next = e + t.len();
        assert(s.subrange(next + 1, s.len() as int) =~= table_text(rest)) by {
            assert forall|x: int| 0 <= x < table_text(rest).len() implies s.subrange(
                next + 1,
                s.len() as int,
            )[x] == table_text(rest)[x] by {
                assert(s.subrange(e + 1, s.len() as int)[t.len() + x] == body[t.len() + x]);
            }
        }
        assert(table_shape(rest, cols, signed_tail)) by {
            assert forall|k: int| 0 <= k < rest.len() implies (#[trigger] rest[k]).vals.len()
                == cols && (rest[k].offset is Some) == signed_tail by {
                assert(rest[k] == lines[k + 1]);
            }
        }
        lemma_scan_more_lines_of_text(s, next, rest, cols, signed_tail);
        assert(seq![first.vals] + table_rows(rest) =~= table_rows(lines));
    }
}

/// A table of one line or more that was written, reaching to the end of the text, is read
/// back line by line.
pub proof fn lemma_scan_table_of_text(
    s: Seq<char>,
    i: int,
    lines: Seq<Line>,
    cols: nat,
    signed_tail: bool,
)
    requires
        0 <= i <= s.len(),
        cols >= 1,
        lines.len() >= 1,
        table_shape(lines, cols, signed_tail),
        s.subrange(i, s.len() as int) == table_text(lines),
    ensures
        scan_table(s, i, cols, signed_tail) == Some(table_rows(lines)),
{
    let first = lines[0];
    let rest = lines.drop_first();
    let body = table_text(lines);
    let t = line_text(first);
    lemma_table_text_first(lines);
    assert(body =~= t + table_text(rest));
    assert(s.subrange(i, s.len() as int).len() == s.len() - i);
    assert(i + t.len() <= s.len());
    assert(s.subrange(i, i + t.len()) =~= t) by {
        assert forall|x: int| 0 <= x < t.len() implies s.subrange(i, i + t.len())[x] == t[x] by {
            assert(s.subrange(i, s.len() as int)[x] == s[i + x]);
            assert(body[x] == t[x]);
        }
    }
    lemma_scan_line_of_text(s, i, first);
    let next = i + t.len() - 1;
    assert(s.subrange(next + 1, s.len() as int) =~= table_text(rest)) by {
        assert forall|x: int| 0 <= x < table_text(rest).len() implies s.subrange(
            next + 1,
            s.len() as int,
        )[x] == table_text(rest)[x] by {
            assert(s.subrange(i, s.len() as int)[t.len() + x] == body[t.len() + x]);
        }
    }
    assert(table_shape(rest, cols, signed_tail)) by {
        assert forall|k: int| 0 <= k < rest.len() implies (#[trigger] rest[k]).vals.len() == cols
            && (rest[k].offset is Some) == signed_tail by {
            assert(rest[k] == lines[k + 1]);
        }
    }
    lemma_scan_more_lines_of_text(s, next, rest, cols, signed_tail);
    assert(seq![first.vals] + table_rows(rest) =~= table_rows(lines));
}

/// Written numbers begin with a digit.
pub proof fn lemma_row_text_starts_with_digit(vals: Seq<u64>)
    requires
        vals.len() >= 1,
    ensures
        row_text(vals).len() >= 1,
        is_digit(row_text(vals)[0]),
    decreases vals.len(),
{
    if vals.len() == 1 {
        lemma_decimal_digits(vals[0] as nat);
    } else {
        lemma_row_text_starts_with_digit(vals.drop_last());
    }
}

/// A written table of lines that hold numbers begins with a digit.
pub proof fn lemma_table_text_starts_with_digit(lines: Seq<Line>)
    requires
        lines.len() >= 1,
        lines[0].vals.len() >= 1,
    ensures
        table_text(lines).len() >= 1,
        is_digit(table_text(lines)[0]),
{
    lemma_table_text_first(lines);
    lemma_row_text_starts_with_digit(lines[0].vals);
}

/// Appends the numbers `vals`, with one space between two.
pub fn push_row(out: &mut String, vals: &[u64])
    ensures
        final(out)@ == old(out)@ + row_text(vals@),
{
    let mut c: usize = 0;
    proof {
        assert(row_text(vals@.take(0)) =~= Seq::<char>::empty());
        assert(old(out)@ + row_text(vals@.take(0)) =~= old(out)@);
    }
    while c < vals.len()
        invariant
            c <= vals.len(),
            out@ == old(out)@ + row_text(vals@.take(c as int)),
        decreases vals.len() - c,
    {
        if c > 0 {
            out.push(' ');
        }
        push_decimal(out, vals[c] as u128);
        proof {
            let next = vals@.take(c + 1);
            assert(next.drop_last() =~= vals@.take(c as int));
            assert(next.last() == vals@[c as int]);
            if c == 0 {
                assert(row_text(next) == decimal_digits(vals@[0] as nat));
                assert(row_text(vals@.take(0)) =~= Seq::<char>::empty());
                assert(out@ =~= old(out)@ + row_text(next));
            } else {
                assert(out@ =~= old(out)@ + row_text(next));
            }
        }
        c += 1;
    }
    proof {
        assert(vals@.take(vals.len() as int) =~= vals@);
    }
}

/// Appends one line: the numbers `vals` and, where there is one, the signed column.
pub fn push_line(out: &mut String, vals: &[u64], offset: Option<i128>)
    ensures
        final(out)@ == old(out)@ + line_text(
            Line {
                vals: vals@,
                offset: match offset {
                    Some(v) => Some(v as int),
                    None => None,
                },
            },
        ),
{
    push_row(out, vals);
    let ghost row_done = out@;
    match offset {
        Some(v) => {
            out.push(' ');
            push_signed(out, v);
            out.push('\n');
            proof {
                assert(out@ =~= row_done + (seq![' '] + signed_decimal(v as int)) + seq!['\n']);
            }
        },
        None => {
            out.push('\n');
            proof {
                assert(out@ =~= row_done + Seq::<char>::empty() + seq!['\n']);
            }
        },
    }
}

/// Every line that is read has `cols` numbers.
pub proof fn lemma_scan_more_lines_shape(s: Seq<char>, i: int, cols: nat, signed_tail: bool)
    requires
        0 <= i <= s.len(),
    ensures
        forall|k: int|
            0 <= k < scan_more_lines(s, i, cols, signed_tail).len() ==> (#[trigger] scan_more_lines(
                s,
                i,
                cols,
                signed_tail,
            )[k]).len() == cols,
    decreases s.len() - i,
{
    let line = scan_line(s, i + 1, cols, signed_tail);
    if i < s.len() && s[i] == '\n' && line is Some {
        lemma_scan_line_bounds(s, i + 1, cols, signed_tail);
        let all = scan_more_lines(s, i, cols, signed_tail);
        if i < line.unwrap().1 <= s.len() {
            let rest = scan_more_lines(s, line.unwrap().1, cols, signed_tail);
            lemma_scan_more_lines_shape(s, line.unwrap().1, cols, signed_tail);
            assert(all == seq![line.unwrap().0] + rest);
            assert forall|k: int| 0 <= k < all.len() implies (#[trigger] all[k]).len() == cols by {
                if k > 0 {
                    assert(all[k] == rest[k - 1]);
                }
            }
        } else {
            assert(all == seq![line.unwrap().0]);
        }
    }
}

/// Every line of a table that is read has `cols` numbers.
pub proof fn lemma_scan_table_shape(s: Seq<char>, i: int, cols: nat, signed_tail: bool)
    requires
        0 <= i <= s.len(),
    ensures
        match scan_table(s, i, cols, signed_tail) {
            Some(rows) => forall|k: int| 0 <= k < rows.len() ==> (#[trigger] rows[k]).len() == cols,
            None => true,
        },
{
    lemma_scan_line_bounds(s, i, cols, signed_tail);
    match scan_line(s, i, cols, signed_tail) {
        None => {},
        Some((vals, j)) => {
            let rest = scan_more_lines(s, j, cols, signed_tail);
            let rows = seq![vals] + rest;
            lemma_scan_more_lines_shape(s, j, cols, signed_tail);
            assert forall|k: int| 0 <= k < rows.len() implies (#[trigger] rows[k]).len() == cols by {
                if k > 0 {
                    assert(rows[k] == rest[k - 1]);
                }
            }
        },
    }
}

} // verus!
