//! The names of generated task sets and reservations.

use vstd::prelude::*;
use crate::text::{
    decimal_digits, is_whitespace, lemma_decimal_digits, no_whitespace, push_decimal, push_text,
};
use crate::time::round_half_even;

verus! {

/// `k` zeros.
pub open spec fn zeros(k: nat) -> Seq<char> {
    Seq::new(k, |i: int| '0')
}

/// `n` in base ten, with zeros in front until it has `width` digits.
pub open spec fn padded_decimal(n: nat, width: nat) -> Seq<char> {
    let digits = decimal_digits(n);
    if digits.len() >= width {
        digits
    } else {
        zeros((width - digits.len()) as nat) + digits
    }
}

/// A utilization given in thousandths, written with one decimal: rounded to the nearest
/// tenth, a tie going to the even one.
pub open spec fn utilization_label(thousandths: nat) -> Seq<char> {
    let tenths = round_half_even(thousandths, 100);
    decimal_digits(tenths / 10) + seq!['.'] + decimal_digits(tenths % 10)
}

/// The name of the task set number `index` of a run of the generator, which holds
/// `num_tasks` tasks of the total utilization `thousandths / 1000`.
pub open spec fn taskset_name(thousandths: nat, num_tasks: nat, index: nat) -> Seq<char> {
    "taskset_U"@ + utilization_label(thousandths) + "_N"@ + padded_decimal(num_tasks, 2) + "_"@
        + padded_decimal(index, 3)
}

/// The name of the reservation number `index` under the prefix `prefix`.
pub open spec fn config_name(prefix: Seq<char>, index: nat) -> Seq<char> {
    prefix + "_"@ + padded_decimal(index, 3)
}

/// How many digits `n` has in base ten.
pub fn decimal_len(n: u64) -> (len: usize)
    ensures
        len == decimal_digits(n as nat).len(),
        1 <= len <= 20,
    decreases n,
{
    if n < 10 {
        1
    } else {
        let rest = decimal_len(n / 10);
        proof {
            lemma_decimal_len_bound(n as nat);
        }
        rest + 1
    }
}

/// A number below 2^64 has at most twenty digits.
pub proof fn lemma_decimal_len_bound(n: nat)
    requires
        n <= u64::MAX,
    ensures
        decimal_digits(n).len() <= 20,
{
    reveal_with_fuel(decimal_digits, 21);
}

/// Appends `n` with zeros in front until it has `width` digits.
pub fn push_padded(out: &mut String, n: u64, width: usize)
    ensures
        final(out)@ == old(out)@ + padded_decimal(n as nat, width as nat),
{
    let len = decimal_len(n);
    let mut k: usize = len;
    let ghost missing: nat = if len >= width {
        0
    } else {
        (width - len) as nat
    };
    proof {
        assert(old(out)@ + zeros(0) =~= old(out)@);
    }
    while k < width
        invariant
            len <= k,
            len < width ==> k <= width,
            len == decimal_digits(n as nat).len(),
            len >= width ==> k == len,
            out@ == old(out)@ + zeros((k - len) as nat),
        decreases width - k,
    {
        out.push('0');
        proof {
            assert(zeros((k - len) as nat).push('0') =~= zeros((k + 1 - len) as nat));
            assert(out@ =~= old(out)@ + zeros((k + 1 - len) as nat));
        }
        k += 1;
    }
    push_decimal(out, n as u128);
    proof {
        if len >= width {
            assert(out@ =~= old(out)@ + decimal_digits(n as nat));
        } else {
            assert(out@ =~= old(out)@ + (zeros((width - len) as nat) + decimal_digits(n as nat)));
        }
    }
}

/// The name of a generated task set.
pub fn make_taskset_name(thousandths: u64, num_tasks: u64, index: u64) -> (name: String)
    ensures
        name@ == taskset_name(thousandths as nat, num_tasks as nat, index as nat),
{
    let q = thousandths / 100;
    let r = thousandths % 100;
    let tenths: u64 = if r > 50 || (r == 50 && q % 2 == 1) {
        q + 1
    } else {
        q
    };
    let mut name = String::new();
    push_text(&mut name, "taskset_U");
    push_decimal(&mut name, (tenths / 10) as u128);
    name.push('.');
    push_decimal(&mut name, (tenths % 10) as u128);
    push_text(&mut name, "_N");
    push_padded(&mut name, num_tasks, 2);
    push_text(&mut name, "_");
    push_padded(&mut name, index, 3);
    proof {
        assert(tenths == round_half_even(thousandths as nat, 100));
        assert(name@ =~= taskset_name(thousandths as nat, num_tasks as nat, index as nat));
    }
    name
}

/// The name of a generated reservation.
pub fn make_config_name(prefix: &str, index: u64) -> (name: String)
    ensures
        name@ == config_name(prefix@, index as nat),
{
    let mut name = String::new();
    push_text(&mut name, prefix);
    push_text(&mut name, "_");
    push_padded(&mut name, index, 3);
    proof {
        assert(name@ =~= config_name(prefix@, index as nat));
    }
    name
}

/// A number in base ten holds no white space, with or without zeros in front.
pub proof fn lemma_padded_no_whitespace(n: nat, width: nat)
    ensures
        no_whitespace(decimal_digits(n)),
        no_whitespace(padded_decimal(n, width)),
        padded_decimal(n, width).len() >= 1,
{
    lemma_decimal_digits(n);
    let digits = decimal_digits(n);
    assert forall|i: int| 0 <= i < digits.len() implies !is_whitespace(#[trigger] digits[i]) by {
        assert(crate::text::is_digit(digits[i]));
    }
    let padded = padded_decimal(n, width);
    assert forall|i: int| 0 <= i < padded.len() implies !is_whitespace(#[trigger] padded[i]) by {
        if digits.len() < width {
            if i >= width - digits.len() {
                assert(padded[i] == digits[i - (width - digits.len())]);
            }
        }
    }
}

/// The name of a generated task set is not empty and holds no white space: a task set
/// under it can be written.
pub proof fn lemma_taskset_name_is_writable(thousandths: nat, num_tasks: nat, index: nat)
    ensures
        taskset_name(thousandths, num_tasks, index).len() >= 1,
        no_whitespace(taskset_name(thousandths, num_tasks, index)),
{
    reveal_strlit("taskset_U");
    reveal_strlit("_N");
    reveal_strlit("_");
    let tenths = round_half_even(thousandths, 100);
    lemma_padded_no_whitespace(tenths / 10, 0);
    lemma_padded_no_whitespace(tenths % 10, 0);
    lemma_padded_no_whitespace(num_tasks, 2);
    lemma_padded_no_whitespace(index, 3);
    let a = "taskset_U"@;
    let b = utilization_label(thousandths);
    let c = "_N"@;
    let d = padded_decimal(num_tasks, 2);
    let e = "_"@;
    let f = padded_decimal(index, 3);
    assert(no_whitespace(a));
    assert(no_whitespace(b)) by {
        let whole = decimal_digits(tenths / 10);
        let part = decimal_digits(tenths % 10);
        assert forall|i: int| 0 <= i < b.len() implies !is_whitespace(#[trigger] b[i]) by {
            if i < whole.len() {
                assert(b[i] == whole[i]);
            } else if i == whole.len() {
                assert(b[i] == '.');
            } else {
                assert(b[i] == part[i - whole.len() - 1]);
            }
        }
    }
    lemma_no_whitespace_concat(a, b);
    lemma_no_whitespace_concat(a + b, c);
    lemma_no_whitespace_concat(a + b + c, d);
    lemma_no_whitespace_concat(a + b + c + d, e);
    lemma_no_whitespace_concat(a + b + c + d + e, f);
}

/// The name of a generated reservation holds no white space where its prefix holds none.
pub proof fn lemma_config_name_is_writable(prefix: Seq<char>, index: nat)
    requires
        no_whitespace(prefix),
    ensures
        config_name(prefix, index).len() >= 1,
        no_whitespace(config_name(prefix, index)),
{
    reveal_strlit("_");
    lemma_padded_no_whitespace(index, 3);
    lemma_no_whitespace_concat(prefix, "_"@);
    lemma_no_whitespace_concat(prefix + "_"@, padded_decimal(index, 3));
}

/// Two texts without white space make one without white space.
pub proof fn lemma_no_whitespace_concat(a: Seq<char>, b: Seq<char>)
    requires
        no_whitespace(a),
        no_whitespace(b),
    ensures
        no_whitespace(a + b),
{
    assert forall|i: int| 0 <= i < (a + b).len() implies !is_whitespace(#[trigger] (a + b)[i]) by {
        if i < a.len() {
            assert((a + b)[i] == a[i]);
        } else {
            assert((a + b)[i] == b[i - a.len()]);
        }
    }
}

} // verus!
