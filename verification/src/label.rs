//! Extracting the class label from a training file's name: the decimal
//! digits before the first underscore.

use crate::NetError;
use vstd::prelude::*;

verus! {

/// Whether a character is a decimal digit.
pub open spec fn is_digit_char(c: char) -> bool {
    48 <= c as u32 && c as u32 <= 57
}

/// The value of a decimal digit character.
pub open spec fn digit_val(c: char) -> nat {
    (c as u32 - 48) as nat
}

/// The length of the label prefix: the index of the first underscore, or the
/// whole length when there is none.
pub open spec fn prefix_len(s: Seq<char>) -> int
    decreases s.len(),
{
    if s.len() == 0 {
        0
    } else if s[0] == '_' {
        0
    } else {
        1 + prefix_len(s.drop_first())
    }
}

/// The number the digit characters of `s` spell in base ten.
pub open spec fn digits_val(s: Seq<char>) -> nat
    decreases s.len(),
{
    if s.len() == 0 {
        0
    } else {
        digits_val(s.drop_last()) * 10 + digit_val(s.last())
    }
}

/// `prefix_len` is the position of the first underscore, or the length.
proof fn lemma_prefix_len(s: Seq<char>, e: int)
    requires
        0 <= e <= s.len(),
        forall|k: int| 0 <= k < e ==> s[k] != '_',
        e == s.len() || s[e] == '_',
    ensures
        prefix_len(s) == e,
    decreases e,
{
    if s.len() == 0 {
    } else if s[0] == '_' {
        assert(e == 0);
    } else {
        assert(e >= 1);
        lemma_prefix_len(s.drop_first(), e - 1);
    }
}

/// Reading one more digit multiplies the value by ten and adds the digit.
proof fn lemma_digits_val_step(s: Seq<char>, k: int)
    requires
        0 <= k < s.len(),
    ensures
        digits_val(s.take(k + 1)) == digits_val(s.take(k)) * 10 + digit_val(s[k]),
{
    assert(s.take(k + 1).drop_last() =~= s.take(k));
    assert(s.take(k + 1).last() == s[k]);
}

/// The value of a digit prefix never shrinks as it grows.
proof fn lemma_digits_val_mono(s: Seq<char>, a: int, b: int)
    requires
        0 <= a <= b <= s.len(),
    ensures
        digits_val(s.take(a)) <= digits_val(s.take(b)),
    decreases b - a,
{
    if a < b {
        lemma_digits_val_mono(s, a, b - 1);
        lemma_digits_val_step(s, b - 1);
        assert(digits_val(s.take(b - 1)) * 10 >= digits_val(s.take(b - 1)))
            by (nonlinear_arith);
    }
}

/// The class label a training file's name carries: the decimal number its
/// characters spell before the first underscore (or to the end, when there
/// is none). `LabelParseError` if and only if that prefix is empty, holds a
/// non-digit, or spells a number too large for `usize`.
pub fn extract_label(filename: &str) -> (r: Result<usize, NetError>)
    ensures
        r is Ok <==> (prefix_len(filename@) > 0 && (forall|k: int|
            0 <= k < prefix_len(filename@) ==> is_digit_char(#[trigger] filename@[k]))
            && digits_val(filename@.take(prefix_len(filename@))) <= usize::MAX),
        r matches Ok(v) ==> v == digits_val(filename@.take(prefix_len(filename@))),
        r is Err ==> r == Err::<usize, NetError>(NetError::LabelParseError),
{
    let ghost s = filename@;
    let n = filename.unicode_len();
    let mut e: usize = 0;
    while e < n
        invariant
            n == s.len(),
            s == filename@,
            0 <= e <= n,
            forall|k: int| 0 <= k < e ==> s[k] != '_',
        ensures
            0 <= e <= n,
            forall|k: int| 0 <= k < e ==> s[k] != '_',
            e == n || s[e as int] == '_',
        decreases n - e,
    {
        if filename.get_char(e) == '_' {
            break ;
        }
        e = e + 1;
    }
    proof {
        lemma_prefix_len(s, e as int);
    }
    if e == 0 {
        return Err(NetError::LabelParseError);
    }
    let mut acc: usize = 0;
    let mut k: usize = 0;
    while k < e
        invariant
            n == s.len(),
            s == filename@,
            0 < e <= n,
            prefix_len(s) == e,
            0 <= k <= e,
            forall|k2: int| 0 <= k2 < k ==> is_digit_char(#[trigger] s[k2]),
            acc == digits_val(s.take(k as int)),
        decreases e - k,
    {
        let c = filename.get_char(k);
        let cv = c as u32;
        if cv < 48 || cv > 57 {
            return Err(NetError::LabelParseError);
        }
        let d = (cv - 48) as usize;
        proof {
            lemma_digits_val_step(s, k as int);
        }
        let stepped = match acc.checked_mul(10) {
            Some(p) => p.checked_add(d),
            None => None,
        };
        match stepped {
            Some(v) => {
                acc = v;
            },
            None => {
                proof {
                    assert(digits_val(s.take(k as int + 1)) > usize::MAX);
                    lemma_digits_val_mono(s, k as int + 1, e as int);
                }
                return Err(NetError::LabelParseError);
            },
        }
        k = k + 1;
    }
    Ok(acc)
}

} // verus!
