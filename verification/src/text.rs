//! Decimal numbers and string building.

use vstd::prelude::*;

verus! {

/// The decimal digit `d`, for `d < 10`.
pub open spec fn digit_char(d: nat) -> char {
    (48 + d % 10) as char
}

/// `n` written in decimal, most significant digit first, without leading zeros.
pub open spec fn dec(n: nat) -> Seq<char>
    decreases n,
{
    if n < 10 {
        seq![digit_char(n)]
    } else {
        dec(n / 10) + seq![digit_char(n % 10)]
    }
}

/// Whether `c` is one of `0` to `9`.
pub open spec fn is_digit(c: char) -> bool {
    48 <= c as int && c as int <= 57
}

/// Whether every character of `s` is a decimal digit.
pub open spec fn all_digits(s: Seq<char>) -> bool {
    forall|i: int| 0 <= i < s.len() ==> is_digit(#[trigger] s[i])
}

/// The number that the decimal digits `s` stand for.
pub open spec fn dec_value(s: Seq<char>) -> nat
    decreases s.len(),
{
    if s.len() == 0 {
        0
    } else {
        dec_value(s.drop_last()) * 10 + (s.last() as int - 48) as nat
    }
}

/// A decimal number is not empty and holds digits only.
pub proof fn lemma_dec_digits(n: nat)
    ensures
        dec(n).len() >= 1,
        all_digits(dec(n)),
    decreases n,
{
    if n >= 10 {
        lemma_dec_digits(n / 10);
    }
}

/// Reading back a decimal number gives the number that was written.
pub proof fn lemma_dec_value(n: nat)
    ensures
        dec_value(dec(n)) == n,
    decreases n,
{
    if n < 10 {
        let s = dec(n);
        assert(s.drop_last() =~= Seq::<char>::empty());
        assert(dec_value(s.drop_last()) == 0);
        assert(s.last() as int == 48 + n);
    } else {
        lemma_dec_value(n / 10);
        let s = dec(n);
        assert(s.drop_last() =~= dec(n / 10));
        assert(s.last() as int == 48 + n % 10);
    }
}

/// Two numbers that are written alike are equal.
pub proof fn lemma_dec_injective(m: nat, n: nat)
    requires
        dec(m) == dec(n),
    ensures
        m == n,
{
    lemma_dec_value(m);
    lemma_dec_value(n);
}

fn digit_str(d: u8) -> (s: &'static str)
    requires
        d < 10,
    ensures
        s@ == seq![digit_char(d as nat)],
{
    proof {
        reveal_strlit("0");
        reveal_strlit("1");
        reveal_strlit("2");
        reveal_strlit("3");
        reveal_strlit("4");
        reveal_strlit("5");
        reveal_strlit("6");
        reveal_strlit("7");
        reveal_strlit("8");
        reveal_strlit("9");
    }
    if d == 0 {
        "0"
    } else if d == 1 {
        "1"
    } else if d == 2 {
        "2"
    } else if d == 3 {
        "3"
    } else if d == 4 {
        "4"
    } else if d == 5 {
        "5"
    } else if d == 6 {
        "6"
    } else if d == 7 {
        "7"
    } else if d == 8 {
        "8"
    } else {
        "9"
    }
}

/// Appends `n` in decimal to `out`.
pub fn push_dec(out: &mut String, n: u64)
    ensures
        final(out)@ == old(out)@ + dec(n as nat),
    decreases n,
{
    if n >= 10 {
        push_dec(out, n / 10);
    }
    let d: u8 = (n % 10) as u8;
    let s = digit_str(d);
    out.append(s);
    proof {
        assert(digit_char((n as nat) % 10) == digit_char(d as nat));
        assert(out@ =~= old(out)@ + dec(n as nat));
    }
}

/// A copy of `s` as an owned string.
pub fn owned(s: &str) -> (r: String)
    ensures
        r@ == s@,
{
    s.to_owned()
}

/// Whether `a` and `b` hold the same characters.
pub fn str_eq(a: &str, b: &str) -> (r: bool)
    ensures
        r == (a@ == b@),
{
    a.to_owned() == b.to_owned()
}

/// `s` ends with `suffix`.
pub open spec fn spec_ends_with(s: Seq<char>, suffix: Seq<char>) -> bool {
    s.len() >= suffix.len() && s.skip(s.len() - suffix.len()) == suffix
}

/// Whether `s` ends with `suffix`.
pub fn ends_with(s: &str, suffix: &str) -> (r: bool)
    ensures
        r == spec_ends_with(s@, suffix@),
{
    let n: usize = s.unicode_len();
    let k: usize = suffix.unicode_len();
    if n < k {
        return false;
    }
    let tail = s.substring_char(n - k, n);
    proof {
        assert(tail@ =~= s@.skip(s@.len() - suffix@.len()));
    }
    str_eq(tail, suffix)
}

/// The first `n` dims, separated by commas.
pub open spec fn dims_list(dims: Seq<u64>, n: nat) -> Seq<char>
    decreases n,
{
    if n == 0 {
        seq![]
    } else if n == 1 {
        dec(dims[0] as nat)
    } else {
        dims_list(dims, (n - 1) as nat) + ", "@ + dec(dims[n - 1] as nat)
    }
}

/// Dims in square brackets.
pub open spec fn dims_text(dims: Seq<u64>) -> Seq<char> {
    "["@ + dims_list(dims, dims.len()) + "]"@
}

/// Appends dims in square brackets.
pub fn push_dims(out: &mut String, dims: &Vec<u64>)
    ensures
        final(out)@ == old(out)@ + dims_text(dims@),
{
    let ghost base = out@;
    out.append("[");
    let ghost start = out@;
    let mut i: usize = 0;
    proof {
        assert(out@ =~= start + dims_list(dims@, 0));
    }
    while i < dims.len()
        invariant
            i <= dims@.len(),
            out@ == start + dims_list(dims@, i as nat),
        decreases dims@.len() - i,
    {
        if i > 0 {
            out.append(", ");
        }
        push_dec(out, dims[i]);
        proof {
            assert(out@ =~= start + dims_list(dims@, (i + 1) as nat));
        }
        i = i + 1;
    }
    out.append("]");
    proof {
        assert(out@ =~= base + dims_text(dims@));
    }
}

/// "true" or "false".
pub open spec fn bool_text(b: bool) -> Seq<char> {
    if b {
        "true"@
    } else {
        "false"@
    }
}

pub fn bool_str(b: bool) -> (r: &'static str)
    ensures
        r@ == bool_text(b),
{
    if b {
        "true"
    } else {
        "false"
    }
}

/// `needle` stands in `s` at position `i`.
pub open spec fn found_at(s: Seq<char>, needle: Seq<char>, i: int) -> bool {
    0 <= i && i + needle.len() <= s.len() && s.subrange(i, i + needle.len()) == needle
}

/// `needle` stands somewhere in `s`.
pub open spec fn spec_contains(s: Seq<char>, needle: Seq<char>) -> bool {
    exists|i: int| found_at(s, needle, i)
}

/// Whether `needle` stands somewhere in `s`.
pub fn contains_str(s: &str, needle: &str) -> (r: bool)
    ensures
        r == spec_contains(s@, needle@),
{
    let n: usize = s.unicode_len();
    let k: usize = needle.unicode_len();
    if k > n {
        proof {
            assert(forall|i: int| !found_at(s@, needle@, i));
        }
        return false;
    }
    let mut i: usize = 0;
    while i <= n - k
        invariant
            n == s@.len(),
            k == needle@.len(),
            k <= n,
            i <= n - k + 1,
            forall|j: int| 0 <= j < i ==> !found_at(s@, needle@, j),
        decreases n - k + 1 - i,
    {
        let part = s.substring_char(i, i + k);
        if str_eq(part, needle) {
            proof {
                assert(found_at(s@, needle@, i as int));
            }
            return true;
        }
        proof {
            assert(!found_at(s@, needle@, i as int));
        }
        if i == n - k {
            proof {
                assert(forall|j: int| !found_at(s@, needle@, j));
            }
            return false;
        }
        i = i + 1;
    }
    false
}

/// `s` without `suffix` at its end.
pub fn strip_suffix<'a>(s: &'a str, suffix: &str) -> (r: Option<&'a str>)
    ensures
        match r {
            Some(t) => spec_ends_with(s@, suffix@) && t@ == s@.take(s@.len() - suffix@.len()),
            None => !spec_ends_with(s@, suffix@),
        },
{
    if !ends_with(s, suffix) {
        return None;
    }
    let n: usize = s.unicode_len();
    let k: usize = suffix.unicode_len();
    Some(s.substring_char(0, n - k))
}

} // verus!
