//! Composite string keys: search codes (a four-byte family prefix followed by
//! a two-digit, zero-padded slot suffix) and asset link codes (the fixed
//! prefix `COSTUME_` followed by a zero-padded decimal number).

use vstd::prelude::*;

use crate::bytes::all_digits;
use crate::bytes::dec_digits;
use crate::bytes::dec_val;
use crate::bytes::digit_val;
use crate::bytes::fmt_dec_padded;
use crate::bytes::is_digit;
use crate::bytes::lemma_dec_digits_are_digits;
use crate::bytes::lemma_dec_val_of_digits;
use crate::bytes::lemma_dec_val_pad;
use crate::bytes::pad_left;
use crate::bytes::parse_dec;

verus! {

/// A search code ends in a two-digit numeric suffix after its four-byte
/// family prefix.
pub open spec fn valid_search_code(s: Seq<u8>) -> bool {
    s.len() == 6 && is_digit(s[4]) && is_digit(s[5])
}

/// The numeric value of a search code's two-digit suffix.
pub open spec fn sc_suffix(s: Seq<u8>) -> int {
    digit_val(s[4]) * 10 + digit_val(s[5])
}

/// The search code with the same family prefix and suffix `n` (`0 <= n < 100`).
pub open spec fn sc_with_suffix(s: Seq<u8>, n: int) -> Seq<u8> {
    s.take(4) + seq![(48 + n / 10) as u8, (48 + n % 10) as u8]
}

/// The search code whose suffix is one above that of `s`, wrapping at 100.
pub open spec fn bumped_code(s: Seq<u8>) -> Seq<u8> {
    sc_with_suffix(s, (sc_suffix(s) + 1) % 100)
}

/// Increments a search code's two-digit suffix, zero-padded, wrapping at 100;
/// `None` when the code is not of the expected shape.
pub fn bump_search_code(s: &Vec<u8>) -> (r: Option<Vec<u8>>)
    ensures
        r is Some <==> valid_search_code(s@),
        r is Some ==> r->0@ == bumped_code(s@),
{
    if s.len() != 6 {
        return None;
    }
    let d4 = s[4];
    let d5 = s[5];
    if d4 < 48 || d4 > 57 || d5 < 48 || d5 > 57 {
        return None;
    }
    let suffix: u32 = ((d4 - 48) as u32) * 10 + ((d5 - 48) as u32);
    let next: u32 = (suffix + 1) % 100;
    let mut r: Vec<u8> = Vec::new();
    let mut i: usize = 0;
    while i < 4
        invariant
            s@.len() == 6,
            0 <= i <= 4,
            r@ == s@.take(i as int),
        decreases 4 - i,
    {
        let b = s[i];
        r.push(b);
        proof {
            assert(r@ =~= s@.take(i + 1));
        }
        i = i + 1;
    }
    r.push(48 + (next / 10) as u8);
    r.push(48 + (next % 10) as u8);
    proof {
        assert(suffix == sc_suffix(s@));
        assert(r@ =~= bumped_code(s@));
    }
    Some(r)
}

/// The family's base search code: the family code followed by two ASCII zeros.
pub open spec fn base_code_of(code: Seq<u8>) -> Seq<u8> {
    code + seq![48u8, 48u8]
}

pub fn base_search_code(code: &[u8]) -> (r: Vec<u8>)
    ensures
        r@ == base_code_of(code@),
{
    let mut r: Vec<u8> = Vec::new();
    let mut i: usize = 0;
    while i < code.len()
        invariant
            0 <= i <= code@.len(),
            r@ == code@.take(i as int),
        decreases code@.len() - i,
    {
        let b = code[i];
        r.push(b);
        proof {
            assert(r@ =~= code@.take(i + 1));
        }
        i = i + 1;
    }
    r.push(48u8);
    r.push(48u8);
    proof {
        assert(code@.take(code@.len() as int) =~= code@);
        assert(r@ =~= base_code_of(code@));
    }
    r
}

/// The bytes of `COSTUME_`, the fixed prefix of every link code.
pub open spec fn link_prefix() -> Seq<u8> {
    seq![67u8, 79u8, 83u8, 84u8, 85u8, 77u8, 69u8, 95u8]
}

/// The link code for numeric value `n`: `COSTUME_` then `n` zero-padded to at
/// least five digits.
pub open spec fn link_code_of(n: nat) -> Seq<u8> {
    link_prefix() + pad_left(dec_digits(n), 5)
}

/// Index of the last underscore in `s`, or `-1` when there is none.
pub open spec fn last_sep_idx(s: Seq<u8>) -> int
    decreases s.len(),
{
    if s.len() == 0 {
        -1
    } else if s.last() == 95 {
        s.len() - 1
    } else {
        last_sep_idx(s.drop_last())
    }
}

/// What stands after the last underscore of `s` (all of `s` when there is none).
pub open spec fn link_tail(s: Seq<u8>) -> Seq<u8> {
    s.subrange(last_sep_idx(s) + 1, s.len() as int)
}

/// A digit string parses as a `u32`.
pub open spec fn parse_ok(s: Seq<u8>) -> bool {
    s.len() > 0 && all_digits(s) && dec_val(s) <= u32::MAX
}

pub proof fn lemma_last_sep_bounds(s: Seq<u8>)
    ensures
        -1 <= last_sep_idx(s) < s.len(),
        last_sep_idx(s) >= 0 ==> s[last_sep_idx(s)] == 95,
        forall|k: int| last_sep_idx(s) < k < s.len() ==> s[k] != 95,
    decreases s.len(),
{
    if s.len() > 0 && s.last() != 95 {
        lemma_last_sep_bounds(s.drop_last());
        assert(forall|k: int| 0 <= k < s.len() - 1 ==> s[k] == s.drop_last()[k]);
    }
}

/// Appending bytes that hold no underscore does not move the last separator.
pub proof fn lemma_last_sep_append(s: Seq<u8>, t: Seq<u8>)
    requires
        forall|k: int| 0 <= k < t.len() ==> t[k] != 95,
    ensures
        last_sep_idx(s + t) == last_sep_idx(s),
    decreases t.len(),
{
    if t.len() == 0 {
        assert(s + t =~= s);
    } else {
        assert((s + t).last() == t.last());
        assert((s + t).drop_last() =~= s + t.drop_last());
        lemma_last_sep_append(s, t.drop_last());
    }
}

/// Round trip: the tail of a generated link code parses back to its value.
pub proof fn lemma_link_round_trip(n: nat)
    requires
        n <= u32::MAX,
    ensures
        parse_ok(link_tail(link_code_of(n))),
        dec_val(link_tail(link_code_of(n))) == n,
{
    let digits = pad_left(dec_digits(n), 5);
    lemma_dec_digits_are_digits(n);
    lemma_dec_val_pad(dec_digits(n), 5);
    lemma_dec_val_of_digits(n);
    assert(forall|k: int| 0 <= k < digits.len() ==> is_digit(#[trigger] digits[k]));
    assert(forall|k: int| 0 <= k < digits.len() ==> digits[k] != 95);
    lemma_last_sep_append(link_prefix(), digits);
    assert(last_sep_idx(link_prefix()) == 7);
    assert(link_tail(link_code_of(n)) =~= digits);
}

/// Builds the link code for `n`.
pub fn make_link_code(n: u32) -> (r: Vec<u8>)
    ensures
        r@ == link_code_of(n as nat),
{
    let mut r: Vec<u8> = Vec::new();
    r.push(67u8);
    r.push(79u8);
    r.push(83u8);
    r.push(84u8);
    r.push(85u8);
    r.push(77u8);
    r.push(69u8);
    r.push(95u8);
    proof {
        assert(r@ =~= link_prefix());
    }
    let ghost prefix = r@;
    let digits = fmt_dec_padded(n, 5);
    let mut k: usize = 0;
    while k < digits.len()
        invariant
            0 <= k <= digits@.len(),
            r@ == prefix + digits@.take(k as int),
            prefix == link_prefix(),
        decreases digits@.len() - k,
    {
        let b = digits[k];
        r.push(b);
        proof {
            assert(r@ =~= prefix + digits@.take(k + 1));
        }
        k = k + 1;
    }
    proof {
        assert(digits@.take(digits@.len() as int) =~= digits@);
        assert(r@ =~= link_code_of(n as nat));
    }
    r
}

/// Numeric value encoded after the last underscore of a link code; `None`
/// when that tail is empty, non-numeric, or too large for a `u32`.
pub fn link_code_value(s: &Vec<u8>) -> (r: Option<u32>)
    ensures
        r is Some <==> parse_ok(link_tail(s@)),
        r is Some ==> r->0 == dec_val(link_tail(s@)),
{
    proof {
        lemma_last_sep_bounds(s@);
    }
    let mut j: usize = s.len();
    while j > 0 && s[j - 1] != 95
        invariant
            0 <= j <= s@.len(),
            forall|k: int| j <= k < s@.len() ==> s@[k] != 95,
        decreases j,
    {
        j = j - 1;
    }
    proof {
        if j > 0 {
            assert(s@[j - 1] == 95);
            assert(last_sep_idx(s@) == j - 1);
        } else {
            assert(last_sep_idx(s@) == -1);
        }
    }
    let mut tail: Vec<u8> = Vec::new();
    let mut k: usize = j;
    while k < s.len()
        invariant
            j <= k <= s@.len(),
            tail@ == s@.subrange(j as int, k as int),
        decreases s@.len() - k,
    {
        let b = s[k];
        tail.push(b);
        proof {
            assert(tail@ =~= s@.subrange(j as int, k + 1));
        }
        k = k + 1;
    }
    proof {
        assert(tail@ == link_tail(s@));
    }
    parse_dec(tail.as_slice())
}

} // verus!
