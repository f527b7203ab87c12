//! Byte-string utilities: decimal parsing and formatting, substring search,
//! and the composite search codes (four-byte family prefix followed by a
//! two-digit, zero-padded numeric suffix) used as record keys.

use vstd::prelude::*;

verus! {

/// ASCII digit test: `b'0' <= b <= b'9'`.
pub open spec fn is_digit(b: u8) -> bool {
    48 <= b <= 57
}

/// Numeric value of an ASCII digit.
pub open spec fn digit_val(b: u8) -> int {
    b - 48
}

pub open spec fn all_digits(s: Seq<u8>) -> bool {
    forall|i: int| 0 <= i < s.len() ==> is_digit(#[trigger] s[i])
}

/// Value of a decimal digit string, most significant digit first.
pub open spec fn dec_val(s: Seq<u8>) -> int
    decreases s.len(),
{
    if s.len() == 0 {
        0
    } else {
        dec_val(s.drop_last()) * 10 + digit_val(s.last())
    }
}

/// The minimal decimal digit string of `n`, most significant digit first.
pub open spec fn dec_digits(n: nat) -> Seq<u8>
    decreases n,
{
    if n < 10 {
        seq![(48 + n) as u8]
    } else {
        dec_digits(n / 10).push((48 + n % 10) as u8)
    }
}

/// `s` left-padded with ASCII zeros to at least `w` bytes.
pub open spec fn pad_left(s: Seq<u8>, w: nat) -> Seq<u8> {
    if s.len() >= w {
        s
    } else {
        Seq::new((w - s.len()) as nat, |i: int| 48u8) + s
    }
}

pub proof fn lemma_dec_digits_are_digits(n: nat)
    ensures
        all_digits(dec_digits(n)),
        dec_digits(n).len() >= 1,
    decreases n,
{
    if n >= 10 {
        lemma_dec_digits_are_digits(n / 10);
    }
}

pub proof fn lemma_dec_val_of_digits(n: nat)
    ensures
        dec_val(dec_digits(n)) == n,
    decreases n,
{
    assert(dec_val(Seq::<u8>::empty()) == 0);
    if n < 10 {
        assert(dec_digits(n).drop_last() =~= Seq::<u8>::empty());
        assert(dec_digits(n).last() == (48 + n) as u8);
        assert((48 + n) as u8 == 48 + n);
        assert(dec_val(dec_digits(n)) == 0 * 10 + digit_val((48 + n) as u8));
    } else {
        lemma_dec_val_of_digits(n / 10);
        assert(dec_digits(n).drop_last() =~= dec_digits(n / 10));
        assert(dec_digits(n).last() == (48 + n % 10) as u8);
        assert((48 + n % 10) as u8 == 48 + n % 10);
        assert(dec_val(dec_digits(n)) == dec_val(dec_digits(n / 10)) * 10 + digit_val(
            (48 + n % 10) as u8,
        ));
    }
}

/// Prepending an ASCII zero does not change the value of a digit string.
pub proof fn lemma_dec_val_cons_zero(s: Seq<u8>)
    ensures
        dec_val(seq![48u8] + s) == dec_val(s),
    decreases s.len(),
{
    assert(dec_val(Seq::<u8>::empty()) == 0);
    if s.len() == 0 {
        assert((seq![48u8] + s).drop_last() =~= Seq::<u8>::empty());
        assert((seq![48u8] + s).last() == 48u8);
        assert(dec_val(seq![48u8] + s) == 0 * 10 + digit_val(48u8));
    } else {
        lemma_dec_val_cons_zero(s.drop_last());
        assert((seq![48u8] + s).drop_last() =~= seq![48u8] + s.drop_last());
        assert((seq![48u8] + s).last() == s.last());
        assert(dec_val(seq![48u8] + s) == dec_val(seq![48u8] + s.drop_last()) * 10 + digit_val(
            s.last(),
        ));
    }
}

pub proof fn lemma_dec_val_pad(s: Seq<u8>, w: nat)
    ensures
        dec_val(pad_left(s, w)) == dec_val(s),
        all_digits(s) ==> all_digits(pad_left(s, w)),
        pad_left(s, w).len() >= w,
        pad_left(s, w).len() >= s.len(),
    decreases w,
{
    if s.len() < w {
        lemma_dec_val_pad(s, (w - 1) as nat);
        assert(pad_left(s, w) =~= seq![48u8] + pad_left(s, (w - 1) as nat));
        lemma_dec_val_cons_zero(pad_left(s, (w - 1) as nat));
    }
}

/// Appending digits never lowers the value of a digit string.
pub proof fn lemma_dec_val_extend(s: Seq<u8>, t: Seq<u8>)
    requires
        all_digits(s + t),
    ensures
        dec_val(s + t) >= dec_val(s),
        dec_val(s) >= 0 ==> dec_val(s + t) >= dec_val(s),
    decreases t.len(),
{
    lemma_dec_val_nonneg(s + t);
    assert(all_digits(s)) by {
        assert(forall|i: int| 0 <= i < s.len() ==> #[trigger] s[i] == (s + t)[i]);
    }
    lemma_dec_val_nonneg(s);
    if t.len() == 0 {
        assert(s + t =~= s);
    } else {
        assert(s + t.drop_last() =~= (s + t).drop_last());
        assert(all_digits(s + t.drop_last()));
        lemma_dec_val_extend(s, t.drop_last());
        assert(dec_val(s + t) == dec_val((s + t).drop_last()) * 10 + digit_val((s + t).last()));
    }
}

pub proof fn lemma_dec_val_nonneg(s: Seq<u8>)
    requires
        all_digits(s),
    ensures
        dec_val(s) >= 0,
    decreases s.len(),
{
    if s.len() > 0 {
        assert(all_digits(s.drop_last()));
        lemma_dec_val_nonneg(s.drop_last());
        assert(is_digit(s[s.len() - 1]));
    }
}

/// Formats `v` in decimal, left-padded with zeros to at least `width` bytes.
pub fn fmt_dec_padded(v: u32, width: usize) -> (r: Vec<u8>)
    ensures
        r@ == pad_left(dec_digits(v as nat), width as nat),
{
    let mut tmp: Vec<u8> = Vec::new();
    let mut x = v;
    if x == 0 {
        tmp.push(48u8);
        proof {
            assert(dec_digits(0nat) =~= tmp@.reverse());
        }
    }
    proof {
        if x > 0 {
            assert(dec_digits(v as nat) =~= dec_digits(x as nat) + tmp@.reverse());
        }
    }
    while x > 0
        invariant
            x > 0 ==> dec_digits(v as nat) == dec_digits(x as nat) + tmp@.reverse(),
            x == 0 ==> dec_digits(v as nat) == tmp@.reverse() && tmp@.len() >= 1,
        decreases x,
    {
        let d: u8 = 48 + (x % 10) as u8;
        let ghost old_tmp = tmp@;
        let ghost old_x = x;
        tmp.push(d);
        x = x / 10;
        proof {
            assert(tmp@.reverse() =~= seq![d] + old_tmp.reverse());
            if old_x < 10 {
                assert(dec_digits(old_x as nat) == seq![(48 + old_x as nat) as u8]);
                assert(dec_digits(v as nat) =~= tmp@.reverse());
            } else {
                assert(dec_digits(old_x as nat) == dec_digits(old_x as nat / 10).push(
                    (48 + old_x as nat % 10) as u8,
                ));
                assert(dec_digits(old_x as nat) =~= dec_digits(x as nat) + seq![d]);
                assert(dec_digits(v as nat) =~= dec_digits(x as nat) + tmp@.reverse());
            }
        }
    }
    let mut r: Vec<u8> = Vec::new();
    let ghost target = pad_left(dec_digits(v as nat), width as nat);
    while r.len() + tmp.len() < width
        invariant
            dec_digits(v as nat) == tmp@.reverse(),
            forall|k: int| 0 <= k < r@.len() ==> r@[k] == 48u8,
            r@.len() + tmp@.len() <= width || r@.len() == 0,
        decreases width - r.len(),
    {
        r.push(48u8);
    }
    let ghost pad_len = r@.len();
    let mut j = tmp.len();
    while j > 0
        invariant
            dec_digits(v as nat) == tmp@.reverse(),
            j <= tmp@.len(),
            r@.len() == pad_len + (tmp@.len() - j),
            forall|k: int| 0 <= k < pad_len ==> r@[k] == 48u8,
            forall|k: int| pad_len <= k < r@.len() ==> r@[k] == tmp@[tmp@.len() - 1 - (k
                - pad_len)],
        decreases j,
    {
        j = j - 1;
        r.push(tmp[j]);
    }
    proof {
        let digs = dec_digits(v as nat);
        assert(digs.len() == tmp@.len());
        assert(forall|k: int| 0 <= k < digs.len() ==> digs[k] == tmp@[tmp@.len() - 1 - k]);
        if digs.len() >= width as nat {
            assert(pad_len == 0);
            assert(r@ =~= pad_left(digs, width as nat));
        } else {
            assert(pad_len == width - digs.len());
            assert(r@ =~= pad_left(digs, width as nat));
        }
    }
    r
}

/// Parses a decimal digit string; `None` when it is empty, holds a non-digit
/// byte, or its value exceeds `u32::MAX`.
pub fn parse_dec(s: &[u8]) -> (r: Option<u32>)
    ensures
        r is Some <==> s@.len() > 0 && all_digits(s@) && dec_val(s@) <= u32::MAX,
        r is Some ==> r->0 == dec_val(s@),
{
    if s.len() == 0 {
        return None;
    }
    let mut acc: u32 = 0;
    let mut i: usize = 0;
    while i < s.len()
        invariant
            0 <= i <= s@.len(),
            all_digits(s@.take(i as int)),
            acc == dec_val(s@.take(i as int)),
        decreases s@.len() - i,
    {
        let b = s[i];
        if b < 48 || b > 57 {
            assert(!is_digit(s@[i as int]));
            return None;
        }
        let d: u32 = (b - 48) as u32;
        if acc > (u32::MAX - d) / 10 {
            proof {
                let p = s@.take(i as int + 1);
                assert(p.drop_last() =~= s@.take(i as int));
                assert(p.last() == s@[i as int]);
                assert(dec_val(p) == acc * 10 + d);
                assert(dec_val(p) > u32::MAX);
                if all_digits(s@) && dec_val(s@) <= u32::MAX {
                    assert(s@ =~= p + s@.skip(i as int + 1));
                    assert(all_digits(p + s@.skip(i as int + 1)));
                    lemma_dec_val_extend(p, s@.skip(i as int + 1));
                }
            }
            return None;
        }
        proof {
            let p = s@.take(i as int + 1);
            assert(p.drop_last() =~= s@.take(i as int));
            assert(p.last() == s@[i as int]);
        }
        acc = acc * 10 + d;
        i = i + 1;
    }
    proof {
        assert(s@.take(i as int) =~= s@);
    }
    Some(acc)
}

/// A fresh copy of a byte string.
pub fn clone_bytes(v: &Vec<u8>) -> (r: Vec<u8>)
    ensures
        r@ == v@,
{
    let mut r: Vec<u8> = Vec::new();
    let mut i: usize = 0;
    while i < v.len()
        invariant
            0 <= i <= v@.len(),
            r@ == v@.take(i as int),
        decreases v@.len() - i,
    {
        let b = v[i];
        r.push(b);
        proof {
            assert(r@ =~= v@.take(i + 1));
        }
        i = i + 1;
    }
    proof {
        assert(v@.take(v@.len() as int) =~= v@);
    }
    r
}

/// Element-wise equality of two byte strings.
pub fn bytes_eq(a: &[u8], b: &[u8]) -> (r: bool)
    ensures
        r <==> a@ == b@,
{
    if a.len() != b.len() {
        return false;
    }
    let mut i: usize = 0;
    while i < a.len()
        invariant
            a@.len() == b@.len(),
            0 <= i <= a@.len(),
            forall|k: int| 0 <= k < i ==> a@[k] == b@[k],
        decreases a@.len() - i,
    {
        if a[i] != b[i] {
            return false;
        }
        i = i + 1;
    }
    proof {
        assert(a@ =~= b@);
    }
    true
}

/// `needle` occurs in `hay` starting at position `i`.
pub open spec fn contains_at(hay: Seq<u8>, needle: Seq<u8>, i: int) -> bool {
    0 <= i && i + needle.len() <= hay.len() && hay.subrange(i, i + needle.len()) == needle
}

/// `needle` occurs somewhere in `hay`.
pub open spec fn contains_sub(hay: Seq<u8>, needle: Seq<u8>) -> bool {
    exists|i: int| contains_at(hay, needle, i)
}

/// Substring search.
pub fn contains_bytes(hay: &[u8], needle: &[u8]) -> (r: bool)
    ensures
        r <==> contains_sub(hay@, needle@),
{
    if needle.len() > hay.len() {
        assert(forall|i: int| !contains_at(hay@, needle@, i));
        return false;
    }
    let mut i: usize = 0;
    while i <= hay.len() - needle.len()
        invariant
            hay@.len() <= usize::MAX,
            needle@.len() <= hay@.len(),
            0 <= i <= hay@.len() - needle@.len() + 1,
            forall|k: int| 0 <= k < i ==> !contains_at(hay@, needle@, k),
        decreases hay@.len() - needle@.len() - i + 1,
    {
        let mut j: usize = 0;
        let mut matched = true;
        while j < needle.len()
            invariant
                hay@.len() <= usize::MAX,
                needle@.len() <= hay@.len(),
                0 <= i <= hay@.len() - needle@.len(),
                0 <= j <= needle@.len(),
                matched <==> forall|k: int| 0 <= k < j ==> hay@[i + k] == needle@[k],
            decreases needle@.len() - j,
        {
            if hay[i + j] != needle[j] {
                matched = false;
                j = needle.len();
            } else {
                j = j + 1;
            }
        }
        if matched {
            proof {
                assert(hay@.subrange(i as int, i + needle@.len()) =~= needle@);
                assert(contains_at(hay@, needle@, i as int));
            }
            return true;
        }
        proof {
            if contains_at(hay@, needle@, i as int) {
                assert(forall|k: int|
                    0 <= k < needle@.len() ==> #[trigger] hay@.subrange(
                        i as int,
                        i + needle@.len(),
                    )[k] == hay@[i + k]);
            }
        }
        i = i + 1;
    }
    proof {
        assert(forall|k: int| contains_at(hay@, needle@, k) ==> 0 <= k < i);
    }
    false
}

} // verus!
