//! The two processing orders of the derivation steps: costume specifications
//! sorted by family code and then by model index, ascending for the
//! player-setting step and descending for the costume-variant step. The sort
//! is stable: ties keep their configuration order.

use vstd::prelude::*;

use crate::bytes::bytes_eq;
use crate::records::CostumeConfig;
use crate::records::CostumeConfigV;
use crate::records::lemma_vseq_insert;
use crate::records::lemma_vseq_take;
use crate::records::vseq;

verus! {

/// Strict lexicographic byte order.
pub open spec fn lex_lt(a: Seq<u8>, b: Seq<u8>) -> bool
    decreases a.len(),
{
    if b.len() == 0 {
        false
    } else if a.len() == 0 {
        true
    } else if a.first() < b.first() {
        true
    } else if a.first() > b.first() {
        false
    } else {
        lex_lt(a.drop_first(), b.drop_first())
    }
}

pub fn lex_lt_bytes(a: &Vec<u8>, b: &Vec<u8>) -> (r: bool)
    ensures
        r == lex_lt(a@, b@),
{
    let mut i: usize = 0;
    proof {
        assert(a@.skip(0) =~= a@);
        assert(b@.skip(0) =~= b@);
    }
    while i < a.len() && i < b.len() && a[i] == b[i]
        invariant
            0 <= i <= a@.len(),
            0 <= i <= b@.len(),
            lex_lt(a@, b@) == lex_lt(a@.skip(i as int), b@.skip(i as int)),
        decreases a@.len() - i,
    {
        proof {
            assert(a@.skip(i as int).drop_first() =~= a@.skip(i + 1));
            assert(b@.skip(i as int).drop_first() =~= b@.skip(i + 1));
            assert(a@.skip(i as int).first() == a@[i as int]);
            assert(b@.skip(i as int).first() == b@[i as int]);
        }
        i = i + 1;
    }
    if i == b.len() {
        assert(b@.skip(i as int).len() == 0);
        false
    } else if i == a.len() {
        assert(a@.skip(i as int).len() == 0);
        true
    } else {
        proof {
            assert(a@.skip(i as int).first() == a@[i as int]);
            assert(b@.skip(i as int).first() == b@[i as int]);
        }
        a[i] < b[i]
    }
}

/// Family code ascending, then model index ascending.
pub open spec fn cfg_lt_asc(a: CostumeConfigV, b: CostumeConfigV) -> bool {
    lex_lt(a.character_code, b.character_code) || (a.character_code == b.character_code
        && a.model_index < b.model_index)
}

/// Family code ascending, then model index descending.
pub open spec fn cfg_lt_desc(a: CostumeConfigV, b: CostumeConfigV) -> bool {
    lex_lt(a.character_code, b.character_code) || (a.character_code == b.character_code
        && a.model_index > b.model_index)
}

pub open spec fn cfg_lt(a: CostumeConfigV, b: CostumeConfigV, desc_model: bool) -> bool {
    if desc_model {
        cfg_lt_desc(a, b)
    } else {
        cfg_lt_asc(a, b)
    }
}

pub fn cfg_lt_exec(a: &CostumeConfig, b: &CostumeConfig, desc_model: bool) -> (r: bool)
    ensures
        r == cfg_lt(a@, b@, desc_model),
{
    if lex_lt_bytes(&a.character_code, &b.character_code) {
        true
    } else if bytes_eq(a.character_code.as_slice(), b.character_code.as_slice()) {
        if desc_model {
            a.model_index > b.model_index
        } else {
            a.model_index < b.model_index
        }
    } else {
        false
    }
}

/// `x` placed into `s` after every element not strictly above it.
pub open spec fn insert_sorted(x: CostumeConfigV, s: Seq<CostumeConfigV>, desc_model: bool) -> Seq<
    CostumeConfigV,
>
    decreases s.len(),
{
    if s.len() == 0 {
        seq![x]
    } else if cfg_lt(x, s[0], desc_model) {
        seq![x] + s
    } else {
        seq![s[0]] + insert_sorted(x, s.drop_first(), desc_model)
    }
}

/// Stable insertion sort of the costume specifications.
pub open spec fn sort_specs(s: Seq<CostumeConfigV>, desc_model: bool) -> Seq<CostumeConfigV>
    decreases s.len(),
{
    if s.len() == 0 {
        s
    } else {
        insert_sorted(s.last(), sort_specs(s.drop_last(), desc_model), desc_model)
    }
}

pub proof fn lemma_insert_sorted_len(x: CostumeConfigV, s: Seq<CostumeConfigV>, desc_model: bool)
    ensures
        insert_sorted(x, s, desc_model).len() == s.len() + 1,
    decreases s.len(),
{
    if s.len() > 0 && !cfg_lt(x, s[0], desc_model) {
        lemma_insert_sorted_len(x, s.drop_first(), desc_model);
    }
}

pub proof fn lemma_sort_specs_len(s: Seq<CostumeConfigV>, desc_model: bool)
    ensures
        sort_specs(s, desc_model).len() == s.len(),
    decreases s.len(),
{
    if s.len() > 0 {
        lemma_sort_specs_len(s.drop_last(), desc_model);
        lemma_insert_sorted_len(s.last(), sort_specs(s.drop_last(), desc_model), desc_model);
    }
}

proof fn lemma_insert_at(x: CostumeConfigV, s: Seq<CostumeConfigV>, desc_model: bool, j: int)
    requires
        0 <= j <= s.len(),
        forall|k: int| 0 <= k < j ==> !cfg_lt(x, #[trigger] s[k], desc_model),
        j < s.len() ==> cfg_lt(x, s[j], desc_model),
    ensures
        insert_sorted(x, s, desc_model) == s.take(j) + seq![x] + s.skip(j),
    decreases j,
{
    if j == 0 {
        if s.len() == 0 {
            assert(insert_sorted(x, s, desc_model) =~= s.take(0) + seq![x] + s.skip(0));
        } else {
            assert(cfg_lt(x, s[0], desc_model));
            assert(insert_sorted(x, s, desc_model) =~= s.take(0) + seq![x] + s.skip(0));
        }
    } else {
        let df = s.drop_first();
        assert(!cfg_lt(x, s[0], desc_model));
        assert(forall|k: int| 0 <= k < j - 1 ==> #[trigger] df[k] == s[k + 1]);
        lemma_insert_at(x, df, desc_model, j - 1);
        assert(seq![s[0]] + (df.take(j - 1) + seq![x] + df.skip(j - 1)) =~= s.take(j) + seq![x]
            + s.skip(j));
    }
}

fn insert_pos(x: &CostumeConfig, r: &Vec<CostumeConfig>, desc_model: bool) -> (j: usize)
    ensures
        0 <= j <= r@.len(),
        forall|k: int| 0 <= k < j ==> !cfg_lt(x@, #[trigger] vseq(r@)[k], desc_model),
        j < r@.len() ==> cfg_lt(x@, vseq(r@)[j as int], desc_model),
{
    let mut j: usize = 0;
    while j < r.len()
        invariant
            0 <= j <= r@.len(),
            forall|k: int| 0 <= k < j ==> !cfg_lt(x@, #[trigger] vseq(r@)[k], desc_model),
        decreases r@.len() - j,
    {
        if cfg_lt_exec(x, &r[j], desc_model) {
            assert(vseq(r@)[j as int] == r@[j as int]@);
            return j;
        }
        assert(vseq(r@)[j as int] == r@[j as int]@);
        j = j + 1;
    }
    j
}

/// A copy of `v`, sorted by family code and then by model index, ascending
/// when `desc_model` is false and descending when it is true; ties keep their
/// original order.
pub fn sort_costumes(v: &Vec<CostumeConfig>, desc_model: bool) -> (r: Vec<CostumeConfig>)
    ensures
        vseq(r@) == sort_specs(vseq(v@), desc_model),
{
    let mut r: Vec<CostumeConfig> = Vec::new();
    let mut i: usize = 0;
    while i < v.len()
        invariant
            0 <= i <= v@.len(),
            vseq(r@) == sort_specs(vseq(v@.take(i as int)), desc_model),
        decreases v@.len() - i,
    {
        let x = v[i].duplicate();
        let j = insert_pos(&x, &r, desc_model);
        let ghost old_r = r@;
        r.insert(j, x);
        proof {
            lemma_insert_at(x@, vseq(old_r), desc_model, j as int);
            lemma_vseq_insert(old_r, j as int, x);
            assert(old_r.insert(j as int, x) =~= old_r.take(j as int) + seq![x] + old_r.skip(
                j as int,
            ));
            assert(vseq(old_r).insert(j as int, x@) =~= vseq(old_r).take(j as int) + seq![x@]
                + vseq(old_r).skip(j as int));
            assert(vseq(old_r).take(j as int) =~= vseq(old_r.take(j as int)));
            assert(vseq(old_r).skip(j as int) =~= vseq(old_r.skip(j as int)));
            assert(vseq(r@) == insert_sorted(x@, vseq(old_r), desc_model));
            lemma_vseq_take(v@, i as int);
            lemma_vseq_take(v@, i + 1);
            assert(vseq(v@.take(i + 1)).drop_last() =~= vseq(v@.take(i as int)));
            assert(vseq(v@.take(i + 1)).last() == x@);
            assert(vseq(r@) == sort_specs(vseq(v@.take(i + 1)), desc_model));
        }
        i = i + 1;
    }
    proof {
        assert(v@.take(v@.len() as int) =~= v@);
    }
    r
}

} // verus!
