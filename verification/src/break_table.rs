//! Costume-break derivation: for each costume whose specification asks for a
//! break variant, resolve the family slot through the family's base
//! player-setting record, clone the break record of that slot with the least
//! costume index, patch in the costume's model index, and append — unless a
//! record with that (costume index, slot) pair already stands in the table.

use vstd::prelude::*;

use crate::codes::base_code_of;
use crate::codes::base_search_code;
use crate::find::exists_where;
use crate::find::first_min_where;
use crate::records::BreakRecord;
use crate::records::BreakRecordV;
use crate::records::CostumeAddConfig;
use crate::records::CostumeConfigV;
use crate::records::EngineError;
use crate::records::PlayerSettingRecord;
use crate::records::PlayerSettingRecordV;
use crate::records::clone_break_table;
use crate::records::vseq;
use crate::player_setting::ps_code_p;
use crate::player_setting::ps_find_min_code;
use crate::player_setting::ps_id_key;

verus! {

/// The record sits in family slot `slot`.
pub open spec fn br_slot_p(slot: u32) -> spec_fn(BreakRecordV) -> bool {
    |r: BreakRecordV| r.slot_index == slot
}

/// Selection key: the record's costume index.
pub open spec fn br_index_key() -> spec_fn(BreakRecordV) -> int {
    |r: BreakRecordV| r.costume_index as int
}

/// The record already represents (costume index, slot).
pub open spec fn br_guard_p(idx: i32, slot: u32) -> spec_fn(BreakRecordV) -> bool {
    |r: BreakRecordV| r.costume_index == idx && r.slot_index == slot
}

/// One costume's break derivation.
pub open spec fn break_one(
    t: Seq<BreakRecordV>,
    ps: Seq<PlayerSettingRecordV>,
    c: CostumeConfigV,
) -> Result<Seq<BreakRecordV>, EngineError> {
    if !c.has_break_variant {
        Ok(t)
    } else {
        let b = first_min_where(ps, ps_code_p(base_code_of(c.character_code)), ps_id_key());
        if b < 0 {
            Err(EngineError::AnchorNotFound)
        } else {
            let slot = ps[b].family_slot_index;
            let a = first_min_where(t, br_slot_p(slot), br_index_key());
            if a < 0 {
                Err(EngineError::AnchorNotFound)
            } else if exists_where(t, br_guard_p(c.model_index, slot)) {
                Ok(t)
            } else {
                Ok(t.push(BreakRecordV { slot_index: slot, costume_index: c.model_index }))
            }
        }
    }
}

/// The break table after every costume, in configuration order, reading the
/// finished player-setting table as an immutable snapshot.
pub open spec fn break_step(
    t: Seq<BreakRecordV>,
    ps: Seq<PlayerSettingRecordV>,
    cs: Seq<CostumeConfigV>,
) -> Result<Seq<BreakRecordV>, EngineError>
    decreases cs.len(),
{
    if cs.len() == 0 {
        Ok(t)
    } else {
        match break_one(t, ps, cs.first()) {
            Ok(t2) => break_step(t2, ps, cs.drop_first()),
            Err(e) => Err(e),
        }
    }
}

fn br_find_min_slot(t: &Vec<BreakRecord>, slot: u32) -> (r: Option<usize>)
    ensures
        ({
            let idx = first_min_where(vseq(t@), br_slot_p(slot), br_index_key());
            match r {
                Some(j) => j as int == idx && 0 <= j < t@.len(),
                None => idx == -1,
            }
        }),
{
    let ghost s = vseq(t@);
    let ghost p = br_slot_p(slot);
    let ghost key = br_index_key();
    proof {
        assert(s.take(0) =~= Seq::<BreakRecordV>::empty());
    }
    let mut best: usize = 0;
    let mut found = false;
    let mut i: usize = 0;
    while i < t.len()
        invariant
            0 <= i <= t@.len(),
            s == vseq(t@),
            p == br_slot_p(slot),
            key == br_index_key(),
            found ==> 0 <= best < i,
            first_min_where(s.take(i as int), p, key) == if found {
                best as int
            } else {
                -1int
            },
        decreases t@.len() - i,
    {
        proof {
            assert(s.take(i + 1).drop_last() =~= s.take(i as int));
            assert(s.take(i + 1).last() == s[i as int]);
            assert(s.take(i + 1)[i as int] == s[i as int]);
            assert(s[i as int] == t@[i as int]@);
            if found {
                assert(s.take(i + 1)[best as int] == s[best as int]);
                assert(s[best as int] == t@[best as int]@);
            }
        }
        if t[i].slot_index == slot {
            if !found {
                best = i;
                found = true;
            } else if t[i].costume_index < t[best].costume_index {
                best = i;
            }
        }
        i = i + 1;
    }
    proof {
        assert(s.take(s.len() as int) =~= s);
    }
    if found {
        Some(best)
    } else {
        None
    }
}

fn br_exists_guard(t: &Vec<BreakRecord>, idx: i32, slot: u32) -> (r: bool)
    ensures
        r == exists_where(vseq(t@), br_guard_p(idx, slot)),
{
    let mut i: usize = 0;
    while i < t.len()
        invariant
            0 <= i <= t@.len(),
            forall|k: int| 0 <= k < i ==> !br_guard_p(idx, slot)(#[trigger] vseq(t@)[k]),
        decreases t@.len() - i,
    {
        assert(vseq(t@)[i as int] == t@[i as int]@);
        if t[i].costume_index == idx && t[i].slot_index == slot {
            assert(br_guard_p(idx, slot)(vseq(t@)[i as int]));
            return true;
        }
        i = i + 1;
    }
    false
}

/// Derives and appends the break records for every costume of `cfg` whose
/// specification asks for one, reading `ps` as the finished player-setting
/// snapshot.
///
/// On success the table equals the step's specification; on any failure the
/// table is unchanged.
pub fn add_costume_break_entry(
    table: &mut Vec<BreakRecord>,
    ps: &Vec<PlayerSettingRecord>,
    cfg: &CostumeAddConfig,
) -> (r: Result<(), EngineError>)
    ensures
        r is Ok ==> break_step(vseq(old(table)@), vseq(ps@), cfg@) == Ok::<
            Seq<BreakRecordV>,
            EngineError,
        >(vseq(final(table)@)),
        r is Err ==> break_step(vseq(old(table)@), vseq(ps@), cfg@) == Err::<
            Seq<BreakRecordV>,
            EngineError,
        >(r->Err_0) && final(table)@ == old(table)@,
{
    let ghost t0 = vseq(table@);
    let ghost psv = vseq(ps@);
    let mut work = clone_break_table(table);
    proof {
        assert(cfg@.skip(0) =~= cfg@);
    }
    let mut i: usize = 0;
    while i < cfg.costumes.len()
        invariant
            0 <= i <= cfg.costumes@.len(),
            cfg@.len() == cfg.costumes@.len(),
            t0 == vseq(old(table)@),
            table@ == old(table)@,
            psv == vseq(ps@),
            break_step(t0, psv, cfg@) == break_step(vseq(work@), psv, cfg@.skip(i as int)),
        decreases cfg.costumes@.len() - i,
    {
        let ghost t_in = vseq(work@);
        let ghost c_v = cfg@[i as int];
        let c = &cfg.costumes[i];
        proof {
            assert(c@ == c_v);
            assert(cfg@.skip(i as int).first() == c_v);
            assert(cfg@.skip(i as int).drop_first() =~= cfg@.skip(i + 1));
        }
        if c.has_break_variant {
            let base = base_search_code(c.character_code.as_slice());
            let b_opt = ps_find_min_code(ps, &base);
            match b_opt {
                None => {
                    proof {
                        assert(break_one(t_in, psv, c_v) == Err::<Seq<BreakRecordV>, EngineError>(
                            EngineError::AnchorNotFound,
                        ));
                        assert(break_step(t_in, psv, cfg@.skip(i as int)) == Err::<
                            Seq<BreakRecordV>,
                            EngineError,
                        >(EngineError::AnchorNotFound));
                    }
                    return Err(EngineError::AnchorNotFound);
                },
                Some(b) => {
                    proof {
                        assert(vseq(ps@)[b as int] == ps@[b as int]@);
                    }
                    let slot = ps[b].family_slot_index;
                    let a_opt = br_find_min_slot(&work, slot);
                    match a_opt {
                        None => {
                            proof {
                                assert(break_one(t_in, psv, c_v) == Err::<
                                    Seq<BreakRecordV>,
                                    EngineError,
                                >(EngineError::AnchorNotFound));
                                assert(break_step(t_in, psv, cfg@.skip(i as int)) == Err::<
                                    Seq<BreakRecordV>,
                                    EngineError,
                                >(EngineError::AnchorNotFound));
                            }
                            return Err(EngineError::AnchorNotFound);
                        },
                        Some(_a) => {
                            let dup = br_exists_guard(&work, c.model_index, slot);
                            if !dup {
                                let ghost before = work@;
                                work.push(
                                    BreakRecord { slot_index: slot, costume_index: c.model_index },
                                );
                                proof {
                                    assert(vseq(work@) =~= vseq(before).push(
                                        BreakRecordV {
                                            slot_index: slot,
                                            costume_index: c_v.model_index,
                                        },
                                    ));
                                    assert(break_one(t_in, psv, c_v) == Ok::<
                                        Seq<BreakRecordV>,
                                        EngineError,
                                    >(vseq(work@)));
                                }
                            } else {
                                proof {
                                    assert(break_one(t_in, psv, c_v) == Ok::<
                                        Seq<BreakRecordV>,
                                        EngineError,
                                    >(t_in));
                                }
                            }
                        },
                    }
                },
            }
        } else {
            proof {
                assert(break_one(t_in, psv, c_v) == Ok::<Seq<BreakRecordV>, EngineError>(t_in));
            }
        }
        i = i + 1;
    }
    proof {
        assert(cfg@.skip(i as int).len() == 0);
        assert(break_step(vseq(work@), psv, cfg@.skip(i as int)) == Ok::<
            Seq<BreakRecordV>,
            EngineError,
        >(vseq(work@)));
    }
    *table = work;
    Ok(())
}

} // verus!
