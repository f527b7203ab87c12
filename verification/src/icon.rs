//! Icon derivation: for each costume, resolve the family slot through the
//! family's base player-setting record, clone the icon record of that slot
//! with the greatest costume model index, patch in the costume's icon code
//! and model index, and append — unless the icon code is empty or a record
//! with that (model index, slot) pair already stands in the table.

use vstd::prelude::*;

use crate::bytes::clone_bytes;
use crate::codes::base_code_of;
use crate::codes::base_search_code;
use crate::find::exists_where;
use crate::find::first_min_where;
use crate::find::last_max_where;
use crate::records::CostumeAddConfig;
use crate::records::CostumeConfigV;
use crate::records::EngineError;
use crate::records::IconRecord;
use crate::records::IconRecordV;
use crate::records::PlayerSettingRecord;
use crate::records::PlayerSettingRecordV;
use crate::records::clone_icon_table;
use crate::records::vseq;
use crate::player_setting::ps_code_p;
use crate::player_setting::ps_find_min_code;
use crate::player_setting::ps_id_key;

verus! {

/// The record sits in family slot `slot`.
pub open spec fn ic_slot_p(slot: u32) -> spec_fn(IconRecordV) -> bool {
    |r: IconRecordV| r.slot_index == slot
}

/// Selection key: the record's costume model index.
pub open spec fn ic_model_key() -> spec_fn(IconRecordV) -> int {
    |r: IconRecordV| r.costume_model_index as int
}

/// The record already represents (model index, slot).
pub open spec fn ic_guard_p(model: i32, slot: u32) -> spec_fn(IconRecordV) -> bool {
    |r: IconRecordV| r.costume_model_index == model && r.slot_index == slot
}

/// One costume's icon derivation.
pub open spec fn icon_one(
    t: Seq<IconRecordV>,
    ps: Seq<PlayerSettingRecordV>,
    c: CostumeConfigV,
) -> Result<Seq<IconRecordV>, EngineError> {
    let b = first_min_where(ps, ps_code_p(base_code_of(c.character_code)), ps_id_key());
    if b < 0 {
        Err(EngineError::AnchorNotFound)
    } else {
        let slot = ps[b].family_slot_index;
        let a = last_max_where(t, ic_slot_p(slot), ic_model_key());
        if a < 0 {
            Err(EngineError::AnchorNotFound)
        } else if c.icon_code.len() == 0 || exists_where(t, ic_guard_p(c.model_index, slot)) {
            Ok(t)
        } else {
            Ok(
                t.push(
                    IconRecordV {
                        slot_index: slot,
                        costume_model_index: c.model_index,
                        icon_id: c.icon_code,
                    },
                ),
            )
        }
    }
}

/// The icon table after every costume, in configuration order, reading the
/// finished player-setting table as an immutable snapshot.
pub open spec fn icon_step(
    t: Seq<IconRecordV>,
    ps: Seq<PlayerSettingRecordV>,
    cs: Seq<CostumeConfigV>,
) -> Result<Seq<IconRecordV>, EngineError>
    decreases cs.len(),
{
    if cs.len() == 0 {
        Ok(t)
    } else {
        match icon_one(t, ps, cs.first()) {
            Ok(t2) => icon_step(t2, ps, cs.drop_first()),
            Err(e) => Err(e),
        }
    }
}

fn ic_find_max_slot(t: &Vec<IconRecord>, slot: u32) -> (r: Option<usize>)
    ensures
        ({
            let idx = last_max_where(vseq(t@), ic_slot_p(slot), ic_model_key());
            match r {
                Some(j) => j as int == idx && 0 <= j < t@.len(),
                None => idx == -1,
            }
        }),
{
    let ghost s = vseq(t@);
    let ghost p = ic_slot_p(slot);
    let ghost key = ic_model_key();
    proof {
        assert(s.take(0) =~= Seq::<IconRecordV>::empty());
    }
    let mut best: usize = 0;
    let mut found = false;
    let mut i: usize = 0;
    while i < t.len()
        invariant
            0 <= i <= t@.len(),
            s == vseq(t@),
            p == ic_slot_p(slot),
            key == ic_model_key(),
            found ==> 0 <= best < i,
            last_max_where(s.take(i as int), p, key) == if found {
                best as int
            } else {
                -1int
            },
        decreases t@.len() - i,
    {
        proof {
            assert(s.take(i + 1).drop_last() =~= s.take(i as int));
            assert(s.take(i + 1).last() == s[i as int]);
            assert(s.take(i + 1)[i as int] == s[i as int]);
            assert(s[i as int] == t@[i as int]@);
            if found {
                assert(s.take(i + 1)[best as int] == s[best as int]);
                assert(s[best as int] == t@[best as int]@);
            }
        }
        if t[i].slot_index == slot {
            if !found {
                best = i;
                found = true;
            } else if t[i].costume_model_index >= t[best].costume_model_index {
                best = i;
            }
        }
        i = i + 1;
    }
    proof {
        assert(s.take(s.len() as int) =~= s);
    }
    if found {
        Some(best)
    } else {
        None
    }
}

fn ic_exists_guard(t: &Vec<IconRecord>, model: i32, slot: u32) -> (r: bool)
    ensures
        r == exists_where(vseq(t@), ic_guard_p(model, slot)),
{
    let mut i: usize = 0;
    while i < t.len()
        invariant
            0 <= i <= t@.len(),
            forall|k: int| 0 <= k < i ==> !ic_guard_p(model, slot)(#[trigger] vseq(t@)[k]),
        decreases t@.len() - i,
    {
        assert(vseq(t@)[i as int] == t@[i as int]@);
        if t[i].costume_model_index == model && t[i].slot_index == slot {
            assert(ic_guard_p(model, slot)(vseq(t@)[i as int]));
            return true;
        }
        i = i + 1;
    }
    false
}

/// Derives and appends the icon records for every costume of `cfg`, reading
/// `ps` as the finished player-setting snapshot.
///
/// On success the table equals the step's specification; on any failure the
/// table is unchanged.
pub fn add_icon_entry(
    table: &mut Vec<IconRecord>,
    ps: &Vec<PlayerSettingRecord>,
    cfg: &CostumeAddConfig,
) -> (r: Result<(), EngineError>)
    ensures
        r is Ok ==> icon_step(vseq(old(table)@), vseq(ps@), cfg@) == Ok::<
            Seq<IconRecordV>,
            EngineError,
        >(vseq(final(table)@)),
        r is Err ==> icon_step(vseq(old(table)@), vseq(ps@), cfg@) == Err::<
            Seq<IconRecordV>,
            EngineError,
        >(r->Err_0) && final(table)@ == old(table)@,
{
    let ghost t0 = vseq(table@);
    let ghost psv = vseq(ps@);
    let mut work = clone_icon_table(table);
    proof {
        assert(cfg@.skip(0) =~= cfg@);
    }
    let mut i: usize = 0;
    while i < cfg.costumes.len()
        invariant
            0 <= i <= cfg.costumes@.len(),
            cfg@.len() == cfg.costumes@.len(),
            t0 == vseq(old(table)@),
            table@ == old(table)@,
            psv == vseq(ps@),
            icon_step(t0, psv, cfg@) == icon_step(vseq(work@), psv, cfg@.skip(i as int)),
        decreases cfg.costumes@.len() - i,
    {
        let ghost t_in = vseq(work@);
        let ghost c_v = cfg@[i as int];
        let c = &cfg.costumes[i];
        proof {
            assert(c@ == c_v);
            assert(cfg@.skip(i as int).first() == c_v);
            assert(cfg@.skip(i as int).drop_first() =~= cfg@.skip(i + 1));
        }
        let base = base_search_code(c.character_code.as_slice());
        let b_opt = ps_find_min_code(ps, &base);
        match b_opt {
            None => {
                proof {
                    assert(icon_one(t_in, psv, c_v) == Err::<Seq<IconRecordV>, EngineError>(
                        EngineError::AnchorNotFound,
                    ));
                    assert(icon_step(t_in, psv, cfg@.skip(i as int)) == Err::<
                        Seq<IconRecordV>,
                        EngineError,
                    >(EngineError::AnchorNotFound));
                }
                return Err(EngineError::AnchorNotFound);
            },
            Some(b) => {
                proof {
                    assert(vseq(ps@)[b as int] == ps@[b as int]@);
                }
                let slot = ps[b].family_slot_index;
                let a_opt = ic_find_max_slot(&work, slot);
                match a_opt {
                    None => {
                        proof {
                            assert(icon_one(t_in, psv, c_v) == Err::<
                                Seq<IconRecordV>,
                                EngineError,
                            >(EngineError::AnchorNotFound));
                            assert(icon_step(t_in, psv, cfg@.skip(i as int)) == Err::<
                                Seq<IconRecordV>,
                                EngineError,
                            >(EngineError::AnchorNotFound));
                        }
                        return Err(EngineError::AnchorNotFound);
                    },
                    Some(_a) => {
                        let dup = ic_exists_guard(&work, c.model_index, slot);
                        if c.icon_code.len() > 0 && !dup {
                            let ghost before = work@;
                            work.push(
                                IconRecord {
                                    slot_index: slot,
                                    costume_model_index: c.model_index,
                                    icon_id: clone_bytes(&c.icon_code),
                                },
                            );
                            proof {
                                assert(vseq(work@) =~= vseq(before).push(
                                    IconRecordV {
                                        slot_index: slot,
                                        costume_model_index: c_v.model_index,
                                        icon_id: c_v.icon_code,
                                    },
                                ));
                                assert(icon_one(t_in, psv, c_v) == Ok::<
                                    Seq<IconRecordV>,
                                    EngineError,
                                >(vseq(work@)));
                            }
                        } else {
                            proof {
                                assert(icon_one(t_in, psv, c_v) == Ok::<
                                    Seq<IconRecordV>,
                                    EngineError,
                                >(t_in));
                            }
                        }
                    },
                }
            },
        }
        i = i + 1;
    }
    proof {
        assert(cfg@.skip(i as int).len() == 0);
        assert(icon_step(vseq(work@), psv, cfg@.skip(i as int)) == Ok::<
            Seq<IconRecordV>,
            EngineError,
        >(vseq(work@)));
    }
    *table = work;
    Ok(())
}

} // verus!
