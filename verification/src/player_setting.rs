//! Player-setting derivation: the primary anchor table. Costumes are
//! processed sorted by family code then model index, ascending, so derived
//! search-code suffixes come out monotonically per family. A costume whose
//! character id is already represented is skipped; otherwise the family
//! record with the highest setting id whose search code contains the family
//! code is cloned, given the next free setting id, the costume's model index
//! and character id, and a search code with the suffix one above the
//! anchor's, and appended.

use vstd::prelude::*;

use crate::bytes::bytes_eq;
use crate::bytes::clone_bytes;
use crate::bytes::contains_bytes;
use crate::bytes::contains_sub;
use crate::codes::bump_search_code;
use crate::codes::bumped_code;
use crate::codes::valid_search_code;
use crate::find::exists_where;
use crate::find::first_min_where;
use crate::find::first_where;
use crate::find::last_max_where;
use crate::records::CostumeAddConfig;
use crate::records::CostumeConfigV;
use crate::records::EngineError;
use crate::records::PlayerSettingRecord;
use crate::records::PlayerSettingRecordV;
use crate::records::clone_ps_table;
use crate::records::vseq;
use crate::sorting::sort_costumes;
use crate::sorting::sort_specs;

verus! {

/// The record belongs to the character with string id `fid`.
pub open spec fn ps_family_p(fid: Seq<u8>) -> spec_fn(PlayerSettingRecordV) -> bool {
    |r: PlayerSettingRecordV| r.family_id == fid
}

/// The record's search code is exactly `code`.
pub open spec fn ps_code_p(code: Seq<u8>) -> spec_fn(PlayerSettingRecordV) -> bool {
    |r: PlayerSettingRecordV| r.search_code == code
}

/// The record's search code contains `code`.
pub open spec fn ps_contains_p(code: Seq<u8>) -> spec_fn(PlayerSettingRecordV) -> bool {
    |r: PlayerSettingRecordV| contains_sub(r.search_code, code)
}

/// The record sits in family slot `slot`.
pub open spec fn ps_slot_p(slot: u32) -> spec_fn(PlayerSettingRecordV) -> bool {
    |r: PlayerSettingRecordV| r.family_slot_index == slot
}

/// Selection key: the record's setting id.
pub open spec fn ps_id_key() -> spec_fn(PlayerSettingRecordV) -> int {
    |r: PlayerSettingRecordV| r.setting_id as int
}

/// The greatest setting id in the table, `0` when it is empty.
pub open spec fn max_setting_id(t: Seq<PlayerSettingRecordV>) -> int
    decreases t.len(),
{
    if t.len() == 0 {
        0
    } else {
        let m = max_setting_id(t.drop_last());
        if t.last().setting_id > m {
            t.last().setting_id as int
        } else {
            m
        }
    }
}

/// The record derived for costume `c` from `anchor`, with setting id `nid`.
pub open spec fn ps_new_record(anchor: PlayerSettingRecordV, c: CostumeConfigV, nid: int) -> PlayerSettingRecordV {
    PlayerSettingRecordV {
        setting_id: nid as u32,
        family_id: c.character_id,
        family_slot_index: anchor.family_slot_index,
        model_index: c.model_index,
        search_code: bumped_code(anchor.search_code),
    }
}

/// One costume's player-setting derivation, assigning setting id `nid` when
/// a record is appended.
pub open spec fn ps_one(t: Seq<PlayerSettingRecordV>, c: CostumeConfigV, nid: int) -> Result<
    Seq<PlayerSettingRecordV>,
    EngineError,
> {
    if exists_where(t, ps_family_p(c.character_id)) {
        Ok(t)
    } else {
        let a = last_max_where(t, ps_contains_p(c.character_code), ps_id_key());
        if a < 0 {
            Err(EngineError::AnchorNotFound)
        } else if !valid_search_code(t[a].search_code) {
            Err(EngineError::MalformedIdentifier)
        } else {
            Ok(t.push(ps_new_record(t[a], c, nid)))
        }
    }
}

/// The table after the costumes of `cs` (already sorted), threading the
/// next free setting id, which advances only when a record is appended.
pub open spec fn ps_step_sorted(
    t: Seq<PlayerSettingRecordV>,
    cs: Seq<CostumeConfigV>,
    nid: int,
) -> Result<Seq<PlayerSettingRecordV>, EngineError>
    decreases cs.len(),
{
    if cs.len() == 0 {
        Ok(t)
    } else {
        match ps_one(t, cs.first(), nid) {
            Ok(t2) => ps_step_sorted(
                t2,
                cs.drop_first(),
                if t2.len() > t.len() {
                    nid + 1
                } else {
                    nid
                },
            ),
            Err(e) => Err(e),
        }
    }
}

/// The whole player-setting step: sort ascending, start one above the
/// current greatest setting id.
pub open spec fn ps_step(t: Seq<PlayerSettingRecordV>, cs: Seq<CostumeConfigV>) -> Result<
    Seq<PlayerSettingRecordV>,
    EngineError,
> {
    ps_step_sorted(t, sort_specs(cs, false), max_setting_id(t) + 1)
}

/// The greatest setting id of the table.
pub fn ps_max_id(t: &Vec<PlayerSettingRecord>) -> (r: u32)
    ensures
        r as int == max_setting_id(vseq(t@)),
{
    let ghost s = vseq(t@);
    proof {
        assert(s.take(0) =~= Seq::<PlayerSettingRecordV>::empty());
    }
    let mut m: u32 = 0;
    let mut i: usize = 0;
    while i < t.len()
        invariant
            0 <= i <= t@.len(),
            s == vseq(t@),
            m as int == max_setting_id(s.take(i as int)),
        decreases t@.len() - i,
    {
        proof {
            assert(s.take(i + 1).drop_last() =~= s.take(i as int));
            assert(s.take(i + 1).last() == s[i as int]);
            assert(s[i as int] == t@[i as int]@);
        }
        if t[i].setting_id > m {
            m = t[i].setting_id;
        }
        i = i + 1;
    }
    proof {
        assert(s.take(s.len() as int) =~= s);
    }
    m
}

/// Whether some record belongs to character id `fid`.
pub(crate) fn ps_exists_family(t: &Vec<PlayerSettingRecord>, fid: &Vec<u8>) -> (r: bool)
    ensures
        r == exists_where(vseq(t@), ps_family_p(fid@)),
{
    let mut i: usize = 0;
    while i < t.len()
        invariant
            0 <= i <= t@.len(),
            forall|k: int| 0 <= k < i ==> !ps_family_p(fid@)(#[trigger] vseq(t@)[k]),
        decreases t@.len() - i,
    {
        assert(vseq(t@)[i as int] == t@[i as int]@);
        let hit = bytes_eq(t[i].family_id.as_slice(), fid.as_slice());
        if hit {
            assert(ps_family_p(fid@)(vseq(t@)[i as int]));
            return true;
        }
        i = i + 1;
    }
    false
}

/// Index of the latest record with the greatest setting id whose search code
/// contains `code`.
pub(crate) fn ps_find_max_contains(t: &Vec<PlayerSettingRecord>, code: &Vec<u8>) -> (r: Option<
    usize,
>)
    ensures
        ({
            let idx = last_max_where(vseq(t@), ps_contains_p(code@), ps_id_key());
            match r {
                Some(j) => j as int == idx && 0 <= j < t@.len(),
                None => idx == -1,
            }
        }),
{
    let ghost s = vseq(t@);
    let ghost p = ps_contains_p(code@);
    let ghost key = ps_id_key();
    proof {
        assert(s.take(0) =~= Seq::<PlayerSettingRecordV>::empty());
    }
    let mut best: usize = 0;
    let mut found = false;
    let mut i: usize = 0;
    while i < t.len()
        invariant
            0 <= i <= t@.len(),
            s == vseq(t@),
            p == ps_contains_p(code@),
            key == ps_id_key(),
            found ==> 0 <= best < i,
            last_max_where(s.take(i as int), p, key) == if found {
                best as int
            } else {
                -1int
            },
        decreases t@.len() - i,
    {
        proof {
            assert(s.take(i + 1).drop_last() =~= s.take(i as int));
            assert(s.take(i + 1).last() == s[i as int]);
            assert(s.take(i + 1)[i as int] == s[i as int]);
            assert(s[i as int] == t@[i as int]@);
            if found {
                assert(s.take(i + 1)[best as int] == s[best as int]);
                assert(s.take(i as int)[best as int] == s[best as int]);
                assert(s[best as int] == t@[best as int]@);
            }
        }
        let hit = contains_bytes(t[i].search_code.as_slice(), code.as_slice());
        if hit {
            if !found {
                best = i;
                found = true;
            } else if t[i].setting_id >= t[best].setting_id {
                best = i;
            }
        }
        i = i + 1;
    }
    proof {
        assert(s.take(s.len() as int) =~= s);
    }
    if found {
        Some(best)
    } else {
        None
    }
}

/// Index of the earliest record with the least setting id whose search code
/// is exactly `code`.
pub(crate) fn ps_find_min_code(t: &Vec<PlayerSettingRecord>, code: &Vec<u8>) -> (r: Option<usize>)
    ensures
        ({
            let idx = first_min_where(vseq(t@), ps_code_p(code@), ps_id_key());
            match r {
                Some(j) => j as int == idx && 0 <= j < t@.len(),
                None => idx == -1,
            }
        }),
{
    let ghost s = vseq(t@);
    let ghost p = ps_code_p(code@);
    let ghost key = ps_id_key();
    proof {
        assert(s.take(0) =~= Seq::<PlayerSettingRecordV>::empty());
    }
    let mut best: usize = 0;
    let mut found = false;
    let mut i: usize = 0;
    while i < t.len()
        invariant
            0 <= i <= t@.len(),
            s == vseq(t@),
            p == ps_code_p(code@),
            key == ps_id_key(),
            found ==> 0 <= best < i,
            first_min_where(s.take(i as int), p, key) == if found {
                best as int
            } else {
                -1int
            },
        decreases t@.len() - i,
    {
        proof {
            assert(s.take(i + 1).drop_last() =~= s.take(i as int));
            assert(s.take(i + 1).last() == s[i as int]);
            assert(s.take(i + 1)[i as int] == s[i as int]);
            assert(s[i as int] == t@[i as int]@);
            if found {
                assert(s.take(i + 1)[best as int] == s[best as int]);
                assert(s.take(i as int)[best as int] == s[best as int]);
                assert(s[best as int] == t@[best as int]@);
            }
        }
        let hit = bytes_eq(t[i].search_code.as_slice(), code.as_slice());
        if hit {
            if !found {
                best = i;
                found = true;
            } else if t[i].setting_id < t[best].setting_id {
                best = i;
            }
        }
        i = i + 1;
    }
    proof {
        assert(s.take(s.len() as int) =~= s);
    }
    if found {
        Some(best)
    } else {
        None
    }
}

/// Index of the earliest record of character id `fid`.
pub(crate) fn ps_first_family(t: &Vec<PlayerSettingRecord>, fid: &Vec<u8>) -> (r: Option<usize>)
    ensures
        ({
            let idx = first_where(vseq(t@), ps_family_p(fid@));
            match r {
                Some(j) => j as int == idx && 0 <= j < t@.len(),
                None => idx == -1,
            }
        }),
{
    let ghost s = vseq(t@);
    let ghost p = ps_family_p(fid@);
    proof {
        assert(s.take(0) =~= Seq::<PlayerSettingRecordV>::empty());
    }
    let mut i: usize = 0;
    while i < t.len()
        invariant
            0 <= i <= t@.len(),
            s == vseq(t@),
            p == ps_family_p(fid@),
            first_where(s.take(i as int), p) == -1,
        decreases t@.len() - i,
    {
        proof {
            assert(s.take(i + 1).drop_last() =~= s.take(i as int));
            assert(s.take(i + 1).last() == s[i as int]);
            assert(s[i as int] == t@[i as int]@);
        }
        let hit = bytes_eq(t[i].family_id.as_slice(), fid.as_slice());
        if hit {
            proof {
                assert(p(s[i as int]));
                assert(p(s.take(i + 1).last()));
                assert(first_where(s.take(i + 1), p) == i);
                crate::find::lemma_first_where_prefix(s, p, i + 1);
            }
            return Some(i);
        }
        i = i + 1;
    }
    proof {
        assert(s.take(s.len() as int) =~= s);
    }
    None
}

/// Index of the earliest record with the least setting id in family slot
/// `slot`.
pub(crate) fn ps_find_min_slot(t: &Vec<PlayerSettingRecord>, slot: u32) -> (r: Option<usize>)
    ensures
        ({
            let idx = first_min_where(vseq(t@), ps_slot_p(slot), ps_id_key());
            match r {
                Some(j) => j as int == idx && 0 <= j < t@.len(),
                None => idx == -1,
            }
        }),
{
    let ghost s = vseq(t@);
    let ghost p = ps_slot_p(slot);
    let ghost key = ps_id_key();
    proof {
        assert(s.take(0) =~= Seq::<PlayerSettingRecordV>::empty());
    }
    let mut best: usize = 0;
    let mut found = false;
    let mut i: usize = 0;
    while i < t.len()
        invariant
            0 <= i <= t@.len(),
            s == vseq(t@),
            p == ps_slot_p(slot),
            key == ps_id_key(),
            found ==> 0 <= best < i,
            first_min_where(s.take(i as int), p, key) == if found {
                best as int
            } else {
                -1int
            },
        decreases t@.len() - i,
    {
        proof {
            assert(s.take(i + 1).drop_last() =~= s.take(i as int));
            assert(s.take(i + 1).last() == s[i as int]);
            assert(s.take(i + 1)[i as int] == s[i as int]);
            assert(s[i as int] == t@[i as int]@);
            if found {
                assert(s.take(i + 1)[best as int] == s[best as int]);
                assert(s.take(i as int)[best as int] == s[best as int]);
                assert(s[best as int] == t@[best as int]@);
            }
        }
        if t[i].family_slot_index == slot {
            if !found {
                best = i;
                found = true;
            } else if t[i].setting_id < t[best].setting_id {
                best = i;
            }
        }
        i = i + 1;
    }
    proof {
        assert(s.take(s.len() as int) =~= s);
    }
    if found {
        Some(best)
    } else {
        None
    }
}

/// Index of the latest record with the greatest setting id of character id
/// `fid`.
pub(crate) fn ps_max_id_family(t: &Vec<PlayerSettingRecord>, fid: &Vec<u8>) -> (r: Option<usize>)
    ensures
        ({
            let idx = last_max_where(vseq(t@), ps_family_p(fid@), ps_id_key());
            match r {
                Some(j) => j as int == idx && 0 <= j < t@.len(),
                None => idx == -1,
            }
        }),
{
    let ghost s = vseq(t@);
    let ghost p = ps_family_p(fid@);
    let ghost key = ps_id_key();
    proof {
        assert(s.take(0) =~= Seq::<PlayerSettingRecordV>::empty());
    }
    let mut best: usize = 0;
    let mut found = false;
    let mut i: usize = 0;
    while i < t.len()
        invariant
            0 <= i <= t@.len(),
            s == vseq(t@),
            p == ps_family_p(fid@),
            key == ps_id_key(),
            found ==> 0 <= best < i,
            last_max_where(s.take(i as int), p, key) == if found {
                best as int
            } else {
                -1int
            },
        decreases t@.len() - i,
    {
        proof {
            assert(s.take(i + 1).drop_last() =~= s.take(i as int));
            assert(s.take(i + 1).last() == s[i as int]);
            assert(s.take(i + 1)[i as int] == s[i as int]);
            assert(s[i as int] == t@[i as int]@);
            if found {
                assert(s.take(i + 1)[best as int] == s[best as int]);
                assert(s.take(i as int)[best as int] == s[best as int]);
                assert(s[best as int] == t@[best as int]@);
            }
        }
        let hit = bytes_eq(t[i].family_id.as_slice(), fid.as_slice());
        if hit {
            if !found {
                best = i;
                found = true;
            } else if t[i].setting_id >= t[best].setting_id {
                best = i;
            }
        }
        i = i + 1;
    }
    proof {
        assert(s.take(s.len() as int) =~= s);
    }
    if found {
        Some(best)
    } else {
        None
    }
}

/// Derives and appends the player-setting records for every costume of
/// `cfg`, in sorted order, with fresh, consecutive setting ids.
///
/// On success the table equals the step's specification; on any failure the
/// table is unchanged.
pub fn add_player_setting_entry(
    table: &mut Vec<PlayerSettingRecord>,
    cfg: &CostumeAddConfig,
) -> (r: Result<(), EngineError>)
    requires
        max_setting_id(vseq(old(table)@)) + cfg@.len() <= u32::MAX,
    ensures
        r is Ok ==> ps_step(vseq(old(table)@), cfg@) == Ok::<
            Seq<PlayerSettingRecordV>,
            EngineError,
        >(vseq(final(table)@)),
        r is Err ==> ps_step(vseq(old(table)@), cfg@) == Err::<
            Seq<PlayerSettingRecordV>,
            EngineError,
        >(r->Err_0) && final(table)@ == old(table)@,
{
    let ghost t0 = vseq(table@);
    let sorted = sort_costumes(&cfg.costumes, false);
    let base_max = ps_max_id(table);
    let mut work = clone_ps_table(table);
    let mut appended: usize = 0;
    let ghost sv = sort_specs(cfg@, false);
    proof {
        assert(vseq(sorted@) == sv);
        assert(sv.len() == cfg@.len()) by {
            crate::sorting::lemma_sort_specs_len(cfg@, false);
        }
        assert(sv.skip(0) =~= sv);
    }
    let mut i: usize = 0;
    while i < sorted.len()
        invariant
            0 <= i <= sorted@.len(),
            t0 == vseq(old(table)@),
            table@ == old(table)@,
            sv == vseq(sorted@),
            sv == sort_specs(cfg@, false),
            sv.len() == sorted@.len(),
            appended <= i,
            vseq(work@).len() == t0.len() + appended,
            base_max as int == max_setting_id(t0),
            base_max as int + sv.len() <= u32::MAX,
            ps_step_sorted(t0, sv, base_max as int + 1) == ps_step_sorted(
                vseq(work@),
                sv.skip(i as int),
                base_max as int + 1 + appended,
            ),
        decreases sorted@.len() - i,
    {
        let ghost t_in = vseq(work@);
        let ghost c_v = sv[i as int];
        let ghost nid = base_max as int + 1 + appended;
        let c = &sorted[i];
        proof {
            assert(c@ == c_v);
            assert(sv.skip(i as int).first() == c_v);
            assert(sv.skip(i as int).drop_first() =~= sv.skip(i + 1));
        }
        let skip_it = ps_exists_family(&work, &c.character_id);
        if !skip_it {
            let anchor_opt = ps_find_max_contains(&work, &c.character_code);
            match anchor_opt {
                None => {
                    proof {
                        assert(ps_one(t_in, c_v, nid) == Err::<
                            Seq<PlayerSettingRecordV>,
                            EngineError,
                        >(EngineError::AnchorNotFound));
                        assert(ps_step_sorted(t_in, sv.skip(i as int), nid) == Err::<
                            Seq<PlayerSettingRecordV>,
                            EngineError,
                        >(EngineError::AnchorNotFound));
                        assert(ps_step(t0, cfg@) == Err::<Seq<PlayerSettingRecordV>, EngineError>(
                            EngineError::AnchorNotFound,
                        ));
                    }
                    return Err(EngineError::AnchorNotFound);
                },
                Some(a) => {
                    proof {
                        assert(vseq(work@)[a as int] == work@[a as int]@);
                    }
                    let bumped = bump_search_code(&work[a].search_code);
                    match bumped {
                        None => {
                            proof {
                                assert(ps_one(t_in, c_v, nid) == Err::<
                                    Seq<PlayerSettingRecordV>,
                                    EngineError,
                                >(EngineError::MalformedIdentifier));
                                assert(ps_step_sorted(t_in, sv.skip(i as int), nid) == Err::<
                                    Seq<PlayerSettingRecordV>,
                                    EngineError,
                                >(EngineError::MalformedIdentifier));
                                assert(ps_step(t0, cfg@) == Err::<
                                    Seq<PlayerSettingRecordV>,
                                    EngineError,
                                >(EngineError::MalformedIdentifier));
                            }
                            return Err(EngineError::MalformedIdentifier);
                        },
                        Some(code) => {
                            let slot = work[a].family_slot_index;
                            let id: u32 = base_max + 1 + (appended as u32);
                            let nr = PlayerSettingRecord {
                                setting_id: id,
                                family_id: clone_bytes(&c.character_id),
                                family_slot_index: slot,
                                model_index: c.model_index,
                                search_code: code,
                            };
                            let ghost before = work@;
                            work.push(nr);
                            appended = appended + 1;
                            proof {
                                assert(vseq(work@) =~= vseq(before).push(
                                    ps_new_record(t_in[a as int], c_v, nid),
                                ));
                                assert(ps_one(t_in, c_v, nid) == Ok::<
                                    Seq<PlayerSettingRecordV>,
                                    EngineError,
                                >(vseq(work@)));
                            }
                        },
                    }
                },
            }
        } else {
            proof {
                assert(ps_one(t_in, c_v, nid) == Ok::<Seq<PlayerSettingRecordV>, EngineError>(
                    t_in,
                ));
            }
        }
        i = i + 1;
    }
    proof {
        assert(sv.skip(i as int).len() == 0);
        assert(ps_step_sorted(vseq(work@), sv.skip(i as int), base_max as int + 1 + appended)
            == Ok::<Seq<PlayerSettingRecordV>, EngineError>(vseq(work@)));
    }
    *table = work;
    Ok(())
}

} // verus!
