//! Character-select derivation: for each costume, find the family's base
//! select row through the family's base player-setting record, take the row
//! of that (page, UI slot) with the greatest costume slot index as anchor,
//! clone it with the next costume slot index, a search code whose suffix is
//! one above the anchor's, and the costume id as name reference, and append
//! — unless a record with that (name, page, UI slot) key already stands in
//! the table.

use vstd::prelude::*;

use crate::bytes::bytes_eq;
use crate::bytes::clone_bytes;
use crate::codes::base_code_of;
use crate::codes::base_search_code;
use crate::codes::bump_search_code;
use crate::codes::bumped_code;
use crate::codes::valid_search_code;
use crate::find::exists_where;
use crate::find::first_min_where;
use crate::find::last_max_where;
use crate::records::CostumeAddConfig;
use crate::records::CostumeConfigV;
use crate::records::EngineError;
use crate::records::PlayerSettingRecord;
use crate::records::PlayerSettingRecordV;
use crate::records::SelectRecord;
use crate::records::SelectRecordV;
use crate::records::clone_select_table;
use crate::records::vseq;
use crate::player_setting::ps_code_p;
use crate::player_setting::ps_find_min_code;
use crate::player_setting::ps_id_key;

verus! {

/// The record's search code is exactly `code`.
pub open spec fn sel_code_p(code: Seq<u8>) -> spec_fn(SelectRecordV) -> bool {
    |r: SelectRecordV| r.search_code == code
}

/// The record sits at (page, UI slot).
pub open spec fn sel_pos_p(page: u32, uslot: u32) -> spec_fn(SelectRecordV) -> bool {
    |r: SelectRecordV| r.page_index == page && r.ui_slot_index == uslot
}

/// Selection key: the record's costume slot index.
pub open spec fn sel_slot_key() -> spec_fn(SelectRecordV) -> int {
    |r: SelectRecordV| r.costume_slot_index as int
}

/// The record already represents (name, page, UI slot).
pub open spec fn sel_guard_p(name: Seq<u8>, page: u32, uslot: u32) -> spec_fn(SelectRecordV) -> bool {
    |r: SelectRecordV| r.name_ref == name && r.page_index == page && r.ui_slot_index == uslot
}

/// One costume's select derivation.
pub open spec fn select_one(
    t: Seq<SelectRecordV>,
    ps: Seq<PlayerSettingRecordV>,
    c: CostumeConfigV,
) -> Result<Seq<SelectRecordV>, EngineError> {
    let b = first_min_where(ps, ps_code_p(base_code_of(c.character_code)), ps_id_key());
    if b < 0 {
        Err(EngineError::AnchorNotFound)
    } else {
        let m = first_min_where(t, sel_code_p(ps[b].search_code), sel_slot_key());
        if m < 0 {
            Err(EngineError::AnchorNotFound)
        } else {
            let a = last_max_where(t, sel_pos_p(t[m].page_index, t[m].ui_slot_index), sel_slot_key());
            if a < 0 {
                Err(EngineError::AnchorNotFound)
            } else if !valid_search_code(t[a].search_code) {
                Err(EngineError::MalformedIdentifier)
            } else if exists_where(
                t,
                sel_guard_p(c.costume_id, t[a].page_index, t[a].ui_slot_index),
            ) {
                Ok(t)
            } else {
                Ok(
                    t.push(
                        SelectRecordV {
                            page_index: t[a].page_index,
                            ui_slot_index: t[a].ui_slot_index,
                            costume_slot_index: (t[a].costume_slot_index + 1) as u32,
                            search_code: bumped_code(t[a].search_code),
                            name_ref: c.costume_id,
                        },
                    ),
                )
            }
        }
    }
}

/// The select table after every costume, in configuration order, reading the
/// finished player-setting table as an immutable snapshot.
pub open spec fn select_step(
    t: Seq<SelectRecordV>,
    ps: Seq<PlayerSettingRecordV>,
    cs: Seq<CostumeConfigV>,
) -> Result<Seq<SelectRecordV>, EngineError>
    decreases cs.len(),
{
    if cs.len() == 0 {
        Ok(t)
    } else {
        match select_one(t, ps, cs.first()) {
            Ok(t2) => select_step(t2, ps, cs.drop_first()),
            Err(e) => Err(e),
        }
    }
}

/// Every costume slot index in the table leaves room for `n` increments.
pub open spec fn sel_slots_bounded(t: Seq<SelectRecordV>, n: int) -> bool {
    forall|k: int| 0 <= k < t.len() ==> (#[trigger] t[k]).costume_slot_index + n <= u32::MAX
}

fn sel_find_min_code(t: &Vec<SelectRecord>, code: &Vec<u8>) -> (r: Option<usize>)
    ensures
        ({
            let idx = first_min_where(vseq(t@), sel_code_p(code@), sel_slot_key());
            match r {
                Some(j) => j as int == idx && 0 <= j < t@.len(),
                None => idx == -1,
            }
        }),
{
    let ghost s = vseq(t@);
    let ghost p = sel_code_p(code@);
    let ghost key = sel_slot_key();
    proof {
        assert(s.take(0) =~= Seq::<SelectRecordV>::empty());
    }
    let mut best: usize = 0;
    let mut found = false;
    let mut i: usize = 0;
    while i < t.len()
        invariant
            0 <= i <= t@.len(),
            s == vseq(t@),
            p == sel_code_p(code@),
            key == sel_slot_key(),
            found ==> 0 <= best < i,
            first_min_where(s.take(i as int), p, key) == if found {
                best as int
            } else {
                -1int
            },
        decreases t@.len() - i,
    {
        proof {
            assert(s.take(i + 1).drop_last() =~= s.take(i as int));
            assert(s.take(i + 1).last() == s[i as int]);
            assert(s.take(i + 1)[i as int] == s[i as int]);
            assert(s[i as int] == t@[i as int]@);
            if found {
                assert(s.take(i + 1)[best as int] == s[best as int]);
                assert(s[best as int] == t@[best as int]@);
            }
        }
        let hit = bytes_eq(t[i].search_code.as_slice(), code.as_slice());
        if hit {
            if !found {
                best = i;
                found = true;
            } else if t[i].costume_slot_index < t[best].costume_slot_index {
                best = i;
            }
        }
        i = i + 1;
    }
    proof {
        assert(s.take(s.len() as int) =~= s);
    }
    if found {
        Some(best)
    } else {
        None
    }
}

fn sel_find_max_pos(t: &Vec<SelectRecord>, page: u32, uslot: u32) -> (r: Option<usize>)
    ensures
        ({
            let idx = last_max_where(vseq(t@), sel_pos_p(page, uslot), sel_slot_key());
            match r {
                Some(j) => j as int == idx && 0 <= j < t@.len(),
                None => idx == -1,
            }
        }),
{
    let ghost s = vseq(t@);
    let ghost p = sel_pos_p(page, uslot);
    let ghost key = sel_slot_key();
    proof {
        assert(s.take(0) =~= Seq::<SelectRecordV>::empty());
    }
    let mut best: usize = 0;
    let mut found = false;
    let mut i: usize = 0;
    while i < t.len()
        invariant
            0 <= i <= t@.len(),
            s == vseq(t@),
            p == sel_pos_p(page, uslot),
            key == sel_slot_key(),
            found ==> 0 <= best < i,
            last_max_where(s.take(i as int), p, key) == if found {
                best as int
            } else {
                -1int
            },
        decreases t@.len() - i,
    {
        proof {
            assert(s.take(i + 1).drop_last() =~= s.take(i as int));
            assert(s.take(i + 1).last() == s[i as int]);
            assert(s.take(i + 1)[i as int] == s[i as int]);
            assert(s[i as int] == t@[i as int]@);
            if found {
                assert(s.take(i + 1)[best as int] == s[best as int]);
                assert(s[best as int] == t@[best as int]@);
            }
        }
        if t[i].page_index == page && t[i].ui_slot_index == uslot {
            if !found {
                best = i;
                found = true;
            } else if t[i].costume_slot_index >= t[best].costume_slot_index {
                best = i;
            }
        }
        i = i + 1;
    }
    proof {
        assert(s.take(s.len() as int) =~= s);
    }
    if found {
        Some(best)
    } else {
        None
    }
}

fn sel_exists_guard(t: &Vec<SelectRecord>, name: &Vec<u8>, page: u32, uslot: u32) -> (r: bool)
    ensures
        r == exists_where(vseq(t@), sel_guard_p(name@, page, uslot)),
{
    let mut i: usize = 0;
    while i < t.len()
        invariant
            0 <= i <= t@.len(),
            forall|k: int|
                0 <= k < i ==> !sel_guard_p(name@, page, uslot)(#[trigger] vseq(t@)[k]),
        decreases t@.len() - i,
    {
        assert(vseq(t@)[i as int] == t@[i as int]@);
        if t[i].page_index == page && t[i].ui_slot_index == uslot {
            let hit = bytes_eq(t[i].name_ref.as_slice(), name.as_slice());
            if hit {
                assert(sel_guard_p(name@, page, uslot)(vseq(t@)[i as int]));
                return true;
            }
        }
        i = i + 1;
    }
    false
}

/// Derives and appends the select records for every costume of `cfg`,
/// reading `ps` as the finished player-setting snapshot.
///
/// On success the table equals the step's specification; on any failure the
/// table is unchanged.
pub fn add_character_select_entry(
    table: &mut Vec<SelectRecord>,
    ps: &Vec<PlayerSettingRecord>,
    cfg: &CostumeAddConfig,
) -> (r: Result<(), EngineError>)
    requires
        sel_slots_bounded(vseq(old(table)@), cfg@.len() as int),
    ensures
        r is Ok ==> select_step(vseq(old(table)@), vseq(ps@), cfg@) == Ok::<
            Seq<SelectRecordV>,
            EngineError,
        >(vseq(final(table)@)),
        r is Err ==> select_step(vseq(old(table)@), vseq(ps@), cfg@) == Err::<
            Seq<SelectRecordV>,
            EngineError,
        >(r->Err_0) && final(table)@ == old(table)@,
{
    let ghost t0 = vseq(table@);
    let ghost psv = vseq(ps@);
    let mut work = clone_select_table(table);
    proof {
        assert(cfg@.skip(0) =~= cfg@);
    }
    let mut i: usize = 0;
    while i < cfg.costumes.len()
        invariant
            0 <= i <= cfg.costumes@.len(),
            cfg@.len() == cfg.costumes@.len(),
            t0 == vseq(old(table)@),
            table@ == old(table)@,
            psv == vseq(ps@),
            sel_slots_bounded(vseq(work@), cfg@.len() - i),
            select_step(t0, psv, cfg@) == select_step(vseq(work@), psv, cfg@.skip(i as int)),
        decreases cfg.costumes@.len() - i,
    {
        let ghost t_in = vseq(work@);
        let ghost c_v = cfg@[i as int];
        let c = &cfg.costumes[i];
        proof {
            assert(c@ == c_v);
            assert(cfg@.skip(i as int).first() == c_v);
            assert(cfg@.skip(i as int).drop_first() =~= cfg@.skip(i + 1));
        }
        let base = base_search_code(c.character_code.as_slice());
        let b_opt = ps_find_min_code(ps, &base);
        match b_opt {
            None => {
                proof {
                    assert(select_one(t_in, psv, c_v) == Err::<Seq<SelectRecordV>, EngineError>(
                        EngineError::AnchorNotFound,
                    ));
                    assert(select_step(t_in, psv, cfg@.skip(i as int)) == Err::<
                        Seq<SelectRecordV>,
                        EngineError,
                    >(EngineError::AnchorNotFound));
                }
                return Err(EngineError::AnchorNotFound);
            },
            Some(b) => {
                proof {
                    assert(vseq(ps@)[b as int] == ps@[b as int]@);
                }
                let m_opt = sel_find_min_code(&work, &ps[b].search_code);
                match m_opt {
                    None => {
                        proof {
                            assert(select_one(t_in, psv, c_v) == Err::<
                                Seq<SelectRecordV>,
                                EngineError,
                            >(EngineError::AnchorNotFound));
                            assert(select_step(t_in, psv, cfg@.skip(i as int)) == Err::<
                                Seq<SelectRecordV>,
                                EngineError,
                            >(EngineError::AnchorNotFound));
                        }
                        return Err(EngineError::AnchorNotFound);
                    },
                    Some(m) => {
                        proof {
                            assert(vseq(work@)[m as int] == work@[m as int]@);
                        }
                        let page = work[m].page_index;
                        let uslot = work[m].ui_slot_index;
                        let a_opt = sel_find_max_pos(&work, page, uslot);
                        match a_opt {
                            None => {
                                proof {
                                    assert(select_one(t_in, psv, c_v) == Err::<
                                        Seq<SelectRecordV>,
                                        EngineError,
                                    >(EngineError::AnchorNotFound));
                                    assert(select_step(t_in, psv, cfg@.skip(i as int)) == Err::<
                                        Seq<SelectRecordV>,
                                        EngineError,
                                    >(EngineError::AnchorNotFound));
                                }
                                return Err(EngineError::AnchorNotFound);
                            },
                            Some(a) => {
                                proof {
                                    assert(vseq(work@)[a as int] == work@[a as int]@);
                                }
                                let bumped = bump_search_code(&work[a].search_code);
                                match bumped {
                                    None => {
                                        proof {
                                            assert(select_one(t_in, psv, c_v) == Err::<
                                                Seq<SelectRecordV>,
                                                EngineError,
                                            >(EngineError::MalformedIdentifier));
                                            assert(select_step(t_in, psv, cfg@.skip(i as int))
                                                == Err::<Seq<SelectRecordV>, EngineError>(
                                                EngineError::MalformedIdentifier,
                                            ));
                                        }
                                        return Err(EngineError::MalformedIdentifier);
                                    },
                                    Some(code) => {
                                        let dup = sel_exists_guard(
                                            &work,
                                            &c.costume_id,
                                            work[a].page_index,
                                            work[a].ui_slot_index,
                                        );
                                        if !dup {
                                            proof {
                                                assert(vseq(work@)[a as int].costume_slot_index
                                                    + (cfg@.len() - i) <= u32::MAX);
                                            }
                                            let nr = SelectRecord {
                                                page_index: work[a].page_index,
                                                ui_slot_index: work[a].ui_slot_index,
                                                costume_slot_index: work[a].costume_slot_index + 1,
                                                search_code: code,
                                                name_ref: clone_bytes(&c.costume_id),
                                            };
                                            let ghost before = work@;
                                            work.push(nr);
                                            proof {
                                                assert(vseq(work@) =~= vseq(before).push(
                                                    SelectRecordV {
                                                        page_index: t_in[a as int].page_index,
                                                        ui_slot_index: t_in[a as int].ui_slot_index,
                                                        costume_slot_index: (t_in[
                                                            a as int].costume_slot_index + 1) as u32,
                                                        search_code: bumped_code(
                                                            t_in[a as int].search_code,
                                                        ),
                                                        name_ref: c_v.costume_id,
                                                    },
                                                ));
                                                assert(select_one(t_in, psv, c_v) == Ok::<
                                                    Seq<SelectRecordV>,
                                                    EngineError,
                                                >(vseq(work@)));
                                            }
                                        } else {
                                            proof {
                                                assert(select_one(t_in, psv, c_v) == Ok::<
                                                    Seq<SelectRecordV>,
                                                    EngineError,
                                                >(t_in));
                                            }
                                        }
                                    },
                                }
                            },
                        }
                    },
                }
            },
        }
        i = i + 1;
    }
    proof {
        assert(cfg@.skip(i as int).len() == 0);
        assert(select_step(vseq(work@), psv, cfg@.skip(i as int)) == Ok::<
            Seq<SelectRecordV>,
            EngineError,
        >(vseq(work@)));
    }
    *table = work;
    Ok(())
}

} // verus!
