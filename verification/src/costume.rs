//! Costume-variant derivation. Costumes are processed sorted by family code
//! and then by model index descending, so each batch of variants lands right
//! after its template as the list grows. A running link counter starts ten
//! above the greatest numeric link-code suffix in the table and advances by
//! ten per generated variant; each costume contributes `color_count`
//! variants, inserted after the template record (the variant of the family's
//! earliest player-setting row with the greatest color index), keyed by the
//! setting id newly allocated for the costume.

use vstd::prelude::*;

use crate::bytes::bytes_eq;
use crate::bytes::clone_bytes;
use crate::bytes::dec_val;
use crate::codes::link_code_of;
use crate::codes::link_code_value;
use crate::codes::link_tail;
use crate::codes::make_link_code;
use crate::codes::parse_ok;
use crate::find::exists_where;
use crate::find::first_min_where;
use crate::find::first_where;
use crate::find::last_max_where;
use crate::records::CostumeAddConfig;
use crate::records::CostumeConfigV;
use crate::records::CostumeVariantRecord;
use crate::records::CostumeVariantRecordV;
use crate::records::EngineError;
use crate::records::PlayerSettingRecord;
use crate::records::PlayerSettingRecordV;
use crate::records::clone_variant_table;
use crate::records::lemma_vseq_insert;
use crate::records::vseq;
use crate::player_setting::ps_family_p;
use crate::player_setting::ps_find_min_slot;
use crate::player_setting::ps_first_family;
use crate::player_setting::ps_id_key;
use crate::player_setting::ps_max_id_family;
use crate::player_setting::ps_slot_p;
use crate::sorting::cfg_lt;
use crate::sorting::insert_sorted;
use crate::sorting::sort_costumes;
use crate::sorting::sort_specs;

verus! {

/// The variant belongs to setting id `id`.
pub open spec fn cv_sid_p(id: u32) -> spec_fn(CostumeVariantRecordV) -> bool {
    |r: CostumeVariantRecordV| r.setting_id == id
}

/// Selection key: the variant's color index.
pub open spec fn cv_color_key() -> spec_fn(CostumeVariantRecordV) -> int {
    |r: CostumeVariantRecordV| r.color_index as int
}

/// The variant already represents (setting id, name reference, color).
pub open spec fn cv_guard_p(id: u32, name: Seq<u8>, color: u32) -> spec_fn(
    CostumeVariantRecordV,
) -> bool {
    |r: CostumeVariantRecordV| r.setting_id == id && r.name_ref == name && r.color_index == color
}

/// The numeric value of a variant's link-code suffix.
pub open spec fn link_val_of(r: CostumeVariantRecordV) -> int {
    dec_val(link_tail(r.link_code))
}

/// Every link code in the table has a parseable numeric suffix.
pub open spec fn links_ok(t: Seq<CostumeVariantRecordV>) -> bool {
    forall|k: int| 0 <= k < t.len() ==> parse_ok(link_tail((#[trigger] t[k]).link_code))
}

/// The greatest link-code suffix value in the table, `0` when it is empty.
pub open spec fn max_link_val(t: Seq<CostumeVariantRecordV>) -> int
    decreases t.len(),
{
    if t.len() == 0 {
        0
    } else {
        let m = max_link_val(t.drop_last());
        if link_val_of(t.last()) > m {
            link_val_of(t.last())
        } else {
            m
        }
    }
}

/// Total number of palette variants a batch of costumes asks for.
pub open spec fn total_colors(cs: Seq<CostumeConfigV>) -> int
    decreases cs.len(),
{
    if cs.len() == 0 {
        0
    } else {
        cs.first().color_count + total_colors(cs.drop_first())
    }
}

pub proof fn lemma_total_colors_nonneg(cs: Seq<CostumeConfigV>)
    ensures
        total_colors(cs) >= 0,
    decreases cs.len(),
{
    if cs.len() > 0 {
        lemma_total_colors_nonneg(cs.drop_first());
    }
}

proof fn lemma_total_colors_insert(x: CostumeConfigV, s: Seq<CostumeConfigV>, desc_model: bool)
    ensures
        total_colors(insert_sorted(x, s, desc_model)) == x.color_count + total_colors(s),
    decreases s.len(),
{
    if s.len() == 0 {
        assert(insert_sorted(x, s, desc_model) == seq![x]);
        assert(seq![x].first() == x);
        assert(seq![x].drop_first() =~= Seq::<CostumeConfigV>::empty());
        assert(total_colors(seq![x]) == x.color_count + total_colors(seq![x].drop_first()));
    } else if cfg_lt(x, s[0], desc_model) {
        assert((seq![x] + s).first() == x);
        assert((seq![x] + s).drop_first() =~= s);
    } else {
        lemma_total_colors_insert(x, s.drop_first(), desc_model);
        let r = seq![s[0]] + insert_sorted(x, s.drop_first(), desc_model);
        assert(r.first() == s[0]);
        assert(r.drop_first() =~= insert_sorted(x, s.drop_first(), desc_model));
        assert(s.first() == s[0]);
    }
}

proof fn lemma_total_colors_snoc(s: Seq<CostumeConfigV>)
    requires
        s.len() > 0,
    ensures
        total_colors(s) == total_colors(s.drop_last()) + s.last().color_count,
    decreases s.len(),
{
    if s.len() == 1 {
        assert(s.drop_first() =~= Seq::<CostumeConfigV>::empty());
        assert(s.drop_last() =~= Seq::<CostumeConfigV>::empty());
    } else {
        lemma_total_colors_snoc(s.drop_first());
        assert(s.drop_first().drop_last() =~= s.drop_last().drop_first());
        assert(s.drop_first().last() == s.last());
        assert(s.drop_last().first() == s.first());
    }
}

/// Sorting does not change how many variants a batch asks for.
pub proof fn lemma_total_colors_sort(s: Seq<CostumeConfigV>, desc_model: bool)
    ensures
        total_colors(sort_specs(s, desc_model)) == total_colors(s),
    decreases s.len(),
{
    if s.len() > 0 {
        lemma_total_colors_sort(s.drop_last(), desc_model);
        lemma_total_colors_insert(s.last(), sort_specs(s.drop_last(), desc_model), desc_model);
        lemma_total_colors_snoc(s);
    }
}

/// The variant generated for color `i`.
pub open spec fn cv_new_record(new_id: u32, name: Seq<u8>, base_link: int, i: int) -> CostumeVariantRecordV {
    CostumeVariantRecordV {
        setting_id: new_id,
        color_index: i as u32,
        name_ref: name,
        link_code: link_code_of((base_link + 10 * i) as nat),
        price: 0,
        unlock_condition: 1,
    }
}

/// The color loop of one costume: variants `i .. k`, inserted after position
/// `pos`, offset by the count already inserted; a variant whose
/// (setting id, name, color) key already stands in the list is skipped.
/// Returns the list and the final insert count.
pub open spec fn costume_colors(
    l: Seq<CostumeVariantRecordV>,
    pos: int,
    new_id: u32,
    name: Seq<u8>,
    base_link: int,
    i: int,
    k: int,
    cnt: int,
) -> (Seq<CostumeVariantRecordV>, int)
    decreases k - i,
{
    if i >= k {
        (l, cnt)
    } else {
        if exists_where(l, cv_guard_p(new_id, name, i as u32)) {
            costume_colors(l, pos, new_id, name, base_link, i + 1, k, cnt)
        } else {
            costume_colors(
                l.insert(pos + 1 + cnt, cv_new_record(new_id, name, base_link, i)),
                pos,
                new_id,
                name,
                base_link,
                i + 1,
                k,
                cnt + 1,
            )
        }
    }
}

/// One costume's variant derivation, threading the link counter.
pub open spec fn costume_one(
    l: Seq<CostumeVariantRecordV>,
    ps: Seq<PlayerSettingRecordV>,
    c: CostumeConfigV,
    next_link: int,
) -> Result<(Seq<CostumeVariantRecordV>, int), EngineError> {
    let f = first_where(ps, ps_family_p(c.character_id));
    if f < 0 {
        Err(EngineError::AnchorNotFound)
    } else {
        let slot = ps[f].family_slot_index;
        let b = first_min_where(ps, ps_slot_p(slot), ps_id_key());
        if b < 0 {
            Err(EngineError::AnchorNotFound)
        } else {
            let t = last_max_where(l, cv_sid_p(ps[b].setting_id), cv_color_key());
            if t < 0 {
                Err(EngineError::AnchorNotFound)
            } else {
                let h = last_max_where(ps, ps_family_p(c.character_id), ps_id_key());
                if h < 0 {
                    Err(EngineError::AnchorNotFound)
                } else {
                    let out = costume_colors(
                        l,
                        t,
                        ps[h].setting_id,
                        c.character_id,
                        next_link,
                        0,
                        c.color_count as int,
                        0,
                    );
                    Ok((out.0, next_link + 10 * c.color_count))
                }
            }
        }
    }
}

/// The variant list after the costumes of `cs` (already sorted), threading
/// the link counter.
pub open spec fn costume_step(
    l: Seq<CostumeVariantRecordV>,
    ps: Seq<PlayerSettingRecordV>,
    cs: Seq<CostumeConfigV>,
    next_link: int,
) -> Result<(Seq<CostumeVariantRecordV>, int), EngineError>
    decreases cs.len(),
{
    if cs.len() == 0 {
        Ok((l, next_link))
    } else {
        match costume_one(l, ps, cs.first(), next_link) {
            Ok(p) => costume_step(p.0, ps, cs.drop_first(), p.1),
            Err(e) => Err(e),
        }
    }
}

/// The whole costume step: every link code must parse, the counter starts
/// ten above the greatest suffix, and costumes run sorted by family code
/// ascending then model index descending.
pub open spec fn costume_step_full(
    l: Seq<CostumeVariantRecordV>,
    ps: Seq<PlayerSettingRecordV>,
    cs: Seq<CostumeConfigV>,
) -> Result<Seq<CostumeVariantRecordV>, EngineError> {
    if !links_ok(l) {
        Err(EngineError::MalformedIdentifier)
    } else {
        match costume_step(l, ps, sort_specs(cs, true), max_link_val(l) + 10) {
            Ok(p) => Ok(p.0),
            Err(e) => Err(e),
        }
    }
}

fn cv_find_max_sid(t: &Vec<CostumeVariantRecord>, id: u32) -> (r: Option<usize>)
    ensures
        ({
            let idx = last_max_where(vseq(t@), cv_sid_p(id), cv_color_key());
            match r {
                Some(j) => j as int == idx && 0 <= j < t@.len(),
                None => idx == -1,
            }
        }),
{
    let ghost s = vseq(t@);
    let ghost p = cv_sid_p(id);
    let ghost key = cv_color_key();
    proof {
        assert(s.take(0) =~= Seq::<CostumeVariantRecordV>::empty());
    }
    let mut best: usize = 0;
    let mut found = false;
    let mut i: usize = 0;
    while i < t.len()
        invariant
            0 <= i <= t@.len(),
            s == vseq(t@),
            p == cv_sid_p(id),
            key == cv_color_key(),
            found ==> 0 <= best < i,
            last_max_where(s.take(i as int), p, key) == if found {
                best as int
            } else {
                -1int
            },
        decreases t@.len() - i,
    {
        proof {
            assert(s.take(i + 1).drop_last() =~= s.take(i as int));
            assert(s.take(i + 1).last() == s[i as int]);
            assert(s.take(i + 1)[i as int] == s[i as int]);
            assert(s[i as int] == t@[i as int]@);
            if found {
                assert(s.take(i + 1)[best as int] == s[best as int]);
                assert(s[best as int] == t@[best as int]@);
            }
        }
        if t[i].setting_id == id {
            if !found {
                best = i;
                found = true;
            } else if t[i].color_index >= t[best].color_index {
                best = i;
            }
        }
        i = i + 1;
    }
    proof {
        assert(s.take(s.len() as int) =~= s);
    }
    if found {
        Some(best)
    } else {
        None
    }
}

fn cv_exists_guard(t: &Vec<CostumeVariantRecord>, id: u32, name: &Vec<u8>, color: u32) -> (r: bool)
    ensures
        r == exists_where(vseq(t@), cv_guard_p(id, name@, color)),
{
    let mut i: usize = 0;
    while i < t.len()
        invariant
            0 <= i <= t@.len(),
            forall|k: int|
                0 <= k < i ==> !cv_guard_p(id, name@, color)(#[trigger] vseq(t@)[k]),
        decreases t@.len() - i,
    {
        assert(vseq(t@)[i as int] == t@[i as int]@);
        if t[i].setting_id == id && t[i].color_index == color {
            let hit = bytes_eq(t[i].name_ref.as_slice(), name.as_slice());
            if hit {
                assert(cv_guard_p(id, name@, color)(vseq(t@)[i as int]));
                return true;
            }
        }
        i = i + 1;
    }
    false
}

/// The greatest link-code suffix in the table; `None` when some link code
/// does not parse.
fn cv_max_link(t: &Vec<CostumeVariantRecord>) -> (r: Option<u32>)
    ensures
        r is Some ==> links_ok(vseq(t@)) && r->0 as int == max_link_val(vseq(t@)),
        r is None ==> !links_ok(vseq(t@)),
{
    let ghost s = vseq(t@);
    proof {
        assert(s.take(0) =~= Seq::<CostumeVariantRecordV>::empty());
    }
    let mut m: u32 = 0;
    let mut i: usize = 0;
    while i < t.len()
        invariant
            0 <= i <= t@.len(),
            s == vseq(t@),
            forall|k: int| 0 <= k < i ==> parse_ok(link_tail((#[trigger] s[k]).link_code)),
            m as int == max_link_val(s.take(i as int)),
        decreases t@.len() - i,
    {
        proof {
            assert(s.take(i + 1).drop_last() =~= s.take(i as int));
            assert(s.take(i + 1).last() == s[i as int]);
            assert(s[i as int] == t@[i as int]@);
        }
        let v_opt = link_code_value(&t[i].link_code);
        match v_opt {
            None => {
                proof {
                    assert(!parse_ok(link_tail(s[i as int].link_code)));
                }
                return None;
            },
            Some(v) => {
                if v > m {
                    m = v;
                }
            },
        }
        i = i + 1;
    }
    proof {
        assert(s.take(s.len() as int) =~= s);
    }
    Some(m)
}

/// Derives the variant records for every costume of `cfg` and inserts each
/// batch after its template, reading `ps` as the finished player-setting
/// snapshot.
///
/// On success the table equals the step's specification; on any failure the
/// table is unchanged.
pub fn add_costume_entry(
    table: &mut Vec<CostumeVariantRecord>,
    ps: &Vec<PlayerSettingRecord>,
    cfg: &CostumeAddConfig,
) -> (r: Result<(), EngineError>)
    requires
        max_link_val(vseq(old(table)@)) + 10 + 10 * total_colors(cfg@) <= u32::MAX,
    ensures
        r is Ok ==> costume_step_full(vseq(old(table)@), vseq(ps@), cfg@) == Ok::<
            Seq<CostumeVariantRecordV>,
            EngineError,
        >(vseq(final(table)@)),
        r is Err ==> costume_step_full(vseq(old(table)@), vseq(ps@), cfg@) == Err::<
            Seq<CostumeVariantRecordV>,
            EngineError,
        >(r->Err_0) && final(table)@ == old(table)@,
{
    let ghost t0 = vseq(table@);
    let ghost psv = vseq(ps@);
    let m_opt = cv_max_link(table);
    let base_max: u32 = match m_opt {
        None => {
            return Err(EngineError::MalformedIdentifier);
        },
        Some(m) => m,
    };
    let sorted = sort_costumes(&cfg.costumes, true);
    let ghost sv = sort_specs(cfg@, true);
    let mut work = clone_variant_table(table);
    proof {
        assert(vseq(sorted@) == sv);
        crate::sorting::lemma_sort_specs_len(cfg@, true);
        lemma_total_colors_sort(cfg@, true);
        lemma_total_colors_nonneg(sv);
        assert(sv.skip(0) =~= sv);
    }
    let mut next_link: u32 = base_max + 10;
    let ghost nl0 = base_max as int + 10;
    let mut i: usize = 0;
    while i < sorted.len()
        invariant
            0 <= i <= sorted@.len(),
            t0 == vseq(old(table)@),
            table@ == old(table)@,
            psv == vseq(ps@),
            sv == vseq(sorted@),
            sv == sort_specs(cfg@, true),
            sv.len() == sorted@.len(),
            links_ok(t0),
            nl0 == max_link_val(t0) + 10,
            next_link as int + 10 * total_colors(sv.skip(i as int)) <= u32::MAX,
            costume_step(t0, psv, sv, nl0) == costume_step(
                vseq(work@),
                psv,
                sv.skip(i as int),
                next_link as int,
            ),
        decreases sorted@.len() - i,
    {
        let ghost t_in = vseq(work@);
        let ghost c_v = sv[i as int];
        let c = &sorted[i];
        proof {
            assert(c@ == c_v);
            assert(sv.skip(i as int).first() == c_v);
            assert(sv.skip(i as int).drop_first() =~= sv.skip(i + 1));
            lemma_total_colors_nonneg(sv.skip(i + 1));
        }
        let f_opt = ps_first_family(ps, &c.character_id);
        match f_opt {
            None => {
                proof {
                    crate::find::lemma_first_where_props(psv, ps_family_p(c_v.character_id));
                    assert(costume_one(t_in, psv, c_v, next_link as int) == Err::<
                        (Seq<CostumeVariantRecordV>, int),
                        EngineError,
                    >(EngineError::AnchorNotFound));
                    assert(costume_step(t_in, psv, sv.skip(i as int), next_link as int) == Err::<
                        (Seq<CostumeVariantRecordV>, int),
                        EngineError,
                    >(EngineError::AnchorNotFound));
                }
                return Err(EngineError::AnchorNotFound);
            },
            Some(f) => {
                proof {
                    crate::find::lemma_first_where_props(psv, ps_family_p(c_v.character_id));
                    assert(vseq(ps@)[f as int] == ps@[f as int]@);
                }
                let slot = ps[f].family_slot_index;
                let b_opt = ps_find_min_slot(ps, slot);
                match b_opt {
                    None => {
                        proof {
                            assert(costume_one(t_in, psv, c_v, next_link as int) == Err::<
                                (Seq<CostumeVariantRecordV>, int),
                                EngineError,
                            >(EngineError::AnchorNotFound));
                            assert(costume_step(t_in, psv, sv.skip(i as int), next_link as int)
                                == Err::<(Seq<CostumeVariantRecordV>, int), EngineError>(
                                EngineError::AnchorNotFound,
                            ));
                        }
                        return Err(EngineError::AnchorNotFound);
                    },
                    Some(b) => {
                        proof {
                            assert(vseq(ps@)[b as int] == ps@[b as int]@);
                        }
                        let base_id = ps[b].setting_id;
                        let t_opt = cv_find_max_sid(&work, base_id);
                        match t_opt {
                            None => {
                                proof {
                                    assert(costume_one(t_in, psv, c_v, next_link as int) == Err::<
                                        (Seq<CostumeVariantRecordV>, int),
                                        EngineError,
                                    >(EngineError::AnchorNotFound));
                                    assert(costume_step(
                                        t_in,
                                        psv,
                                        sv.skip(i as int),
                                        next_link as int,
                                    ) == Err::<(Seq<CostumeVariantRecordV>, int), EngineError>(
                                        EngineError::AnchorNotFound,
                                    ));
                                }
                                return Err(EngineError::AnchorNotFound);
                            },
                            Some(pos) => {
                                let h_opt = ps_max_id_family(ps, &c.character_id);
                                match h_opt {
                                    None => {
                                        proof {
                                            assert(costume_one(
                                                t_in,
                                                psv,
                                                c_v,
                                                next_link as int,
                                            ) == Err::<
                                                (Seq<CostumeVariantRecordV>, int),
                                                EngineError,
                                            >(EngineError::AnchorNotFound));
                                            assert(costume_step(
                                                t_in,
                                                psv,
                                                sv.skip(i as int),
                                                next_link as int,
                                            ) == Err::<
                                                (Seq<CostumeVariantRecordV>, int),
                                                EngineError,
                                            >(EngineError::AnchorNotFound));
                                        }
                                        return Err(EngineError::AnchorNotFound);
                                    },
                                    Some(h) => {
                                        proof {
                                            assert(vseq(ps@)[h as int] == ps@[h as int]@);
                                        }
                                        let new_id = ps[h].setting_id;
                                        let cc = c.color_count;
                                        let mut j: u32 = 0;
                                        let mut cnt: usize = 0;
                                        proof {
                                            assert(total_colors(sv.skip(i as int)) == c_v.color_count
                                                + total_colors(sv.skip(i + 1)));
                                        }
                                        while j < cc
                                            invariant
                                                0 <= j <= cc,
                                                cnt <= j,
                                                cc == c_v.color_count,
                                                new_id == psv[h as int].setting_id,
                                                psv == vseq(ps@),
                                                c@ == c_v,
                                                pos + 1 + cnt <= work.len(),
                                                next_link as int + 10 * c_v.color_count
                                                    <= u32::MAX,
                                                costume_colors(
                                                    t_in,
                                                    pos as int,
                                                    new_id,
                                                    c_v.character_id,
                                                    next_link as int,
                                                    0,
                                                    cc as int,
                                                    0,
                                                ) == costume_colors(
                                                    vseq(work@),
                                                    pos as int,
                                                    new_id,
                                                    c_v.character_id,
                                                    next_link as int,
                                                    j as int,
                                                    cc as int,
                                                    cnt as int,
                                                ),
                                            decreases cc - j,
                                        {
                                            let dup = cv_exists_guard(
                                                &work,
                                                new_id,
                                                &c.character_id,
                                                j,
                                            );
                                            if !dup {
                                                let link = make_link_code(next_link + 10 * j);
                                                let nr = CostumeVariantRecord {
                                                    setting_id: new_id,
                                                    color_index: j,
                                                    name_ref: clone_bytes(&c.character_id),
                                                    link_code: link,
                                                    price: 0,
                                                    unlock_condition: 1,
                                                };
                                                let ghost before = work@;
                                                work.insert(pos + 1 + cnt, nr);
                                                proof {
                                                    lemma_vseq_insert(
                                                        before,
                                                        pos + 1 + cnt,
                                                        work@[pos + 1 + cnt],
                                                    );
                                                    assert(vseq(work@) =~= vseq(before).insert(
                                                        pos + 1 + cnt,
                                                        cv_new_record(
                                                            new_id,
                                                            c_v.character_id,
                                                            next_link as int,
                                                            j as int,
                                                        ),
                                                    ));
                                                }
                                                cnt = cnt + 1;
                                            }
                                            j = j + 1;
                                        }
                                        proof {
                                            let out = costume_colors(
                                                t_in,
                                                pos as int,
                                                new_id,
                                                c_v.character_id,
                                                next_link as int,
                                                0,
                                                cc as int,
                                                0,
                                            );
                                            assert(out == costume_colors(
                                                vseq(work@),
                                                pos as int,
                                                new_id,
                                                c_v.character_id,
                                                next_link as int,
                                                cc as int,
                                                cc as int,
                                                cnt as int,
                                            ));
                                            assert(out.0 == vseq(work@));
                                            assert(costume_one(t_in, psv, c_v, next_link as int)
                                                == Ok::<
                                                (Seq<CostumeVariantRecordV>, int),
                                                EngineError,
                                            >((vseq(work@), next_link as int + 10
                                                * c_v.color_count)));
                                        }
                                        next_link = next_link + 10 * cc;
                                        proof {
                                            assert(costume_step(t0, psv, sv, nl0)
                                                == costume_step(
                                                vseq(work@),
                                                psv,
                                                sv.skip(i + 1),
                                                next_link as int,
                                            ));
                                        }
                                    },
                                }
                            },
                        }
                    },
                }
            },
        }
        i = i + 1;
    }
    proof {
        assert(sv.skip(i as int).len() == 0);
        assert(costume_step(vseq(work@), psv, sv.skip(i as int), next_link as int) == Ok::<
            (Seq<CostumeVariantRecordV>, int),
            EngineError,
        >((vseq(work@), next_link as int)));
    }
    *table = work;
    Ok(())
}

} // verus!
