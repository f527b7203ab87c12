//! Properties of the engine that hold for every input, stated and proved
//! once: the search-code suffix law, the monotonic allocation of setting
//! ids, the link-code stride law, and the determinism of the checksum key.

use vstd::prelude::*;

use crate::break_table::br_guard_p;
use crate::break_table::br_index_key;
use crate::break_table::br_slot_p;
use crate::break_table::break_one;
use crate::break_table::break_step;
use crate::checksum::crc32_of;
use crate::codes::base_code_of;
use crate::codes::bumped_code;
use crate::codes::lemma_link_round_trip;
use crate::codes::link_code_of;
use crate::codes::link_tail;
use crate::codes::parse_ok;
use crate::codes::sc_suffix;
use crate::codes::valid_search_code;
use crate::costume::costume_colors;
use crate::costume::costume_one;
use crate::costume::costume_step;
use crate::costume::costume_step_full;
use crate::costume::cv_color_key;
use crate::costume::cv_guard_p;
use crate::costume::cv_new_record;
use crate::costume::cv_sid_p;
use crate::costume::lemma_total_colors_nonneg;
use crate::costume::lemma_total_colors_sort;
use crate::costume::link_val_of;
use crate::costume::links_ok;
use crate::costume::max_link_val;
use crate::costume::total_colors;
use crate::engine::TableSetV;
use crate::engine::engine_spec;
use crate::engine::ps_snap_of;
use crate::engine::stage_br;
use crate::engine::stage_cv;
use crate::engine::stage_icon;
use crate::engine::stage_msg;
use crate::engine::stage_ps;
use crate::engine::stage_sel;
use crate::find::exists_where;
use crate::find::first_min_where;
use crate::find::first_where;
use crate::find::last_max_where;
use crate::find::lemma_exists_where_extend;
use crate::find::lemma_exists_where_insert;
use crate::find::lemma_exists_where_push;
use crate::find::lemma_first_min_append_nonmatch;
use crate::find::lemma_first_min_props;
use crate::find::lemma_last_max_props;
use crate::find::lemma_prefix_trans;
use crate::icon::ic_guard_p;
use crate::icon::ic_model_key;
use crate::icon::ic_slot_p;
use crate::icon::icon_one;
use crate::icon::icon_step;
use crate::message::message_one;
use crate::message::message_step;
use crate::message::msg_key_p;
use crate::message::msg_template_p;
use crate::player_setting::max_setting_id;
use crate::player_setting::ps_code_p;
use crate::player_setting::ps_contains_p;
use crate::player_setting::ps_family_p;
use crate::player_setting::ps_id_key;
use crate::player_setting::ps_new_record;
use crate::player_setting::ps_one;
use crate::player_setting::ps_slot_p;
use crate::player_setting::ps_step;
use crate::player_setting::ps_step_sorted;
use crate::records::BreakRecordV;
use crate::records::CostumeConfigV;
use crate::records::CostumeVariantRecordV;
use crate::records::IconRecordV;
use crate::records::MessageRecordV;
use crate::records::PlayerSettingRecordV;
use crate::records::SelectRecordV;
use crate::select::sel_code_p;
use crate::select::sel_guard_p;
use crate::select::sel_pos_p;
use crate::select::sel_slot_key;
use crate::select::select_one;
use crate::select::select_step;
use crate::sorting::sort_specs;

verus! {

/// The checksum key is a function of the identifier text alone: equal texts
/// always give equal keys, in every run.
pub proof fn lemma_checksum_deterministic(x: Seq<u8>, y: Seq<u8>)
    requires
        x == y,
    ensures
        crc32_of(x) == crc32_of(y),
{
}

/// Incrementing a search code turns suffix `S` into `(S + 1) % 100`, keeps
/// the two-digit zero-padded shape, and keeps the family prefix.
pub proof fn lemma_bumped_code_suffix(s: Seq<u8>)
    requires
        valid_search_code(s),
    ensures
        valid_search_code(bumped_code(s)),
        sc_suffix(bumped_code(s)) == (sc_suffix(s) + 1) % 100,
        bumped_code(s).take(4) == s.take(4),
{
    let n = (sc_suffix(s) + 1) % 100;
    let b = bumped_code(s);
    assert(0 <= sc_suffix(s) < 100);
    assert(0 <= n < 100);
    assert(b.len() == 6);
    assert(b[4] == (48 + n / 10) as u8);
    assert(b[5] == (48 + n % 10) as u8);
    assert((48 + n / 10) as u8 == 48 + n / 10);
    assert((48 + n % 10) as u8 == 48 + n % 10);
    assert(b.take(4) =~= s.take(4));
    assert(sc_suffix(b) == 10 * (n / 10) + n % 10);
}

/// Search-code suffix law at the player-setting step: for a family whose
/// prior maximum suffix is `s_max` (carried by the anchor, the matching
/// record with the greatest setting id), deriving one new costume appends
/// one record whose suffix is `(s_max + 1) % 100`.
pub proof fn lemma_search_code_suffix_law(
    t: Seq<PlayerSettingRecordV>,
    c: CostumeConfigV,
    nid: int,
    s_max: int,
)
    requires
        !exists_where(t, ps_family_p(c.character_id)),
        exists_where(t, ps_contains_p(c.character_code)),
        forall|k: int|
            0 <= k < t.len() && ps_contains_p(c.character_code)(#[trigger] t[k])
                ==> valid_search_code(t[k].search_code) && sc_suffix(t[k].search_code) <= s_max,
        sc_suffix(
            t[last_max_where(t, ps_contains_p(c.character_code), ps_id_key())].search_code,
        ) == s_max,
    ensures
        ps_one(t, c, nid) is Ok,
        ps_one(t, c, nid)->Ok_0.len() == t.len() + 1,
        sc_suffix(ps_one(t, c, nid)->Ok_0.last().search_code) == (s_max + 1) % 100,
        valid_search_code(ps_one(t, c, nid)->Ok_0.last().search_code),
{
    lemma_last_max_props(t, ps_contains_p(c.character_code), ps_id_key());
    let a = last_max_where(t, ps_contains_p(c.character_code), ps_id_key());
    assert(a >= 0);
    assert(ps_contains_p(c.character_code)(t[a]));
    assert(valid_search_code(t[a].search_code));
    lemma_bumped_code_suffix(t[a].search_code);
    let t2 = ps_one(t, c, nid)->Ok_0;
    assert(t2 == t.push(ps_new_record(t[a], c, nid)));
    assert(t2.last() == ps_new_record(t[a], c, nid));
}

/// Monotonic ids: processing `N` costumes that are all new (no record of
/// their character ids yet, and pairwise distinct character ids) appends
/// exactly `N` records carrying the consecutive setting ids
/// `nid, nid + 1, ..., nid + N - 1`, in order, leaving every prior record in
/// place: the id set grows by `N` strictly increasing values with no gaps.
pub proof fn lemma_monotonic_ids(t: Seq<PlayerSettingRecordV>, cs: Seq<CostumeConfigV>, nid: int)
    requires
        ps_step_sorted(t, cs, nid) is Ok,
        forall|j: int|
            0 <= j < cs.len() ==> !exists_where(
                t,
                ps_family_p((#[trigger] cs[j]).character_id),
            ),
        forall|j: int, k: int|
            0 <= j < k < cs.len() ==> (#[trigger] cs[j]).character_id != (
            #[trigger] cs[k]).character_id,
        0 <= nid,
        nid + cs.len() <= u32::MAX,
    ensures
        ({
            let t2 = ps_step_sorted(t, cs, nid)->Ok_0;
            &&& t2.len() == t.len() + cs.len()
            &&& t2.take(t.len() as int) == t
            &&& forall|j: int|
                0 <= j < cs.len() ==> (#[trigger] t2[t.len() + j]).setting_id == nid + j
        }),
    decreases cs.len(),
{
    let t2 = ps_step_sorted(t, cs, nid)->Ok_0;
    if cs.len() == 0 {
        assert(t2.take(t.len() as int) =~= t);
    } else {
        let c = cs.first();
        assert(c == cs[0]);
        assert(!exists_where(t, ps_family_p(c.character_id)));
        let r1 = ps_one(t, c, nid);
        assert(r1 is Ok);
        let a = last_max_where(t, ps_contains_p(c.character_code), ps_id_key());
        assert(a >= 0 && valid_search_code(t[a].search_code));
        let nr = ps_new_record(t[a], c, nid);
        let t1 = t.push(nr);
        assert(r1->Ok_0 == t1);
        assert(ps_step_sorted(t1, cs.drop_first(), nid + 1) == ps_step_sorted(t, cs, nid));
        assert forall|j: int| 0 <= j < cs.drop_first().len() implies !exists_where(
            t1,
            ps_family_p((#[trigger] cs.drop_first()[j]).character_id),
        ) by {
            assert(cs.drop_first()[j] == cs[j + 1]);
            lemma_exists_where_push(t, nr, ps_family_p(cs[j + 1].character_id));
            assert(!exists_where(t, ps_family_p(cs[j + 1].character_id)));
            assert(nr.family_id == cs[0].character_id);
            assert(cs[0].character_id != cs[j + 1].character_id);
        }
        assert forall|j: int, k: int| 0 <= j < k < cs.drop_first().len() implies (
        #[trigger] cs.drop_first()[j]).character_id != (#[trigger] cs.drop_first()[k]).character_id by {
            assert(cs.drop_first()[j] == cs[j + 1]);
            assert(cs.drop_first()[k] == cs[k + 1]);
        }
        lemma_monotonic_ids(t1, cs.drop_first(), nid + 1);
        let tr = ps_step_sorted(t1, cs.drop_first(), nid + 1)->Ok_0;
        assert(tr == t2);
        assert(t2.take(t1.len() as int) == t1);
        assert forall|q: int| 0 <= q < t.len() implies t2[q] == #[trigger] t[q] by {
            assert(t2.take(t1.len() as int)[q] == t2[q]);
            assert(t1[q] == t[q]);
        }
        assert(t2.take(t.len() as int) =~= t);
        assert forall|j: int| 0 <= j < cs.len() implies (#[trigger] t2[t.len() + j]).setting_id
            == nid + j by {
            if j == 0 {
                assert(t2.take(t1.len() as int)[t.len() as int] == t2[t.len() as int]);
                assert(t1[t.len() as int] == nr);
                assert(nr.setting_id == nid as u32);
            } else {
                assert(t2[t1.len() + (j - 1)].setting_id == (nid + 1) + (j - 1));
            }
        }
    }
}

proof fn lemma_colors_insert_all(
    l: Seq<CostumeVariantRecordV>,
    pos: int,
    id: u32,
    name: Seq<u8>,
    base: int,
    i: int,
    k: int,
    cnt: int,
)
    requires
        0 <= i <= k,
        k <= u32::MAX,
        0 <= pos,
        0 <= cnt,
        pos + 1 + cnt <= l.len(),
        forall|m: int| i <= m < k ==> !exists_where(l, #[trigger] cv_guard_p(id, name, m as u32)),
    ensures
        ({
            let out = costume_colors(l, pos, id, name, base, i, k, cnt);
            &&& out.1 == cnt + (k - i)
            &&& out.0.len() == l.len() + (k - i)
            &&& forall|m: int|
                i <= m < k ==> #[trigger] out.0[pos + 1 + cnt + (m - i)] == cv_new_record(
                    id,
                    name,
                    base,
                    m,
                )
            &&& forall|q: int| 0 <= q < pos + 1 + cnt ==> #[trigger] out.0[q] == l[q]
        }),
    decreases k - i,
{
    if i < k {
        assert(!exists_where(l, cv_guard_p(id, name, i as u32)));
        let rec = cv_new_record(id, name, base, i);
        let l2 = l.insert(pos + 1 + cnt, rec);
        assert forall|m: int| i + 1 <= m < k implies !exists_where(
            l2,
            #[trigger] cv_guard_p(id, name, m as u32),
        ) by {
            lemma_exists_where_insert(l, pos + 1 + cnt, rec, cv_guard_p(id, name, m as u32));
            assert(rec.color_index == i as u32);
            assert(m as u32 != i as u32);
            assert(!cv_guard_p(id, name, m as u32)(rec));
        }
        lemma_colors_insert_all(l2, pos, id, name, base, i + 1, k, cnt + 1);
        let out = costume_colors(l, pos, id, name, base, i, k, cnt);
        assert(out == costume_colors(l2, pos, id, name, base, i + 1, k, cnt + 1));
        assert forall|q: int| 0 <= q < pos + 1 + cnt implies #[trigger] out.0[q] == l[q] by {
            assert(out.0[q] == l2[q]);
            assert(l2[q] == l[q]);
        }
        assert forall|m: int| i <= m < k implies #[trigger] out.0[pos + 1 + cnt + (m - i)]
            == cv_new_record(id, name, base, m) by {
            if m == i {
                assert(out.0[pos + 1 + cnt] == l2[pos + 1 + cnt]);
                assert(l2[pos + 1 + cnt] == rec);
            } else {
                assert(out.0[pos + 1 + (cnt + 1) + (m - (i + 1))] == cv_new_record(
                    id,
                    name,
                    base,
                    m,
                ));
            }
        }
    }
}

/// Link-code stride law: when a costume asks for `k` palette variants and
/// none of them is already represented, the color loop inserts exactly `k`
/// records right after the template, and their link-code suffix values are
/// `base, base + 10, ..., base + 10 * (k - 1)`.
pub proof fn lemma_link_stride_law(
    l: Seq<CostumeVariantRecordV>,
    pos: int,
    id: u32,
    name: Seq<u8>,
    base: int,
    k: int,
)
    requires
        0 <= pos < l.len(),
        0 <= k <= u32::MAX,
        0 <= base,
        base + 10 * k <= u32::MAX,
        forall|m: int| 0 <= m < k ==> !exists_where(l, #[trigger] cv_guard_p(id, name, m as u32)),
    ensures
        ({
            let out = costume_colors(l, pos, id, name, base, 0, k, 0);
            &&& out.1 == k
            &&& out.0.len() == l.len() + k
            &&& forall|m: int|
                0 <= m < k ==> (#[trigger] out.0[pos + 1 + m]).link_code == link_code_of(
                    (base + 10 * m) as nat,
                )
            &&& forall|m: int|
                0 <= m < k ==> link_val_of(#[trigger] out.0[pos + 1 + m]) == base + 10 * m
        }),
{
    lemma_colors_insert_all(l, pos, id, name, base, 0, k, 0);
    let out = costume_colors(l, pos, id, name, base, 0, k, 0);
    assert forall|m: int| 0 <= m < k implies (#[trigger] out.0[pos + 1 + m]).link_code
        == link_code_of((base + 10 * m) as nat) && link_val_of(out.0[pos + 1 + m]) == base + 10
        * m by {
        assert(out.0[pos + 1 + 0 + (m - 0)] == cv_new_record(id, name, base, m));
        lemma_link_round_trip((base + 10 * m) as nat);
    }
}

proof fn lemma_message_one_props(t: Seq<MessageRecordV>, c: CostumeConfigV)
    requires
        message_one(t, c) is Ok,
    ensures
        ({
            let t2 = message_one(t, c)->Ok_0;
            &&& t.len() <= t2.len()
            &&& t2.take(t.len() as int) == t
            &&& exists_where(t2, msg_key_p(crc32_of(c.character_id), c.character_name))
            &&& c.costume_name.len() > 0 ==> exists_where(
                t2,
                msg_key_p(crc32_of(c.costume_id), c.costume_name),
            )
        }),
{
    let hc = crc32_of(c.character_id);
    let hk = crc32_of(c.costume_id);
    let r1 = MessageRecordV { checksum: hc, display_text: c.character_name };
    let r2 = MessageRecordV { checksum: hk, display_text: c.costume_name };
    let t1 = if !exists_where(t, msg_key_p(hc, c.character_name)) {
        t.push(r1)
    } else {
        t
    };
    if !exists_where(t, msg_key_p(hc, c.character_name)) {
        crate::find::lemma_exists_where_push(t, r1, msg_key_p(hc, c.character_name));
        assert(msg_key_p(hc, c.character_name)(r1));
    }
    assert(exists_where(t1, msg_key_p(hc, c.character_name)));
    assert(t1.take(t.len() as int) =~= t);
    let t2 = message_one(t, c)->Ok_0;
    if c.costume_name.len() > 0 && !exists_where(t1, msg_key_p(hk, c.costume_name)) {
        assert(t2 == t1.push(r2));
        crate::find::lemma_exists_where_push(t1, r2, msg_key_p(hk, c.costume_name));
        assert(msg_key_p(hk, c.costume_name)(r2));
        assert(t2.take(t1.len() as int) =~= t1);
        lemma_exists_where_extend(t1, t2, msg_key_p(hc, c.character_name));
        lemma_prefix_trans(t, t1, t2);
    } else {
        assert(t2 == t1);
    }
}

proof fn lemma_message_step_establishes(t: Seq<MessageRecordV>, cs: Seq<CostumeConfigV>)
    requires
        message_step(t, cs) is Ok,
    ensures
        ({
            let t2 = message_step(t, cs)->Ok_0;
            &&& t.len() <= t2.len()
            &&& t2.take(t.len() as int) == t
            &&& forall|j: int|
                0 <= j < cs.len() ==> exists_where(
                    t2,
                    msg_key_p(
                        crc32_of((#[trigger] cs[j]).character_id),
                        cs[j].character_name,
                    ),
                )
            &&& forall|j: int|
                0 <= j < cs.len() && (#[trigger] cs[j]).costume_name.len() > 0 ==> exists_where(
                    t2,
                    msg_key_p(crc32_of(cs[j].costume_id), cs[j].costume_name),
                )
        }),
    decreases cs.len(),
{
    let t2 = message_step(t, cs)->Ok_0;
    if cs.len() == 0 {
        assert(t2.take(t.len() as int) =~= t);
    } else {
        let c = cs.first();
        assert(c == cs[0]);
        let r1 = message_one(t, c);
        assert(r1 is Ok);
        let t1 = r1->Ok_0;
        lemma_message_one_props(t, c);
        assert(message_step(t1, cs.drop_first()) == message_step(t, cs));
        lemma_message_step_establishes(t1, cs.drop_first());
        lemma_prefix_trans(t, t1, t2);
        assert forall|j: int| 0 <= j < cs.len() implies exists_where(
            t2,
            msg_key_p(crc32_of((#[trigger] cs[j]).character_id), cs[j].character_name),
        ) by {
            if j == 0 {
                lemma_exists_where_extend(
                    t1,
                    t2,
                    msg_key_p(crc32_of(c.character_id), c.character_name),
                );
            } else {
                assert(cs.drop_first()[j - 1] == cs[j]);
            }
        }
        assert forall|j: int|
            0 <= j < cs.len() && (#[trigger] cs[j]).costume_name.len() > 0 implies exists_where(
            t2,
            msg_key_p(crc32_of(cs[j].costume_id), cs[j].costume_name),
        ) by {
            if j == 0 {
                lemma_exists_where_extend(
                    t1,
                    t2,
                    msg_key_p(crc32_of(c.costume_id), c.costume_name),
                );
            } else {
                assert(cs.drop_first()[j - 1] == cs[j]);
            }
        }
    }
}

proof fn lemma_message_steady(t: Seq<MessageRecordV>, cs: Seq<CostumeConfigV>)
    requires
        exists_where(t, msg_template_p()),
        forall|j: int|
            0 <= j < cs.len() ==> exists_where(
                t,
                msg_key_p(crc32_of((#[trigger] cs[j]).character_id), cs[j].character_name),
            ),
        forall|j: int|
            0 <= j < cs.len() && (#[trigger] cs[j]).costume_name.len() > 0 ==> exists_where(
                t,
                msg_key_p(crc32_of(cs[j].costume_id), cs[j].costume_name),
            ),
    ensures
        message_step(t, cs) == Ok::<Seq<MessageRecordV>, crate::records::EngineError>(t),
    decreases cs.len(),
{
    if cs.len() > 0 {
        let c = cs.first();
        assert(c == cs[0]);
        assert(exists_where(t, msg_key_p(crc32_of(c.character_id), c.character_name)));
        assert(message_one(t, c) == Ok::<Seq<MessageRecordV>, crate::records::EngineError>(t));
        assert(forall|j: int|
            0 <= j < cs.drop_first().len() ==> #[trigger] cs.drop_first()[j] == cs[j + 1]);
        lemma_message_steady(t, cs.drop_first());
    }
}

/// Idempotence of the message step: a second run over the same costumes
/// changes nothing — every record it would derive already stands in the
/// table.
pub proof fn lemma_message_step_idempotent(t: Seq<MessageRecordV>, cs: Seq<CostumeConfigV>)
    requires
        message_step(t, cs) is Ok,
    ensures
        message_step(message_step(t, cs)->Ok_0, cs) == message_step(t, cs),
{
    let t2 = message_step(t, cs)->Ok_0;
    if cs.len() == 0 {
        assert(t2 == t);
    } else {
        assert(message_one(t, cs.first()) is Ok);
        assert(exists_where(t, msg_template_p()));
        lemma_message_step_establishes(t, cs);
        lemma_exists_where_extend(t, t2, msg_template_p());
        lemma_message_steady(t2, cs);
    }
}

proof fn lemma_ps_one_props(t: Seq<PlayerSettingRecordV>, c: CostumeConfigV, nid: int)
    requires
        ps_one(t, c, nid) is Ok,
    ensures
        ({
            let t2 = ps_one(t, c, nid)->Ok_0;
            &&& t.len() <= t2.len()
            &&& t2.take(t.len() as int) == t
            &&& exists_where(t2, ps_family_p(c.character_id))
        }),
{
    let t2 = ps_one(t, c, nid)->Ok_0;
    if exists_where(t, ps_family_p(c.character_id)) {
        assert(t2 == t);
        assert(t2.take(t.len() as int) =~= t);
    } else {
        let a = last_max_where(t, ps_contains_p(c.character_code), ps_id_key());
        let nr = ps_new_record(t[a], c, nid);
        assert(t2 == t.push(nr));
        crate::find::lemma_exists_where_push(t, nr, ps_family_p(c.character_id));
        assert(ps_family_p(c.character_id)(nr));
        assert(t2.take(t.len() as int) =~= t);
    }
}

proof fn lemma_ps_sorted_establishes(t: Seq<PlayerSettingRecordV>, cs: Seq<CostumeConfigV>, nid: int)
    requires
        ps_step_sorted(t, cs, nid) is Ok,
    ensures
        ({
            let t2 = ps_step_sorted(t, cs, nid)->Ok_0;
            &&& t.len() <= t2.len()
            &&& t2.take(t.len() as int) == t
            &&& forall|j: int|
                0 <= j < cs.len() ==> exists_where(
                    t2,
                    ps_family_p((#[trigger] cs[j]).character_id),
                )
        }),
    decreases cs.len(),
{
    let t2 = ps_step_sorted(t, cs, nid)->Ok_0;
    if cs.len() == 0 {
        assert(t2.take(t.len() as int) =~= t);
    } else {
        let c = cs.first();
        assert(c == cs[0]);
        let r1 = ps_one(t, c, nid);
        assert(r1 is Ok);
        let t1 = r1->Ok_0;
        lemma_ps_one_props(t, c, nid);
        let nid2 = if t1.len() > t.len() { nid + 1 } else { nid };
        assert(ps_step_sorted(t1, cs.drop_first(), nid2) == ps_step_sorted(t, cs, nid));
        lemma_ps_sorted_establishes(t1, cs.drop_first(), nid2);
        lemma_prefix_trans(t, t1, t2);
        assert forall|j: int| 0 <= j < cs.len() implies exists_where(
            t2,
            ps_family_p((#[trigger] cs[j]).character_id),
        ) by {
            if j == 0 {
                lemma_exists_where_extend(t1, t2, ps_family_p(c.character_id));
            } else {
                assert(cs.drop_first()[j - 1] == cs[j]);
            }
        }
    }
}

proof fn lemma_ps_steady(t: Seq<PlayerSettingRecordV>, cs: Seq<CostumeConfigV>, nid: int)
    requires
        forall|j: int|
            0 <= j < cs.len() ==> exists_where(t, ps_family_p((#[trigger] cs[j]).character_id)),
    ensures
        ps_step_sorted(t, cs, nid) == Ok::<
            Seq<PlayerSettingRecordV>,
            crate::records::EngineError,
        >(t),
    decreases cs.len(),
{
    if cs.len() > 0 {
        assert(cs.first() == cs[0]);
        assert(exists_where(t, ps_family_p(cs.first().character_id)));
        assert(forall|j: int|
            0 <= j < cs.drop_first().len() ==> #[trigger] cs.drop_first()[j] == cs[j + 1]);
        lemma_ps_steady(t, cs.drop_first(), nid);
    }
}

/// Idempotence of the player-setting step: a second run over the same
/// costumes changes nothing — every character id it would add is already
/// represented, so every costume is skipped.
pub proof fn lemma_ps_step_idempotent(t: Seq<PlayerSettingRecordV>, cs: Seq<CostumeConfigV>)
    requires
        ps_step(t, cs) is Ok,
    ensures
        ps_step(ps_step(t, cs)->Ok_0, cs) == ps_step(t, cs),
{
    let sv = sort_specs(cs, false);
    let t2 = ps_step(t, cs)->Ok_0;
    lemma_ps_sorted_establishes(t, sv, max_setting_id(t) + 1);
    lemma_ps_steady(t2, sv, max_setting_id(t2) + 1);
}

/// The family slot the icon, select and break stages resolve for a costume:
/// the slot of the family's base player-setting record.
pub open spec fn family_slot_of(ps: Seq<PlayerSettingRecordV>, c: CostumeConfigV) -> u32 {
    ps[first_min_where(ps, ps_code_p(base_code_of(c.character_code)), ps_id_key())].family_slot_index
}

proof fn lemma_icon_one_props(t: Seq<IconRecordV>, ps: Seq<PlayerSettingRecordV>, c: CostumeConfigV)
    requires
        icon_one(t, ps, c) is Ok,
    ensures
        ({
            let t2 = icon_one(t, ps, c)->Ok_0;
            &&& t.len() <= t2.len()
            &&& t2.take(t.len() as int) == t
            &&& first_min_where(ps, ps_code_p(base_code_of(c.character_code)), ps_id_key()) >= 0
            &&& exists_where(t2, ic_slot_p(family_slot_of(ps, c)))
            &&& c.icon_code.len() > 0 ==> exists_where(
                t2,
                ic_guard_p(c.model_index, family_slot_of(ps, c)),
            )
        }),
{
    let t2 = icon_one(t, ps, c)->Ok_0;
    let slot = family_slot_of(ps, c);
    let a = last_max_where(t, ic_slot_p(slot), ic_model_key());
    assert(a >= 0);
    crate::find::lemma_last_max_props(t, ic_slot_p(slot), ic_model_key());
    assert(exists_where(t, ic_slot_p(slot)));
    if c.icon_code.len() == 0 || exists_where(t, ic_guard_p(c.model_index, slot)) {
        assert(t2 == t);
        assert(t2.take(t.len() as int) =~= t);
    } else {
        let nr = IconRecordV { slot_index: slot, costume_model_index: c.model_index, icon_id: c.icon_code };
        assert(t2 == t.push(nr));
        assert(t2.take(t.len() as int) =~= t);
        crate::find::lemma_exists_where_push(t, nr, ic_guard_p(c.model_index, slot));
        assert(ic_guard_p(c.model_index, slot)(nr));
        lemma_exists_where_extend(t, t2, ic_slot_p(slot));
    }
}

proof fn lemma_icon_establishes(t: Seq<IconRecordV>, ps: Seq<PlayerSettingRecordV>, cs: Seq<CostumeConfigV>)
    requires
        icon_step(t, ps, cs) is Ok,
    ensures
        ({
            let t2 = icon_step(t, ps, cs)->Ok_0;
            &&& t.len() <= t2.len()
            &&& t2.take(t.len() as int) == t
            &&& forall|j: int|
                0 <= j < cs.len() ==> first_min_where(
                    ps,
                    ps_code_p(base_code_of((#[trigger] cs[j]).character_code)),
                    ps_id_key(),
                ) >= 0
            &&& forall|j: int|
                0 <= j < cs.len() ==> exists_where(
                    t2,
                    ic_slot_p(family_slot_of(ps, #[trigger] cs[j])),
                )
            &&& forall|j: int|
                0 <= j < cs.len() && (#[trigger] cs[j]).icon_code.len() > 0 ==> exists_where(
                    t2,
                    ic_guard_p(cs[j].model_index, family_slot_of(ps, cs[j])),
                )
        }),
    decreases cs.len(),
{
    let t2 = icon_step(t, ps, cs)->Ok_0;
    if cs.len() == 0 {
        assert(t2.take(t.len() as int) =~= t);
    } else {
        let c = cs.first();
        assert(c == cs[0]);
        let t1 = icon_one(t, ps, c)->Ok_0;
        lemma_icon_one_props(t, ps, c);
        assert(icon_step(t1, ps, cs.drop_first()) == icon_step(t, ps, cs));
        lemma_icon_establishes(t1, ps, cs.drop_first());
        lemma_prefix_trans(t, t1, t2);
        assert(forall|j: int|
            0 <= j < cs.drop_first().len() ==> #[trigger] cs.drop_first()[j] == cs[j + 1]);
        assert forall|j: int| 0 <= j < cs.len() implies first_min_where(
            ps,
            ps_code_p(base_code_of((#[trigger] cs[j]).character_code)),
            ps_id_key(),
        ) >= 0 by {
            if j > 0 {
                assert(cs.drop_first()[j - 1] == cs[j]);
            }
        }
        assert forall|j: int| 0 <= j < cs.len() implies exists_where(
            t2,
            ic_slot_p(family_slot_of(ps, #[trigger] cs[j])),
        ) by {
            if j == 0 {
                lemma_exists_where_extend(t1, t2, ic_slot_p(family_slot_of(ps, c)));
            } else {
                assert(cs.drop_first()[j - 1] == cs[j]);
            }
        }
        assert forall|j: int|
            0 <= j < cs.len() && (#[trigger] cs[j]).icon_code.len() > 0 implies exists_where(
            t2,
            ic_guard_p(cs[j].model_index, family_slot_of(ps, cs[j])),
        ) by {
            if j == 0 {
                lemma_exists_where_extend(
                    t1,
                    t2,
                    ic_guard_p(c.model_index, family_slot_of(ps, c)),
                );
            } else {
                assert(cs.drop_first()[j - 1] == cs[j]);
            }
        }
    }
}

proof fn lemma_icon_steady(t: Seq<IconRecordV>, ps: Seq<PlayerSettingRecordV>, cs: Seq<CostumeConfigV>)
    requires
        forall|j: int|
            0 <= j < cs.len() ==> first_min_where(
                ps,
                ps_code_p(base_code_of((#[trigger] cs[j]).character_code)),
                ps_id_key(),
            ) >= 0,
        forall|j: int|
            0 <= j < cs.len() ==> exists_where(t, ic_slot_p(family_slot_of(ps, #[trigger] cs[j]))),
        forall|j: int|
            0 <= j < cs.len() && (#[trigger] cs[j]).icon_code.len() > 0 ==> exists_where(
                t,
                ic_guard_p(cs[j].model_index, family_slot_of(ps, cs[j])),
            ),
    ensures
        icon_step(t, ps, cs) == Ok::<Seq<IconRecordV>, crate::records::EngineError>(t),
    decreases cs.len(),
{
    if cs.len() > 0 {
        let c = cs.first();
        assert(c == cs[0]);
        let slot = family_slot_of(ps, c);
        assert(exists_where(t, ic_slot_p(slot)));
        crate::find::lemma_last_max_props(t, ic_slot_p(slot), ic_model_key());
        assert(last_max_where(t, ic_slot_p(slot), ic_model_key()) >= 0);
        assert(icon_one(t, ps, c) == Ok::<Seq<IconRecordV>, crate::records::EngineError>(t));
        assert(forall|j: int|
            0 <= j < cs.drop_first().len() ==> #[trigger] cs.drop_first()[j] == cs[j + 1]);
        lemma_icon_steady(t, ps, cs.drop_first());
    }
}

/// Idempotence of the icon step: a second run over the same costumes, with
/// the same player-setting snapshot, changes nothing.
pub proof fn lemma_icon_step_idempotent(
    t: Seq<IconRecordV>,
    ps: Seq<PlayerSettingRecordV>,
    cs: Seq<CostumeConfigV>,
)
    requires
        icon_step(t, ps, cs) is Ok,
    ensures
        icon_step(icon_step(t, ps, cs)->Ok_0, ps, cs) == icon_step(t, ps, cs),
{
    lemma_icon_establishes(t, ps, cs);
    lemma_icon_steady(icon_step(t, ps, cs)->Ok_0, ps, cs);
}

proof fn lemma_break_one_props(t: Seq<BreakRecordV>, ps: Seq<PlayerSettingRecordV>, c: CostumeConfigV)
    requires
        break_one(t, ps, c) is Ok,
    ensures
        ({
            let t2 = break_one(t, ps, c)->Ok_0;
            &&& t.len() <= t2.len()
            &&& t2.take(t.len() as int) == t
            &&& c.has_break_variant ==> {
                &&& first_min_where(
                    ps,
                    ps_code_p(base_code_of(c.character_code)),
                    ps_id_key(),
                ) >= 0
                &&& exists_where(t2, br_slot_p(family_slot_of(ps, c)))
                &&& exists_where(t2, br_guard_p(c.model_index, family_slot_of(ps, c)))
            }
        }),
{
    let t2 = break_one(t, ps, c)->Ok_0;
    if !c.has_break_variant {
        assert(t2 == t);
        assert(t2.take(t.len() as int) =~= t);
    } else {
        let slot = family_slot_of(ps, c);
        let a = first_min_where(t, br_slot_p(slot), br_index_key());
        assert(a >= 0);
        lemma_first_min_props(t, br_slot_p(slot), br_index_key());
        assert(exists_where(t, br_slot_p(slot)));
        if exists_where(t, br_guard_p(c.model_index, slot)) {
            assert(t2 == t);
            assert(t2.take(t.len() as int) =~= t);
        } else {
            let nr = BreakRecordV { slot_index: slot, costume_index: c.model_index };
            assert(t2 == t.push(nr));
            assert(t2.take(t.len() as int) =~= t);
            crate::find::lemma_exists_where_push(t, nr, br_guard_p(c.model_index, slot));
            assert(br_guard_p(c.model_index, slot)(nr));
            lemma_exists_where_extend(t, t2, br_slot_p(slot));
        }
    }
}

proof fn lemma_break_establishes(t: Seq<BreakRecordV>, ps: Seq<PlayerSettingRecordV>, cs: Seq<CostumeConfigV>)
    requires
        break_step(t, ps, cs) is Ok,
    ensures
        ({
            let t2 = break_step(t, ps, cs)->Ok_0;
            &&& t.len() <= t2.len()
            &&& t2.take(t.len() as int) == t
            &&& forall|j: int|
                0 <= j < cs.len() && (#[trigger] cs[j]).has_break_variant ==> {
                    &&& first_min_where(
                        ps,
                        ps_code_p(base_code_of(cs[j].character_code)),
                        ps_id_key(),
                    ) >= 0
                    &&& exists_where(t2, br_slot_p(family_slot_of(ps, cs[j])))
                    &&& exists_where(t2, br_guard_p(cs[j].model_index, family_slot_of(ps, cs[j])))
                }
        }),
    decreases cs.len(),
{
    let t2 = break_step(t, ps, cs)->Ok_0;
    if cs.len() == 0 {
        assert(t2.take(t.len() as int) =~= t);
    } else {
        let c = cs.first();
        assert(c == cs[0]);
        let t1 = break_one(t, ps, c)->Ok_0;
        lemma_break_one_props(t, ps, c);
        assert(break_step(t1, ps, cs.drop_first()) == break_step(t, ps, cs));
        lemma_break_establishes(t1, ps, cs.drop_first());
        lemma_prefix_trans(t, t1, t2);
        assert(forall|j: int|
            0 <= j < cs.drop_first().len() ==> #[trigger] cs.drop_first()[j] == cs[j + 1]);
        assert forall|j: int|
            0 <= j < cs.len() && (#[trigger] cs[j]).has_break_variant implies {
            &&& first_min_where(
                ps,
                ps_code_p(base_code_of(cs[j].character_code)),
                ps_id_key(),
            ) >= 0
            &&& exists_where(t2, br_slot_p(family_slot_of(ps, cs[j])))
            &&& exists_where(t2, br_guard_p(cs[j].model_index, family_slot_of(ps, cs[j])))
        } by {
            if j == 0 {
                lemma_exists_where_extend(t1, t2, br_slot_p(family_slot_of(ps, c)));
                lemma_exists_where_extend(
                    t1,
                    t2,
                    br_guard_p(c.model_index, family_slot_of(ps, c)),
                );
            } else {
                assert(cs.drop_first()[j - 1] == cs[j]);
            }
        }
    }
}

proof fn lemma_break_steady(t: Seq<BreakRecordV>, ps: Seq<PlayerSettingRecordV>, cs: Seq<CostumeConfigV>)
    requires
        forall|j: int|
            0 <= j < cs.len() && (#[trigger] cs[j]).has_break_variant ==> {
                &&& first_min_where(
                    ps,
                    ps_code_p(base_code_of(cs[j].character_code)),
                    ps_id_key(),
                ) >= 0
                &&& exists_where(t, br_slot_p(family_slot_of(ps, cs[j])))
                &&& exists_where(t, br_guard_p(cs[j].model_index, family_slot_of(ps, cs[j])))
            },
    ensures
        break_step(t, ps, cs) == Ok::<Seq<BreakRecordV>, crate::records::EngineError>(t),
    decreases cs.len(),
{
    if cs.len() > 0 {
        let c = cs.first();
        assert(c == cs[0]);
        if c.has_break_variant {
            let slot = family_slot_of(ps, c);
            assert(exists_where(t, br_slot_p(slot)));
            lemma_first_min_props(t, br_slot_p(slot), br_index_key());
            assert(first_min_where(t, br_slot_p(slot), br_index_key()) >= 0);
        }
        assert(break_one(t, ps, c) == Ok::<Seq<BreakRecordV>, crate::records::EngineError>(t));
        assert(forall|j: int|
            0 <= j < cs.drop_first().len() ==> #[trigger] cs.drop_first()[j] == cs[j + 1]);
        lemma_break_steady(t, ps, cs.drop_first());
    }
}

/// Idempotence of the break step: a second run over the same costumes, with
/// the same player-setting snapshot, changes nothing.
pub proof fn lemma_break_step_idempotent(
    t: Seq<BreakRecordV>,
    ps: Seq<PlayerSettingRecordV>,
    cs: Seq<CostumeConfigV>,
)
    requires
        break_step(t, ps, cs) is Ok,
    ensures
        break_step(break_step(t, ps, cs)->Ok_0, ps, cs) == break_step(t, ps, cs),
{
    lemma_break_establishes(t, ps, cs);
    lemma_break_steady(break_step(t, ps, cs)->Ok_0, ps, cs);
}

proof fn lemma_links_ok_insert(l: Seq<CostumeVariantRecordV>, at: int, x: CostumeVariantRecordV)
    requires
        0 <= at <= l.len(),
        links_ok(l),
        parse_ok(link_tail(x.link_code)),
    ensures
        links_ok(l.insert(at, x)),
{
    let l2 = l.insert(at, x);
    assert forall|k: int| 0 <= k < l2.len() implies parse_ok(
        link_tail((#[trigger] l2[k]).link_code),
    ) by {
        if k < at {
            assert(l2[k] == l[k]);
        } else if k == at {
            assert(l2[k] == x);
        } else {
            assert(l2[k] == l[k - 1]);
        }
    }
}

proof fn lemma_colors_preserve(
    l: Seq<CostumeVariantRecordV>,
    pos: int,
    id: u32,
    name: Seq<u8>,
    base: int,
    i: int,
    k: int,
    cnt: int,
    p: spec_fn(CostumeVariantRecordV) -> bool,
)
    requires
        exists_where(l, p),
        0 <= pos,
        0 <= cnt,
        pos + 1 + cnt <= l.len(),
    ensures
        exists_where(costume_colors(l, pos, id, name, base, i, k, cnt).0, p),
    decreases k - i,
{
    if i < k {
        if exists_where(l, cv_guard_p(id, name, i as u32)) {
            lemma_colors_preserve(l, pos, id, name, base, i + 1, k, cnt, p);
        } else {
            let rec = cv_new_record(id, name, base, i);
            let l2 = l.insert(pos + 1 + cnt, rec);
            lemma_exists_where_insert(l, pos + 1 + cnt, rec, p);
            lemma_colors_preserve(l2, pos, id, name, base, i + 1, k, cnt + 1, p);
        }
    }
}

proof fn lemma_colors_links(
    l: Seq<CostumeVariantRecordV>,
    pos: int,
    id: u32,
    name: Seq<u8>,
    base: int,
    i: int,
    k: int,
    cnt: int,
)
    requires
        links_ok(l),
        0 <= base,
        0 <= i,
        base + 10 * k <= u32::MAX,
        0 <= pos,
        0 <= cnt,
        pos + 1 + cnt <= l.len(),
    ensures
        links_ok(costume_colors(l, pos, id, name, base, i, k, cnt).0),
    decreases k - i,
{
    if i < k {
        if exists_where(l, cv_guard_p(id, name, i as u32)) {
            lemma_colors_links(l, pos, id, name, base, i + 1, k, cnt);
        } else {
            let rec = cv_new_record(id, name, base, i);
            lemma_link_round_trip((base + 10 * i) as nat);
            lemma_links_ok_insert(l, pos + 1 + cnt, rec);
            let l2 = l.insert(pos + 1 + cnt, rec);
            lemma_colors_links(l2, pos, id, name, base, i + 1, k, cnt + 1);
        }
    }
}

proof fn lemma_colors_guards(
    l: Seq<CostumeVariantRecordV>,
    pos: int,
    id: u32,
    name: Seq<u8>,
    base: int,
    i: int,
    k: int,
    cnt: int,
)
    requires
        0 <= i,
        k <= u32::MAX,
        0 <= pos,
        0 <= cnt,
        pos + 1 + cnt <= l.len(),
    ensures
        forall|m: int|
            i <= m < k ==> exists_where(
                costume_colors(l, pos, id, name, base, i, k, cnt).0,
                #[trigger] cv_guard_p(id, name, m as u32),
            ),
    decreases k - i,
{
    if i < k {
        let out = costume_colors(l, pos, id, name, base, i, k, cnt);
        if exists_where(l, cv_guard_p(id, name, i as u32)) {
            lemma_colors_guards(l, pos, id, name, base, i + 1, k, cnt);
            lemma_colors_preserve(
                l,
                pos,
                id,
                name,
                base,
                i + 1,
                k,
                cnt,
                cv_guard_p(id, name, i as u32),
            );
        } else {
            let rec = cv_new_record(id, name, base, i);
            let l2 = l.insert(pos + 1 + cnt, rec);
            lemma_exists_where_insert(l, pos + 1 + cnt, rec, cv_guard_p(id, name, i as u32));
            assert(cv_guard_p(id, name, i as u32)(rec));
            lemma_colors_guards(l2, pos, id, name, base, i + 1, k, cnt + 1);
            lemma_colors_preserve(
                l2,
                pos,
                id,
                name,
                base,
                i + 1,
                k,
                cnt + 1,
                cv_guard_p(id, name, i as u32),
            );
        }
    }
}

proof fn lemma_colors_steady(
    l: Seq<CostumeVariantRecordV>,
    pos: int,
    id: u32,
    name: Seq<u8>,
    base: int,
    i: int,
    k: int,
    cnt: int,
)
    requires
        forall|m: int| i <= m < k ==> exists_where(l, #[trigger] cv_guard_p(id, name, m as u32)),
    ensures
        costume_colors(l, pos, id, name, base, i, k, cnt) == (l, cnt),
    decreases k - i,
{
    if i < k {
        assert(exists_where(l, cv_guard_p(id, name, i as u32)));
        lemma_colors_steady(l, pos, id, name, base, i + 1, k, cnt);
    }
}

proof fn lemma_max_link_val_nonneg(l: Seq<CostumeVariantRecordV>)
    ensures
        max_link_val(l) >= 0,
    decreases l.len(),
{
    if l.len() > 0 {
        lemma_max_link_val_nonneg(l.drop_last());
    }
}

/// Index of the costume's family record, base-slot record, and newest family
/// record in the player-setting snapshot.
pub open spec fn cv_family_first(ps: Seq<PlayerSettingRecordV>, c: CostumeConfigV) -> int {
    first_where(ps, ps_family_p(c.character_id))
}

pub open spec fn cv_base_idx(ps: Seq<PlayerSettingRecordV>, c: CostumeConfigV) -> int {
    first_min_where(
        ps,
        ps_slot_p(ps[cv_family_first(ps, c)].family_slot_index),
        ps_id_key(),
    )
}

pub open spec fn cv_new_id_idx(ps: Seq<PlayerSettingRecordV>, c: CostumeConfigV) -> int {
    last_max_where(ps, ps_family_p(c.character_id), ps_id_key())
}

proof fn lemma_costume_one_preserve(
    l: Seq<CostumeVariantRecordV>,
    ps: Seq<PlayerSettingRecordV>,
    c: CostumeConfigV,
    nl: int,
    p: spec_fn(CostumeVariantRecordV) -> bool,
)
    requires
        costume_one(l, ps, c, nl) is Ok,
        exists_where(l, p),
    ensures
        exists_where(costume_one(l, ps, c, nl)->Ok_0.0, p),
{
    let t = last_max_where(l, cv_sid_p(ps[cv_base_idx(ps, c)].setting_id), cv_color_key());
    assert(t >= 0);
    crate::find::lemma_last_max_props(
        l,
        cv_sid_p(ps[cv_base_idx(ps, c)].setting_id),
        cv_color_key(),
    );
    lemma_colors_preserve(
        l,
        t,
        ps[cv_new_id_idx(ps, c)].setting_id,
        c.character_id,
        nl,
        0,
        c.color_count as int,
        0,
        p,
    );
}

proof fn lemma_costume_one_idem_props(
    l: Seq<CostumeVariantRecordV>,
    ps: Seq<PlayerSettingRecordV>,
    c: CostumeConfigV,
    nl: int,
)
    requires
        costume_one(l, ps, c, nl) is Ok,
        links_ok(l),
        0 <= nl,
        nl + 10 * c.color_count <= u32::MAX,
    ensures
        ({
            let l2 = costume_one(l, ps, c, nl)->Ok_0.0;
            &&& costume_one(l, ps, c, nl)->Ok_0.1 == nl + 10 * c.color_count
            &&& links_ok(l2)
            &&& cv_family_first(ps, c) >= 0
            &&& cv_base_idx(ps, c) >= 0
            &&& cv_new_id_idx(ps, c) >= 0
            &&& exists_where(l2, cv_sid_p(ps[cv_base_idx(ps, c)].setting_id))
            &&& forall|m: int|
                0 <= m < c.color_count ==> exists_where(
                    l2,
                    #[trigger] cv_guard_p(
                        ps[cv_new_id_idx(ps, c)].setting_id,
                        c.character_id,
                        m as u32,
                    ),
                )
        }),
{
    let sid = ps[cv_base_idx(ps, c)].setting_id;
    let nid = ps[cv_new_id_idx(ps, c)].setting_id;
    let t = last_max_where(l, cv_sid_p(sid), cv_color_key());
    assert(t >= 0);
    crate::find::lemma_last_max_props(l, cv_sid_p(sid), cv_color_key());
    assert(exists_where(l, cv_sid_p(sid)));
    lemma_colors_links(l, t, nid, c.character_id, nl, 0, c.color_count as int, 0);
    lemma_colors_guards(l, t, nid, c.character_id, nl, 0, c.color_count as int, 0);
    lemma_colors_preserve(
        l,
        t,
        nid,
        c.character_id,
        nl,
        0,
        c.color_count as int,
        0,
        cv_sid_p(sid),
    );
}

proof fn lemma_costume_step_preserve(
    l: Seq<CostumeVariantRecordV>,
    ps: Seq<PlayerSettingRecordV>,
    cs: Seq<CostumeConfigV>,
    nl: int,
    p: spec_fn(CostumeVariantRecordV) -> bool,
)
    requires
        costume_step(l, ps, cs, nl) is Ok,
        exists_where(l, p),
    ensures
        exists_where(costume_step(l, ps, cs, nl)->Ok_0.0, p),
    decreases cs.len(),
{
    if cs.len() > 0 {
        let r1 = costume_one(l, ps, cs.first(), nl);
        assert(r1 is Ok);
        lemma_costume_one_preserve(l, ps, cs.first(), nl, p);
        lemma_costume_step_preserve(r1->Ok_0.0, ps, cs.drop_first(), r1->Ok_0.1, p);
    }
}

proof fn lemma_costume_establishes(
    l: Seq<CostumeVariantRecordV>,
    ps: Seq<PlayerSettingRecordV>,
    cs: Seq<CostumeConfigV>,
    nl: int,
)
    requires
        costume_step(l, ps, cs, nl) is Ok,
        links_ok(l),
        0 <= nl,
        nl + 10 * total_colors(cs) <= u32::MAX,
    ensures
        ({
            let l2 = costume_step(l, ps, cs, nl)->Ok_0.0;
            &&& links_ok(l2)
            &&& forall|j: int|
                0 <= j < cs.len() ==> cv_family_first(ps, #[trigger] cs[j]) >= 0
                    && cv_base_idx(ps, cs[j]) >= 0 && cv_new_id_idx(ps, cs[j]) >= 0
                    && exists_where(l2, cv_sid_p(ps[cv_base_idx(ps, cs[j])].setting_id))
            &&& forall|j: int, m: int|
                0 <= j < cs.len() && 0 <= m < cs[j].color_count ==> exists_where(
                    l2,
                    #[trigger] cv_guard_p(
                        ps[cv_new_id_idx(ps, #[trigger] cs[j])].setting_id,
                        cs[j].character_id,
                        m as u32,
                    ),
                )
        }),
    decreases cs.len(),
{
    let l2 = costume_step(l, ps, cs, nl)->Ok_0.0;
    if cs.len() > 0 {
        let c = cs.first();
        assert(c == cs[0]);
        let r1 = costume_one(l, ps, c, nl);
        assert(r1 is Ok);
        let l1 = r1->Ok_0.0;
        let nl1 = r1->Ok_0.1;
        lemma_total_colors_nonneg(cs.drop_first());
        assert(total_colors(cs) == c.color_count + total_colors(cs.drop_first()));
        lemma_costume_one_idem_props(l, ps, c, nl);
        assert(costume_step(l1, ps, cs.drop_first(), nl1) == costume_step(l, ps, cs, nl));
        lemma_costume_establishes(l1, ps, cs.drop_first(), nl1);
        assert(forall|j: int|
            0 <= j < cs.drop_first().len() ==> #[trigger] cs.drop_first()[j] == cs[j + 1]);
        assert forall|j: int| 0 <= j < cs.len() implies cv_family_first(ps, #[trigger] cs[j]) >= 0
            && cv_base_idx(ps, cs[j]) >= 0 && cv_new_id_idx(ps, cs[j]) >= 0 && exists_where(
            l2,
            cv_sid_p(ps[cv_base_idx(ps, cs[j])].setting_id),
        ) by {
            if j == 0 {
                lemma_costume_step_preserve(
                    l1,
                    ps,
                    cs.drop_first(),
                    nl1,
                    cv_sid_p(ps[cv_base_idx(ps, c)].setting_id),
                );
            } else {
                assert(cs.drop_first()[j - 1] == cs[j]);
            }
        }
        assert forall|j: int, m: int|
            0 <= j < cs.len() && 0 <= m < cs[j].color_count implies exists_where(
            l2,
            #[trigger] cv_guard_p(
                ps[cv_new_id_idx(ps, #[trigger] cs[j])].setting_id,
                cs[j].character_id,
                m as u32,
            ),
        ) by {
            if j == 0 {
                assert(exists_where(
                    l1,
                    cv_guard_p(ps[cv_new_id_idx(ps, c)].setting_id, c.character_id, m as u32),
                ));
                lemma_costume_step_preserve(
                    l1,
                    ps,
                    cs.drop_first(),
                    nl1,
                    cv_guard_p(ps[cv_new_id_idx(ps, c)].setting_id, c.character_id, m as u32),
                );
            } else {
                assert(cs.drop_first()[j - 1] == cs[j]);
            }
        }
    }
}

proof fn lemma_costume_steady(
    l: Seq<CostumeVariantRecordV>,
    ps: Seq<PlayerSettingRecordV>,
    cs: Seq<CostumeConfigV>,
    nl: int,
)
    requires
        forall|j: int|
            0 <= j < cs.len() ==> cv_family_first(ps, #[trigger] cs[j]) >= 0 && cv_base_idx(
                ps,
                cs[j],
            ) >= 0 && cv_new_id_idx(ps, cs[j]) >= 0 && exists_where(
                l,
                cv_sid_p(ps[cv_base_idx(ps, cs[j])].setting_id),
            ),
        forall|j: int, m: int|
            0 <= j < cs.len() && 0 <= m < cs[j].color_count ==> exists_where(
                l,
                #[trigger] cv_guard_p(
                    ps[cv_new_id_idx(ps, #[trigger] cs[j])].setting_id,
                    cs[j].character_id,
                    m as u32,
                ),
            ),
    ensures
        costume_step(l, ps, cs, nl) is Ok,
        costume_step(l, ps, cs, nl)->Ok_0.0 == l,
    decreases cs.len(),
{
    if cs.len() > 0 {
        let c = cs.first();
        assert(c == cs[0]);
        let sid = ps[cv_base_idx(ps, c)].setting_id;
        assert(exists_where(l, cv_sid_p(sid)));
        crate::find::lemma_last_max_props(l, cv_sid_p(sid), cv_color_key());
        let t = last_max_where(l, cv_sid_p(sid), cv_color_key());
        assert(t >= 0);
        assert(forall|m: int|
            0 <= m < c.color_count as int ==> exists_where(
                l,
                #[trigger] cv_guard_p(
                    ps[cv_new_id_idx(ps, c)].setting_id,
                    c.character_id,
                    m as u32,
                ),
            ));
        lemma_colors_steady(
            l,
            t,
            ps[cv_new_id_idx(ps, c)].setting_id,
            c.character_id,
            nl,
            0,
            c.color_count as int,
            0,
        );
        assert(costume_one(l, ps, c, nl) == Ok::<
            (Seq<CostumeVariantRecordV>, int),
            crate::records::EngineError,
        >((l, nl + 10 * c.color_count)));
        assert(forall|j: int|
            0 <= j < cs.drop_first().len() ==> #[trigger] cs.drop_first()[j] == cs[j + 1]);
        lemma_costume_steady(l, ps, cs.drop_first(), nl + 10 * c.color_count);
    }
}

/// Idempotence of the costume-variant step: a second run over the same
/// costumes, with the same player-setting snapshot, changes nothing — every
/// (setting id, name, color) key it would insert already stands in the list,
/// and every link code of the once-run list still parses.
pub proof fn lemma_costume_step_idempotent(
    l: Seq<CostumeVariantRecordV>,
    ps: Seq<PlayerSettingRecordV>,
    cs: Seq<CostumeConfigV>,
)
    requires
        costume_step_full(l, ps, cs) is Ok,
        max_link_val(l) + 10 + 10 * total_colors(cs) <= u32::MAX,
    ensures
        costume_step_full(costume_step_full(l, ps, cs)->Ok_0, ps, cs) == costume_step_full(
            l,
            ps,
            cs,
        ),
{
    assert(links_ok(l));
    let sv = sort_specs(cs, true);
    lemma_total_colors_sort(cs, true);
    lemma_max_link_val_nonneg(l);
    let l2 = costume_step_full(l, ps, cs)->Ok_0;
    assert(costume_step(l, ps, sv, max_link_val(l) + 10) is Ok);
    assert(l2 == costume_step(l, ps, sv, max_link_val(l) + 10)->Ok_0.0);
    lemma_costume_establishes(l, ps, sv, max_link_val(l) + 10);
    lemma_max_link_val_nonneg(l2);
    lemma_costume_steady(l2, ps, sv, max_link_val(l2) + 10);
}

/// The costume's base player-setting row, and the family's base select row
/// as found in table `t`.
pub open spec fn sel_base_idx(ps: Seq<PlayerSettingRecordV>, c: CostumeConfigV) -> int {
    first_min_where(ps, ps_code_p(base_code_of(c.character_code)), ps_id_key())
}

pub open spec fn sel_row_idx(
    t: Seq<SelectRecordV>,
    ps: Seq<PlayerSettingRecordV>,
    c: CostumeConfigV,
) -> int {
    first_min_where(t, sel_code_p(ps[sel_base_idx(ps, c)].search_code), sel_slot_key())
}

/// Every search code in the select table has the expected shape.
pub open spec fn sel_all_valid(t: Seq<SelectRecordV>) -> bool {
    forall|k: int| 0 <= k < t.len() ==> valid_search_code((#[trigger] t[k]).search_code)
}

/// No record beyond the first `n` carries one of the costumes' family base
/// search codes.
pub open spec fn sel_no_base_clash(t2: Seq<SelectRecordV>, n: int, cs: Seq<CostumeConfigV>) -> bool {
    forall|j: int, k: int|
        0 <= j < cs.len() && n <= k < t2.len() ==> (#[trigger] t2[k]).search_code
            != base_code_of((#[trigger] cs[j]).character_code)
}

proof fn lemma_select_one_extends(
    l: Seq<SelectRecordV>,
    ps: Seq<PlayerSettingRecordV>,
    c: CostumeConfigV,
)
    requires
        select_one(l, ps, c) is Ok,
    ensures
        ({
            let l2 = select_one(l, ps, c)->Ok_0;
            l.len() <= l2.len() && l2.take(l.len() as int) == l
        }),
{
    let l2 = select_one(l, ps, c)->Ok_0;
    if l2.len() > l.len() {
        assert(l2.take(l.len() as int) =~= l);
    } else {
        assert(l2 == l);
        assert(l2.take(l.len() as int) =~= l);
    }
}

proof fn lemma_select_step_extends(
    l: Seq<SelectRecordV>,
    ps: Seq<PlayerSettingRecordV>,
    cs: Seq<CostumeConfigV>,
)
    requires
        select_step(l, ps, cs) is Ok,
    ensures
        ({
            let l2 = select_step(l, ps, cs)->Ok_0;
            l.len() <= l2.len() && l2.take(l.len() as int) == l
        }),
    decreases cs.len(),
{
    let l2 = select_step(l, ps, cs)->Ok_0;
    if cs.len() == 0 {
        assert(l2.take(l.len() as int) =~= l);
    } else {
        let l1 = select_one(l, ps, cs.first())->Ok_0;
        lemma_select_one_extends(l, ps, cs.first());
        lemma_select_step_extends(l1, ps, cs.drop_first());
        lemma_prefix_trans(l, l1, l2);
    }
}

proof fn lemma_select_establishes(
    t0: Seq<SelectRecordV>,
    ps: Seq<PlayerSettingRecordV>,
    l: Seq<SelectRecordV>,
    cs: Seq<CostumeConfigV>,
)
    requires
        select_step(l, ps, cs) is Ok,
        t0.len() <= l.len(),
        l.take(t0.len() as int) == t0,
        sel_all_valid(l),
        sel_no_base_clash(select_step(l, ps, cs)->Ok_0, t0.len() as int, cs),
    ensures
        ({
            let fin = select_step(l, ps, cs)->Ok_0;
            &&& sel_all_valid(fin)
            &&& forall|j: int|
                0 <= j < cs.len() ==> {
                    &&& sel_base_idx(ps, #[trigger] cs[j]) >= 0
                    &&& sel_row_idx(t0, ps, cs[j]) >= 0
                    &&& exists_where(
                        fin,
                        sel_guard_p(
                            cs[j].costume_id,
                            t0[sel_row_idx(t0, ps, cs[j])].page_index,
                            t0[sel_row_idx(t0, ps, cs[j])].ui_slot_index,
                        ),
                    )
                }
        }),
    decreases cs.len(),
{
    let fin = select_step(l, ps, cs)->Ok_0;
    if cs.len() > 0 {
        let c = cs.first();
        assert(c == cs[0]);
        let r1 = select_one(l, ps, c);
        assert(r1 is Ok);
        let l1 = r1->Ok_0;
        lemma_select_one_extends(l, ps, c);
        assert(select_step(l1, ps, cs.drop_first()) == select_step(l, ps, cs));
        lemma_select_step_extends(l1, ps, cs.drop_first());
        lemma_prefix_trans(t0, l, l1);
        // the current costume's lookups
        let b = sel_base_idx(ps, c);
        assert(b >= 0);
        lemma_first_min_props(ps, ps_code_p(base_code_of(c.character_code)), ps_id_key());
        assert(ps[b].search_code == base_code_of(c.character_code));
        let code = ps[b].search_code;
        // the base select row in l is the base select row in t0: records
        // beyond t0 never carry a base code
        assert forall|k: int| t0.len() <= k < l.len() implies !sel_code_p(code)(
            #[trigger] l[k],
        ) by {
            assert(fin.take(l.len() as int)[k] == fin[k]);
            assert(l[k] == fin[k]);
            assert(fin[k].search_code != base_code_of(cs[0].character_code));
        }
        lemma_first_min_append_nonmatch(t0, l, sel_code_p(code), sel_slot_key());
        let m = sel_row_idx(t0, ps, c);
        assert(m == first_min_where(l, sel_code_p(code), sel_slot_key()));
        assert(m >= 0);
        lemma_first_min_props(t0, sel_code_p(code), sel_slot_key());
        assert(l.take(t0.len() as int)[m] == l[m]);
        assert(l[m] == t0[m]);
        let pg = t0[m].page_index;
        let sl = t0[m].ui_slot_index;
        // the anchor row and what the step did with it
        let a = last_max_where(l, sel_pos_p(l[m].page_index, l[m].ui_slot_index), sel_slot_key());
        assert(a >= 0);
        crate::find::lemma_last_max_props(
            l,
            sel_pos_p(l[m].page_index, l[m].ui_slot_index),
            sel_slot_key(),
        );
        assert(sel_pos_p(pg, sl)(l[a]));
        assert(l[a].page_index == pg && l[a].ui_slot_index == sl);
        if exists_where(l, sel_guard_p(c.costume_id, pg, sl)) {
            assert(l1 == l);
        } else {
            let nr = SelectRecordV {
                page_index: l[a].page_index,
                ui_slot_index: l[a].ui_slot_index,
                costume_slot_index: (l[a].costume_slot_index + 1) as u32,
                search_code: bumped_code(l[a].search_code),
                name_ref: c.costume_id,
            };
            assert(l1 == l.push(nr));
            crate::find::lemma_exists_where_push(l, nr, sel_guard_p(c.costume_id, pg, sl));
            assert(sel_guard_p(c.costume_id, pg, sl)(nr));
        }
        assert(exists_where(l1, sel_guard_p(c.costume_id, pg, sl)));
        // validity is maintained by the push
        assert(sel_all_valid(l1)) by {
            if l1.len() > l.len() {
                assert(valid_search_code(l[a].search_code));
                lemma_bumped_code_suffix(l[a].search_code);
                assert forall|k: int| 0 <= k < l1.len() implies valid_search_code(
                    (#[trigger] l1[k]).search_code,
                ) by {
                    if k < l.len() {
                        assert(l1[k] == l[k]);
                    }
                }
            }
        }
        lemma_select_establishes(t0, ps, l1, cs.drop_first());
        assert(forall|j: int|
            0 <= j < cs.drop_first().len() ==> #[trigger] cs.drop_first()[j] == cs[j + 1]);
        assert forall|j: int| 0 <= j < cs.len() implies {
            &&& sel_base_idx(ps, #[trigger] cs[j]) >= 0
            &&& sel_row_idx(t0, ps, cs[j]) >= 0
            &&& exists_where(
                fin,
                sel_guard_p(
                    cs[j].costume_id,
                    t0[sel_row_idx(t0, ps, cs[j])].page_index,
                    t0[sel_row_idx(t0, ps, cs[j])].ui_slot_index,
                ),
            )
        } by {
            if j == 0 {
                lemma_exists_where_extend(l1, fin, sel_guard_p(c.costume_id, pg, sl));
            } else {
                assert(cs.drop_first()[j - 1] == cs[j]);
            }
        }
    }
}

proof fn lemma_select_steady(
    t0: Seq<SelectRecordV>,
    ps: Seq<PlayerSettingRecordV>,
    t2: Seq<SelectRecordV>,
    cs: Seq<CostumeConfigV>,
)
    requires
        t0.len() <= t2.len(),
        t2.take(t0.len() as int) == t0,
        sel_all_valid(t2),
        sel_no_base_clash(t2, t0.len() as int, cs),
        forall|j: int|
            0 <= j < cs.len() ==> {
                &&& sel_base_idx(ps, #[trigger] cs[j]) >= 0
                &&& sel_row_idx(t0, ps, cs[j]) >= 0
                &&& exists_where(
                    t2,
                    sel_guard_p(
                        cs[j].costume_id,
                        t0[sel_row_idx(t0, ps, cs[j])].page_index,
                        t0[sel_row_idx(t0, ps, cs[j])].ui_slot_index,
                    ),
                )
            },
    ensures
        select_step(t2, ps, cs) == Ok::<Seq<SelectRecordV>, crate::records::EngineError>(t2),
    decreases cs.len(),
{
    if cs.len() > 0 {
        let c = cs.first();
        assert(c == cs[0]);
        let b = sel_base_idx(ps, c);
        assert(b >= 0);
        lemma_first_min_props(ps, ps_code_p(base_code_of(c.character_code)), ps_id_key());
        assert(ps[b].search_code == base_code_of(c.character_code));
        let code = ps[b].search_code;
        assert forall|k: int| t0.len() <= k < t2.len() implies !sel_code_p(code)(
            #[trigger] t2[k],
        ) by {
            assert(t2[k].search_code != base_code_of(cs[0].character_code));
        }
        lemma_first_min_append_nonmatch(t0, t2, sel_code_p(code), sel_slot_key());
        let m = sel_row_idx(t0, ps, c);
        assert(m == first_min_where(t2, sel_code_p(code), sel_slot_key()));
        assert(m >= 0);
        lemma_first_min_props(t0, sel_code_p(code), sel_slot_key());
        assert(t2.take(t0.len() as int)[m] == t2[m]);
        assert(t2[m] == t0[m]);
        let pg = t0[m].page_index;
        let sl = t0[m].ui_slot_index;
        assert(sel_pos_p(pg, sl)(t2[m]));
        assert(exists_where(t2, sel_pos_p(pg, sl)));
        crate::find::lemma_last_max_props(t2, sel_pos_p(pg, sl), sel_slot_key());
        let a = last_max_where(t2, sel_pos_p(pg, sl), sel_slot_key());
        assert(a >= 0);
        assert(valid_search_code(t2[a].search_code));
        assert(t2[a].page_index == pg && t2[a].ui_slot_index == sl);
        assert(exists_where(t2, sel_guard_p(c.costume_id, pg, sl)));
        assert(select_one(t2, ps, c) == Ok::<Seq<SelectRecordV>, crate::records::EngineError>(
            t2,
        ));
        assert(forall|j: int|
            0 <= j < cs.drop_first().len() ==> #[trigger] cs.drop_first()[j] == cs[j + 1]);
        assert(sel_no_base_clash(t2, t0.len() as int, cs.drop_first())) by {
            assert forall|j: int, k: int|
                0 <= j < cs.drop_first().len() && t0.len() <= k < t2.len() implies (
                #[trigger] t2[k]).search_code != base_code_of(
                    (#[trigger] cs.drop_first()[j]).character_code,
                ) by {
                    assert(cs.drop_first()[j] == cs[j + 1]);
                }
        }
        lemma_select_steady(t0, ps, t2, cs.drop_first());
    }
}

/// Idempotence of the select step, for well-shaped inputs: when every search
/// code in the table has the expected shape and no derived record carries
/// one of the families' base search codes (a suffix wrapping from 99 to 00
/// could produce one), a second run over the same costumes changes nothing.
pub proof fn lemma_select_step_idempotent(
    t: Seq<SelectRecordV>,
    ps: Seq<PlayerSettingRecordV>,
    cs: Seq<CostumeConfigV>,
)
    requires
        select_step(t, ps, cs) is Ok,
        sel_all_valid(t),
        sel_no_base_clash(select_step(t, ps, cs)->Ok_0, t.len() as int, cs),
    ensures
        select_step(select_step(t, ps, cs)->Ok_0, ps, cs) == select_step(t, ps, cs),
{
    let t2 = select_step(t, ps, cs)->Ok_0;
    assert(t.take(t.len() as int) =~= t);
    lemma_select_establishes(t, ps, t, cs);
    lemma_select_step_extends(t, ps, cs);
    lemma_select_steady(t, ps, t2, cs);
}

/// Idempotence of the whole engine: running it twice with the same costumes
/// and the same table set produces the tables of a single run, under the
/// machine bound on link-code values and, for the select table, the two
/// shape conditions of the select step's own idempotence law.
pub proof fn lemma_engine_idempotent(ts: TableSetV, cs: Seq<CostumeConfigV>)
    requires
        engine_spec(ts, cs) is Ok,
        ts.costume is Some ==> max_link_val(ts.costume->0) + 10 + 10 * total_colors(cs)
            <= u32::MAX,
        ts.select is Some ==> sel_all_valid(ts.select->0),
        ts.select is Some ==> sel_no_base_clash(
            engine_spec(ts, cs)->Ok_0.select->0,
            ts.select->0.len() as int,
            cs,
        ),
    ensures
        engine_spec(engine_spec(ts, cs)->Ok_0, cs) == engine_spec(ts, cs),
{
    let out = engine_spec(ts, cs)->Ok_0;
    let pst = stage_ps(ts.player_setting, cs)->Ok_0;
    let snap = ps_snap_of(pst);
    assert(out.message == stage_msg(ts.message, cs)->Ok_0);
    assert(out.player_setting == pst);
    assert(out.costume == stage_cv(ts.costume, snap, cs)->Ok_0);
    assert(out.icon == stage_icon(ts.icon, snap, cs)->Ok_0);
    assert(out.select == stage_sel(ts.select, snap, cs)->Ok_0);
    assert(out.breaks == stage_br(ts.breaks, snap, cs)->Ok_0);

    match ts.message {
        None => {
            assert(stage_msg(out.message, cs) == Ok::<
                Option<Seq<MessageRecordV>>,
                crate::records::EngineError,
            >(out.message));
        },
        Some(t) => {
            lemma_message_step_idempotent(t, cs);
        },
    }
    match ts.player_setting {
        None => {
            assert(stage_ps(out.player_setting, cs) == Ok::<
                Option<Seq<PlayerSettingRecordV>>,
                crate::records::EngineError,
            >(pst));
        },
        Some(t) => {
            lemma_ps_step_idempotent(t, cs);
        },
    }
    assert(stage_ps(out.player_setting, cs) == Ok::<
        Option<Seq<PlayerSettingRecordV>>,
        crate::records::EngineError,
    >(pst));
    assert(ps_snap_of(stage_ps(out.player_setting, cs)->Ok_0) == snap);
    match ts.costume {
        None => {},
        Some(t) => {
            lemma_costume_step_idempotent(t, snap, cs);
        },
    }
    assert(stage_cv(out.costume, snap, cs) == Ok::<
        Option<Seq<CostumeVariantRecordV>>,
        crate::records::EngineError,
    >(out.costume));
    match ts.icon {
        None => {},
        Some(t) => {
            lemma_icon_step_idempotent(t, snap, cs);
        },
    }
    assert(stage_icon(out.icon, snap, cs) == Ok::<
        Option<Seq<IconRecordV>>,
        crate::records::EngineError,
    >(out.icon));
    match ts.select {
        None => {},
        Some(t) => {
            lemma_select_step_idempotent(t, snap, cs);
        },
    }
    assert(stage_sel(out.select, snap, cs) == Ok::<
        Option<Seq<SelectRecordV>>,
        crate::records::EngineError,
    >(out.select));
    match ts.breaks {
        None => {},
        Some(t) => {
            lemma_break_step_idempotent(t, snap, cs);
        },
    }
    assert(stage_br(out.breaks, snap, cs) == Ok::<
        Option<Seq<BreakRecordV>>,
        crate::records::EngineError,
    >(out.breaks));
    assert(engine_spec(out, cs) == Ok::<TableSetV, crate::records::EngineError>(out));
}

} // verus!
