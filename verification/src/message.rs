//! Message-table derivation: for each costume, clone the fixed name-label
//! template record twice — once keyed by the character id and carrying the
//! character name, once keyed by the costume id and carrying the costume name.
//! Each clone is skipped when a record with the same key and text already
//! stands in the table; the costume-name clone is also skipped when the
//! costume name is empty (a costume may reuse its character's display name).

use vstd::prelude::*;

use crate::bytes::clone_bytes;
use crate::checksum::crc32_bzip2;
use crate::checksum::crc32_of;
use crate::find::exists_where;
use crate::records::CostumeAddConfig;
use crate::records::CostumeConfigV;
use crate::records::EngineError;
use crate::records::MessageRecord;
use crate::records::MessageRecordV;
use crate::records::lemma_vseq_push;
use crate::records::vseq;

verus! {

/// Checksum key of the fixed template record denoting a name label.
pub const TEMPLATE_CHECKSUM: u32 = 0xb518_a0f6;

/// The record is the name-label template.
pub open spec fn msg_template_p() -> spec_fn(MessageRecordV) -> bool {
    |r: MessageRecordV| r.checksum == TEMPLATE_CHECKSUM
}

/// The record carries checksum key `sum` and text `text`.
pub open spec fn msg_key_p(sum: u32, text: Seq<u8>) -> spec_fn(MessageRecordV) -> bool {
    |r: MessageRecordV| r.checksum == sum && r.display_text == text
}

/// The message records derived from one costume specification.
pub open spec fn message_one(t: Seq<MessageRecordV>, c: CostumeConfigV) -> Result<
    Seq<MessageRecordV>,
    EngineError,
> {
    if !exists_where(t, msg_template_p()) {
        Err(EngineError::AnchorNotFound)
    } else {
        let hc = crc32_of(c.character_id);
        let t1 = if !exists_where(t, msg_key_p(hc, c.character_name)) {
            t.push(MessageRecordV { checksum: hc, display_text: c.character_name })
        } else {
            t
        };
        let hk = crc32_of(c.costume_id);
        let t2 = if c.costume_name.len() > 0 && !exists_where(t1, msg_key_p(hk, c.costume_name)) {
            t1.push(MessageRecordV { checksum: hk, display_text: c.costume_name })
        } else {
            t1
        };
        Ok(t2)
    }
}

/// The message table after processing every costume, in configuration order.
pub open spec fn message_step(t: Seq<MessageRecordV>, cs: Seq<CostumeConfigV>) -> Result<
    Seq<MessageRecordV>,
    EngineError,
>
    decreases cs.len(),
{
    if cs.len() == 0 {
        Ok(t)
    } else {
        match message_one(t, cs.first()) {
            Ok(t2) => message_step(t2, cs.drop_first()),
            Err(e) => Err(e),
        }
    }
}

fn msg_exists_template(t: &Vec<MessageRecord>) -> (r: bool)
    ensures
        r == exists_where(vseq(t@), msg_template_p()),
{
    let mut i: usize = 0;
    while i < t.len()
        invariant
            0 <= i <= t@.len(),
            forall|k: int| 0 <= k < i ==> !msg_template_p()(#[trigger] vseq(t@)[k]),
        decreases t@.len() - i,
    {
        assert(vseq(t@)[i as int] == t@[i as int]@);
        if t[i].checksum == TEMPLATE_CHECKSUM {
            assert(msg_template_p()(vseq(t@)[i as int]));
            return true;
        }
        i = i + 1;
    }
    false
}

fn msg_exists_key(t: &Vec<MessageRecord>, sum: u32, text: &Vec<u8>) -> (r: bool)
    ensures
        r == exists_where(vseq(t@), msg_key_p(sum, text@)),
{
    let mut i: usize = 0;
    while i < t.len()
        invariant
            0 <= i <= t@.len(),
            forall|k: int| 0 <= k < i ==> !msg_key_p(sum, text@)(#[trigger] vseq(t@)[k]),
        decreases t@.len() - i,
    {
        assert(vseq(t@)[i as int] == t@[i as int]@);
        if t[i].checksum == sum {
            let same = crate::bytes::bytes_eq(t[i].display_text.as_slice(), text.as_slice());
            if same {
                assert(msg_key_p(sum, text@)(vseq(t@)[i as int]));
                return true;
            }
        }
        i = i + 1;
    }
    false
}

/// Derives and appends the message records for every costume of `cfg`.
///
/// On success the table equals the step's specification; on failure (the
/// name-label template record is absent) the table is unchanged.
pub fn add_message_info_entry(table: &mut Vec<MessageRecord>, cfg: &CostumeAddConfig) -> (r: Result<
    (),
    EngineError,
>)
    ensures
        r is Ok ==> message_step(vseq(old(table)@), cfg@) == Ok::<
            Seq<MessageRecordV>,
            EngineError,
        >(vseq(final(table)@)),
        r is Err ==> message_step(vseq(old(table)@), cfg@) == Err::<
            Seq<MessageRecordV>,
            EngineError,
        >(r->Err_0) && final(table)@ == old(table)@,
{
    if cfg.costumes.len() == 0 {
        return Ok(());
    }
    let has_template = msg_exists_template(table);
    if !has_template {
        proof {
            assert(cfg@.len() > 0);
            assert(message_one(vseq(table@), cfg@.first()) == Err::<
                Seq<MessageRecordV>,
                EngineError,
            >(EngineError::AnchorNotFound));
        }
        return Err(EngineError::AnchorNotFound);
    }
    let ghost t0 = vseq(table@);
    proof {
        assert(cfg@.skip(0) =~= cfg@);
    }
    let mut i: usize = 0;
    while i < cfg.costumes.len()
        invariant
            0 <= i <= cfg.costumes@.len(),
            cfg@.len() == cfg.costumes@.len(),
            exists_where(vseq(table@), msg_template_p()),
            message_step(t0, cfg@) == message_step(vseq(table@), cfg@.skip(i as int)),
        decreases cfg.costumes@.len() - i,
    {
        let ghost t_in = vseq(table@);
        let ghost c_v = cfg@[i as int];
        let c = &cfg.costumes[i];
        proof {
            assert(c@ == c_v);
            assert(cfg@.skip(i as int).first() == c_v);
            assert(cfg@.skip(i as int).drop_first() =~= cfg@.skip(i + 1));
        }
        let hc = crc32_bzip2(c.character_id.as_slice());
        let has_char = msg_exists_key(table, hc, &c.character_name);
        if !has_char {
            let ghost before = table@;
            table.push(
                MessageRecord { checksum: hc, display_text: clone_bytes(&c.character_name) },
            );
            proof {
                lemma_vseq_push(
                    before,
                    MessageRecord {
                        checksum: hc,
                        display_text: table@[table@.len() - 1].display_text,
                    },
                );
                assert(vseq(table@) =~= vseq(before).push(
                    MessageRecordV { checksum: hc, display_text: c_v.character_name },
                ));
            }
        }
        let ghost t1 = vseq(table@);
        proof {
            let w = choose|k: int| 0 <= k < t_in.len() && msg_template_p()(#[trigger] t_in[k]);
            assert(msg_template_p()(t1[w]));
            assert(exists_where(t1, msg_template_p()));
        }
        let hk = crc32_bzip2(c.costume_id.as_slice());
        let has_cost = msg_exists_key(table, hk, &c.costume_name);
        if c.costume_name.len() > 0 && !has_cost {
            let ghost before = table@;
            table.push(MessageRecord { checksum: hk, display_text: clone_bytes(&c.costume_name) });
            proof {
                assert(vseq(table@) =~= vseq(before).push(
                    MessageRecordV { checksum: hk, display_text: c_v.costume_name },
                ));
            }
        }
        let ghost t2 = vseq(table@);
        proof {
            assert(message_one(t_in, c_v) == Ok::<Seq<MessageRecordV>, EngineError>(t2));
            assert(message_step(t_in, cfg@.skip(i as int)) == message_step(t2, cfg@.skip(i + 1)));
            let w = choose|k: int| 0 <= k < t_in.len() && msg_template_p()(#[trigger] t_in[k]);
            assert(msg_template_p()(t2[w]));
            assert(exists_where(t2, msg_template_p()));
        }
        i = i + 1;
    }
    proof {
        assert(cfg@.skip(i as int).len() == 0);
        assert(message_step(vseq(table@), cfg@.skip(i as int)) == Ok::<
            Seq<MessageRecordV>,
            EngineError,
        >(vseq(table@)));
    }
    Ok(())
}

} // verus!
