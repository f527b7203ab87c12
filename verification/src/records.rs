//! The record tables the engine edits, the costume specifications that drive
//! it, and the engine's error kinds. Each executable type has a ghost view
//! over `Seq` and plain integers; every contract speaks of those views.
//!
//! Textual fields are byte strings. A message record's checksum key is kept
//! as the 32-bit checksum value; the codec boundary stores its four bytes in
//! little-endian order.

use vstd::prelude::*;

use crate::bytes::clone_bytes;

verus! {

/// Fatal conditions of the propagation engine. Either aborts the whole run.
#[derive(Clone, Copy, Debug, PartialEq, Eq, Structural)]
pub enum EngineError {
    /// An anchor lookup (filter then extremum) matched no record.
    AnchorNotFound,
    /// A search code or link code has no parseable numeric suffix.
    MalformedIdentifier,
}

/// One costume to make playable, as read from the configuration document.
#[derive(Clone, Debug, PartialEq, Eq)]
pub struct CostumeConfig {
    pub model_index: i32,
    pub character_code: Vec<u8>,
    pub model_code: Vec<u8>,
    pub icon_code: Vec<u8>,
    pub character_id: Vec<u8>,
    pub character_name: Vec<u8>,
    pub costume_id: Vec<u8>,
    pub costume_name: Vec<u8>,
    pub color_count: u32,
    pub has_break_variant: bool,
}

pub struct CostumeConfigV {
    pub model_index: i32,
    pub character_code: Seq<u8>,
    pub model_code: Seq<u8>,
    pub icon_code: Seq<u8>,
    pub character_id: Seq<u8>,
    pub character_name: Seq<u8>,
    pub costume_id: Seq<u8>,
    pub costume_name: Seq<u8>,
    pub color_count: u32,
    pub has_break_variant: bool,
}

impl View for CostumeConfig {
    type V = CostumeConfigV;

    open spec fn view(&self) -> CostumeConfigV {
        CostumeConfigV {
            model_index: self.model_index,
            character_code: self.character_code@,
            model_code: self.model_code@,
            icon_code: self.icon_code@,
            character_id: self.character_id@,
            character_name: self.character_name@,
            costume_id: self.costume_id@,
            costume_name: self.costume_name@,
            color_count: self.color_count,
            has_break_variant: self.has_break_variant,
        }
    }
}

impl CostumeConfig {
    pub fn duplicate(&self) -> (r: Self)
        ensures
            r@ == self@,
    {
        CostumeConfig {
            model_index: self.model_index,
            character_code: clone_bytes(&self.character_code),
            model_code: clone_bytes(&self.model_code),
            icon_code: clone_bytes(&self.icon_code),
            character_id: clone_bytes(&self.character_id),
            character_name: clone_bytes(&self.character_name),
            costume_id: clone_bytes(&self.costume_id),
            costume_name: clone_bytes(&self.costume_name),
            color_count: self.color_count,
            has_break_variant: self.has_break_variant,
        }
    }
}

/// The whole configuration document: one list of costumes.
#[derive(Clone, Debug, PartialEq, Eq)]
pub struct CostumeAddConfig {
    pub costumes: Vec<CostumeConfig>,
}

impl View for CostumeAddConfig {
    type V = Seq<CostumeConfigV>;

    open spec fn view(&self) -> Seq<CostumeConfigV> {
        vseq(self.costumes@)
    }
}

/// A localized text record, looked up by checksum key.
#[derive(Clone, Debug, PartialEq, Eq)]
pub struct MessageRecord {
    pub checksum: u32,
    pub display_text: Vec<u8>,
}

pub struct MessageRecordV {
    pub checksum: u32,
    pub display_text: Seq<u8>,
}

impl View for MessageRecord {
    type V = MessageRecordV;

    open spec fn view(&self) -> MessageRecordV {
        MessageRecordV { checksum: self.checksum, display_text: self.display_text@ }
    }
}

/// The primary anchor type: one player-setting row per costume slot.
#[derive(Clone, Debug, PartialEq, Eq)]
pub struct PlayerSettingRecord {
    pub setting_id: u32,
    pub family_id: Vec<u8>,
    pub family_slot_index: u32,
    pub model_index: i32,
    pub search_code: Vec<u8>,
}

pub struct PlayerSettingRecordV {
    pub setting_id: u32,
    pub family_id: Seq<u8>,
    pub family_slot_index: u32,
    pub model_index: i32,
    pub search_code: Seq<u8>,
}

impl View for PlayerSettingRecord {
    type V = PlayerSettingRecordV;

    open spec fn view(&self) -> PlayerSettingRecordV {
        PlayerSettingRecordV {
            setting_id: self.setting_id,
            family_id: self.family_id@,
            family_slot_index: self.family_slot_index,
            model_index: self.model_index,
            search_code: self.search_code@,
        }
    }
}

impl PlayerSettingRecord {
    pub fn duplicate(&self) -> (r: Self)
        ensures
            r@ == self@,
    {
        PlayerSettingRecord {
            setting_id: self.setting_id,
            family_id: clone_bytes(&self.family_id),
            family_slot_index: self.family_slot_index,
            model_index: self.model_index,
            search_code: clone_bytes(&self.search_code),
        }
    }
}

/// One palette variant of a costume.
#[derive(Clone, Debug, PartialEq, Eq)]
pub struct CostumeVariantRecord {
    pub setting_id: u32,
    pub color_index: u32,
    pub name_ref: Vec<u8>,
    pub link_code: Vec<u8>,
    pub price: u32,
    pub unlock_condition: u32,
}

pub struct CostumeVariantRecordV {
    pub setting_id: u32,
    pub color_index: u32,
    pub name_ref: Seq<u8>,
    pub link_code: Seq<u8>,
    pub price: u32,
    pub unlock_condition: u32,
}

impl View for CostumeVariantRecord {
    type V = CostumeVariantRecordV;

    open spec fn view(&self) -> CostumeVariantRecordV {
        CostumeVariantRecordV {
            setting_id: self.setting_id,
            color_index: self.color_index,
            name_ref: self.name_ref@,
            link_code: self.link_code@,
            price: self.price,
            unlock_condition: self.unlock_condition,
        }
    }
}

impl CostumeVariantRecord {
    pub fn duplicate(&self) -> (r: Self)
        ensures
            r@ == self@,
    {
        CostumeVariantRecord {
            setting_id: self.setting_id,
            color_index: self.color_index,
            name_ref: clone_bytes(&self.name_ref),
            link_code: clone_bytes(&self.link_code),
            price: self.price,
            unlock_condition: self.unlock_condition,
        }
    }
}

/// A character-select icon row.
#[derive(Clone, Debug, PartialEq, Eq)]
pub struct IconRecord {
    pub slot_index: u32,
    pub costume_model_index: i32,
    pub icon_id: Vec<u8>,
}

pub struct IconRecordV {
    pub slot_index: u32,
    pub costume_model_index: i32,
    pub icon_id: Seq<u8>,
}

impl View for IconRecord {
    type V = IconRecordV;

    open spec fn view(&self) -> IconRecordV {
        IconRecordV {
            slot_index: self.slot_index,
            costume_model_index: self.costume_model_index,
            icon_id: self.icon_id@,
        }
    }
}

impl IconRecord {
    pub fn duplicate(&self) -> (r: Self)
        ensures
            r@ == self@,
    {
        IconRecord {
            slot_index: self.slot_index,
            costume_model_index: self.costume_model_index,
            icon_id: clone_bytes(&self.icon_id),
        }
    }
}

/// A character-select UI row.
#[derive(Clone, Debug, PartialEq, Eq)]
pub struct SelectRecord {
    pub page_index: u32,
    pub ui_slot_index: u32,
    pub costume_slot_index: u32,
    pub search_code: Vec<u8>,
    pub name_ref: Vec<u8>,
}

pub struct SelectRecordV {
    pub page_index: u32,
    pub ui_slot_index: u32,
    pub costume_slot_index: u32,
    pub search_code: Seq<u8>,
    pub name_ref: Seq<u8>,
}

impl View for SelectRecord {
    type V = SelectRecordV;

    open spec fn view(&self) -> SelectRecordV {
        SelectRecordV {
            page_index: self.page_index,
            ui_slot_index: self.ui_slot_index,
            costume_slot_index: self.costume_slot_index,
            search_code: self.search_code@,
            name_ref: self.name_ref@,
        }
    }
}

impl SelectRecord {
    pub fn duplicate(&self) -> (r: Self)
        ensures
            r@ == self@,
    {
        SelectRecord {
            page_index: self.page_index,
            ui_slot_index: self.ui_slot_index,
            costume_slot_index: self.costume_slot_index,
            search_code: clone_bytes(&self.search_code),
            name_ref: clone_bytes(&self.name_ref),
        }
    }
}

/// A costume-break row.
#[derive(Clone, Debug, PartialEq, Eq)]
pub struct BreakRecord {
    pub slot_index: u32,
    pub costume_index: i32,
}

pub struct BreakRecordV {
    pub slot_index: u32,
    pub costume_index: i32,
}

impl View for BreakRecord {
    type V = BreakRecordV;

    open spec fn view(&self) -> BreakRecordV {
        BreakRecordV { slot_index: self.slot_index, costume_index: self.costume_index }
    }
}

impl BreakRecord {
    pub fn duplicate(&self) -> (r: Self)
        ensures
            r@ == self@,
    {
        BreakRecord { slot_index: self.slot_index, costume_index: self.costume_index }
    }
}

/// The element-wise view of a sequence of viewable values.
pub open spec fn vseq<T: View>(s: Seq<T>) -> Seq<T::V> {
    s.map_values(|x: T| x@)
}

pub fn clone_ps_table(t: &Vec<PlayerSettingRecord>) -> (r: Vec<PlayerSettingRecord>)
    ensures
        vseq(r@) == vseq(t@),
{
    let mut r: Vec<PlayerSettingRecord> = Vec::new();
    let mut i: usize = 0;
    while i < t.len()
        invariant
            0 <= i <= t@.len(),
            r@.len() == i,
            forall|k: int| 0 <= k < i ==> #[trigger] r@[k]@ == t@[k]@,
        decreases t@.len() - i,
    {
        let x = t[i].duplicate();
        r.push(x);
        i = i + 1;
    }
    proof {
        assert(vseq(r@) =~= vseq(t@));
    }
    r
}

pub fn clone_variant_table(t: &Vec<CostumeVariantRecord>) -> (r: Vec<CostumeVariantRecord>)
    ensures
        vseq(r@) == vseq(t@),
{
    let mut r: Vec<CostumeVariantRecord> = Vec::new();
    let mut i: usize = 0;
    while i < t.len()
        invariant
            0 <= i <= t@.len(),
            r@.len() == i,
            forall|k: int| 0 <= k < i ==> #[trigger] r@[k]@ == t@[k]@,
        decreases t@.len() - i,
    {
        let x = t[i].duplicate();
        r.push(x);
        i = i + 1;
    }
    proof {
        assert(vseq(r@) =~= vseq(t@));
    }
    r
}

pub fn clone_icon_table(t: &Vec<IconRecord>) -> (r: Vec<IconRecord>)
    ensures
        vseq(r@) == vseq(t@),
{
    let mut r: Vec<IconRecord> = Vec::new();
    let mut i: usize = 0;
    while i < t.len()
        invariant
            0 <= i <= t@.len(),
            r@.len() == i,
            forall|k: int| 0 <= k < i ==> #[trigger] r@[k]@ == t@[k]@,
        decreases t@.len() - i,
    {
        let x = t[i].duplicate();
        r.push(x);
        i = i + 1;
    }
    proof {
        assert(vseq(r@) =~= vseq(t@));
    }
    r
}

pub fn clone_select_table(t: &Vec<SelectRecord>) -> (r: Vec<SelectRecord>)
    ensures
        vseq(r@) == vseq(t@),
{
    let mut r: Vec<SelectRecord> = Vec::new();
    let mut i: usize = 0;
    while i < t.len()
        invariant
            0 <= i <= t@.len(),
            r@.len() == i,
            forall|k: int| 0 <= k < i ==> #[trigger] r@[k]@ == t@[k]@,
        decreases t@.len() - i,
    {
        let x = t[i].duplicate();
        r.push(x);
        i = i + 1;
    }
    proof {
        assert(vseq(r@) =~= vseq(t@));
    }
    r
}

pub fn clone_break_table(t: &Vec<BreakRecord>) -> (r: Vec<BreakRecord>)
    ensures
        vseq(r@) == vseq(t@),
{
    let mut r: Vec<BreakRecord> = Vec::new();
    let mut i: usize = 0;
    while i < t.len()
        invariant
            0 <= i <= t@.len(),
            r@.len() == i,
            forall|k: int| 0 <= k < i ==> #[trigger] r@[k]@ == t@[k]@,
        decreases t@.len() - i,
    {
        let x = t[i].duplicate();
        r.push(x);
        i = i + 1;
    }
    proof {
        assert(vseq(r@) =~= vseq(t@));
    }
    r
}

pub proof fn lemma_vseq_push<T: View>(s: Seq<T>, x: T)
    ensures
        vseq(s.push(x)) == vseq(s).push(x@),
{
    assert(vseq(s.push(x)) =~= vseq(s).push(x@));
}

pub proof fn lemma_vseq_insert<T: View>(s: Seq<T>, i: int, x: T)
    requires
        0 <= i <= s.len(),
    ensures
        vseq(s.insert(i, x)) == vseq(s).insert(i, x@),
{
    assert(vseq(s.insert(i, x)) =~= vseq(s).insert(i, x@));
}

pub proof fn lemma_vseq_take<T: View>(s: Seq<T>, i: int)
    requires
        0 <= i <= s.len(),
    ensures
        vseq(s.take(i)) == vseq(s).take(i),
{
    assert(vseq(s.take(i)) =~= vseq(s).take(i));
}

} // verus!
