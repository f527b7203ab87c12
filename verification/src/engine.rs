//! The propagation orchestrator: one linear pipeline of six table stages, in
//! dependency order — message, player setting, costume variants, icons,
//! character select, costume break. A missing table is reported and its
//! stage skipped; the stages after the second read the finished
//! player-setting table as an immutable snapshot (an absent one reads as
//! empty, so their anchor lookups fail fast). Any anchor or identifier
//! failure aborts the whole run; the caller persists tables only on success.

use vstd::prelude::*;

use crate::break_table::add_costume_break_entry;
use crate::break_table::break_step;
use crate::costume::add_costume_entry;
use crate::costume::costume_step_full;
use crate::costume::max_link_val;
use crate::costume::total_colors;
use crate::icon::add_icon_entry;
use crate::icon::icon_step;
use crate::message::add_message_info_entry;
use crate::message::message_step;
use crate::player_setting::add_player_setting_entry;
use crate::player_setting::max_setting_id;
use crate::player_setting::ps_step;
use crate::records::BreakRecord;
use crate::records::BreakRecordV;
use crate::records::CostumeAddConfig;
use crate::records::CostumeConfigV;
use crate::records::CostumeVariantRecord;
use crate::records::CostumeVariantRecordV;
use crate::records::EngineError;
use crate::records::IconRecord;
use crate::records::IconRecordV;
use crate::records::MessageRecord;
use crate::records::MessageRecordV;
use crate::records::PlayerSettingRecord;
use crate::records::PlayerSettingRecordV;
use crate::records::SelectRecord;
use crate::records::SelectRecordV;
use crate::records::vseq;
use crate::select::add_character_select_entry;
use crate::select::sel_slots_bounded;
use crate::select::select_step;

verus! {

/// The six required table types.
#[derive(Clone, Copy, Debug, PartialEq, Eq, Structural)]
pub enum TableKind {
    Message,
    PlayerSetting,
    Costume,
    Icon,
    Select,
    Break,
}

/// The in-memory table set handed to the engine; an absent table was not
/// found in the container directory.
pub struct TableSet {
    pub message: Option<Vec<MessageRecord>>,
    pub player_setting: Option<Vec<PlayerSettingRecord>>,
    pub costume: Option<Vec<CostumeVariantRecord>>,
    pub icon: Option<Vec<IconRecord>>,
    pub select: Option<Vec<SelectRecord>>,
    pub breaks: Option<Vec<BreakRecord>>,
}

pub struct TableSetV {
    pub message: Option<Seq<MessageRecordV>>,
    pub player_setting: Option<Seq<PlayerSettingRecordV>>,
    pub costume: Option<Seq<CostumeVariantRecordV>>,
    pub icon: Option<Seq<IconRecordV>>,
    pub select: Option<Seq<SelectRecordV>>,
    pub breaks: Option<Seq<BreakRecordV>>,
}

impl View for TableSet {
    type V = TableSetV;

    open spec fn view(&self) -> TableSetV {
        TableSetV {
            message: match self.message {
                Some(t) => Some(vseq(t@)),
                None => None,
            },
            player_setting: match self.player_setting {
                Some(t) => Some(vseq(t@)),
                None => None,
            },
            costume: match self.costume {
                Some(t) => Some(vseq(t@)),
                None => None,
            },
            icon: match self.icon {
                Some(t) => Some(vseq(t@)),
                None => None,
            },
            select: match self.select {
                Some(t) => Some(vseq(t@)),
                None => None,
            },
            breaks: match self.breaks {
                Some(t) => Some(vseq(t@)),
                None => None,
            },
        }
    }
}

/// The player-setting snapshot the dependent stages read: the finished
/// table, or empty when it is absent.
pub open spec fn ps_snap_of(o: Option<Seq<PlayerSettingRecordV>>) -> Seq<PlayerSettingRecordV> {
    match o {
        Some(t) => t,
        None => Seq::empty(),
    }
}

pub open spec fn stage_msg(o: Option<Seq<MessageRecordV>>, cs: Seq<CostumeConfigV>) -> Result<
    Option<Seq<MessageRecordV>>,
    EngineError,
> {
    match o {
        None => Ok(None),
        Some(t) => match message_step(t, cs) {
            Ok(t2) => Ok(Some(t2)),
            Err(e) => Err(e),
        },
    }
}

pub open spec fn stage_ps(o: Option<Seq<PlayerSettingRecordV>>, cs: Seq<CostumeConfigV>) -> Result<
    Option<Seq<PlayerSettingRecordV>>,
    EngineError,
> {
    match o {
        None => Ok(None),
        Some(t) => match ps_step(t, cs) {
            Ok(t2) => Ok(Some(t2)),
            Err(e) => Err(e),
        },
    }
}

pub open spec fn stage_cv(
    o: Option<Seq<CostumeVariantRecordV>>,
    snap: Seq<PlayerSettingRecordV>,
    cs: Seq<CostumeConfigV>,
) -> Result<Option<Seq<CostumeVariantRecordV>>, EngineError> {
    match o {
        None => Ok(None),
        Some(t) => match costume_step_full(t, snap, cs) {
            Ok(t2) => Ok(Some(t2)),
            Err(e) => Err(e),
        },
    }
}

pub open spec fn stage_icon(
    o: Option<Seq<IconRecordV>>,
    snap: Seq<PlayerSettingRecordV>,
    cs: Seq<CostumeConfigV>,
) -> Result<Option<Seq<IconRecordV>>, EngineError> {
    match o {
        None => Ok(None),
        Some(t) => match icon_step(t, snap, cs) {
            Ok(t2) => Ok(Some(t2)),
            Err(e) => Err(e),
        },
    }
}

pub open spec fn stage_sel(
    o: Option<Seq<SelectRecordV>>,
    snap: Seq<PlayerSettingRecordV>,
    cs: Seq<CostumeConfigV>,
) -> Result<Option<Seq<SelectRecordV>>, EngineError> {
    match o {
        None => Ok(None),
        Some(t) => match select_step(t, snap, cs) {
            Ok(t2) => Ok(Some(t2)),
            Err(e) => Err(e),
        },
    }
}

pub open spec fn stage_br(
    o: Option<Seq<BreakRecordV>>,
    snap: Seq<PlayerSettingRecordV>,
    cs: Seq<CostumeConfigV>,
) -> Result<Option<Seq<BreakRecordV>>, EngineError> {
    match o {
        None => Ok(None),
        Some(t) => match break_step(t, snap, cs) {
            Ok(t2) => Ok(Some(t2)),
            Err(e) => Err(e),
        },
    }
}

/// The whole engine as one function of the input table set.
pub open spec fn engine_spec(ts: TableSetV, cs: Seq<CostumeConfigV>) -> Result<
    TableSetV,
    EngineError,
> {
    match stage_msg(ts.message, cs) {
        Err(e) => Err(e),
        Ok(msg) => match stage_ps(ts.player_setting, cs) {
            Err(e) => Err(e),
            Ok(pst) => {
                let snap = ps_snap_of(pst);
                match stage_cv(ts.costume, snap, cs) {
                    Err(e) => Err(e),
                    Ok(cv) => match stage_icon(ts.icon, snap, cs) {
                        Err(e) => Err(e),
                        Ok(ic) => match stage_sel(ts.select, snap, cs) {
                            Err(e) => Err(e),
                            Ok(sel) => match stage_br(ts.breaks, snap, cs) {
                                Err(e) => Err(e),
                                Ok(br) => Ok(
                                    TableSetV {
                                        message: msg,
                                        player_setting: pst,
                                        costume: cv,
                                        icon: ic,
                                        select: sel,
                                        breaks: br,
                                    },
                                ),
                            },
                        },
                    },
                }
            },
        },
    }
}

/// The table kinds absent from the set, in stage order.
pub open spec fn missing_kinds(ts: TableSetV) -> Seq<TableKind> {
    (if ts.message is None {
        seq![TableKind::Message]
    } else {
        Seq::empty()
    }) + (if ts.player_setting is None {
        seq![TableKind::PlayerSetting]
    } else {
        Seq::empty()
    }) + (if ts.costume is None {
        seq![TableKind::Costume]
    } else {
        Seq::empty()
    }) + (if ts.icon is None {
        seq![TableKind::Icon]
    } else {
        Seq::empty()
    }) + (if ts.select is None {
        seq![TableKind::Select]
    } else {
        Seq::empty()
    }) + (if ts.breaks is None {
        seq![TableKind::Break]
    } else {
        Seq::empty()
    })
}

/// Machine limits the stages need: room for the new setting ids, link-code
/// values, and select slot indices this batch will allocate.
pub open spec fn engine_fits(ts: TableSetV, cs: Seq<CostumeConfigV>) -> bool {
    &&& (ts.player_setting is Some ==> max_setting_id(ts.player_setting->0) + cs.len()
        <= u32::MAX)
    &&& (ts.costume is Some ==> max_link_val(ts.costume->0) + 10 + 10 * total_colors(cs)
        <= u32::MAX)
    &&& (ts.select is Some ==> sel_slots_bounded(ts.select->0, cs.len() as int))
}

/// Runs the six stages over the whole batch of costume specifications and
/// returns the updated tables with the list of absent table kinds, or the
/// first fatal error. Nothing should be persisted after an error.
pub fn run_engine(tables: TableSet, cfg: &CostumeAddConfig) -> (r: Result<
    (TableSet, Vec<TableKind>),
    EngineError,
>)
    requires
        engine_fits(tables@, cfg@),
    ensures
        r is Ok ==> engine_spec(tables@, cfg@) == Ok::<TableSetV, EngineError>(r->Ok_0.0@)
            && r->Ok_0.1@ == missing_kinds(tables@),
        r is Err ==> engine_spec(tables@, cfg@) == Err::<TableSetV, EngineError>(r->Err_0),
{
    let ghost ts0 = tables@;
    let TableSet { message, player_setting, costume, icon, select, breaks } = tables;
    let mut missing: Vec<TableKind> = Vec::new();

    let message = match message {
        None => {
            missing.push(TableKind::Message);
            None
        },
        Some(mut t) => {
            match add_message_info_entry(&mut t, cfg) {
                Ok(()) => Some(t),
                Err(e) => {
                    return Err(e);
                },
            }
        },
    };
    proof {
        assert(stage_msg(ts0.message, cfg@) == Ok::<Option<Seq<MessageRecordV>>, EngineError>(
            match message {
                Some(t) => Some(vseq(t@)),
                None => None,
            },
        ));
    }

    let player_setting = match player_setting {
        None => {
            missing.push(TableKind::PlayerSetting);
            None
        },
        Some(mut t) => {
            match add_player_setting_entry(&mut t, cfg) {
                Ok(()) => Some(t),
                Err(e) => {
                    return Err(e);
                },
            }
        },
    };
    proof {
        assert(stage_ps(ts0.player_setting, cfg@) == Ok::<
            Option<Seq<PlayerSettingRecordV>>,
            EngineError,
        >(
            match player_setting {
                Some(t) => Some(vseq(t@)),
                None => None,
            },
        ));
    }

    let empty_ps: Vec<PlayerSettingRecord> = Vec::new();
    let snap: &Vec<PlayerSettingRecord> = match &player_setting {
        Some(t) => t,
        None => &empty_ps,
    };
    proof {
        assert(vseq(snap@) =~= ps_snap_of(
            match player_setting {
                Some(t) => Some(vseq(t@)),
                None => None,
            },
        ));
    }

    let costume = match costume {
        None => {
            missing.push(TableKind::Costume);
            None
        },
        Some(mut t) => {
            match add_costume_entry(&mut t, snap, cfg) {
                Ok(()) => Some(t),
                Err(e) => {
                    return Err(e);
                },
            }
        },
    };

    let icon = match icon {
        None => {
            missing.push(TableKind::Icon);
            None
        },
        Some(mut t) => {
            match add_icon_entry(&mut t, snap, cfg) {
                Ok(()) => Some(t),
                Err(e) => {
                    return Err(e);
                },
            }
        },
    };

    let select = match select {
        None => {
            missing.push(TableKind::Select);
            None
        },
        Some(mut t) => {
            match add_character_select_entry(&mut t, snap, cfg) {
                Ok(()) => Some(t),
                Err(e) => {
                    return Err(e);
                },
            }
        },
    };

    let breaks = match breaks {
        None => {
            missing.push(TableKind::Break);
            None
        },
        Some(mut t) => {
            match add_costume_break_entry(&mut t, snap, cfg) {
                Ok(()) => Some(t),
                Err(e) => {
                    return Err(e);
                },
            }
        },
    };

    let out = TableSet { message, player_setting, costume, icon, select, breaks };
    proof {
        assert(engine_spec(ts0, cfg@) == Ok::<TableSetV, EngineError>(out@));
        assert(missing@ =~= missing_kinds(ts0));
    }
    Ok((out, missing))
}

} // verus!
