use cosprm::break_table::add_costume_break_entry;
use cosprm::checksum::calc_crc32;
use cosprm::costume::add_costume_entry;
use cosprm::engine::{TableKind, TableSet, run_engine};
use cosprm::icon::add_icon_entry;
use cosprm::message::add_message_info_entry;
use cosprm::player_setting::add_player_setting_entry;
use cosprm::records::{
    BreakRecord, CostumeAddConfig, CostumeConfig, CostumeVariantRecord, EngineError, IconRecord,
    MessageRecord, PlayerSettingRecord, SelectRecord,
};
use cosprm::select::add_character_select_entry;

const TEMPLATE_CHECKSUM: u32 = 0xb518_a0f6;

fn key_of(id: &[u8]) -> u32 {
    u32::from_le_bytes(calc_crc32(id))
}

fn spec_abcd() -> CostumeConfig {
    CostumeConfig {
        model_index: 3,
        character_code: b"ABCD".to_vec(),
        model_code: b"mod1".to_vec(),
        icon_code: b"icon1".to_vec(),
        character_id: b"c001".to_vec(),
        character_name: b"Name".to_vec(),
        costume_id: b"cos01".to_vec(),
        costume_name: b"".to_vec(),
        color_count: 2,
        has_break_variant: false,
    }
}

fn base_tables() -> TableSet {
    TableSet {
        message: Some(vec![MessageRecord {
            checksum: TEMPLATE_CHECKSUM,
            display_text: b"label".to_vec(),
        }]),
        player_setting: Some(vec![PlayerSettingRecord {
            setting_id: 1,
            family_id: b"x001".to_vec(),
            family_slot_index: 7,
            model_index: 0,
            search_code: b"ABCD00".to_vec(),
        }]),
        costume: Some(vec![CostumeVariantRecord {
            setting_id: 1,
            color_index: 0,
            name_ref: b"x001".to_vec(),
            link_code: b"COSTUME_00010".to_vec(),
            price: 5,
            unlock_condition: 0,
        }]),
        icon: Some(vec![IconRecord {
            slot_index: 7,
            costume_model_index: 0,
            icon_id: b"icon0".to_vec(),
        }]),
        select: Some(vec![SelectRecord {
            page_index: 0,
            ui_slot_index: 2,
            costume_slot_index: 0,
            search_code: b"ABCD00".to_vec(),
            name_ref: b"x001c".to_vec(),
        }]),
        breaks: Some(vec![BreakRecord { slot_index: 7, costume_index: 0 }]),
    }
}

fn cfg_one() -> CostumeAddConfig {
    CostumeAddConfig { costumes: vec![spec_abcd()] }
}

#[test]
fn scenario_one_costume() {
    let (out, missing) = run_engine(base_tables(), &cfg_one()).unwrap();
    assert!(missing.is_empty());

    // one new message record: the character name only (empty costume name)
    let msg = out.message.as_ref().unwrap();
    assert_eq!(msg.len(), 2);
    assert_eq!(msg[1].checksum, key_of(b"c001"));
    assert_eq!(msg[1].display_text, b"Name".to_vec());

    // one new player-setting record with the next id and bumped suffix
    let ps = out.player_setting.as_ref().unwrap();
    assert_eq!(ps.len(), 2);
    assert_eq!(ps[1].setting_id, 2);
    assert_eq!(ps[1].family_id, b"c001".to_vec());
    assert_eq!(ps[1].family_slot_index, 7);
    assert_eq!(ps[1].model_index, 3);
    assert_eq!(ps[1].search_code, b"ABCD01".to_vec());

    // two new costume variants right after the template, colors 0 and 1,
    // sharing the new setting id, with link codes striding by 10
    let cv = out.costume.as_ref().unwrap();
    assert_eq!(cv.len(), 3);
    assert_eq!(cv[0].setting_id, 1);
    for (i, rec) in cv[1..].iter().enumerate() {
        assert_eq!(rec.setting_id, 2);
        assert_eq!(rec.color_index, i as u32);
        assert_eq!(rec.name_ref, b"c001".to_vec());
        assert_eq!(rec.price, 0);
        assert_eq!(rec.unlock_condition, 1);
    }
    assert_eq!(cv[1].link_code, b"COSTUME_00020".to_vec());
    assert_eq!(cv[2].link_code, b"COSTUME_00030".to_vec());

    // one new icon record
    let ic = out.icon.as_ref().unwrap();
    assert_eq!(ic.len(), 2);
    assert_eq!(ic[1].slot_index, 7);
    assert_eq!(ic[1].costume_model_index, 3);
    assert_eq!(ic[1].icon_id, b"icon1".to_vec());

    // one new select record, one slot past the current maximum
    let sel = out.select.as_ref().unwrap();
    assert_eq!(sel.len(), 2);
    assert_eq!(sel[1].page_index, 0);
    assert_eq!(sel[1].ui_slot_index, 2);
    assert_eq!(sel[1].costume_slot_index, 1);
    assert_eq!(sel[1].search_code, b"ABCD01".to_vec());
    assert_eq!(sel[1].name_ref, b"cos01".to_vec());

    // no new break records: the flag is off
    let br = out.breaks.as_ref().unwrap();
    assert_eq!(br.len(), 1);
}

#[test]
fn scenario_rerun_is_idempotent() {
    let (once, _) = run_engine(base_tables(), &cfg_one()).unwrap();
    let once_msg = once.message.clone();
    let once_ps = once.player_setting.clone();
    let once_cv = once.costume.clone();
    let once_ic = once.icon.clone();
    let once_sel = once.select.clone();
    let once_br = once.breaks.clone();
    let (twice, missing) = run_engine(once, &cfg_one()).unwrap();
    assert!(missing.is_empty());
    assert_eq!(twice.message, once_msg);
    assert_eq!(twice.player_setting, once_ps);
    assert_eq!(twice.costume, once_cv);
    assert_eq!(twice.icon, once_ic);
    assert_eq!(twice.select, once_sel);
    assert_eq!(twice.breaks, once_br);
}

#[test]
fn break_record_generated_when_flag_set() {
    let mut cfg = cfg_one();
    cfg.costumes[0].has_break_variant = true;
    let (out, _) = run_engine(base_tables(), &cfg).unwrap();
    let br = out.breaks.as_ref().unwrap();
    assert_eq!(br.len(), 2);
    assert_eq!(br[1].slot_index, 7);
    assert_eq!(br[1].costume_index, 3);
}

#[test]
fn icon_skipped_when_icon_code_empty() {
    let mut cfg = cfg_one();
    cfg.costumes[0].icon_code = b"".to_vec();
    let (out, _) = run_engine(base_tables(), &cfg).unwrap();
    assert_eq!(out.icon.as_ref().unwrap().len(), 1);
}

#[test]
fn costume_name_clone_added_when_nonempty() {
    let mut cfg = cfg_one();
    cfg.costumes[0].costume_name = b"Outfit".to_vec();
    let (out, _) = run_engine(base_tables(), &cfg).unwrap();
    let msg = out.message.as_ref().unwrap();
    assert_eq!(msg.len(), 3);
    assert_eq!(msg[2].checksum, key_of(b"cos01"));
    assert_eq!(msg[2].display_text, b"Outfit".to_vec());
}

#[test]
fn missing_tables_reported_in_order() {
    let mut tables = base_tables();
    tables.message = None;
    tables.breaks = None;
    let (_, missing) = run_engine(tables, &cfg_one()).unwrap();
    assert_eq!(missing, vec![TableKind::Message, TableKind::Break]);
}

#[test]
fn monotonic_ids_for_two_new_costumes() {
    let mut ps = vec![PlayerSettingRecord {
        setting_id: 5,
        family_id: b"x001".to_vec(),
        family_slot_index: 7,
        model_index: 0,
        search_code: b"ABCD00".to_vec(),
    }];
    let mut c2 = spec_abcd();
    c2.character_id = b"c002".to_vec();
    c2.model_index = 4;
    let cfg = CostumeAddConfig { costumes: vec![spec_abcd(), c2] };
    add_player_setting_entry(&mut ps, &cfg).unwrap();
    assert_eq!(ps.len(), 3);
    assert_eq!(ps[1].setting_id, 6);
    assert_eq!(ps[2].setting_id, 7);
    assert_eq!(ps[1].search_code, b"ABCD01".to_vec());
    assert_eq!(ps[2].search_code, b"ABCD02".to_vec());
}

#[test]
fn player_setting_skips_known_character() {
    let mut ps = vec![PlayerSettingRecord {
        setting_id: 1,
        family_id: b"c001".to_vec(),
        family_slot_index: 7,
        model_index: 0,
        search_code: b"ABCD00".to_vec(),
    }];
    add_player_setting_entry(&mut ps, &cfg_one()).unwrap();
    assert_eq!(ps.len(), 1);
}

#[test]
fn anchor_not_found_when_family_unknown() {
    let mut cfg = cfg_one();
    cfg.costumes[0].character_code = b"ZZZZ".to_vec();
    let mut ps = vec![PlayerSettingRecord {
        setting_id: 1,
        family_id: b"x001".to_vec(),
        family_slot_index: 7,
        model_index: 0,
        search_code: b"ABCD00".to_vec(),
    }];
    let before = ps.clone();
    let r = add_player_setting_entry(&mut ps, &cfg);
    assert_eq!(r, Err(EngineError::AnchorNotFound));
    assert_eq!(ps, before);
}

#[test]
fn malformed_search_code_is_fatal() {
    let mut ps = vec![PlayerSettingRecord {
        setting_id: 1,
        family_id: b"x001".to_vec(),
        family_slot_index: 7,
        model_index: 0,
        search_code: b"ABCDxy".to_vec(),
    }];
    let r = add_player_setting_entry(&mut ps, &cfg_one());
    assert_eq!(r, Err(EngineError::MalformedIdentifier));
    assert_eq!(ps.len(), 1);
}

#[test]
fn malformed_link_code_is_fatal() {
    let ps = vec![PlayerSettingRecord {
        setting_id: 1,
        family_id: b"x001".to_vec(),
        family_slot_index: 7,
        model_index: 0,
        search_code: b"ABCD00".to_vec(),
    }];
    let mut cv = vec![CostumeVariantRecord {
        setting_id: 1,
        color_index: 0,
        name_ref: b"x001".to_vec(),
        link_code: b"COSTUME_".to_vec(),
        price: 5,
        unlock_condition: 0,
    }];
    let r = add_costume_entry(&mut cv, &ps, &cfg_one());
    assert_eq!(r, Err(EngineError::MalformedIdentifier));
    assert_eq!(cv.len(), 1);
}

#[test]
fn missing_player_setting_fails_dependent_stage() {
    let mut tables = base_tables();
    tables.player_setting = None;
    let r = run_engine(tables, &cfg_one());
    assert_eq!(r.err(), Some(EngineError::AnchorNotFound));
}

#[test]
fn message_template_must_exist() {
    let mut msg = vec![MessageRecord { checksum: 1, display_text: b"other".to_vec() }];
    let r = add_message_info_entry(&mut msg, &cfg_one());
    assert_eq!(r, Err(EngineError::AnchorNotFound));
    assert_eq!(msg.len(), 1);
}

#[test]
fn message_duplicate_not_added_twice() {
    let mut msg = vec![
        MessageRecord { checksum: TEMPLATE_CHECKSUM, display_text: b"label".to_vec() },
        MessageRecord { checksum: key_of(b"c001"), display_text: b"Name".to_vec() },
    ];
    add_message_info_entry(&mut msg, &cfg_one()).unwrap();
    assert_eq!(msg.len(), 2);
}

#[test]
fn icon_duplicate_not_added_twice() {
    let ps = vec![
        PlayerSettingRecord {
            setting_id: 1,
            family_id: b"x001".to_vec(),
            family_slot_index: 7,
            model_index: 0,
            search_code: b"ABCD00".to_vec(),
        },
    ];
    let mut ic = vec![IconRecord {
        slot_index: 7,
        costume_model_index: 3,
        icon_id: b"whatever".to_vec(),
    }];
    add_icon_entry(&mut ic, &ps, &cfg_one()).unwrap();
    assert_eq!(ic.len(), 1);
}

#[test]
fn select_duplicate_not_added_twice() {
    let ps = vec![PlayerSettingRecord {
        setting_id: 1,
        family_id: b"x001".to_vec(),
        family_slot_index: 7,
        model_index: 0,
        search_code: b"ABCD00".to_vec(),
    }];
    let mut sel = vec![
        SelectRecord {
            page_index: 0,
            ui_slot_index: 2,
            costume_slot_index: 0,
            search_code: b"ABCD00".to_vec(),
            name_ref: b"cos01".to_vec(),
        },
    ];
    add_character_select_entry(&mut sel, &ps, &cfg_one()).unwrap();
    assert_eq!(sel.len(), 1);
}

#[test]
fn break_duplicate_not_added_twice() {
    let ps = vec![PlayerSettingRecord {
        setting_id: 1,
        family_id: b"x001".to_vec(),
        family_slot_index: 7,
        model_index: 0,
        search_code: b"ABCD00".to_vec(),
    }];
    let mut cfg = cfg_one();
    cfg.costumes[0].has_break_variant = true;
    let mut br = vec![BreakRecord { slot_index: 7, costume_index: 3 }];
    add_costume_break_entry(&mut br, &ps, &cfg).unwrap();
    assert_eq!(br.len(), 1);
}

#[test]
fn link_codes_stride_by_ten_per_variant() {
    let ps = vec![
        PlayerSettingRecord {
            setting_id: 1,
            family_id: b"c001".to_vec(),
            family_slot_index: 7,
            model_index: 0,
            search_code: b"ABCD00".to_vec(),
        },
    ];
    let mut cv = vec![CostumeVariantRecord {
        setting_id: 1,
        color_index: 0,
        name_ref: b"x001".to_vec(),
        link_code: b"COSTUME_00045".to_vec(),
        price: 5,
        unlock_condition: 0,
    }];
    let mut cfg = cfg_one();
    cfg.costumes[0].color_count = 3;
    add_costume_entry(&mut cv, &ps, &cfg).unwrap();
    assert_eq!(cv.len(), 4);
    assert_eq!(cv[1].link_code, b"COSTUME_00055".to_vec());
    assert_eq!(cv[2].link_code, b"COSTUME_00065".to_vec());
    assert_eq!(cv[3].link_code, b"COSTUME_00075".to_vec());
}
