use cosprm::bytes::{bytes_eq, contains_bytes, fmt_dec_padded, parse_dec};
use cosprm::checksum::calc_crc32;
use cosprm::codes::{bump_search_code, make_link_code};
use cosprm::records::CostumeConfig;
use cosprm::sorting::sort_costumes;

fn cfg_entry(code: &str, model_index: i32) -> CostumeConfig {
    CostumeConfig {
        model_index,
        character_code: code.as_bytes().to_vec(),
        model_code: b"mod".to_vec(),
        icon_code: b"icon".to_vec(),
        character_id: b"id".to_vec(),
        character_name: b"name".to_vec(),
        costume_id: b"cid".to_vec(),
        costume_name: b"cname".to_vec(),
        color_count: 1,
        has_break_variant: false,
    }
}

#[test]
fn crc32_bzip2_check_vector() {
    // The BZIP2 parameterization's standard check value for "123456789" is
    // 0xfc891918; stored little-endian.
    assert_eq!(calc_crc32(b"123456789"), [0x18, 0x19, 0x89, 0xfc]);
}

#[test]
fn crc32_deterministic_and_distinct() {
    assert_eq!(calc_crc32(b"char_0001"), calc_crc32(b"char_0001"));
    assert_ne!(calc_crc32(b"char_0001"), calc_crc32(b"char_0002"));
    assert_ne!(calc_crc32(b"a"), calc_crc32(b"b"));
    // empty input is accepted
    let _ = calc_crc32(b"");
}

#[test]
fn search_code_suffix_increments() {
    let r = bump_search_code(&b"ABCD00".to_vec());
    assert_eq!(r, Some(b"ABCD01".to_vec()));
    let r = bump_search_code(&b"ABCD09".to_vec());
    assert_eq!(r, Some(b"ABCD10".to_vec()));
    let r = bump_search_code(&b"ABCD19".to_vec());
    assert_eq!(r, Some(b"ABCD20".to_vec()));
}

#[test]
fn search_code_suffix_wraps_at_100() {
    let r = bump_search_code(&b"ABCD99".to_vec());
    assert_eq!(r, Some(b"ABCD00".to_vec()));
}

#[test]
fn search_code_rejects_malformed() {
    assert_eq!(bump_search_code(&b"ABCDxx".to_vec()), None);
    assert_eq!(bump_search_code(&b"ABCD0".to_vec()), None);
    assert_eq!(bump_search_code(&b"ABCD012".to_vec()), None);
    assert_eq!(bump_search_code(&b"".to_vec()), None);
}

#[test]
fn link_codes_are_zero_padded() {
    assert_eq!(make_link_code(7), b"COSTUME_00007".to_vec());
    assert_eq!(make_link_code(0), b"COSTUME_00000".to_vec());
    assert_eq!(make_link_code(99999), b"COSTUME_99999".to_vec());
    assert_eq!(make_link_code(123456), b"COSTUME_123456".to_vec());
}

#[test]
fn decimal_formatting_and_parsing() {
    assert_eq!(fmt_dec_padded(42, 5), b"00042".to_vec());
    assert_eq!(fmt_dec_padded(0, 5), b"00000".to_vec());
    assert_eq!(fmt_dec_padded(1234567, 5), b"1234567".to_vec());
    assert_eq!(parse_dec(b"00042"), Some(42));
    assert_eq!(parse_dec(b"4294967295"), Some(u32::MAX));
    assert_eq!(parse_dec(b"4294967296"), None);
    assert_eq!(parse_dec(b""), None);
    assert_eq!(parse_dec(b"12x"), None);
}

#[test]
fn byte_helpers() {
    assert!(bytes_eq(b"ABCD", b"ABCD"));
    assert!(!bytes_eq(b"ABCD", b"ABCE"));
    assert!(contains_bytes(b"xxABCD01", b"ABCD"));
    assert!(contains_bytes(b"ABCD", b""));
    assert!(!contains_bytes(b"ABC", b"ABCD"));
}

#[test]
fn costume_sort_orders() {
    let v = vec![
        cfg_entry("BBBB", 1),
        cfg_entry("AAAA", 2),
        cfg_entry("AAAA", 1),
        cfg_entry("BBBB", 3),
    ];
    let asc = sort_costumes(&v, false);
    let keys: Vec<(Vec<u8>, i32)> =
        asc.iter().map(|c| (c.character_code.clone(), c.model_index)).collect();
    assert_eq!(
        keys,
        vec![
            (b"AAAA".to_vec(), 1),
            (b"AAAA".to_vec(), 2),
            (b"BBBB".to_vec(), 1),
            (b"BBBB".to_vec(), 3),
        ]
    );
    let desc = sort_costumes(&v, true);
    let keys: Vec<(Vec<u8>, i32)> =
        desc.iter().map(|c| (c.character_code.clone(), c.model_index)).collect();
    assert_eq!(
        keys,
        vec![
            (b"AAAA".to_vec(), 2),
            (b"AAAA".to_vec(), 1),
            (b"BBBB".to_vec(), 3),
            (b"BBBB".to_vec(), 1),
        ]
    );
}
