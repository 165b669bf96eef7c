use anchor_lang::AnchorSerialize;
use nft_candy_machine::config_lines::add_config_lines;
use nft_candy_machine::layout::{get_config_count, get_config_line};
use nft_candy_machine::state::{
    CandyError, Config, ConfigData, ConfigDataV2, ConfigLine, ConfigV2, ErrorCode, Pubkey,
    CONFIG_ARRAY_START, CONFIG_LINE_SIZE, MAX_NAME_LENGTH, MAX_URI_LENGTH,
};

fn padded(s: &str, width: usize) -> String {
    let mut r = s.to_string();
    while r.len() < width {
        r.push('\0');
    }
    r
}

fn config(max_lines: u32) -> Config {
    Config::V2(ConfigV2 {
        authority: Pubkey { bytes: [1; 32] },
        data: ConfigDataV2 {
            v1: ConfigData {
                uuid: "ABCDEF".to_string(),
                symbol: "SYM".to_string(),
                seller_fee_basis_points: 500,
                creators: vec![],
                max_supply: 0,
                is_mutable: true,
                retain_authority: true,
                max_number_of_lines: max_lines,
            },
            templated: false,
        },
    })
}

/// A zeroed account sized for `max_lines` lines with the templated flag.
fn account(max_lines: usize) -> Vec<u8> {
    vec![0u8; CONFIG_ARRAY_START + 4 + max_lines * CONFIG_LINE_SIZE + 1 + 4 + (max_lines + 7) / 8]
}

fn line(name: &str, uri: &str) -> ConfigLine {
    ConfigLine { name: name.to_string(), uri: uri.to_string() }
}

fn bitmask_start(max_lines: usize) -> usize {
    CONFIG_ARRAY_START + 4 + max_lines * CONFIG_LINE_SIZE + 1 + 4
}

#[test]
fn add_config_lines_writes_records_bits_and_count() {
    let cfg = config(10);
    let mut data = account(10);
    let lines = vec![line("A", "ua"), line("B", "ub"), line("C", "uc")];
    assert_eq!(add_config_lines(&cfg, &mut data, 0, lines), Ok(()));
    assert_eq!(get_config_count(&data), Ok(3));
    let expected = (padded("B", MAX_NAME_LENGTH), padded("ub", MAX_URI_LENGTH)).try_to_vec().unwrap();
    let at = CONFIG_ARRAY_START + 4 + CONFIG_LINE_SIZE;
    assert_eq!(&data[at..at + CONFIG_LINE_SIZE], &expected[..]);
    assert_eq!(data[bitmask_start(10)], 0b1110_0000);
    assert_eq!(data[bitmask_start(10) + 1], 0);
}

#[test]
fn add_config_lines_refuses_index_past_limit() {
    let cfg = config(10);
    let mut data = account(10);
    let before = data.clone();
    assert_eq!(
        add_config_lines(&cfg, &mut data, 10, vec![line("A", "ua")]),
        Err(CandyError::Code(ErrorCode::IndexGreaterThanLength))
    );
    assert_eq!(data, before);
}

#[test]
fn add_config_lines_counts_only_new_bits() {
    let cfg = config(10);
    let mut data = account(10);
    add_config_lines(&cfg, &mut data, 0, vec![line("A", "ua"), line("B", "ub"), line("C", "uc")])
        .unwrap();
    add_config_lines(&cfg, &mut data, 2, vec![line("C2", "uc2"), line("D", "ud")]).unwrap();
    assert_eq!(get_config_count(&data), Ok(4));
    assert_eq!(data[bitmask_start(10)], 0b1111_0000);
    let c = get_config_line(&data, false, 2).unwrap();
    assert_eq!(c.name, padded("C2", MAX_NAME_LENGTH));
}

#[test]
fn add_config_lines_bits_cross_bytes() {
    let cfg = config(20);
    let mut data = account(20);
    let lines: Vec<ConfigLine> = (0..4).map(|i| line(&format!("n{}", i), "u")).collect();
    add_config_lines(&cfg, &mut data, 6, lines).unwrap();
    assert_eq!(data[bitmask_start(20)], 0b0000_0011);
    assert_eq!(data[bitmask_start(20) + 1], 0b1100_0000);
    assert_eq!(get_config_count(&data), Ok(4));
}

#[test]
fn add_config_lines_twice_changes_nothing() {
    let cfg = config(10);
    let mut data = account(10);
    let make = || vec![line("A", "ua"), line("B", "ub")];
    add_config_lines(&cfg, &mut data, 3, make()).unwrap();
    let once = data.clone();
    add_config_lines(&cfg, &mut data, 3, make()).unwrap();
    assert_eq!(data, once);
    assert_eq!(get_config_count(&data), Ok(2));
}

#[test]
fn added_line_is_read_back() {
    let cfg = config(10);
    let mut data = account(10);
    add_config_lines(&cfg, &mut data, 0, vec![line("Name 0", "uri-0"), line("Name 1", "uri-1")])
        .unwrap();
    let l = get_config_line(&data, false, 1).unwrap();
    assert_eq!(l.name, padded("Name 1", MAX_NAME_LENGTH));
    assert_eq!(l.uri, padded("uri-1", MAX_URI_LENGTH));
}

#[test]
fn add_config_lines_with_no_lines_keeps_count() {
    let cfg = config(10);
    let mut data = account(10);
    data[CONFIG_ARRAY_START] = 5;
    let before = data.clone();
    assert_eq!(add_config_lines(&cfg, &mut data, 9, vec![]), Ok(()));
    assert_eq!(data, before);
}

#[test]
fn config_datas_of_either_version() {
    let v2 = config(7);
    assert_eq!(v2.datas().max_number_of_lines, 7);
    assert_eq!(v2.datas().symbol, "SYM");
    let v1 = Config::V1(nft_candy_machine::state::ConfigV1 {
        authority: Pubkey { bytes: [2; 32] },
        data: ConfigData {
            uuid: "QWERTY".to_string(),
            symbol: "V1".to_string(),
            seller_fee_basis_points: 1,
            creators: vec![nft_candy_machine::state::Creator { address: Pubkey { bytes: [4; 32] }, verified: true, share: 100 }],
            max_supply: 3,
            is_mutable: false,
            retain_authority: false,
            max_number_of_lines: 12,
        },
    });
    let d = v1.datas();
    assert_eq!(d.uuid, "QWERTY");
    assert_eq!(d.creators.len(), 1);
    assert_eq!(d.creators[0].share, 100);
    assert_eq!(d.max_number_of_lines, 12);
}

#[test]
fn add_config_lines_past_limit_ignores_line_widths() {
    let cfg = config(10);
    let mut data = account(10);
    let before = data.clone();
    let long = "x".repeat(MAX_NAME_LENGTH + 5);
    let long_uri = "u".repeat(MAX_URI_LENGTH + 1);
    assert_eq!(
        add_config_lines(&cfg, &mut data, 11, vec![line(&long, &long_uri)]),
        Err(CandyError::Code(ErrorCode::IndexGreaterThanLength))
    );
    assert_eq!(data, before);
}

#[test]
fn line_reads_back_when_later_lines_pass_limit() {
    // The config allows 3 lines but the account is larger: the second line
    // stored lands past the limit, the first still reads back padded.
    let cfg = config(3);
    let mut data = account(5);
    add_config_lines(&cfg, &mut data, 2, vec![line("L2", "u2"), line("LA", "u3")]).unwrap();
    assert_eq!(get_config_count(&data), Ok(2));
    let l = get_config_line(&data, false, 2).unwrap();
    assert_eq!(l.name, padded("L2", MAX_NAME_LENGTH));
    assert_eq!(l.uri, padded("u2", MAX_URI_LENGTH));
}

#[test]
fn counter_equals_marked_lines() {
    let cfg = config(10);
    let mut data = account(10);
    add_config_lines(&cfg, &mut data, 0, vec![line("A", "a"), line("B", "b"), line("C", "c")]).unwrap();
    add_config_lines(&cfg, &mut data, 2, vec![line("C2", "c2"), line("D", "d")]).unwrap();
    add_config_lines(&cfg, &mut data, 9, vec![line("J", "j")]).unwrap();
    let mask = &data[bitmask_start(10)..bitmask_start(10) + 2];
    let marked: u32 = mask.iter().map(|b| b.count_ones()).sum();
    assert_eq!(get_config_count(&data), Ok(marked as usize));
    assert_eq!(marked, 5);
}

#[test]
fn line_past_limit_reads_back_when_marks_find_bits_set() {
    // The bit mask of a 3-line config starts inside record 3 of this larger
    // account, at the second name byte; '3' already has the bits of lines 2
    // and 3, so the marks leave the record as written.
    let cfg = config(3);
    let mut data = account(5);
    data[CONFIG_ARRAY_START] = 3;
    add_config_lines(&cfg, &mut data, 2, vec![line("L2", "u2"), line("L3", "u3")]).unwrap();
    assert_eq!(get_config_count(&data), Ok(3));
    let l = get_config_line(&data, false, 3).unwrap();
    assert_eq!(l.name, padded("L3", MAX_NAME_LENGTH));
    assert_eq!(l.uri, padded("u3", MAX_URI_LENGTH));
    let once = data.clone();
    add_config_lines(&cfg, &mut data, 2, vec![line("L2", "u2"), line("L3", "u3")]).unwrap();
    assert_eq!(data, once);
}

#[test]
fn counter_equals_marked_lines_in_longer_account() {
    let cfg = config(10);
    let mut data = account(12);
    add_config_lines(&cfg, &mut data, 1, vec![line("A", "a"), line("B", "b")]).unwrap();
    add_config_lines(&cfg, &mut data, 8, vec![line("I", "i"), line("J", "j")]).unwrap();
    add_config_lines(&cfg, &mut data, 2, vec![line("B2", "b2"), line("C", "c")]).unwrap();
    let mask = &data[bitmask_start(10)..bitmask_start(10) + 2];
    let marked: u32 = mask.iter().map(|b| b.count_ones()).sum();
    assert_eq!(marked, 5);
    assert_eq!(get_config_count(&data), Ok(5));
}
