use anchor_lang::solana_program::hash::hash;
use anchor_lang::AnchorSerialize;
use nft_candy_machine::config_init::{
    account_discriminator, config_discriminators_differ, config_version, initialize_config, initialize_config_v2, ConfigVersion,
};
use nft_candy_machine::config_lines::add_config_lines;
use nft_candy_machine::layout::{get_config_count, is_config_templated};
use nft_candy_machine::state::{
    Config, ConfigLine, ConfigV2,
    CandyError, ConfigData, ConfigDataV2, Creator, ErrorCode, Pubkey, CONFIG_ARRAY_START,
    CONFIG_LINE_SIZE, MAX_CREATOR_LEN, MAX_CREATOR_LIMIT, MAX_NAME_LENGTH, MAX_SYMBOL_LENGTH,
    MAX_URI_LENGTH,
};

fn data(uuid: &str, symbol: &str, creators: usize, max_lines: u32) -> ConfigData {
    ConfigData {
        uuid: uuid.to_string(),
        symbol: symbol.to_string(),
        seller_fee_basis_points: 250,
        creators: (0..creators)
            .map(|i| Creator { address: Pubkey { bytes: [i as u8 + 10; 32] }, verified: false, share: 25 })
            .collect(),
        max_supply: 7,
        is_mutable: true,
        retain_authority: false,
        max_number_of_lines: max_lines,
    }
}

fn new_account(max_lines: usize) -> Vec<u8> {
    vec![0u8; CONFIG_ARRAY_START + 4 + max_lines * CONFIG_LINE_SIZE + 4 + 1 + (max_lines + 7) / 8]
}

fn old_account(max_lines: usize) -> Vec<u8> {
    vec![0u8; CONFIG_ARRAY_START + 4 + max_lines * CONFIG_LINE_SIZE + 4]
}

fn expected_header(authority: [u8; 32], d: &ConfigData, templated: bool) -> Vec<u8> {
    let mut symbol = d.symbol.clone();
    while symbol.len() < MAX_SYMBOL_LENGTH {
        symbol.push('\0');
    }
    let creators: Vec<([u8; 32], bool, u8)> =
        d.creators.iter().map(|c| (c.address.bytes, c.verified, c.share)).collect();
    let fields = (
        authority,
        (
            (
                d.uuid.clone(),
                symbol,
                d.seller_fee_basis_points,
                creators,
                d.max_supply,
                d.is_mutable,
                d.retain_authority,
                d.max_number_of_lines,
            ),
            templated,
        ),
    );
    let mut r = hash(b"account:ConfigV2").to_bytes()[..8].to_vec();
    r.extend(fields.try_to_vec().unwrap());
    r
}

#[test]
fn constants_match_token_metadata() {
    assert_eq!(MAX_NAME_LENGTH, spl_token_metadata::state::MAX_NAME_LENGTH);
    assert_eq!(MAX_SYMBOL_LENGTH, spl_token_metadata::state::MAX_SYMBOL_LENGTH);
    assert_eq!(MAX_URI_LENGTH, spl_token_metadata::state::MAX_URI_LENGTH);
    assert_eq!(MAX_CREATOR_LIMIT, spl_token_metadata::state::MAX_CREATOR_LIMIT);
    assert_eq!(MAX_CREATOR_LEN, spl_token_metadata::state::MAX_CREATOR_LEN);
    assert_eq!(
        CONFIG_ARRAY_START,
        32 + 4 + 6 + 4 + MAX_SYMBOL_LENGTH + 2 + 1 + 4 + MAX_CREATOR_LIMIT * MAX_CREATOR_LEN + 8 + 1 + 1 + 4
    );
    assert_eq!(CONFIG_LINE_SIZE, 4 + MAX_NAME_LENGTH + 4 + MAX_URI_LENGTH);
}

#[test]
fn account_discriminator_is_sha256_prefix() {
    let d = account_discriminator("ConfigV2");
    assert_eq!(d, hash(b"account:ConfigV2").to_bytes()[..8].to_vec());
    assert_ne!(d, account_discriminator("ConfigV1"));
    assert_eq!(d.len(), 8);
}

#[test]
fn initialize_config_v2_writes_header_flag_and_mask_size() {
    let authority = Pubkey { bytes: [9; 32] };
    let d = data("ABCDEF", "SYM", 2, 10);
    let header = expected_header(authority.bytes, &d, true);
    let mut account = new_account(10);
    let result = initialize_config_v2(ConfigDataV2 { v1: d, templated: true }, authority, &mut account);
    assert_eq!(result, Ok(()));
    assert_eq!(header.len(), 85 + 34 * 2);
    assert_eq!(&account[..header.len()], &header[..]);
    let vec_start = CONFIG_ARRAY_START + 4 + 10 * CONFIG_LINE_SIZE;
    assert_eq!(account[vec_start], 1);
    assert_eq!(&account[vec_start + 1..vec_start + 5], &1u32.to_le_bytes());
}

#[test]
fn initialize_config_old_size_has_no_flag() {
    let authority = Pubkey { bytes: [9; 32] };
    let d = data("ABCDEF", "SYMBOL", 0, 16);
    let mut account = old_account(16);
    assert_eq!(initialize_config(d, authority, &mut account), Ok(()));
    let vec_start = CONFIG_ARRAY_START + 4 + 16 * CONFIG_LINE_SIZE;
    assert_eq!(&account[vec_start..vec_start + 4], &2u32.to_le_bytes());
}

#[test]
fn initialize_config_sets_templated_false() {
    let authority = Pubkey { bytes: [3; 32] };
    let d = data("ABCDEF", "S", 1, 8);
    let header = expected_header(authority.bytes, &d, false);
    let mut account = new_account(8);
    account[CONFIG_ARRAY_START + 4 + 8 * CONFIG_LINE_SIZE] = 7;
    assert_eq!(initialize_config(d, authority, &mut account), Ok(()));
    assert_eq!(&account[..header.len()], &header[..]);
    assert_eq!(account[CONFIG_ARRAY_START + 4 + 8 * CONFIG_LINE_SIZE], 0);
}

#[test]
fn initialize_config_refuses_bad_uuid() {
    let authority = Pubkey { bytes: [9; 32] };
    let mut account = new_account(4);
    let before = account.clone();
    assert_eq!(
        initialize_config(data("ABCDE", "SYM", 0, 4), authority, &mut account),
        Err(CandyError::Code(ErrorCode::UuidMustBeExactly6Length))
    );
    assert_eq!(account, before);
}

#[test]
fn initialize_config_refuses_too_many_creators() {
    let authority = Pubkey { bytes: [9; 32] };
    let mut account = new_account(4);
    let before = account.clone();
    assert_eq!(
        initialize_config(data("ABCDEF", "SYM", 5, 4), authority, &mut account),
        Err(CandyError::Code(ErrorCode::TooManyCreators))
    );
    assert_eq!(account, before);
}

#[test]
fn config_version_reads_discriminator() {
    let mut buf = vec![0u8; 16];
    assert_eq!(config_version(&buf), Err(CandyError::Code(ErrorCode::Uninitialized)));
    buf[..8].copy_from_slice(&hash(b"account:ConfigV1").to_bytes()[..8]);
    assert_eq!(config_version(&buf), Ok(ConfigVersion::V1));
    buf[..8].copy_from_slice(&hash(b"account:ConfigV2").to_bytes()[..8]);
    assert_eq!(config_version(&buf), Ok(ConfigVersion::V2));
}

#[test]
fn new_config_is_recognised_as_v2() {
    let authority = Pubkey { bytes: [9; 32] };
    let mut account = new_account(3);
    initialize_config(data("ABCDEF", "SYM", 4, 3), authority, &mut account).unwrap();
    assert_eq!(config_version(&account), Ok(ConfigVersion::V2));
}

#[test]
fn templated_flag_survives_filling_config() {
    let authority = Pubkey { bytes: [9; 32] };
    let mut account = new_account(2);
    assert_eq!(account.len(), 737);
    let d = data("ABCDEF", "SYM", 0, 2);
    initialize_config_v2(ConfigDataV2 { v1: d, templated: true }, authority, &mut account).unwrap();
    assert_eq!(is_config_templated(&account), Ok(false));
    let cfg = Config::V2(ConfigV2 {
        authority,
        data: ConfigDataV2 { v1: data("ABCDEF", "SYM", 0, 2), templated: true },
    });
    let lines = vec![
        ConfigLine { name: "Item {i}".to_string(), uri: "u".to_string() },
        ConfigLine { name: "unused".to_string(), uri: "v".to_string() },
    ];
    add_config_lines(&cfg, &mut account, 0, lines).unwrap();
    assert_eq!(get_config_count(&account), Ok(2));
    assert_eq!(is_config_templated(&account), Ok(true));
}

#[test]
fn initialize_config_matches_v2_without_templates() {
    let authority = Pubkey { bytes: [5; 32] };
    for (uuid, creators) in [("ABCDEF", 2usize), ("ABC", 1), ("ABCDEF", 5)] {
        let mut a = new_account(6);
        a[CONFIG_ARRAY_START + 4 + 6 * CONFIG_LINE_SIZE] = 9;
        let mut b = a.clone();
        let ra = initialize_config(data(uuid, "SYM", creators, 6), authority, &mut a);
        let v2 = ConfigDataV2 { v1: data(uuid, "SYM", creators, 6), templated: false };
        let rb = initialize_config_v2(v2, authority, &mut b);
        assert_eq!(ra, rb);
        assert_eq!(a, b);
    }
}

#[test]
fn config_versions_have_distinct_discriminators() {
    assert!(config_discriminators_differ());
    assert_ne!(account_discriminator("ConfigV1"), account_discriminator("ConfigV2"));
}
