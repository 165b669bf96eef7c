use anchor_lang::AnchorSerialize;
use nft_candy_machine::candy_machine::{
    check_mint_allowed, initialize_candy_machine, mint_nft, redeem_item, update_candy_machine, Payment, TokenAccount,
    TokenMintAccounts,
};
use nft_candy_machine::state::{
    CandyError, CandyMachine, CandyMachineData, Config, ConfigData, ConfigV1, Creator, ErrorCode,
    Pubkey, CONFIG_ARRAY_START, CONFIG_LINE_SIZE, MAX_NAME_LENGTH, MAX_URI_LENGTH,
};

fn key(b: u8) -> Pubkey {
    Pubkey { bytes: [b; 32] }
}

fn padded(s: &str, width: usize) -> String {
    let mut r = s.to_string();
    while r.len() < width {
        r.push('\0');
    }
    r
}

fn record(name: &str, uri: &str) -> Vec<u8> {
    (padded(name, MAX_NAME_LENGTH), padded(uri, MAX_URI_LENGTH)).try_to_vec().unwrap()
}

/// Config data holding `names` as lines, sized for `max_lines` lines with the
/// templated flag set to `templated`.
fn config_data(names: &[&str], max_lines: usize, templated: bool) -> Vec<u8> {
    let mut data = vec![0u8; CONFIG_ARRAY_START];
    data.extend_from_slice(&(names.len() as u32).to_le_bytes());
    for (i, n) in names.iter().enumerate() {
        data.extend(record(n, &format!("https://example.com/{}", i)));
    }
    data.extend(std::iter::repeat(0u8).take((max_lines - names.len()) * CONFIG_LINE_SIZE));
    data.push(if templated { 1 } else { 0 });
    data.extend_from_slice(&((max_lines / 8) as u32).to_le_bytes());
    data.extend(std::iter::repeat(0u8).take((max_lines + 7) / 8));
    data
}

fn machine_data(uuid: &str, items: u64, go_live: Option<i64>) -> CandyMachineData {
    CandyMachineData { uuid: uuid.to_string(), price: 100, items_available: items, go_live_date: go_live }
}

fn machine(token_mint: Option<Pubkey>, redeemed: u64, items: u64, go_live: Option<i64>) -> CandyMachine {
    CandyMachine {
        authority: key(1),
        wallet: key(2),
        token_mint,
        config: key(3),
        data: machine_data("ABCDEF", items, go_live),
        items_redeemed: redeemed,
        bump: 254,
    }
}

fn config(retain_authority: bool) -> Config {
    Config::V1(ConfigV1 {
        authority: key(1),
        data: ConfigData {
            uuid: "ABCDEF".to_string(),
            symbol: "SYM\0\0\0\0\0\0\0".to_string(),
            seller_fee_basis_points: 300,
            creators: vec![
                Creator { address: key(20), verified: true, share: 60 },
                Creator { address: key(21), verified: false, share: 40 },
            ],
            max_supply: 0,
            is_mutable: false,
            retain_authority,
            max_number_of_lines: 3,
        },
    })
}

#[test]
fn initialize_candy_machine_sets_fields() {
    let cd = config_data(&["a", "b", "c"], 3, false);
    let cm = initialize_candy_machine(7, machine_data("ABCDEF", 3, Some(50)), key(2), key(1), key(3), None, &cd)
        .ok()
        .unwrap();
    assert_eq!(cm.bump, 7);
    assert_eq!(cm.authority.bytes, [1; 32]);
    assert_eq!(cm.wallet.bytes, [2; 32]);
    assert_eq!(cm.config.bytes, [3; 32]);
    assert!(cm.token_mint.is_none());
    assert_eq!(cm.items_redeemed, 0);
    assert_eq!(cm.data.go_live_date, Some(50));
}

#[test]
fn initialize_candy_machine_takes_token_mint() {
    let cd = config_data(&["a"], 1, false);
    let accounts = TokenMintAccounts { mint: key(8), wallet_token_mint: key(8) };
    let cm = initialize_candy_machine(1, machine_data("ABCDEF", 1, None), key(2), key(1), key(3), Some(Ok(accounts)), &cd)
        .ok()
        .unwrap();
    assert_eq!(cm.token_mint.unwrap().bytes, [8; 32]);
}

#[test]
fn initialize_candy_machine_errors() {
    let cd = config_data(&["a", "b"], 3, false);
    let r = initialize_candy_machine(1, machine_data("ABC", 2, None), key(2), key(1), key(3), None, &cd);
    assert_eq!(r.err(), Some(CandyError::Code(ErrorCode::UuidMustBeExactly6Length)));
    let mismatch = TokenMintAccounts { mint: key(8), wallet_token_mint: key(9) };
    let r = initialize_candy_machine(1, machine_data("ABCDEF", 2, None), key(2), key(1), key(3), Some(Ok(mismatch)), &cd);
    assert_eq!(r.err(), Some(CandyError::Code(ErrorCode::MintMismatch)));
    let unread = Some(Err(CandyError::Code(ErrorCode::IncorrectOwner)));
    let r = initialize_candy_machine(1, machine_data("ABCDEF", 2, None), key(2), key(1), key(3), unread, &cd);
    assert_eq!(r.err(), Some(CandyError::Code(ErrorCode::IncorrectOwner)));
    let r = initialize_candy_machine(1, machine_data("ABCDEF", 3, None), key(2), key(1), key(3), None, &cd);
    assert_eq!(r.err(), Some(CandyError::Code(ErrorCode::ConfigLineMismatch)));
}

#[test]
fn initialize_candy_machine_templated_needs_few_lines() {
    // One templated line serves any number of items.
    let cd = config_data(&["Item {i}"], 1, true);
    let r = initialize_candy_machine(1, machine_data("ABCDEF", 1000, None), key(2), key(1), key(3), None, &cd);
    assert!(r.is_ok());
}

#[test]
fn initialize_candy_machine_needs_readable_first_line() {
    let mut cd = config_data(&["a"], 1, false);
    cd[CONFIG_ARRAY_START + 4 + 4] = 0xff;
    let r = initialize_candy_machine(1, machine_data("ABCDEF", 1, None), key(2), key(1), key(3), None, &cd);
    assert_eq!(r.err(), Some(CandyError::Code(ErrorCode::ConfigMustHaveAtleastOneEntry)));
}

#[test]
fn update_candy_machine_changes_given_fields() {
    let mut cm = machine(None, 4, 10, Some(5));
    assert_eq!(update_candy_machine(&mut cm, Some(250), None), Ok(()));
    assert_eq!(cm.data.price, 250);
    assert_eq!(cm.data.go_live_date, Some(5));
    assert_eq!(update_candy_machine(&mut cm, None, Some(99)), Ok(()));
    assert_eq!(cm.data.price, 250);
    assert_eq!(cm.data.go_live_date, Some(99));
    assert_eq!(cm.items_redeemed, 4);
}

#[test]
fn mint_before_live_only_for_authority() {
    let cm = machine(None, 0, 10, None);
    assert_eq!(mint_nft(&cm, &key(5), 1000, 1000, None), Err(CandyError::Code(ErrorCode::CandyMachineNotLiveYet)));
    assert_eq!(mint_nft(&cm, &key(1), 1000, 1000, None), Ok(Payment::Lamports { amount: 100 }));
    let dated = machine(None, 0, 10, Some(500));
    assert_eq!(mint_nft(&dated, &key(5), 499, 1000, None), Err(CandyError::Code(ErrorCode::CandyMachineNotLiveYet)));
    assert_eq!(mint_nft(&dated, &key(5), 500, 1000, None), Ok(Payment::Lamports { amount: 100 }));
}

#[test]
fn mint_refused_when_empty() {
    let cm = machine(None, 10, 10, Some(0));
    assert_eq!(mint_nft(&cm, &key(5), 1, 1000, None), Err(CandyError::Code(ErrorCode::CandyMachineEmpty)));
}

#[test]
fn mint_payment_in_lamports() {
    let cm = machine(None, 0, 10, Some(0));
    assert_eq!(mint_nft(&cm, &key(5), 1, 99, None), Err(CandyError::Code(ErrorCode::NotEnoughSOL)));
    assert_eq!(mint_nft(&cm, &key(5), 1, 100, None), Ok(Payment::Lamports { amount: 100 }));
}

#[test]
fn mint_payment_in_tokens() {
    let cm = machine(Some(key(8)), 0, 10, Some(0));
    let other = TokenAccount { mint: key(9), amount: 1000 };
    assert_eq!(mint_nft(&cm, &key(5), 1, 0, Some(Ok(other))), Err(CandyError::Code(ErrorCode::MintMismatch)));
    let poor = TokenAccount { mint: key(8), amount: 99 };
    assert_eq!(mint_nft(&cm, &key(5), 1, 0, Some(Ok(poor))), Err(CandyError::Code(ErrorCode::NotEnoughTokens)));
    let rich = TokenAccount { mint: key(8), amount: 100 };
    assert_eq!(mint_nft(&cm, &key(5), 1, 0, Some(Ok(rich))), Ok(Payment::Token { amount: 100 }));
    let unread = Some(Err(CandyError::Code(ErrorCode::Uninitialized)));
    assert_eq!(mint_nft(&cm, &key(5), 1, 0, unread), Err(CandyError::Code(ErrorCode::Uninitialized)));
}

#[test]
fn redeem_item_reads_next_line_and_counts_it() {
    let cd = config_data(&["a", "b", "c"], 3, false);
    let mut cm = machine(None, 1, 3, Some(0));
    let plan = redeem_item(&mut cm, &config(true), &cd, key(7), key(6)).ok().unwrap();
    assert_eq!(cm.items_redeemed, 2);
    assert_eq!(plan.name, padded("b", MAX_NAME_LENGTH));
    assert_eq!(plan.uri, padded("https://example.com/1", MAX_URI_LENGTH));
    assert_eq!(plan.symbol, "SYM\0\0\0\0\0\0\0");
    assert_eq!(plan.seller_fee_basis_points, 300);
    assert!(!plan.is_mutable);
    assert_eq!(plan.max_supply, 0);
    assert_eq!(plan.update_authority.bytes, [1; 32]);
    assert_eq!(plan.creators.len(), 3);
    assert_eq!(plan.creators[0].address.bytes, [7; 32]);
    assert!(plan.creators[0].verified);
    assert_eq!(plan.creators[0].share, 0);
    assert_eq!(plan.creators[1].address.bytes, [20; 32]);
    assert!(!plan.creators[1].verified);
    assert_eq!(plan.creators[1].share, 60);
    assert_eq!(plan.creators[2].share, 40);
}

#[test]
fn redeem_item_gives_update_authority_away_unless_retained() {
    let cd = config_data(&["a", "b", "c"], 3, false);
    let mut cm = machine(None, 0, 3, Some(0));
    let plan = redeem_item(&mut cm, &config(false), &cd, key(7), key(6)).ok().unwrap();
    assert_eq!(plan.update_authority.bytes, [6; 32]);
}

#[test]
fn redeem_item_templated_numbers_items() {
    let cd = config_data(&["Item #{i}"], 1, true);
    let mut cm = machine(None, 41, 100, Some(0));
    let plan = redeem_item(&mut cm, &config(true), &cd, key(7), key(6)).ok().unwrap();
    assert!(plan.name.starts_with("Item #42\0"));
    assert_eq!(cm.items_redeemed, 42);
}

#[test]
fn redeem_item_error_leaves_machine() {
    let cd = config_data(&["a"], 3, false);
    let mut cm = machine(None, 2, 3, Some(0));
    let r = redeem_item(&mut cm, &config(true), &cd, key(7), key(6));
    assert_eq!(r.err(), Some(CandyError::Code(ErrorCode::IndexGreaterThanLength)));
    assert_eq!(cm.items_redeemed, 2);
}

#[test]
fn paid_mint_stays_within_supply() {
    let cd = config_data(&["a", "b"], 2, false);
    let mut cm = machine(None, 0, 2, Some(0));
    let mut minted = 0;
    for _ in 0..5 {
        if mint_nft(&cm, &key(5), 1, 1000, None).is_ok() {
            redeem_item(&mut cm, &config(true), &cd, key(7), key(6)).ok().unwrap();
            minted += 1;
        }
        assert!(cm.items_redeemed <= cm.data.items_available);
    }
    assert_eq!(minted, 2);
}

#[test]
fn initialize_candy_machine_short_config_line_mismatch() {
    // Room for the counter only, not for a line.
    let mut cd = vec![0u8; CONFIG_ARRAY_START + 4];
    cd[CONFIG_ARRAY_START] = 0;
    let r = initialize_candy_machine(1, machine_data("ABCDEF", 1, None), key(2), key(1), key(3), None, &cd);
    assert_eq!(r.err(), Some(CandyError::Code(ErrorCode::ConfigLineMismatch)));
}

#[test]
fn token_mint_refused_before_reading_token_account() {
    let not_live = machine(Some(key(8)), 0, 10, Some(500));
    assert_eq!(mint_nft(&not_live, &key(5), 499, 0, None), Err(CandyError::Code(ErrorCode::CandyMachineNotLiveYet)));
    let empty = machine(Some(key(8)), 10, 10, Some(0));
    assert_eq!(mint_nft(&empty, &key(5), 1, 0, None), Err(CandyError::Code(ErrorCode::CandyMachineEmpty)));
}

#[test]
fn check_mint_allowed_cases() {
    let cm = machine(None, 0, 2, Some(500));
    assert_eq!(check_mint_allowed(&cm, &key(5), 499), Err(CandyError::Code(ErrorCode::CandyMachineNotLiveYet)));
    assert_eq!(check_mint_allowed(&cm, &key(1), 499), Ok(()));
    assert_eq!(check_mint_allowed(&cm, &key(5), 500), Ok(()));
    let sold = machine(None, 2, 2, Some(0));
    assert_eq!(check_mint_allowed(&sold, &key(1), 1), Err(CandyError::Code(ErrorCode::CandyMachineEmpty)));
}
