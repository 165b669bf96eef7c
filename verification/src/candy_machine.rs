//! The candy machine's decisions: setting one up, changing its price and
//! go-live date, and minting an item (who may mint, what is paid, which line
//! the item gets, who its creators and update authority are).
use vstd::prelude::*;
use crate::encoding::utf8_len;
use crate::layout::{
    config_count, get_config_count, get_config_line, is_config_templated, line_offset,
    line_readable, spec_config_line, templated_flag,
};
use crate::state::{
    key_eq, CandyError, CandyMachine, CandyMachineData, Config, ConfigDataModel, ConfigLine,
    Creator, ErrorCode, Pubkey, CONFIG_ARRAY_START,
};

verus! {

/// What was read of the token accounts given when a candy machine that takes
/// tokens is set up: the mint, and the mint of the wallet's token account.
pub struct TokenMintAccounts {
    pub mint: Pubkey,
    pub wallet_token_mint: Pubkey,
}

/// What was read of the token account that pays for an item.
#[derive(Clone, Copy, Debug)]
pub struct TokenAccount {
    pub mint: Pubkey,
    pub amount: u64,
}

/// The transfer that pays for an item, to the candy machine's wallet.
#[derive(Clone, Copy, Debug, PartialEq, Eq, Structural)]
pub enum Payment {
    /// `amount` tokens of the candy machine's mint.
    Token { amount: u64 },
    /// `amount` lamports from the payer.
    Lamports { amount: u64 },
}

/// What the metadata of a minted item is made of.
pub struct MintPlan {
    pub name: String,
    pub symbol: String,
    pub uri: String,
    pub creators: Vec<Creator>,
    pub seller_fee_basis_points: u16,
    pub is_mutable: bool,
    pub max_supply: u64,
    pub update_authority: Pubkey,
}

// ---------------------------------------------------------------------------
// Setting up
// ---------------------------------------------------------------------------

/// The token mint of a new candy machine, or why it cannot be set up: the
/// uuid must have 6 bytes; the token accounts, when given, must have been
/// read and agree on the mint; unless lines are templates, the config must
/// hold a line for every item; and its first line must be readable.
pub open spec fn spec_init_token_mint(
    data: CandyMachineData,
    token_mint: Option<Result<TokenMintAccounts, CandyError>>,
    d: Seq<u8>,
) -> Result<Option<Pubkey>, CandyError> {
    if utf8_len(data.uuid@) != 6 {
        Err(CandyError::Code(ErrorCode::UuidMustBeExactly6Length))
    } else {
        match token_mint {
            Some(Err(e)) => Err(e),
            Some(Ok(t)) if t.wallet_token_mint != t.mint => Err(
                CandyError::Code(ErrorCode::MintMismatch),
            ),
            _ => {
                let templated = templated_flag(d);
                let mint = match token_mint {
                    Some(Ok(t)) => Some(t.mint),
                    _ => None,
                };
                if (config_count(d) as usize) < (data.items_available as usize) && !templated {
                    Err(CandyError::Code(ErrorCode::ConfigLineMismatch))
                } else if spec_config_line(d, templated, 0) is Err {
                    Err(CandyError::Code(ErrorCode::ConfigMustHaveAtleastOneEntry))
                } else {
                    Ok(mint)
                }
            },
        }
    }
}

/// Whether setting up gets as far as reading the config's first line.
pub open spec fn init_reads_config(
    data: CandyMachineData,
    token_mint: Option<Result<TokenMintAccounts, CandyError>>,
) -> bool {
    &&& utf8_len(data.uuid@) == 6
    &&& match token_mint {
        Some(Err(_)) => false,
        Some(Ok(t)) => t.wallet_token_mint == t.mint,
        None => true,
    }
}

/// Sets up a candy machine over a config: the new machine holds `data`, the
/// wallet that is paid, its authority, its config, its bump and, when token
/// accounts are given, the mint it takes; no item is redeemed yet.
pub fn initialize_candy_machine(
    bump: u8,
    data: CandyMachineData,
    wallet: Pubkey,
    authority: Pubkey,
    config: Pubkey,
    token_mint: Option<Result<TokenMintAccounts, CandyError>>,
    config_data: &[u8],
) -> (r: Result<CandyMachine, CandyError>)
    requires
        init_reads_config(data, token_mint) ==> CONFIG_ARRAY_START + 4 <= config_data@.len(),
        init_reads_config(data, token_mint) && !((config_count(config_data@) as usize) < (
        data.items_available as usize) && !templated_flag(config_data@)) ==> line_offset(1)
            <= config_data@.len(),
    ensures
        match spec_init_token_mint(data, token_mint, config_data@) {
            Err(e) => r == Err::<CandyMachine, CandyError>(e),
            Ok(mint) => r == Ok::<CandyMachine, CandyError>(
                (CandyMachine {
                    authority,
                    wallet,
                    token_mint: mint,
                    config,
                    data,
                    items_redeemed: 0,
                    bump,
                }),
            ),
        },
{
    if crate::encoding::str_byte_len(&data.uuid) != 6 {
        return Err(CandyError::Code(ErrorCode::UuidMustBeExactly6Length));
    }
    let mut candy_machine = CandyMachine {
        authority,
        wallet,
        token_mint: None,
        config,
        data,
        items_redeemed: 0,
        bump,
    };
    match token_mint {
        Some(accounts) => {
            match accounts {
                Err(e) => {
                    return Err(e);
                },
                Ok(t) => {
                    if !key_eq(&t.wallet_token_mint, &t.mint) {
                        return Err(CandyError::Code(ErrorCode::MintMismatch));
                    }
                    candy_machine.token_mint = Some(t.mint);
                },
            }
        },
        None => {},
    }
    let is_templated_metadata = match is_config_templated(config_data) {
        Ok(b) => b,
        Err(e) => {
            return Err(e);
        },
    };
    let count = match get_config_count(config_data) {
        Ok(c) => c,
        Err(e) => {
            return Err(e);
        },
    };
    if count < candy_machine.data.items_available as usize && is_templated_metadata != true {
        return Err(CandyError::Code(ErrorCode::ConfigLineMismatch));
    }
    let first = get_config_line(config_data, is_templated_metadata, 0);
    match first {
        Ok(_) => {},
        Err(_) => {
            return Err(CandyError::Code(ErrorCode::ConfigMustHaveAtleastOneEntry));
        },
    }
    Ok(candy_machine)
}

// ---------------------------------------------------------------------------
// Updating
// ---------------------------------------------------------------------------

/// Changes the price and the go-live date of a candy machine, each when given.
pub fn update_candy_machine(
    candy_machine: &mut CandyMachine,
    price: Option<u64>,
    go_live_date: Option<i64>,
) -> (r: Result<(), CandyError>)
    ensures
        r == Ok::<(), CandyError>(()),
        final(candy_machine).data.price == match price {
            Some(p) => p,
            None => old(candy_machine).data.price,
        },
        final(candy_machine).data.go_live_date == match go_live_date {
            Some(g) => Some(g),
            None => old(candy_machine).data.go_live_date,
        },
        final(candy_machine).data.uuid == old(candy_machine).data.uuid,
        final(candy_machine).data.items_available == old(candy_machine).data.items_available,
        final(candy_machine).authority == old(candy_machine).authority,
        final(candy_machine).wallet == old(candy_machine).wallet,
        final(candy_machine).token_mint == old(candy_machine).token_mint,
        final(candy_machine).config == old(candy_machine).config,
        final(candy_machine).items_redeemed == old(candy_machine).items_redeemed,
        final(candy_machine).bump == old(candy_machine).bump,
{
    if let Some(p) = price {
        candy_machine.data.price = p;
    }
    if let Some(go_l) = go_live_date {
        candy_machine.data.go_live_date = Some(go_l);
    }
    Ok(())
}

// ---------------------------------------------------------------------------
// Minting
// ---------------------------------------------------------------------------

/// Whether `payer` may mint at time `now`: the authority always may, anyone
/// else once the go-live date is set and reached.
pub open spec fn may_mint(candy_machine: CandyMachine, payer: Pubkey, now: i64) -> bool {
    payer == candy_machine.authority || match candy_machine.data.go_live_date {
        None => false,
        Some(date) => now >= date,
    }
}

/// The payment for the next item, or why there is none: the payer may not
/// mint yet, every item is redeemed, the token account could not be read, it
/// holds another mint or too few tokens, or the payer has too few lamports.
pub open spec fn spec_mint_payment(
    candy_machine: CandyMachine,
    payer: Pubkey,
    now: i64,
    payer_lamports: u64,
    token_account: Option<Result<TokenAccount, CandyError>>,
) -> Result<Payment, CandyError> {
    let price = candy_machine.data.price;
    if let Err(e) = spec_mint_allowed(candy_machine, payer, now) {
        Err(e)
    } else {
        match candy_machine.token_mint {
            Some(mint) => match token_account {
                Some(Ok(account)) => if account.mint != mint {
                    Err(CandyError::Code(ErrorCode::MintMismatch))
                } else if account.amount < price {
                    Err(CandyError::Code(ErrorCode::NotEnoughTokens))
                } else {
                    Ok(Payment::Token { amount: price })
                },
                Some(Err(e)) => Err(e),
                None => Err(CandyError::Code(ErrorCode::Uninitialized)),
            },
            None => if payer_lamports < price {
                Err(CandyError::Code(ErrorCode::NotEnoughSOL))
            } else {
                Ok(Payment::Lamports { amount: price })
            },
        }
    }
}

/// Whether `payer` may take an item at time `now`, or why not: refused
/// before the go-live date (or while none is set) unless the payer is the
/// authority, and refused once every item is redeemed.
pub open spec fn spec_mint_allowed(candy_machine: CandyMachine, payer: Pubkey, now: i64) -> Result<
    (),
    CandyError,
> {
    if !may_mint(candy_machine, payer, now) {
        Err(CandyError::Code(ErrorCode::CandyMachineNotLiveYet))
    } else if candy_machine.items_redeemed >= candy_machine.data.items_available {
        Err(CandyError::Code(ErrorCode::CandyMachineEmpty))
    } else {
        Ok(())
    }
}

/// The checks made before anything of the payment is read: the go-live
/// date, and whether an item is left.
pub fn check_mint_allowed(candy_machine: &CandyMachine, payer: &Pubkey, now: i64) -> (r: Result<
    (),
    CandyError,
>)
    ensures
        r == spec_mint_allowed(*candy_machine, *payer, now),
{
    match candy_machine.data.go_live_date {
        None => {
            if !key_eq(payer, &candy_machine.authority) {
                return Err(CandyError::Code(ErrorCode::CandyMachineNotLiveYet));
            }
        },
        Some(val) => {
            if now < val {
                if !key_eq(payer, &candy_machine.authority) {
                    return Err(CandyError::Code(ErrorCode::CandyMachineNotLiveYet));
                }
            }
        },
    }
    if candy_machine.items_redeemed >= candy_machine.data.items_available {
        return Err(CandyError::Code(ErrorCode::CandyMachineEmpty));
    }
    Ok(())
}

/// The checks made before an item is paid for: who may mint, whether an item
/// is left, and whether the payer can pay the price. Gives the transfer to
/// make: tokens of the machine's mint when it takes tokens (what was read of
/// the payer's token account is `token_account`), lamports otherwise.
pub fn mint_nft(
    candy_machine: &CandyMachine,
    payer: &Pubkey,
    now: i64,
    payer_lamports: u64,
    token_account: Option<Result<TokenAccount, CandyError>>,
) -> (r: Result<Payment, CandyError>)
    requires
        candy_machine.token_mint is Some && may_mint(*candy_machine, *payer, now)
            && candy_machine.items_redeemed < candy_machine.data.items_available
            ==> token_account is Some,
    ensures
        r == spec_mint_payment(*candy_machine, *payer, now, payer_lamports, token_account),
{
    check_mint_allowed(candy_machine, payer, now)?;
    match candy_machine.token_mint {
        Some(mint) => {
            match token_account {
                Some(Ok(account)) => {
                    if !key_eq(&account.mint, &mint) {
                        return Err(CandyError::Code(ErrorCode::MintMismatch));
                    }
                    if account.amount < candy_machine.data.price {
                        return Err(CandyError::Code(ErrorCode::NotEnoughTokens));
                    }
                    Ok(Payment::Token { amount: candy_machine.data.price })
                },
                Some(Err(e)) => Err(e),
                None => Err(CandyError::Code(ErrorCode::Uninitialized)),
            }
        },
        None => {
            if payer_lamports < candy_machine.data.price {
                return Err(CandyError::Code(ErrorCode::NotEnoughSOL));
            }
            Ok(Payment::Lamports { amount: candy_machine.data.price })
        },
    }
}

/// The creators of a minted item: the candy machine, verified and with no
/// share, then the config's creators, unverified.
pub open spec fn item_creators(candy_machine_key: Pubkey, d: ConfigDataModel) -> Seq<Creator> {
    seq![Creator { address: candy_machine_key, verified: true, share: 0 }] + d.creators.map_values(
        |c: Creator| Creator { address: c.address, verified: false, share: c.share },
    )
}

/// The item number a candy machine reads its next line with.
pub open spec fn next_item_index(candy_machine: CandyMachine) -> nat {
    (candy_machine.items_redeemed as usize) as nat
}

/// Lists the creators of a minted item.
fn list_creators(candy_machine_key: Pubkey, creators: &Vec<Creator>) -> (r: Vec<Creator>)
    ensures
        r@ == seq![Creator { address: candy_machine_key, verified: true, share: 0 }]
            + creators@.map_values(
            |c: Creator| Creator { address: c.address, verified: false, share: c.share },
        ),
{
    let mut r: Vec<Creator> = Vec::new();
    r.push(Creator { address: candy_machine_key, verified: true, share: 0 });
    let mut i: usize = 0;
    while i < creators.len()
        invariant
            i <= creators@.len(),
            r@ == seq![Creator { address: candy_machine_key, verified: true, share: 0 }]
                + creators@.take(i as int).map_values(
                |c: Creator| Creator { address: c.address, verified: false, share: c.share },
            ),
        decreases creators.len() - i,
    {
        let c = creators[i];
        r.push(Creator { address: c.address, verified: false, share: c.share });
        i = i + 1;
        assert(r@ =~= seq![Creator { address: candy_machine_key, verified: true, share: 0 }]
            + creators@.take(i as int).map_values(
            |c: Creator| Creator { address: c.address, verified: false, share: c.share },
        ));
    }
    assert(creators@.take(i as int) =~= creators@);
    r
}

/// Whether taking the next item stays inside the config data.
pub open spec fn redeem_readable(candy_machine: CandyMachine, d: Seq<u8>) -> bool {
    &&& CONFIG_ARRAY_START + 4 <= d.len()
    &&& next_item_index(candy_machine) < usize::MAX
    &&& line_readable(d, templated_flag(d), next_item_index(candy_machine))
}

/// The candy machine after `redeem_item`: one more item is counted in when
/// the next line could be read and the counter has room, and nothing changes
/// otherwise.
pub open spec fn after_redeem(candy_machine: CandyMachine, d: Seq<u8>) -> CandyMachine {
    match spec_config_line(d, templated_flag(d), next_item_index(candy_machine)) {
        Err(_) => candy_machine,
        Ok(_) => if candy_machine.items_redeemed == u64::MAX {
            candy_machine
        } else {
            CandyMachine { items_redeemed: (candy_machine.items_redeemed + 1) as u64, ..candy_machine }
        },
    }
}

/// The candy machine after a mint: `mint_nft` decides whether the item is
/// paid for, and only a paid item goes on to `redeem_item`.
pub open spec fn after_mint(
    candy_machine: CandyMachine,
    payer: Pubkey,
    now: i64,
    payer_lamports: u64,
    token_account: Option<Result<TokenAccount, CandyError>>,
    d: Seq<u8>,
) -> CandyMachine {
    if spec_mint_payment(candy_machine, payer, now, payer_lamports, token_account) is Ok {
        after_redeem(candy_machine, d)
    } else {
        candy_machine
    }
}

/// After the item is paid for: reads the line of the next item (with
/// templates, the first line with `{i}` replaced by the item number), counts
/// the item as redeemed, and gives what its metadata is made of. The update
/// authority stays with the candy machine's authority when the config
/// retains it, and goes to `update_authority` otherwise. On an error the
/// candy machine is left as it was.
pub fn redeem_item(
    candy_machine: &mut CandyMachine,
    config: &Config,
    config_data: &[u8],
    candy_machine_key: Pubkey,
    update_authority: Pubkey,
) -> (r: Result<MintPlan, CandyError>)
    requires
        redeem_readable(*old(candy_machine), config_data@),
    ensures
        *final(candy_machine) == after_redeem(*old(candy_machine), config_data@),
        match spec_config_line(
            config_data@,
            templated_flag(config_data@),
            next_item_index(*old(candy_machine)),
        ) {
            Err(e) => r == Err::<MintPlan, CandyError>(e) && *final(candy_machine) == *old(
                candy_machine,
            ),
            Ok(line) => if old(candy_machine).items_redeemed == u64::MAX {
                r == Err::<MintPlan, CandyError>(
                    CandyError::Code(ErrorCode::NumericalOverflowError),
                ) && *final(candy_machine) == *old(candy_machine)
            } else {
                &&& *final(candy_machine) == (CandyMachine {
                    items_redeemed: (old(candy_machine).items_redeemed + 1) as u64,
                    ..*old(candy_machine)
                })
                &&& r matches Ok(plan) && {
                    &&& plan.name@ == line.0
                    &&& plan.uri@ == line.1
                    &&& plan.symbol@ == config.spec_datas().symbol
                    &&& plan.creators@ == item_creators(candy_machine_key, config.spec_datas())
                    &&& plan.seller_fee_basis_points == config.spec_datas().seller_fee_basis_points
                    &&& plan.is_mutable == config.spec_datas().is_mutable
                    &&& plan.max_supply == config.spec_datas().max_supply
                    &&& plan.update_authority == if config.spec_datas().retain_authority {
                        old(candy_machine).authority
                    } else {
                        update_authority
                    }
                }
            },
        },
{
    let data = config.datas();
    let is_templated_metadata = match is_config_templated(config_data) {
        Ok(b) => b,
        Err(e) => {
            return Err(e);
        },
    };
    let config_line = match get_config_line(
        config_data,
        is_templated_metadata,
        candy_machine.items_redeemed as usize,
    ) {
        Ok(l) => l,
        Err(e) => {
            return Err(e);
        },
    };
    candy_machine.items_redeemed = match candy_machine.items_redeemed.checked_add(1) {
        Some(v) => v,
        None => {
            return Err(CandyError::Code(ErrorCode::NumericalOverflowError));
        },
    };
    let creators = list_creators(candy_machine_key, &data.creators);
    let mut new_update_authority = candy_machine.authority;
    if !data.retain_authority {
        new_update_authority = update_authority;
    }
    let ConfigLine { name, uri } = config_line;
    Ok(
        MintPlan {
            name,
            symbol: data.symbol,
            uri,
            creators,
            seller_fee_basis_points: data.seller_fee_basis_points,
            is_mutable: data.is_mutable,
            max_supply: data.max_supply,
            update_authority: new_update_authority,
        },
    )
}

} // verus!
