//! Account state of the candy machine program and its error codes.
use vstd::prelude::*;

verus! {

/// Longest metadata name, in bytes.
pub const MAX_NAME_LENGTH: usize = 32;

/// Longest metadata symbol, in bytes.
pub const MAX_SYMBOL_LENGTH: usize = 10;

/// Longest metadata URI, in bytes.
pub const MAX_URI_LENGTH: usize = 200;

/// Most creators a metadata account can list.
pub const MAX_CREATOR_LIMIT: usize = 5;

/// Serialized size of one creator entry: address, verified flag, share.
pub const MAX_CREATOR_LEN: usize = 34;

/// Offset of the line counter in a config account: authority, uuid, symbol,
/// seller fee, creators, max supply, two flags and the line limit.
pub const CONFIG_ARRAY_START: usize = 247;

/// Serialized size of one padded config line: two length prefixes, the name and the URI.
pub const CONFIG_LINE_SIZE: usize = 240;

/// A 32-byte account address.
#[derive(Clone, Copy, Debug)]
pub struct Pubkey {
    pub bytes: [u8; 32],
}

/// Compares two addresses byte by byte.
pub fn key_eq(a: &Pubkey, b: &Pubkey) -> (r: bool)
    ensures
        r == (*a == *b),
{
    let mut i: usize = 0;
    while i < 32
        invariant
            i <= 32,
            forall|j: int| 0 <= j < i ==> a.bytes[j] == b.bytes[j],
        decreases 32 - i,
    {
        if a.bytes[i] != b.bytes[i] {
            return false;
        }
        i = i + 1;
    }
    proof {
        broadcast use vstd::array::group_array_axioms;

        assert(a.bytes =~= b.bytes);
    }
    true
}

/// The error codes of the program.
#[derive(Clone, Copy, Debug, PartialEq, Eq, Structural)]
pub enum ErrorCode {
    IncorrectOwner,
    Uninitialized,
    MintMismatch,
    IndexGreaterThanLength,
    ConfigMustHaveAtleastOneEntry,
    NumericalOverflowError,
    TooManyCreators,
    UuidMustBeExactly6Length,
    NotEnoughTokens,
    NotEnoughSOL,
    TokenTransferFailed,
    CandyMachineEmpty,
    CandyMachineNotLiveYet,
    ConfigLineMismatch,
}

/// Why an instruction failed: one of the program's codes, bytes that do not
/// decode as the value they should hold, or an error that reading an account
/// or calling another program gave, by its numeric code (passed on as it is).
#[derive(Clone, Copy, Debug, PartialEq, Eq, Structural)]
pub enum CandyError {
    Code(ErrorCode),
    BorshIoError,
    Program(u64),
}

/// The parameters of a candy machine.
pub struct CandyMachineData {
    pub uuid: String,
    pub price: u64,
    pub items_available: u64,
    pub go_live_date: Option<i64>,
}

/// A candy machine account.
pub struct CandyMachine {
    pub authority: Pubkey,
    pub wallet: Pubkey,
    pub token_mint: Option<Pubkey>,
    pub config: Pubkey,
    pub data: CandyMachineData,
    pub items_redeemed: u64,
    pub bump: u8,
}

/// A creator of the minted items, with its share of royalties in percent.
#[derive(Clone, Copy, Debug)]
pub struct Creator {
    pub address: Pubkey,
    pub verified: bool,
    pub share: u8,
}

/// The description shared by every item of a config.
pub struct ConfigData {
    pub uuid: String,
    /// The symbol for the asset
    pub symbol: String,
    /// Royalty basis points that goes to creators in secondary sales (0-10000)
    pub seller_fee_basis_points: u16,
    pub creators: Vec<Creator>,
    pub max_supply: u64,
    pub is_mutable: bool,
    pub retain_authority: bool,
    pub max_number_of_lines: u32,
}

/// The mathematical value of a [`ConfigData`].
pub ghost struct ConfigDataModel {
    pub uuid: Seq<char>,
    pub symbol: Seq<char>,
    pub seller_fee_basis_points: u16,
    pub creators: Seq<Creator>,
    pub max_supply: u64,
    pub is_mutable: bool,
    pub retain_authority: bool,
    pub max_number_of_lines: u32,
}

impl View for ConfigData {
    type V = ConfigDataModel;

    open spec fn view(&self) -> ConfigDataModel {
        ConfigDataModel {
            uuid: self.uuid@,
            symbol: self.symbol@,
            seller_fee_basis_points: self.seller_fee_basis_points,
            creators: self.creators@,
            max_supply: self.max_supply,
            is_mutable: self.is_mutable,
            retain_authority: self.retain_authority,
            max_number_of_lines: self.max_number_of_lines,
        }
    }
}

/// Copies a list of creators.
pub fn copy_creators(creators: &Vec<Creator>) -> (r: Vec<Creator>)
    ensures
        r@ == creators@,
{
    let mut r: Vec<Creator> = Vec::new();
    let mut i: usize = 0;
    while i < creators.len()
        invariant
            i <= creators.len(),
            r@ == creators@.take(i as int),
        decreases creators.len() - i,
    {
        let c = creators[i];
        r.push(c);
        i = i + 1;
        assert(r@ =~= creators@.take(i as int));
    }
    assert(creators@.take(i as int) =~= creators@);
    r
}

impl ConfigData {
    /// A copy of this description.
    pub fn copy(&self) -> (r: ConfigData)
        ensures
            r@ == self@,
    {
        ConfigData {
            uuid: self.uuid.clone(),
            symbol: self.symbol.clone(),
            seller_fee_basis_points: self.seller_fee_basis_points,
            creators: copy_creators(&self.creators),
            max_supply: self.max_supply,
            is_mutable: self.is_mutable,
            retain_authority: self.retain_authority,
            max_number_of_lines: self.max_number_of_lines,
        }
    }
}

/// The second version of a config description: whether item names and URIs
/// are templates.
pub struct ConfigDataV2 {
    pub v1: ConfigData,
    pub templated: bool,
}

/// A config account of the first version.
pub struct ConfigV1 {
    pub authority: Pubkey,
    pub data: ConfigData,
}

/// A config account of the second version.
pub struct ConfigV2 {
    pub authority: Pubkey,
    pub data: ConfigDataV2,
}

/// A config account of either version.
pub enum Config {
    V1(ConfigV1),
    V2(ConfigV2),
}

impl Config {
    /// The description that a config account of either version holds.
    pub open spec fn spec_datas(&self) -> ConfigDataModel {
        match self {
            Config::V1(c) => c.data@,
            Config::V2(c) => c.data.v1@,
        }
    }

    /// A copy of the description that the account holds.
    pub fn datas(&self) -> (r: ConfigData)
        ensures
            r@ == self.spec_datas(),
    {
        match self {
            Config::V1(c) => c.data.copy(),
            Config::V2(c) => c.data.v1.copy(),
        }
    }
}

/// One item of a config: its name and the URI of its JSON description.
pub struct ConfigLine {
    /// The name of the asset
    pub name: String,
    /// URI pointing to JSON representing the asset
    pub uri: String,
}

} // verus!
