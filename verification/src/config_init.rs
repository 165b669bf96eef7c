//! Making a config account: its header (the account discriminator and the
//! serialized config), the templated flag and the size of the bit mask; and
//! telling the two config versions apart by their discriminator.
use vstd::prelude::*;
use vstd::utf8::encode_utf8;
use crate::encoding::{
    borsh_bool, borsh_config_v2_fields, borsh_creator_list, borsh_encode_config_v2, borsh_string, hash_sha256, pad_to, pad_with_nuls, sha256,
    str_byte_len, u16_le, u32_le, u32_to_le, u64_le, utf8_len, ConfigDataFields,
    ConfigV2Fields, CreatorFields,
};
use crate::layout::{line_offset, splice, write_bytes};
use crate::state::{
    CandyError, ConfigData, ConfigDataModel, ConfigDataV2, ConfigV2, Creator, ErrorCode, Pubkey,
    CONFIG_ARRAY_START, CONFIG_LINE_SIZE, MAX_CREATOR_LIMIT, MAX_SYMBOL_LENGTH,
};

verus! {

/// The discriminator of the account type `name`: the first eight bytes of
/// the SHA-256 digest of `account:` followed by the name.
pub open spec fn discriminator(name: Seq<char>) -> Seq<u8> {
    sha256(encode_utf8("account:"@ + name)).take(8)
}

/// Computes the discriminator of the account type `name`.
pub fn account_discriminator(name: &str) -> (r: Vec<u8>)
    ensures
        r@ == discriminator(name@),
        r@.len() == 8,
{
    let mut preimage: String = "account:".to_owned();
    preimage.append(name);
    let digest = hash_sha256(preimage.as_str().as_bytes());
    let head = vstd::slice::slice_subrange(digest.as_slice(), 0, 8);
    let r = vstd::slice::slice_to_vec(head);
    assert(r@ =~= discriminator(name@));
    r
}

/// Which version of config an account holds.
#[derive(Clone, Copy, Debug, PartialEq, Eq, Structural)]
pub enum ConfigVersion {
    V1,
    V2,
}

/// The version of config whose discriminator starts `buf`; the first version
/// is tried first, and a buffer that starts with neither is not initialized.
pub open spec fn spec_config_version(buf: Seq<u8>) -> Result<ConfigVersion, CandyError> {
    if buf.take(8) == discriminator("ConfigV1"@) {
        Ok(ConfigVersion::V1)
    } else if buf.take(8) == discriminator("ConfigV2"@) {
        Ok(ConfigVersion::V2)
    } else {
        Err(CandyError::Code(ErrorCode::Uninitialized))
    }
}

/// Compares two byte strings.
pub fn bytes_eq(a: &[u8], b: &[u8]) -> (r: bool)
    ensures
        r == (a@ == b@),
{
    if a.len() != b.len() {
        return false;
    }
    let mut i: usize = 0;
    while i < a.len()
        invariant
            i <= a@.len(),
            a@.len() == b@.len(),
            forall|j: int| 0 <= j < i ==> a@[j] == b@[j],
        decreases a.len() - i,
    {
        if a[i] != b[i] {
            return false;
        }
        i = i + 1;
    }
    assert(a@ =~= b@);
    true
}

/// Tells which version of config the account data `buf` holds, by its
/// discriminator.
pub fn config_version(buf: &[u8]) -> (r: Result<ConfigVersion, CandyError>)
    requires
        buf@.len() >= 8,
    ensures
        r == spec_config_version(buf@),
{
    let head = vstd::slice::slice_subrange(buf, 0, 8);
    assert(head@ =~= buf@.take(8));
    let v1 = account_discriminator("ConfigV1");
    if bytes_eq(head, v1.as_slice()) {
        return Ok(ConfigVersion::V1);
    }
    let v2 = account_discriminator("ConfigV2");
    if bytes_eq(head, v2.as_slice()) {
        return Ok(ConfigVersion::V2);
    }
    Err(CandyError::Code(ErrorCode::Uninitialized))
}

/// Whether the two config versions' discriminators differ. Where they do,
/// every account that making a second-version config writes (with room for
/// its header, its flag and the size of its bit mask) is read back as the
/// second version.
pub fn config_discriminators_differ() -> (r: bool)
    ensures
        r == (discriminator("ConfigV1"@) != discriminator("ConfigV2"@)),
        r ==> forall|d: Seq<u8>, authority: Pubkey, data: ConfigDataModel, templated: bool|
            config_header(authority, data, templated).len() <= d.len() && flag_offset(
                data.max_number_of_lines,
            ) + 4 <= d.len() ==> spec_config_version(
                #[trigger] after_init_config(
                    d,
                    config_header(authority, data, templated),
                    data.max_number_of_lines,
                    templated,
                ),
            ) == Ok::<ConfigVersion, CandyError>(ConfigVersion::V2),
{
    let v1 = account_discriminator("ConfigV1");
    let v2 = account_discriminator("ConfigV2");
    let r = !bytes_eq(v1.as_slice(), v2.as_slice());
    proof {
        assert forall|d: Seq<u8>, authority: Pubkey, data: ConfigDataModel, templated: bool|
            r && config_header(authority, data, templated).len() <= d.len() && flag_offset(
                data.max_number_of_lines,
            ) + 4 <= d.len() implies spec_config_version(
            #[trigger] after_init_config(
                d,
                config_header(authority, data, templated),
                data.max_number_of_lines,
                templated,
            ),
        ) == Ok::<ConfigVersion, CandyError>(ConfigVersion::V2) by {
            crate::laws::lemma_new_config_is_v2(d, authority, data, templated);
        }
    }
    r
}

/// The Borsh fields of a creator.
pub open spec fn creator_fields_of(c: Creator) -> CreatorFields {
    (c.address.bytes, c.verified, c.share)
}

/// The serialized second-version config account with authority `authority`,
/// description `d` and templated flag `templated`.
pub open spec fn config_v2_bytes(authority: Pubkey, d: ConfigDataModel, templated: bool) -> Seq<u8> {
    authority.bytes@ + borsh_string(d.uuid) + borsh_string(d.symbol) + u16_le(
        d.seller_fee_basis_points,
    ) + u32_le(d.creators.len()) + borsh_creator_list(
        d.creators.map_values(|c: Creator| creator_fields_of(c)),
    ) + u64_le(d.max_supply) + borsh_bool(d.is_mutable) + borsh_bool(d.retain_authority)
        + u32_le(d.max_number_of_lines as nat) + borsh_bool(templated)
}

/// The description with its symbol padded with NUL characters to the full
/// symbol width.
pub open spec fn padded_config(d: ConfigDataModel) -> ConfigDataModel {
    ConfigDataModel { symbol: pad_to(d.symbol, MAX_SYMBOL_LENGTH as nat), ..d }
}

/// The header written at the start of a new config account: the second
/// version's discriminator and the serialized account.
pub open spec fn config_header(authority: Pubkey, d: ConfigDataModel, templated: bool) -> Seq<u8> {
    discriminator("ConfigV2"@) + config_v2_bytes(authority, padded_config(d), templated)
}

/// Where the templated flag goes in an account with room for `max` lines.
pub open spec fn flag_offset(max: u32) -> int {
    line_offset(max as int)
}

/// Whether an account of `len` bytes with room for `max` lines has a byte for
/// the templated flag.
pub open spec fn holds_flag(len: nat, max: u32) -> bool {
    len >= flag_offset(max) + 5
}

/// The data after the templated flag, when the account has room for it, and
/// the size of the bit mask (the line limit divided by 8, rounded down) as a
/// `u32` are written after the room for `max` lines.
pub open spec fn config_tail(d: Seq<u8>, max: u32, templated: bool) -> Seq<u8> {
    let with_flag = if holds_flag(d.len(), max) {
        d.update(flag_offset(max), if templated {
            1u8
        } else {
            0u8
        })
    } else {
        d
    };
    let shift: int = if holds_flag(d.len(), max) {
        1
    } else {
        0
    };
    splice(with_flag, flag_offset(max) + shift, u32_le((max / 8) as nat))
}

/// The data of a new config account: the header from the start, then the
/// tail after the room for the lines.
pub open spec fn after_init_config(d: Seq<u8>, header: Seq<u8>, max: u32, templated: bool) -> Seq<
    u8,
> {
    config_tail(splice(d, 0, header), max, templated)
}

/// Writes the templated flag and the size of the bit mask.
fn write_config_tail(account: &mut Vec<u8>, max: u32, templated: bool)
    requires
        flag_offset(max) + 4 <= old(account)@.len(),
    ensures
        final(account)@ == config_tail(old(account)@, max, templated),
{
    let account_len = account.len();
    let vec_start: usize = CONFIG_ARRAY_START + 4 + (max as usize) * CONFIG_LINE_SIZE;
    let is_new_configuration = account_len - vec_start >= 5;
    if is_new_configuration {
        account.set(vec_start, if templated {
            1u8
        } else {
            0u8
        });
    }
    let as_bytes = u32_to_le(max / 8);
    let shift: usize = if is_new_configuration {
        1
    } else {
        0
    };
    write_bytes(account, vec_start + shift, &as_bytes);
}

/// The header of a new config account.
fn config_v2_header(config: &ConfigV2) -> (r: Vec<u8>)
    requires
        utf8_len(config.data.v1.uuid@) == 6,
        utf8_len(config.data.v1.symbol@) == MAX_SYMBOL_LENGTH,
        config.data.v1.creators@.len() <= MAX_CREATOR_LIMIT - 1,
    ensures
        r@ == discriminator("ConfigV2"@) + config_v2_bytes(
            config.authority,
            config.data.v1@,
            config.data.templated,
        ),
        r@.len() == 85 + 34 * config.data.v1.creators@.len(),
{
    let mut new_data = account_discriminator("ConfigV2");
    let fields = config_v2_fields(config);
    let mut body = match borsh_encode_config_v2(&fields) {
        Some(b) => b,
        None => Vec::new(),
    };
    new_data.append(&mut body);
    proof {
        let d = config.data.v1@;
        lemma_creator_list_len(d.creators.map_values(|c: Creator| creator_fields_of(c)));
        broadcast use vstd::array::group_array_axioms;

        assert(config.authority.bytes@.len() == 32);
        assert(borsh_string(d.uuid).len() == 10);
        assert(borsh_string(d.symbol).len() == 14);
        assert(u64_le(d.max_supply).len() == 8);
    }
    new_data
}

/// Each serialized creator has 34 bytes.
pub proof fn lemma_creator_list_len(cs: Seq<CreatorFields>)
    ensures
        borsh_creator_list(cs).len() == 34 * cs.len(),
    decreases cs.len(),
{
    if cs.len() > 0 {
        lemma_creator_list_len(cs.drop_last());
    }
}

/// The Borsh fields of a list of creators.
fn creator_list_fields(creators: &Vec<Creator>) -> (r: Vec<CreatorFields>)
    ensures
        r@ == creators@.map_values(|c: Creator| creator_fields_of(c)),
{
    let mut r: Vec<CreatorFields> = Vec::new();
    let mut i: usize = 0;
    while i < creators.len()
        invariant
            i <= creators@.len(),
            r@ == creators@.take(i as int).map_values(|c: Creator| creator_fields_of(c)),
        decreases creators.len() - i,
    {
        let c = creators[i];
        r.push((c.address.bytes, c.verified, c.share));
        i = i + 1;
        assert(r@ =~= creators@.take(i as int).map_values(|c: Creator| creator_fields_of(c)));
    }
    assert(creators@.take(i as int) =~= creators@);
    r
}

/// The Borsh fields of a second-version config account.
fn config_v2_fields(config: &ConfigV2) -> (r: ConfigV2Fields)
    ensures
        borsh_config_v2_fields(r) == config_v2_bytes(
            config.authority,
            config.data.v1@,
            config.data.templated,
        ),
        r.1.0.0@ == config.data.v1.uuid@,
        r.1.0.1@ == config.data.v1.symbol@,
        r.1.0.3@.len() == config.data.v1.creators@.len(),
{
    let d = &config.data.v1;
    let fields: ConfigDataFields = (
        d.uuid.clone(),
        d.symbol.clone(),
        d.seller_fee_basis_points,
        creator_list_fields(&d.creators),
        d.max_supply,
        d.is_mutable,
        d.retain_authority,
        d.max_number_of_lines,
    );
    (config.authority.bytes, (fields, config.data.templated))
}

/// Whether an account has room for what making a config writes: the padded
/// symbol fits its width, and, once the uuid and the number of creators pass,
/// the header, the templated flag and the size of the bit mask fit the data.
pub open spec fn init_config_fits(d: Seq<u8>, data: ConfigDataModel) -> bool {
    &&& utf8_len(data.uuid) == 6 ==> utf8_len(data.symbol) <= MAX_SYMBOL_LENGTH
    &&& utf8_len(data.uuid) == 6 && data.creators.len() <= MAX_CREATOR_LIMIT - 1 ==> {
        &&& 85 + 34 * data.creators.len() <= d.len()
        &&& flag_offset(data.max_number_of_lines) + 4 <= d.len()
    }
}

/// The result of making a config account over data `d`, and the data after:
/// a uuid of other than 6 bytes, or more than 4 creators, is refused and
/// leaves the data alone; otherwise the header, the templated flag and the
/// size of the bit mask are written.
pub open spec fn spec_init_config(
    d: Seq<u8>,
    authority: Pubkey,
    data: ConfigDataModel,
    templated: bool,
) -> (Result<(), CandyError>, Seq<u8>) {
    if utf8_len(data.uuid) != 6 {
        (Err(CandyError::Code(ErrorCode::UuidMustBeExactly6Length)), d)
    } else if data.creators.len() > MAX_CREATOR_LIMIT - 1 {
        (Err(CandyError::Code(ErrorCode::TooManyCreators)), d)
    } else {
        (
            Ok(()),
            after_init_config(
                d,
                config_header(authority, data, templated),
                data.max_number_of_lines,
                templated,
            ),
        )
    }
}

/// Makes a config account of the second version: checks the uuid (6 bytes)
/// and the number of creators (at most 4, since the candy machine is one
/// too), pads the symbol, writes the header, the templated flag where the
/// account has room for it, and the size of the bit mask.
pub fn initialize_config_v2(data: ConfigDataV2, authority: Pubkey, account: &mut Vec<u8>) -> (r:
    Result<(), CandyError>)
    requires
        init_config_fits(old(account)@, data.v1@),
    ensures
        (r, final(account)@) == spec_init_config(old(account)@, authority, data.v1@, data.templated),
{
    if str_byte_len(&data.v1.uuid) != 6 {
        return Err(CandyError::Code(ErrorCode::UuidMustBeExactly6Length));
    }
    let ghost model = data.v1@;
    let ghost templated = data.templated;
    let mut config = ConfigV2 { data, authority };
    let mut symbol = String::new();
    std::mem::swap(&mut symbol, &mut config.data.v1.symbol);
    config.data.v1.symbol = pad_with_nuls(symbol, MAX_SYMBOL_LENGTH);
    assert(config.data.v1@ == padded_config(model));
    if config.data.v1.creators.len() > MAX_CREATOR_LIMIT - 1 {
        return Err(CandyError::Code(ErrorCode::TooManyCreators));
    }
    proof {
        crate::encoding::lemma_pad_to_len(model.symbol, MAX_SYMBOL_LENGTH as nat);
    }
    let new_data = config_v2_header(&config);
    write_bytes(account, 0, new_data.as_slice());
    write_config_tail(account, config.data.v1.max_number_of_lines, config.data.templated);
    Ok(())
}

/// Makes a config account of the second version from a first-version
/// description, with lines that are not templates: the same result and the
/// same data as `initialize_config_v2` with the templated flag off.
pub fn initialize_config(data: ConfigData, authority: Pubkey, account: &mut Vec<u8>) -> (r: Result<
    (),
    CandyError,
>)
    requires
        init_config_fits(old(account)@, data@),
    ensures
        (r, final(account)@) == spec_init_config(old(account)@, authority, data@, false),
{
    let data_v2 = ConfigDataV2 { v1: data, templated: false };
    initialize_config_v2(data_v2, authority, account)
}

} // verus!
