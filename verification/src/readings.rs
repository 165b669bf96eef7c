//! What the stored bytes and the computed values mean, read independently of
//! how they are produced: little-endian numbers read byte by byte, decimal
//! text read digit by digit, the templated flag read at its place, and the
//! creators that a minted item lists.
use vstd::prelude::*;
use vstd::utf8::encode_utf8;
use crate::candy_machine::{
    item_creators, spec_init_token_mint, spec_mint_payment, Payment, TokenAccount, TokenMintAccounts,
};
use crate::config_init::{config_v2_bytes, creator_fields_of, lemma_creator_list_len, padded_config};
use crate::encoding::{
    borsh_bool, borsh_creator_fields, borsh_creator_list, borsh_string, decimal, le_u32, u16_le,
    u32_le, u64_le, lemma_le_u32_of_u32_le, lemma_pad_to_len, utf8_len, zero_bytes, CreatorFields,
};
use crate::layout::{bitmask_size, config_count, spec_config_line, templated_flag};
use crate::state::{
    CandyError, CandyMachine, CandyMachineData, ConfigDataModel, Creator, ErrorCode, Pubkey,
};

verus! {

// ---------------------------------------------------------------------------
// Numbers and text
// ---------------------------------------------------------------------------

/// The number whose little-endian bytes are `b`: the first byte counts
/// once, the next 256 times, and so on.
pub open spec fn le_value(b: Seq<u8>) -> nat
    decreases b.len(),
{
    if b.len() == 0 {
        0
    } else {
        (b[0] + 256 * le_value(b.skip(1))) as nat
    }
}

/// 256 to the power `k`.
pub open spec fn pow256(k: nat) -> nat
    decreases k,
{
    if k == 0 {
        1
    } else {
        256 * pow256((k - 1) as nat)
    }
}

/// The value of the decimal digit `c`.
pub open spec fn digit_value(c: char) -> int {
    c as int - 48
}

/// The number that the decimal digits `s` spell, most significant first.
pub open spec fn digits_value(s: Seq<char>) -> int
    decreases s.len(),
{
    if s.len() == 0 {
        0
    } else {
        10 * digits_value(s.drop_last()) + digit_value(s.last())
    }
}

/// Reading the bytes of `a` then `b` gives `a`'s number plus `b`'s shifted
/// past `a`.
pub proof fn lemma_le_value_concat(a: Seq<u8>, b: Seq<u8>)
    ensures
        le_value(a + b) == le_value(a) + pow256(a.len()) * le_value(b),
    decreases a.len(),
{
    if a.len() == 0 {
        assert(a + b =~= b);
        assert(pow256(0) == 1);
    } else {
        assert((a + b).skip(1) =~= a.skip(1) + b);
        lemma_le_value_concat(a.skip(1), b);
        let x = le_value(a.skip(1));
        let p = pow256((a.len() - 1) as nat);
        let y = le_value(b);
        assert((a + b)[0] == a[0]);
        assert(pow256(a.len()) == 256 * p);
        assert(le_value(a) == a[0] + 256 * x);
        assert(le_value(a + b) == a[0] + 256 * le_value(a.skip(1) + b));
        assert(le_value(a.skip(1) + b) == x + p * y);
        assert(256 * (x + p * y) == 256 * x + (256 * p) * y) by (nonlinear_arith);
        assert(le_value(a + b) == le_value(a) + (256 * p) * y);
    }
}

/// Four bytes read as a number are the `u32` they hold.
pub proof fn lemma_le_value_four(s: Seq<u8>)
    requires
        s.len() == 4,
    ensures
        le_value(s) == le_u32(s),
{
    reveal_with_fuel(le_value, 5);
    assert(s.skip(1)[0] == s[1]);
    assert(s.skip(1).skip(1)[0] == s[2]);
    assert(s.skip(1).skip(1).skip(1)[0] == s[3]);
    assert(s.skip(1).skip(1).skip(1).skip(1).len() == 0);
}

/// The bytes written for a `u32` read back as that number.
pub proof fn lemma_u32_bytes_read_back(x: nat)
    requires
        x < 4294967296,
    ensures
        u32_le(x).len() == 4,
        le_value(u32_le(x)) == x,
{
    lemma_le_u32_of_u32_le(x);
    lemma_le_value_four(u32_le(x));
}

/// The bytes written for a `u16` read back as that number.
pub proof fn lemma_u16_bytes_read_back(x: u16)
    ensures
        u16_le(x).len() == 2,
        le_value(u16_le(x)) == x,
{
    reveal_with_fuel(le_value, 3);
    let s = u16_le(x);
    assert(s.skip(1)[0] == s[1]);
    assert(s.skip(1).skip(1).len() == 0);
}

/// The bytes written for a `u64` read back as that number.
pub proof fn lemma_u64_bytes_read_back(x: u64)
    ensures
        u64_le(x).len() == 8,
        le_value(u64_le(x)) == x,
{
    let lo = (x % 4294967296) as nat;
    let hi = (x / 4294967296) as nat;
    lemma_u32_bytes_read_back(lo);
    lemma_u32_bytes_read_back(hi);
    lemma_le_value_concat(u32_le(lo), u32_le(hi));
    reveal_with_fuel(pow256, 5);
    assert(pow256(4) == 4294967296);
}

/// Item numbers are written in base ten: every character of `decimal(n)` is
/// a digit `'0'` to `'9'`, the digits read back as `n`, and the text starts
/// with `'0'` only for zero itself.
pub proof fn lemma_decimal_is_base_ten(n: nat)
    ensures
        decimal(n).len() >= 1,
        forall|i: int| 0 <= i < decimal(n).len() ==> 48 <= #[trigger] (decimal(n)[i] as int) <= 57,
        digits_value(decimal(n)) == n,
        (decimal(n)[0] == '0') == (n == 0),
    decreases n,
{
    if n < 10 {
        let c = decimal(n)[0];
        assert(c as int == 48 + n);
        assert(decimal(n).drop_last() =~= Seq::<char>::empty());
        assert(digits_value(Seq::<char>::empty()) == 0);
        assert(digits_value(decimal(n)) == 10 * digits_value(decimal(n).drop_last()) + digit_value(c));
    } else {
        lemma_decimal_is_base_ten(n / 10);
        let s = decimal(n);
        let t = decimal(n / 10);
        assert(s.drop_last() =~= t);
        assert(s.last() as int == 48 + n % 10);
        vstd::arithmetic::div_mod::lemma_fundamental_div_mod(n as int, 10);
        assert(digits_value(s) == 10 * digits_value(t) + digit_value(s.last()));
        assert forall|i: int| 0 <= i < s.len() implies 48 <= #[trigger] (s[i] as int) <= 57 by {
            if i < t.len() {
                assert(s[i] == t[i]);
            }
        }
        assert(s[0] == t[0]);
    }
}

// ---------------------------------------------------------------------------
// The templated flag
// ---------------------------------------------------------------------------

/// A config's lines are templates exactly when, with `c` the counter read
/// from bytes 247 to 251, the account has the size of one with room for `c`
/// lines, the flag byte, a `u32` and a bit mask of one bit per line rounded
/// up to whole bytes, and the flag byte after the `c` lines is 1.
pub proof fn lemma_templated_flag_reading(d: Seq<u8>)
    requires
        d.len() >= 251,
    ensures
        ({
            let c = le_value(d.subrange(247, 251));
            templated_flag(d) <==> (d.len() == 247 + 4 + c * 240 + 1 + 4 + (c + 7) / 8 && d[(247 + 4
                + c * 240) as int] == 1)
        }),
{
    let c = le_value(d.subrange(247, 251));
    lemma_le_value_four(d.subrange(247, 251));
    assert(config_count(d) == c);
    assert(bitmask_size(c) == (c + 7) / 8);
}

// ---------------------------------------------------------------------------
// Setting up a candy machine
// ---------------------------------------------------------------------------

/// A config with at least as many lines as items is never refused for its
/// line count: where the uuid has 6 bytes and the token accounts (if any)
/// agree, setting up is refused with `ConfigLineMismatch` exactly when the
/// lines are not templates and the counter read from bytes 247 to 251 is
/// below the number of items; and with enough lines and a readable first
/// line it succeeds.
pub proof fn lemma_setup_line_count(
    data: CandyMachineData,
    token_mint: Option<Result<TokenMintAccounts, CandyError>>,
    d: Seq<u8>,
)
    requires
        d.len() >= 251,
        data.items_available <= usize::MAX,
        utf8_len(data.uuid@) == 6,
        match token_mint {
            None => true,
            Some(Ok(t)) => t.wallet_token_mint == t.mint,
            Some(Err(_)) => false,
        },
    ensures
        ({
            let c = le_value(d.subrange(247, 251));
            &&& (spec_init_token_mint(data, token_mint, d) == Err::<Option<Pubkey>, CandyError>(
                CandyError::Code(ErrorCode::ConfigLineMismatch),
            )) <==> (c < data.items_available && !templated_flag(d))
            &&& c >= data.items_available && spec_config_line(d, templated_flag(d), 0) is Ok
                ==> spec_init_token_mint(data, token_mint, d) == Ok::<Option<Pubkey>, CandyError>(
                match token_mint {
                    Some(Ok(t)) => Some(t.mint),
                    _ => None,
                },
            )
        }),
{
    let c = le_value(d.subrange(247, 251));
    lemma_le_value_four(d.subrange(247, 251));
    assert(config_count(d) == c);
    assert(c < 4294967296);
    assert((c as usize) as int == c);
    assert((data.items_available as usize) as int == data.items_available);
}

// ---------------------------------------------------------------------------
// The header of a config account
// ---------------------------------------------------------------------------

/// The description written to a new config is the one given, with only
/// its symbol padded: the symbol's bytes followed by zero bytes up to the
/// full symbol width of 10 bytes.
pub proof fn lemma_padded_config_keeps_fields(d: ConfigDataModel)
    requires
        utf8_len(d.symbol) <= 10,
    ensures
        padded_config(d) == (ConfigDataModel { symbol: padded_config(d).symbol, ..d }),
        encode_utf8(padded_config(d).symbol) == encode_utf8(d.symbol) + Seq::new(
            (10 - utf8_len(d.symbol)) as nat,
            |i: int| 0u8,
        ),
{
    lemma_pad_to_len(d.symbol, 10);
    assert(zero_bytes((10 - utf8_len(d.symbol)) as nat) =~= Seq::new(
        (10 - utf8_len(d.symbol)) as nat,
        |i: int| 0u8,
    ));
}

/// Creator `i` of a serialized list takes bytes `34 * i` to `34 * i + 34`.
proof fn lemma_creator_list_item(cs: Seq<CreatorFields>, i: int)
    requires
        0 <= i < cs.len(),
    ensures
        borsh_creator_list(cs).len() == 34 * cs.len(),
        borsh_creator_list(cs).subrange(34 * i, 34 * i + 34) == borsh_creator_fields(cs[i]),
    decreases cs.len(),
{
    lemma_creator_list_len(cs);
    let rest = cs.drop_last();
    lemma_creator_list_len(rest);
    broadcast use vstd::array::group_array_axioms;

    assert(borsh_creator_fields(cs.last()).len() == 34);
    if i < cs.len() - 1 {
        lemma_creator_list_item(rest, i);
        assert(34 * i + 34 <= 34 * rest.len());
        assert(borsh_creator_list(cs).subrange(34 * i, 34 * i + 34) =~= borsh_creator_list(
            rest,
        ).subrange(34 * i, 34 * i + 34));
    } else {
        assert(borsh_creator_list(cs).subrange(34 * i, 34 * i + 34) =~= borsh_creator_fields(
            cs[i],
        ));
    }
}

/// The serialized account reads back field by field as the description it
/// was made from: the authority's 32 bytes; the uuid and the symbol, each as
/// its byte length (a little-endian `u32`) and its UTF-8 bytes; the fee
/// (`u16`); the number of creators (`u32`), then each creator as its address,
/// a byte 1 or 0 for whether it is verified, and its share; the maximum
/// supply (`u64`); a byte 1 or 0 for `is_mutable`, then for
/// `retain_authority`; the line limit (`u32`); and a byte 1 or 0 for the
/// templated flag.
#[verifier::spinoff_prover]
#[verifier::rlimit(80)]
pub proof fn lemma_config_bytes_read_back(authority: Pubkey, d: ConfigDataModel, templated: bool)
    requires
        utf8_len(d.uuid) < 4294967296,
        utf8_len(d.symbol) < 4294967296,
        d.creators.len() < 4294967296,
    ensures
        ({
            let b = config_v2_bytes(authority, d, templated);
            let u = encode_utf8(d.uuid);
            let s = encode_utf8(d.symbol);
            let n = d.creators.len();
            let o1: int = 36 + u.len() as int;
            let o2: int = o1 + 4 + s.len();
            let o3: int = o2 + 6;
            let o4: int = o3 + 34 * n;
            &&& b.len() == o4 + 15
            &&& b.subrange(0, 32) == authority.bytes@
            &&& le_value(b.subrange(32, 36)) == u.len()
            &&& b.subrange(36, o1) == u
            &&& le_value(b.subrange(o1, o1 + 4)) == s.len()
            &&& b.subrange(o1 + 4, o2) == s
            &&& le_value(b.subrange(o2, o2 + 2)) == d.seller_fee_basis_points
            &&& le_value(b.subrange(o2 + 2, o3)) == n
            &&& forall|i: int|
                0 <= i < n ==> {
                    &&& b.subrange(o3 + 34 * i, o3 + 34 * i + 32) == (
                    #[trigger] d.creators[i]).address.bytes@
                    &&& b[o3 + 34 * i + 32] == if d.creators[i].verified {
                        1u8
                    } else {
                        0u8
                    }
                    &&& b[o3 + 34 * i + 33] == d.creators[i].share
                }
            &&& le_value(b.subrange(o4, o4 + 8)) == d.max_supply
            &&& b[o4 + 8] == if d.is_mutable {
                1u8
            } else {
                0u8
            }
            &&& b[o4 + 9] == if d.retain_authority {
                1u8
            } else {
                0u8
            }
            &&& le_value(b.subrange(o4 + 10, o4 + 14)) == d.max_number_of_lines
            &&& b[o4 + 14] == if templated {
                1u8
            } else {
                0u8
            }
        }),
{
    vstd::array::array_len_matches_n(&authority.bytes);

    let b = config_v2_bytes(authority, d, templated);
    let u = encode_utf8(d.uuid);
    let s = encode_utf8(d.symbol);
    let n = d.creators.len();
    let cs = d.creators.map_values(|c: Creator| creator_fields_of(c));
    lemma_creator_list_len(cs);
    lemma_u32_bytes_read_back(u.len());
    lemma_u32_bytes_read_back(s.len());
    lemma_u32_bytes_read_back(n);
    lemma_u32_bytes_read_back(d.max_number_of_lines as nat);
    lemma_u16_bytes_read_back(d.seller_fee_basis_points);
    lemma_u64_bytes_read_back(d.max_supply);
    let p0 = authority.bytes@;
    let p1 = u32_le(u.len());
    let p2 = u;
    let p3 = u32_le(s.len());
    let p4 = s;
    let p5 = u16_le(d.seller_fee_basis_points);
    let p6 = u32_le(n);
    let p7 = borsh_creator_list(cs);
    let p8 = u64_le(d.max_supply);
    let p9 = borsh_bool(d.is_mutable);
    let p10 = borsh_bool(d.retain_authority);
    let p11 = u32_le(d.max_number_of_lines as nat);
    let p12 = borsh_bool(templated);
    let q1 = p0 + p1;
    let q2 = q1 + p2;
    let q3 = q2 + p3;
    let q4 = q3 + p4;
    let q5 = q4 + p5;
    let q6 = q5 + p6;
    let q7 = q6 + p7;
    let q8 = q7 + p8;
    let q9 = q8 + p9;
    let q10 = q9 + p10;
    let q11 = q10 + p11;
    let q12 = q11 + p12;
    assert(b == q12);
    assert(b.subrange(0, q12.len() as int) =~= q12);
    lemma_piece(b, q11, p12);
    lemma_piece(b, q10, p11);
    lemma_piece(b, q9, p10);
    lemma_piece(b, q8, p9);
    lemma_piece(b, q7, p8);
    lemma_piece(b, q6, p7);
    lemma_piece(b, q5, p6);
    lemma_piece(b, q4, p5);
    lemma_piece(b, q3, p4);
    lemma_piece(b, q2, p3);
    lemma_piece(b, q1, p2);
    lemma_piece(b, p0, p1);
    let o1: int = 36 + u.len() as int;
    let o2: int = o1 + 4 + s.len();
    let o3: int = o2 + 6;
    let o4: int = o3 + 34 * n;
    assert(b[o4 + 8] == p9[0]);
    assert(b[o4 + 9] == p10[0]);
    assert(b[o4 + 14] == p12[0]);
    lemma_creators_in_place(b, d.creators, cs, o3);
}

/// The piece `p` after the prefix `x` of `b`.
proof fn lemma_piece(b: Seq<u8>, x: Seq<u8>, p: Seq<u8>)
    requires
        (x + p).len() <= b.len(),
        b.subrange(0, (x + p).len() as int) == x + p,
    ensures
        b.subrange(0, x.len() as int) == x,
        b.subrange(x.len() as int, x.len() + p.len() as int) == p,
{
    assert(b.subrange(0, x.len() as int) =~= (x + p).subrange(0, x.len() as int));
    assert((x + p).subrange(0, x.len() as int) =~= x);
    assert(b.subrange(x.len() as int, x.len() + p.len() as int) =~= (x + p).subrange(
        x.len() as int,
        x.len() + p.len() as int,
    ));
    assert((x + p).subrange(x.len() as int, x.len() + p.len() as int) =~= p);
}

/// Each creator of the serialized list at `o3` in `b`, field by field.
proof fn lemma_creators_in_place(b: Seq<u8>, creators: Seq<Creator>, cs: Seq<CreatorFields>, o3: int)
    requires
        cs == creators.map_values(|c: Creator| creator_fields_of(c)),
        0 <= o3,
        o3 + 34 * creators.len() <= b.len(),
        b.subrange(o3, o3 + 34 * creators.len()) == borsh_creator_list(cs),
    ensures
        forall|i: int|
            0 <= i < creators.len() ==> {
                &&& b.subrange(o3 + 34 * i, o3 + 34 * i + 32) == (
                #[trigger] creators[i]).address.bytes@
                &&& b[o3 + 34 * i + 32] == if creators[i].verified {
                    1u8
                } else {
                    0u8
                }
                &&& b[o3 + 34 * i + 33] == creators[i].share
            },
{
    broadcast use vstd::array::group_array_axioms;

    let n = creators.len();
    assert forall|i: int| 0 <= i < n implies {
        &&& b.subrange(o3 + 34 * i, o3 + 34 * i + 32) == (#[trigger] creators[i]).address.bytes@
        &&& b[o3 + 34 * i + 32] == if creators[i].verified {
            1u8
        } else {
            0u8
        }
        &&& b[o3 + 34 * i + 33] == creators[i].share
    } by {
        lemma_creator_list_item(cs, i);
        let f = borsh_creator_fields(cs[i]);
        assert(cs[i] == creator_fields_of(creators[i]));
        assert(34 * i + 34 <= 34 * n) by (nonlinear_arith)
            requires
                i < n,
        ;
        let p7 = borsh_creator_list(cs);
        assert(b.subrange(o3 + 34 * i, o3 + 34 * i + 34) =~= p7.subrange(34 * i, 34 * i + 34));
        assert(b.subrange(o3 + 34 * i, o3 + 34 * i + 32) =~= f.subrange(0, 32));
        assert(f.subrange(0, 32) =~= creators[i].address.bytes@);
        assert(b[o3 + 34 * i + 32] == f[32]);
        assert(b[o3 + 34 * i + 33] == f[33]);
    }
}

/// Setting up checks the uuid first: it is refused with
/// `UuidMustBeExactly6Length` whenever the uuid is not 6 bytes long, whatever
/// else is given; with a uuid of 6 bytes, token accounts that were read but
/// name different mints are refused with `MintMismatch`, and an error in
/// reading them is passed on.
pub proof fn lemma_setup_checks_uuid_and_mint(
    data: CandyMachineData,
    token_mint: Option<Result<TokenMintAccounts, CandyError>>,
    d: Seq<u8>,
)
    ensures
        encode_utf8(data.uuid@).len() != 6 ==> spec_init_token_mint(data, token_mint, d) == Err::<
            Option<Pubkey>,
            CandyError,
        >(CandyError::Code(ErrorCode::UuidMustBeExactly6Length)),
        encode_utf8(data.uuid@).len() == 6 ==> match token_mint {
            Some(Ok(t)) => t.wallet_token_mint != t.mint ==> spec_init_token_mint(
                data,
                token_mint,
                d,
            ) == Err::<Option<Pubkey>, CandyError>(CandyError::Code(ErrorCode::MintMismatch)),
            Some(Err(e)) => spec_init_token_mint(data, token_mint, d) == Err::<
                Option<Pubkey>,
                CandyError,
            >(e),
            None => true,
        },
{
}

// ---------------------------------------------------------------------------
// Paying for an item
// ---------------------------------------------------------------------------

/// A mint is paid for exactly when the payer may mint now (the authority at
/// any time, anyone else once the go-live date is set and reached), an item
/// is left, and the payer can afford the price: with tokens of the machine's
/// mint, a token account of that mint holding at least the price; without,
/// at least the price in lamports.
pub proof fn lemma_paid_exactly_when_affordable(
    candy_machine: CandyMachine,
    payer: Pubkey,
    now: i64,
    payer_lamports: u64,
    token_account: Option<Result<TokenAccount, CandyError>>,
)
    ensures
        (spec_mint_payment(candy_machine, payer, now, payer_lamports, token_account) is Ok) <==> {
            &&& (payer == candy_machine.authority || (candy_machine.data.go_live_date is Some
                && now >= candy_machine.data.go_live_date->0))
            &&& candy_machine.items_redeemed < candy_machine.data.items_available
            &&& match candy_machine.token_mint {
                Some(mint) => token_account matches Some(Ok(account)) && account.mint == mint
                    && account.amount >= candy_machine.data.price,
                None => payer_lamports >= candy_machine.data.price,
            }
        },
{
}

// ---------------------------------------------------------------------------
// The creators of a minted item
// ---------------------------------------------------------------------------

/// A minted item lists the candy machine first, verified and with no share,
/// then each creator of the config in order, with its address and share and
/// unverified, whatever the config says of it.
pub proof fn lemma_item_creators_unverified(candy_machine_key: Pubkey, d: ConfigDataModel)
    ensures
        item_creators(candy_machine_key, d).len() == d.creators.len() + 1,
        item_creators(candy_machine_key, d)[0] == (Creator {
            address: candy_machine_key,
            verified: true,
            share: 0,
        }),
        forall|i: int|
            0 <= i < d.creators.len() ==> {
                &&& (#[trigger] item_creators(candy_machine_key, d)[i + 1]).address
                    == d.creators[i].address
                &&& item_creators(candy_machine_key, d)[i + 1].share == d.creators[i].share
                &&& !item_creators(candy_machine_key, d)[i + 1].verified
            },
{
}

} // verus!
