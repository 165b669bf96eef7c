//! Byte encodings: little-endian integers, the Borsh layout of the values the
//! program stores, UTF-8 text, and the calls into the serialization and hashing
//! code of `anchor_lang` and into `std` that produce them.
use vstd::prelude::*;
use vstd::utf8::*;

verus! {

broadcast use vstd::utf8::group_utf8_lib;

// ---------------------------------------------------------------------------
// Little-endian integers
// ---------------------------------------------------------------------------

/// The four little-endian bytes of `x` (taken modulo 2^32).
pub open spec fn u32_le(x: nat) -> Seq<u8> {
    seq![
        (x % 256) as u8,
        ((x / 256) % 256) as u8,
        ((x / 65536) % 256) as u8,
        ((x / 16777216) % 256) as u8,
    ]
}

/// The number whose little-endian bytes start `b`.
pub open spec fn le_u32(b: Seq<u8>) -> nat
    recommends
        b.len() >= 4,
{
    (b[0] + 256 * b[1] + 65536 * b[2] + 16777216 * b[3]) as nat
}

/// The two little-endian bytes of `x`.
pub open spec fn u16_le(x: u16) -> Seq<u8> {
    seq![(x % 256) as u8, (x / 256) as u8]
}

/// The eight little-endian bytes of `x`.
pub open spec fn u64_le(x: u64) -> Seq<u8> {
    u32_le((x % 4294967296) as nat) + u32_le((x / 4294967296) as nat)
}

/// Reading back the bytes of a number below 2^32 gives the number.
pub proof fn lemma_le_u32_of_u32_le(x: nat)
    requires
        x < 4294967296,
    ensures
        le_u32(u32_le(x)) == x,
        u32_le(x).len() == 4,
{
    let b0 = x % 256;
    let q0 = x / 256;
    let b1 = q0 % 256;
    let q1 = q0 / 256;
    let b2 = q1 % 256;
    let b3 = q1 / 256;
    assert(x == b0 + 256 * q0);
    assert(q0 == b1 + 256 * q1);
    assert(q1 == b2 + 256 * b3);
    assert(b3 < 256);
    assert(x / 65536 == q1) by {
        vstd::arithmetic::div_mod::lemma_div_denominator(x as int, 256, 256);
    }
    assert(x / 16777216 == b3) by {
        vstd::arithmetic::div_mod::lemma_div_denominator(x as int, 65536, 256);
        vstd::arithmetic::div_mod::lemma_div_denominator(x as int, 256, 256);
    }
}

/// Reads the little-endian `u32` stored at `at`.
pub fn read_u32_le(data: &[u8], at: usize) -> (r: u32)
    requires
        at + 4 <= data@.len(),
    ensures
        r == le_u32(data@.subrange(at as int, at + 4)),
{
    let b0 = data[at] as u32;
    let b1 = data[at + 1] as u32;
    let b2 = data[at + 2] as u32;
    let b3 = data[at + 3] as u32;
    b0 + b1 * 256 + b2 * 65536 + b3 * 16777216
}

/// The little-endian bytes of `x`.
pub fn u32_to_le(x: u32) -> (r: [u8; 4])
    ensures
        r@ == u32_le(x as nat),
{
    let r = [
        (x % 256) as u8,
        ((x / 256) % 256) as u8,
        ((x / 65536) % 256) as u8,
        ((x / 16777216) % 256) as u8,
    ];
    assert(r@ =~= u32_le(x as nat));
    r
}

// ---------------------------------------------------------------------------
// UTF-8 helpers
// ---------------------------------------------------------------------------

/// The number of bytes of the UTF-8 encoding of `s`.
pub open spec fn utf8_len(s: Seq<char>) -> nat {
    encode_utf8(s).len()
}

/// `n` NUL characters.
pub open spec fn nuls(n: nat) -> Seq<char> {
    Seq::new(n, |i: int| '\0')
}

/// `n` zero bytes.
pub open spec fn zero_bytes(n: nat) -> Seq<u8> {
    Seq::new(n, |i: int| 0u8)
}

/// `s` followed by as many NUL characters as it takes to make its encoding
/// `width` bytes long.
pub open spec fn pad_to(s: Seq<char>, width: nat) -> Seq<char> {
    s + nuls((width - utf8_len(s)) as nat)
}

/// The encoding of a concatenation is the concatenation of the encodings.
pub proof fn lemma_encode_utf8_concat(a: Seq<char>, b: Seq<char>)
    ensures
        encode_utf8(a + b) == encode_utf8(a) + encode_utf8(b),
    decreases a.len(),
{
    if a.len() == 0 {
        assert(a + b =~= b);
    } else {
        assert((a + b).drop_first() =~= a.drop_first() + b);
        lemma_encode_utf8_concat(a.drop_first(), b);
        assert(encode_utf8(a + b) == encode_scalar((a + b)[0] as u32) + encode_utf8(
            (a + b).drop_first(),
        ));
        assert(encode_utf8(a + b) =~= encode_utf8(a) + encode_utf8(b));
    }
}

/// NUL characters encode as zero bytes, one each.
pub proof fn lemma_encode_nuls(n: nat)
    ensures
        encode_utf8(nuls(n)) == zero_bytes(n),
{
    assert(is_ascii_chars(nuls(n)));
    is_ascii_chars_encode_utf8(nuls(n));
    assert(encode_utf8(nuls(n)) =~= zero_bytes(n));
}

/// Padding makes the encoding exactly `width` bytes long.
pub proof fn lemma_pad_to_len(s: Seq<char>, width: nat)
    requires
        utf8_len(s) <= width,
    ensures
        utf8_len(pad_to(s, width)) == width,
        encode_utf8(pad_to(s, width)) == encode_utf8(s) + zero_bytes((width - utf8_len(s)) as nat),
{
    lemma_encode_utf8_concat(s, nuls((width - utf8_len(s)) as nat));
    lemma_encode_nuls((width - utf8_len(s)) as nat);
}

/// The byte length of a string.
pub fn str_byte_len(s: &String) -> (r: usize)
    ensures
        r == utf8_len(s@),
{
    s.as_str().as_bytes().len()
}

/// Appends NUL characters to `s` until its encoding is `width` bytes long.
pub fn pad_with_nuls(s: String, width: usize) -> (r: String)
    requires
        utf8_len(s@) <= width,
    ensures
        r@ == pad_to(s@, width as nat),
{
    let len = str_byte_len(&s);
    let mut r = s;
    let mut i: usize = len;
    let nul = "\0";
    proof {
        reveal_strlit("\0");
    }
    while i < width
        invariant
            len <= i <= width,
            len == utf8_len(s@),
            nul@ == seq!['\0'],
            r@ == s@ + nuls((i - len) as nat),
        decreases width - i,
    {
        r.append(nul);
        i = i + 1;
        assert(r@ =~= s@ + nuls((i - len) as nat));
    }
    r
}

// ---------------------------------------------------------------------------
// Decimal text and template substitution
// ---------------------------------------------------------------------------

/// The decimal digit for `d < 10`.
pub open spec fn decimal_digit(d: nat) -> char {
    (48 + d) as char
}

/// The decimal representation of `n`, without leading zeros.
pub open spec fn decimal(n: nat) -> Seq<char>
    decreases n,
{
    if n < 10 {
        seq![decimal_digit(n)]
    } else {
        decimal(n / 10).push(decimal_digit(n % 10))
    }
}

/// `s` with every occurrence of `pat`, taken from left to right without
/// overlap, replaced by `with`.
pub open spec fn replace_all(s: Seq<char>, pat: Seq<char>, with: Seq<char>) -> Seq<char>
    decreases s.len(),
{
    if s.len() == 0 {
        seq![]
    } else if 0 < pat.len() <= s.len() && s.take(pat.len() as int) == pat {
        with + replace_all(s.skip(pat.len() as int), pat, with)
    } else {
        seq![s[0]] + replace_all(s.skip(1), pat, with)
    }
}

/// The text of the decimal digit `d < 10`.
fn digit_text(d: usize) -> (r: &'static str)
    requires
        d < 10,
    ensures
        r@ == seq![decimal_digit(d as nat)],
{
    match d {
        0 => {
            proof {
                reveal_strlit("0");
            }
            "0"
        },
        1 => {
            proof {
                reveal_strlit("1");
            }
            "1"
        },
        2 => {
            proof {
                reveal_strlit("2");
            }
            "2"
        },
        3 => {
            proof {
                reveal_strlit("3");
            }
            "3"
        },
        4 => {
            proof {
                reveal_strlit("4");
            }
            "4"
        },
        5 => {
            proof {
                reveal_strlit("5");
            }
            "5"
        },
        6 => {
            proof {
                reveal_strlit("6");
            }
            "6"
        },
        7 => {
            proof {
                reveal_strlit("7");
            }
            "7"
        },
        8 => {
            proof {
                reveal_strlit("8");
            }
            "8"
        },
        _ => {
            proof {
                reveal_strlit("9");
            }
            "9"
        },
    }
}

/// Appends `n` in decimal to `out`.
fn append_decimal(n: usize, out: &mut String)
    ensures
        final(out)@ == old(out)@ + decimal(n as nat),
    decreases n,
{
    if n >= 10 {
        append_decimal(n / 10, out);
    }
    out.append(digit_text(n % 10));
    proof {
        assert(out@ =~= old(out)@ + decimal(n as nat)) by {
            if n < 10 {
                assert(n % 10 == n);
            }
        }
    }
}

/// Formats `n` in decimal, as `usize::to_string` does.
pub(crate) fn usize_to_string(n: usize) -> (r: String)
    ensures
        r@ == decimal(n as nat),
{
    let mut s = String::new();
    append_decimal(n, &mut s);
    assert(s@ =~= decimal(n as nat));
    s
}

/// Replaces every match of a non-empty pattern (`str::replace`).
#[verifier::external_body]
pub(crate) fn str_replace(s: &str, from: &str, to: &str) -> (r: String)
    requires
        from@.len() > 0,
    ensures
        r@ == replace_all(s@, from@, to@),
{
    s.replace(from, to)
}

// ---------------------------------------------------------------------------
// The Borsh layout
// ---------------------------------------------------------------------------

/// A string: its byte length as a `u32`, then its UTF-8 bytes.
pub open spec fn borsh_string(s: Seq<char>) -> Seq<u8> {
    u32_le(utf8_len(s)) + encode_utf8(s)
}

/// A boolean: one byte, 1 or 0.
pub open spec fn borsh_bool(b: bool) -> Seq<u8> {
    seq![if b { 1u8 } else { 0u8 }]
}

/// A name and a URI, one after the other.
pub open spec fn borsh_pair(p: (Seq<char>, Seq<char>)) -> Seq<u8> {
    borsh_string(p.0) + borsh_string(p.1)
}

/// The pairs of `ps`, one after the other, without a length.
pub open spec fn borsh_pairs(ps: Seq<(Seq<char>, Seq<char>)>) -> Seq<u8>
    decreases ps.len(),
{
    if ps.len() == 0 {
        seq![]
    } else {
        borsh_pairs(ps.drop_last()) + borsh_pair(ps.last())
    }
}

/// A vector of pairs: its length as a `u32`, then its items.
pub open spec fn borsh_pair_vec(ps: Seq<(Seq<char>, Seq<char>)>) -> Seq<u8> {
    u32_le(ps.len()) + borsh_pairs(ps)
}

/// The text of each pair of strings.
pub open spec fn pair_views(v: Seq<(String, String)>) -> Seq<(Seq<char>, Seq<char>)> {
    v.map_values(|p: (String, String)| (p.0@, p.1@))
}

/// Decodes a string at the start of `b`: the text and the number of bytes it took.
pub open spec fn borsh_string_prefix(b: Seq<u8>) -> Option<(Seq<char>, int)> {
    if b.len() < 4 {
        None
    } else {
        let n = le_u32(b) as int;
        if b.len() - 4 < n {
            None
        } else {
            let text = b.subrange(4, 4 + n);
            if valid_utf8(text) {
                Some((decode_utf8(text), 4 + n))
            } else {
                None
            }
        }
    }
}

/// Decodes exactly one pair of strings from all of `b`.
pub open spec fn borsh_decode_pair(b: Seq<u8>) -> Option<(Seq<char>, Seq<char>)> {
    match borsh_string_prefix(b) {
        None => None,
        Some((first, k)) => match borsh_string_prefix(b.skip(k)) {
            None => None,
            Some((second, m)) => if k + m == b.len() {
                Some((first, second))
            } else {
                None
            },
        },
    }
}

/// Decodes all of `bytes` as two Borsh strings (`try_from_slice` of
/// `anchor_lang::AnchorDeserialize` on `(String, String)`): a `u32` byte
/// length, that many UTF-8 bytes, twice, and nothing after.
#[verifier::external_body]
pub(crate) fn borsh_decode_string_pair(bytes: &[u8]) -> (r: Option<(String, String)>)
    ensures
        r is None <==> borsh_decode_pair(bytes@) is None,
        r matches Some(p) ==> borsh_decode_pair(bytes@) == Some((p.0@, p.1@)),
{
    <(String, String) as anchor_lang::AnchorDeserialize>::try_from_slice(bytes).ok()
}

/// Serializes a vector of string pairs (`try_to_vec` of
/// `anchor_lang::AnchorSerialize`): the count as a `u32`, then each string as
/// its byte length and its UTF-8 bytes. Borsh refuses a count or a length that
/// does not fit in a `u32`; otherwise the call succeeds.
#[verifier::external_body]
pub(crate) fn borsh_encode_string_pairs(lines: &Vec<(String, String)>) -> (r: Option<Vec<u8>>)
    ensures
        r matches Some(b) ==> b@ == borsh_pair_vec(pair_views(lines@)),
        (lines@.len() <= u32::MAX && forall|i: int|
            0 <= i < lines@.len() ==> utf8_len(#[trigger] lines@[i].0@) <= u32::MAX && utf8_len(
                lines@[i].1@,
            ) <= u32::MAX) ==> r is Some,
{
    anchor_lang::AnchorSerialize::try_to_vec(lines).ok()
}

/// The fields of a creator, in their Borsh order: address, verified, share.
pub type CreatorFields = ([u8; 32], bool, u8);

/// The fields of a config description, in their Borsh order.
pub type ConfigDataFields = (String, String, u16, Vec<CreatorFields>, u64, bool, bool, u32);

/// The fields of a second-version config account, in their Borsh order:
/// the authority, then the description and the templated flag.
pub type ConfigV2Fields = ([u8; 32], (ConfigDataFields, bool));

/// A creator: the address bytes, the flag, the share.
pub open spec fn borsh_creator_fields(c: CreatorFields) -> Seq<u8> {
    c.0@ + borsh_bool(c.1) + seq![c.2]
}

/// The creators of `cs`, one after the other, without a length.
pub open spec fn borsh_creator_list(cs: Seq<CreatorFields>) -> Seq<u8>
    decreases cs.len(),
{
    if cs.len() == 0 {
        seq![]
    } else {
        borsh_creator_list(cs.drop_last()) + borsh_creator_fields(cs.last())
    }
}

/// A second-version config account, field after field; the creators as a
/// vector (a `u32` count, then the items).
pub open spec fn borsh_config_v2_fields(t: ConfigV2Fields) -> Seq<u8> {
    let d = t.1.0;
    t.0@ + borsh_string(d.0@) + borsh_string(d.1@) + u16_le(d.2) + u32_le(d.3@.len())
        + borsh_creator_list(d.3@) + u64_le(d.4) + borsh_bool(d.5) + borsh_bool(d.6) + u32_le(
        d.7 as nat,
    ) + borsh_bool(t.1.1)
}

/// Serializes the fields of a second-version config account (`try_to_vec`
/// of `anchor_lang::AnchorSerialize` on the tuple): arrays as their bytes,
/// integers little-endian, booleans as one byte, strings and vectors with a
/// `u32` length first. Borsh refuses a length that does not fit in a `u32`;
/// otherwise the call succeeds.
#[verifier::external_body]
pub(crate) fn borsh_encode_config_v2(t: &ConfigV2Fields) -> (r: Option<Vec<u8>>)
    ensures
        r matches Some(b) ==> b@ == borsh_config_v2_fields(*t),
        (utf8_len(t.1.0.0@) <= u32::MAX && utf8_len(t.1.0.1@) <= u32::MAX && t.1.0.3@.len()
            <= u32::MAX) ==> r is Some,
{
    anchor_lang::AnchorSerialize::try_to_vec(t).ok()
}

// ---------------------------------------------------------------------------
// Hashing
// ---------------------------------------------------------------------------

/// The SHA-256 digest of `data`.
pub uninterp spec fn sha256(data: Seq<u8>) -> Seq<u8>;

/// Hashes `data` with SHA-256 (`anchor_lang::solana_program::hash::hash`);
/// the digest has 32 bytes.
#[verifier::external_body]
pub(crate) fn hash_sha256(data: &[u8]) -> (r: Vec<u8>)
    ensures
        r@ == sha256(data@),
        r@.len() == 32,
{
    anchor_lang::solana_program::hash::hash(data).to_bytes().to_vec()
}

} // verus!
