//! Storing config lines: the records, the bit mask of filled lines, and the
//! line counter.
use vstd::prelude::*;
use crate::encoding::{
    borsh_encode_string_pairs, borsh_pair, borsh_pairs, lemma_pad_to_len, pad_to, pad_with_nuls,
    pair_views, u32_le, u32_to_le, utf8_len,
};
use crate::layout::{config_count, get_config_count, line_offset, line_view, splice, write_bytes};
use crate::state::{
    CandyError, Config, ConfigLine, ErrorCode, CONFIG_ARRAY_START, CONFIG_LINE_SIZE,
    MAX_NAME_LENGTH, MAX_URI_LENGTH,
};

verus! {

/// A line padded with NUL characters to the full name and URI widths.
pub open spec fn padded_line(l: (Seq<char>, Seq<char>)) -> (Seq<char>, Seq<char>) {
    (pad_to(l.0, MAX_NAME_LENGTH as nat), pad_to(l.1, MAX_URI_LENGTH as nat))
}

/// The text of each line, padded.
pub open spec fn padded_lines(ls: Seq<(Seq<char>, Seq<char>)>) -> Seq<(Seq<char>, Seq<char>)> {
    ls.map_values(|l: (Seq<char>, Seq<char>)| padded_line(l))
}

/// The text of each line.
pub open spec fn lines_view(v: Seq<ConfigLine>) -> Seq<(Seq<char>, Seq<char>)> {
    v.map_values(|l: ConfigLine| line_view(l))
}

/// Whether a line fits the name and URI widths.
pub open spec fn line_fits(l: (Seq<char>, Seq<char>)) -> bool {
    utf8_len(l.0) <= MAX_NAME_LENGTH && utf8_len(l.1) <= MAX_URI_LENGTH
}

/// The bit of line `p` within its mask byte: lines are numbered from the
/// most significant bit.
pub open spec fn mask_of(p: int) -> u8 {
    1u8 << ((7 - p % 8) as u8)
}

/// The mask byte that holds the bit of line `p`.
pub open spec fn bit_byte(bm: int, p: int) -> int {
    bm + p / 8
}

/// Whether the bit of line `p` is set in the mask that starts at `bm`.
pub open spec fn bit_is_set(d: Seq<u8>, bm: int, p: int) -> bool {
    d[bit_byte(bm, p)] & mask_of(p) != 0
}

/// `d` with the bit of line `p` set.
pub open spec fn set_bit(d: Seq<u8>, bm: int, p: int) -> Seq<u8> {
    d.update(bit_byte(bm, p), d[bit_byte(bm, p)] | mask_of(p))
}

/// `d` with the bits of lines `from` up to `from + k` set.
pub open spec fn set_bits(d: Seq<u8>, bm: int, from: int, k: nat) -> Seq<u8>
    decreases k,
{
    if k == 0 {
        d
    } else {
        set_bit(set_bits(d, bm, from, (k - 1) as nat), bm, from + k - 1)
    }
}

/// How many of the lines `from` up to `from + k` have their bit clear in `d`.
pub open spec fn newly_set(d: Seq<u8>, bm: int, from: int, k: nat) -> nat
    decreases k,
{
    if k == 0 {
        0
    } else {
        newly_set(d, bm, from, (k - 1) as nat) + if bit_is_set(d, bm, from + k - 1) {
            0nat
        } else {
            1nat
        }
    }
}

/// The length test `add_config_lines` makes to place the bit mask: whether
/// the data reaches one byte past the first `u32` after the lines counted so
/// far. It is measured from the counter, not the line limit, so an account
/// made without the templated flag passes it too while the counter is below
/// the limit.
pub open spec fn has_flag_byte(d: Seq<u8>) -> bool {
    d.len() >= line_offset(config_count(d) as int) + 5
}

/// Where the bit mask starts, in an account with room for `m` lines.
pub open spec fn bitmask_start(d: Seq<u8>, m: nat) -> int {
    line_offset(m as int) + (if has_flag_byte(d) {
        1int
    } else {
        0int
    }) + 4
}

/// The records of `lines`, padded, one after the other.
pub open spec fn line_records(lines: Seq<(Seq<char>, Seq<char>)>) -> Seq<u8> {
    borsh_pairs(padded_lines(lines))
}

/// The data after the records of `lines` are written from line `index`.
pub open spec fn with_records(d: Seq<u8>, index: nat, lines: Seq<(Seq<char>, Seq<char>)>) -> Seq<
    u8,
> {
    splice(d, line_offset(index as int), line_records(lines))
}

/// The counter after storing `lines` from line `index`: the old counter plus
/// the lines whose bit was clear.
pub open spec fn count_after_add(d: Seq<u8>, m: nat, index: nat, lines: Seq<(Seq<char>, Seq<char>)>) -> nat {
    config_count(d) + newly_set(with_records(d, index, lines), bitmask_start(d, m), index as int, lines.len())
}

/// The data after storing `lines` from line `index` in an account with room
/// for `m` lines: the records written, their bits set, and the counter
/// (modulo 2^32) updated.
pub open spec fn after_add_lines(d: Seq<u8>, m: nat, index: nat, lines: Seq<(Seq<char>, Seq<char>)>) -> Seq<u8> {
    let bm = bitmask_start(d, m);
    let marked = set_bits(with_records(d, index, lines), bm, index as int, lines.len());
    splice(marked, CONFIG_ARRAY_START as int, u32_le(count_after_add(d, m, index, lines) % 4294967296))
}

/// Whether the writes of storing `n` lines from line `index` stay inside `d`.
pub open spec fn add_lines_fits(d: Seq<u8>, m: nat, index: nat, n: nat) -> bool {
    &&& line_offset(index as int) + n * CONFIG_LINE_SIZE <= d.len()
    &&& n > 0 ==> bitmask_start(d, m) + (index + n - 1) / 8 < d.len()
}

/// Setting a bit leaves the other bits of its byte alone.
pub proof fn lemma_or_other_bit(b: u8, s1: u8, s2: u8)
    requires
        s1 < 8,
        s2 < 8,
        s1 != s2,
    ensures
        (b | (1u8 << s1)) & (1u8 << s2) == b & (1u8 << s2),
{
    assert((b | (1u8 << s1)) & (1u8 << s2) == b & (1u8 << s2)) by (bit_vector)
        requires
            s1 < 8,
            s2 < 8,
            s1 != s2,
    ;
}

/// Setting a bit changes its byte exactly when the bit was clear, and leaves it set.
pub proof fn lemma_or_same_bit(b: u8, s: u8)
    requires
        s < 8,
    ensures
        ((b | (1u8 << s)) != b) == (b & (1u8 << s) == 0),
        (b | (1u8 << s)) & (1u8 << s) != 0,
{
    assert(((b | (1u8 << s)) != b) == (b & (1u8 << s) == 0)) by (bit_vector)
        requires
            s < 8,
    ;
    assert((b | (1u8 << s)) & (1u8 << s) != 0) by (bit_vector)
        requires
            s < 8,
    ;
}

/// Setting the bit of line `p` leaves the bit of every other line `q` alone.
pub proof fn lemma_set_bit_frame(d: Seq<u8>, bm: int, p: int, q: int)
    requires
        0 <= p,
        0 <= q,
        p != q,
        0 <= bm,
        bit_byte(bm, p) < d.len(),
        bit_byte(bm, q) < d.len(),
    ensures
        set_bit(d, bm, p).len() == d.len(),
        set_bit(d, bm, p)[bit_byte(bm, q)] & mask_of(q) == d[bit_byte(bm, q)] & mask_of(q),
{
    if bit_byte(bm, p) == bit_byte(bm, q) {
        assert(p % 8 != q % 8);
        lemma_or_other_bit(d[bit_byte(bm, p)], (7 - p % 8) as u8, (7 - q % 8) as u8);
    }
}

/// Setting the bits of a range of lines leaves the bits outside it alone.
pub proof fn lemma_set_bits_frame(d: Seq<u8>, bm: int, from: int, k: nat, q: int)
    requires
        0 <= from,
        0 <= q,
        0 <= bm,
        q < from || from + k <= q,
        k > 0 ==> bit_byte(bm, from + k - 1) < d.len(),
        bit_byte(bm, q) < d.len(),
    ensures
        set_bits(d, bm, from, k).len() == d.len(),
        set_bits(d, bm, from, k)[bit_byte(bm, q)] & mask_of(q) == d[bit_byte(bm, q)] & mask_of(q),
    decreases k,
{
    if k > 0 {
        lemma_set_bits_frame(d, bm, from, (k - 1) as nat, q);
        lemma_set_bit_frame(set_bits(d, bm, from, (k - 1) as nat), bm, from + k - 1, q);
    }
}

/// Each padded record has `CONFIG_LINE_SIZE` bytes.
pub proof fn lemma_line_records_len(lines: Seq<(Seq<char>, Seq<char>)>)
    requires
        forall|i: int| 0 <= i < lines.len() ==> line_fits(#[trigger] lines[i]),
    ensures
        line_records(lines).len() == lines.len() * CONFIG_LINE_SIZE,
    decreases lines.len(),
{
    if lines.len() > 0 {
        let rest = lines.drop_last();
        assert(padded_lines(lines).drop_last() =~= padded_lines(rest));
        assert forall|i: int| 0 <= i < rest.len() implies line_fits(#[trigger] rest[i]) by {
            assert(rest[i] == lines[i]);
        }
        lemma_line_records_len(rest);
        let l = lines.last();
        assert(line_fits(lines[lines.len() - 1]));
        lemma_pad_to_len(l.0, MAX_NAME_LENGTH as nat);
        lemma_pad_to_len(l.1, MAX_URI_LENGTH as nat);
        assert(padded_lines(lines).last() == padded_line(l));
        assert(borsh_pair(padded_line(l)).len() == CONFIG_LINE_SIZE);
        assert(lines.len() * CONFIG_LINE_SIZE == rest.len() * CONFIG_LINE_SIZE + CONFIG_LINE_SIZE)
            by (nonlinear_arith)
            requires
                lines.len() == rest.len() + 1,
        ;
    }
}

/// Pads each line to the full name and URI widths.
fn pad_lines(config_lines: &Vec<ConfigLine>) -> (r: Vec<(String, String)>)
    requires
        forall|i: int|
            0 <= i < config_lines@.len() ==> line_fits(line_view(#[trigger] config_lines@[i])),
    ensures
        pair_views(r@) == padded_lines(lines_view(config_lines@)),
{
    let mut fixed: Vec<(String, String)> = Vec::new();
    let mut i: usize = 0;
    while i < config_lines.len()
        invariant
            i <= config_lines@.len(),
            forall|j: int|
                0 <= j < config_lines@.len() ==> line_fits(line_view(#[trigger] config_lines@[j])),
            fixed@.len() == i,
            forall|j: int|
                0 <= j < i ==> (#[trigger] fixed@[j]).0@ == pad_to(
                    config_lines@[j].name@,
                    MAX_NAME_LENGTH as nat,
                ) && fixed@[j].1@ == pad_to(config_lines@[j].uri@, MAX_URI_LENGTH as nat),
        decreases config_lines.len() - i,
    {
        let line = &config_lines[i];
        assert(line_fits(line_view(config_lines@[i as int])));
        let name = pad_with_nuls(line.name.clone(), MAX_NAME_LENGTH);
        let uri = pad_with_nuls(line.uri.clone(), MAX_URI_LENGTH);
        fixed.push((name, uri));
        i = i + 1;
    }
    assert(pair_views(fixed@) =~= padded_lines(lines_view(config_lines@)));
    fixed
}

/// Lines `a` up to `b` share no more mask bytes than their ends.
proof fn lemma_div8_mono(a: int, b: int)
    requires
        0 <= a <= b,
    ensures
        a / 8 <= b / 8,
{
    vstd::arithmetic::div_mod::lemma_div_is_ordered(a, b, 8);
}

/// Stores `config_lines` as lines `index` onwards: each line is padded with
/// NUL characters to the full name and URI widths and written as a record,
/// the bit of each of those lines is set in the mask, and the counter grows
/// by the number of bits that were clear. An index past the last line of the
/// config is refused and leaves the data as it was.
pub fn add_config_lines(
    config: &Config,
    data: &mut Vec<u8>,
    index: u32,
    config_lines: Vec<ConfigLine>,
) -> (r: Result<(), CandyError>)
    requires
        CONFIG_ARRAY_START + 4 <= old(data)@.len(),
        config.spec_datas().max_number_of_lines >= 1,
        index <= config.spec_datas().max_number_of_lines - 1 ==> forall|i: int|
            0 <= i < config_lines@.len() ==> line_fits(line_view(#[trigger] config_lines@[i])),
        index <= config.spec_datas().max_number_of_lines - 1 ==> add_lines_fits(
            old(data)@,
            config.spec_datas().max_number_of_lines as nat,
            index as nat,
            config_lines@.len(),
        ),
    ensures
        index > config.spec_datas().max_number_of_lines - 1 ==> r == Err::<(), CandyError>(
            CandyError::Code(ErrorCode::IndexGreaterThanLength),
        ) && final(data)@ == old(data)@,
        index <= config.spec_datas().max_number_of_lines - 1 && config_lines@.len() > u32::MAX
            ==> r == Err::<(), CandyError>(CandyError::BorshIoError) && final(data)@ == old(data)@,
        index <= config.spec_datas().max_number_of_lines - 1 && config_lines@.len() <= u32::MAX
            ==> r == Ok::<(), CandyError>(()) && final(data)@ == after_add_lines(
            old(data)@,
            config.spec_datas().max_number_of_lines as nat,
            index as nat,
            lines_view(config_lines@),
        ),
{
    let config_data = config.datas();
    let ghost d0 = data@;
    let ghost m = config_data.max_number_of_lines as nat;
    let ghost lines = lines_view(config_lines@);
    let current_count = get_config_count(data.as_slice())?;
    let data_len = data.len();
    let lines_end: u64 = (CONFIG_ARRAY_START as u64) + 4 + (current_count as u64) * (
    CONFIG_LINE_SIZE as u64);
    let is_new_configuration = (data_len as u64) >= lines_end + 5;
    assert(is_new_configuration == has_flag_byte(d0));
    if index > config_data.max_number_of_lines - 1 {
        return Err(CandyError::Code(ErrorCode::IndexGreaterThanLength));
    }
    let fixed_config_lines = pad_lines(&config_lines);
    let n = fixed_config_lines.len();
    assert(n == pair_views(fixed_config_lines@).len());
    assert(n == config_lines@.len());
    if n > 4294967295usize {
        return Err(CandyError::BorshIoError);
    }
    proof {
        assert forall|i: int| 0 <= i < fixed_config_lines@.len() implies utf8_len(
            #[trigger] fixed_config_lines@[i].0@,
        ) <= u32::MAX && utf8_len(fixed_config_lines@[i].1@) <= u32::MAX by {
            assert(pair_views(fixed_config_lines@)[i] == (
                fixed_config_lines@[i].0@,
                fixed_config_lines@[i].1@,
            ));
            assert(lines[i] == line_view(config_lines@[i]));
            assert(line_fits(lines[i]));
            lemma_pad_to_len(lines[i].0, MAX_NAME_LENGTH as nat);
            lemma_pad_to_len(lines[i].1, MAX_URI_LENGTH as nat);
        }
    }
    let as_vec = match borsh_encode_string_pairs(&fixed_config_lines) {
        Some(v) => v,
        None => {
            return Err(CandyError::BorshIoError);
        },
    };
    proof {
        assert forall|i: int| 0 <= i < lines.len() implies line_fits(#[trigger] lines[i]) by {
            assert(lines[i] == line_view(config_lines@[i]));
        }
        lemma_line_records_len(lines);
        assert(as_vec@.skip(4) =~= line_records(lines));
    }
    let serialized = slice_from(as_vec.as_slice(), 4);
    let position: usize = CONFIG_ARRAY_START + 4 + (index as usize) * CONFIG_LINE_SIZE;
    write_bytes(data, position, serialized);
    let ghost d1 = data@;
    assert(d1 == with_records(d0, index as nat, lines));
    let shift: u64 = if is_new_configuration {
        1
    } else {
        0
    };
    let bit_mask_vec_start: u64 = (CONFIG_ARRAY_START as u64) + 4 + (
    config_data.max_number_of_lines as u64) * (CONFIG_LINE_SIZE as u64) + shift + 4;
    let ghost bm = bitmask_start(d0, m);
    assert(bit_mask_vec_start == bm);
    let mut new_count: u64 = current_count as u64;
    let mut i: usize = 0;
    while i < n
        invariant
            i <= n,
            n == lines.len(),
            n <= 4294967295,
            index <= 4294967295,
            bit_mask_vec_start == bm,
            0 <= bm,
            n > 0 ==> bm + (index + n - 1) / 8 < d1.len(),
            data@.len() == d1.len(),
            d1.len() == data_len,
            data@ == set_bits(d1, bm, index as int, i as nat),
            new_count == config_count(d0) + newly_set(d1, bm, index as int, i as nat),
            config_count(d0) <= 4294967295,
            new_count <= config_count(d0) + i,
        decreases n - i,
    {
        let position: u64 = (index as u64) + (i as u64);
        proof {
            lemma_div8_mono(position as int, index + n - 1);
        }
        let my_position_in_vec: usize = (bit_mask_vec_start + position / 8) as usize;
        let position_from_right: u64 = 7 - position % 8;
        let mask: u8 = 1u8 << (position_from_right as u8);
        assert(mask == mask_of(position as int));
        let ghost cur = data@;
        let old_value_in_vec = data[my_position_in_vec];
        proof {
            if i > 0 {
                lemma_div8_mono(index + i - 1, index + n - 1);
            }
            lemma_set_bits_frame(d1, bm, index as int, i as nat, position as int);
            lemma_or_same_bit(old_value_in_vec, position_from_right as u8);
        }
        data.set(my_position_in_vec, old_value_in_vec | mask);
        assert(my_position_in_vec == bit_byte(bm, position as int));
        assert(data@ == set_bit(cur, bm, position as int));
        assert(set_bits(d1, bm, index as int, (i + 1) as nat) == set_bit(
            set_bits(d1, bm, index as int, i as nat),
            bm,
            position as int,
        ));
        assert(data@ == set_bits(d1, bm, index as int, (i + 1) as nat));
        if old_value_in_vec != data[my_position_in_vec] {
            new_count = new_count + 1;
        }
        i = i + 1;
    }
    let count_bytes = u32_to_le((new_count % 4294967296) as u32);
    write_bytes(data, CONFIG_ARRAY_START, &count_bytes);
    Ok(())
}

/// The bytes of `data` from `start` on.
fn slice_from(data: &[u8], start: usize) -> (r: &[u8])
    requires
        start <= data@.len(),
    ensures
        r@ == data@.skip(start as int),
{
    let r = vstd::slice::slice_subrange(data, start, data.len());
    assert(r@ =~= data@.skip(start as int));
    r
}

} // verus!
