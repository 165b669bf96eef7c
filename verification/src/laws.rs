//! Properties that relate the operations on a config account and on a candy
//! machine to one another.
use vstd::prelude::*;
use vstd::utf8::encode_utf8;
use crate::config_lines::{
    add_lines_fits, after_add_lines, bit_byte, bit_is_set, bitmask_start, count_after_add,
    has_flag_byte, lemma_or_same_bit, lemma_set_bit_frame, line_fits, line_records, newly_set,
    padded_line, padded_lines, set_bit, set_bits, with_records,
};
use crate::encoding::{
    borsh_decode_pair, borsh_pair, borsh_string, borsh_string_prefix,
    lemma_le_u32_of_u32_le, lemma_pad_to_len, le_u32, u32_le, utf8_len,
};
use crate::layout::{
    config_count, line_offset, line_record, spec_config_line, splice, templatable_size, templated_flag,
};
use crate::candy_machine::{after_mint, spec_mint_payment, Payment, TokenAccount};
use crate::config_init::{
    after_init_config, config_header, discriminator, flag_offset, spec_config_version,
    ConfigVersion,
};
use crate::state::{
    CandyError, CandyMachine, ConfigDataModel, ErrorCode, Pubkey, CONFIG_ARRAY_START,
    CONFIG_LINE_SIZE, MAX_NAME_LENGTH, MAX_URI_LENGTH,
};

verus! {

/// Setting bits keeps the length when every bit byte lies in the data.
pub proof fn lemma_set_bits_len(d: Seq<u8>, bm: int, from: int, k: nat)
    requires
        0 <= from,
        0 <= bm,
        k > 0 ==> bit_byte(bm, from + k - 1) < d.len(),
    ensures
        set_bits(d, bm, from, k).len() == d.len(),
        forall|j: int| 0 <= j < bm ==> #[trigger] set_bits(d, bm, from, k)[j] == d[j],
    decreases k,
{
    if k > 0 {
        if k > 1 {
            vstd::arithmetic::div_mod::lemma_div_is_ordered(from + k - 2, from + k - 1, 8);
        }
        lemma_set_bits_len(d, bm, from, (k - 1) as nat);
        let e = set_bits(d, bm, from, (k - 1) as nat);
        assert(set_bits(d, bm, from, k) == set_bit(e, bm, from + k - 1));
    }
}

/// A string decodes from the front of its encoding followed by anything.
pub proof fn lemma_string_prefix(s: Seq<char>, rest: Seq<u8>)
    requires
        utf8_len(s) < 4294967296,
    ensures
        borsh_string_prefix(borsh_string(s) + rest) == Some((s, 4 + utf8_len(s) as int)),
{
    let b = borsh_string(s) + rest;
    let n = utf8_len(s);
    vstd::utf8::encode_utf8_valid_utf8(s);
    vstd::utf8::encode_utf8_decode_utf8(s);
    lemma_le_u32_of_u32_le(n);
    assert(b.subrange(0, 4) =~= u32_le(n));
    assert(le_u32(b) == le_u32(u32_le(n)));
    assert(b.subrange(4, 4 + n as int) =~= encode_utf8(s));
}

/// A pair decodes from exactly its encoding.
pub proof fn lemma_decode_pair(p: (Seq<char>, Seq<char>))
    requires
        utf8_len(p.0) < 4294967296,
        utf8_len(p.1) < 4294967296,
    ensures
        borsh_decode_pair(borsh_pair(p)) == Some(p),
{
    let first = borsh_string(p.0);
    let second = borsh_string(p.1);
    let b = borsh_pair(p);
    assert(b == first + second);
    lemma_string_prefix(p.0, second);
    let k: int = 4 + utf8_len(p.0) as int;
    assert(borsh_string_prefix(b) == Some((p.0, k)));
    assert(first.len() == k);
    assert(b.skip(k) =~= second);
    assert(second + Seq::<u8>::empty() =~= second);
    lemma_string_prefix(p.1, Seq::<u8>::empty());
    let m: int = 4 + utf8_len(p.1) as int;
    assert(borsh_string_prefix(b.skip(k)) == Some((p.1, m)));
    assert(k + m == b.len());
}

/// The `k`-th record of a run of padded records.
pub proof fn lemma_record_at(lines: Seq<(Seq<char>, Seq<char>)>, k: int)
    requires
        forall|i: int| 0 <= i < lines.len() ==> line_fits(#[trigger] lines[i]),
        0 <= k < lines.len(),
    ensures
        line_records(lines).len() == lines.len() * CONFIG_LINE_SIZE,
        line_records(lines).subrange(k * CONFIG_LINE_SIZE, (k + 1) * CONFIG_LINE_SIZE) == borsh_pair(
            padded_line(lines[k]),
        ),
    decreases lines.len(),
{
    crate::config_lines::lemma_line_records_len(lines);
    let rest = lines.drop_last();
    assert(padded_lines(lines).drop_last() =~= padded_lines(rest));
    assert forall|i: int| 0 <= i < rest.len() implies line_fits(#[trigger] rest[i]) by {
        assert(rest[i] == lines[i]);
    }
    crate::config_lines::lemma_line_records_len(rest);
    assert(line_records(lines) == line_records(rest) + borsh_pair(padded_line(lines.last())));
    assert(k * CONFIG_LINE_SIZE + CONFIG_LINE_SIZE == (k + 1) * CONFIG_LINE_SIZE) by (nonlinear_arith);
    assert(rest.len() * CONFIG_LINE_SIZE + CONFIG_LINE_SIZE == lines.len() * CONFIG_LINE_SIZE)
        by (nonlinear_arith)
        requires
            lines.len() == rest.len() + 1,
    ;
    if k < lines.len() - 1 {
        lemma_record_at(rest, k);
        assert((k + 1) * CONFIG_LINE_SIZE <= rest.len() * CONFIG_LINE_SIZE) by (nonlinear_arith)
            requires
                k + 1 <= rest.len(),
        ;
        assert(line_records(lines).subrange(k * CONFIG_LINE_SIZE, (k + 1) * CONFIG_LINE_SIZE)
            =~= line_records(rest).subrange(k * CONFIG_LINE_SIZE, (k + 1) * CONFIG_LINE_SIZE));
    } else {
        assert(k * CONFIG_LINE_SIZE == rest.len() * CONFIG_LINE_SIZE);
        lemma_pad_to_len(lines.last().0, MAX_NAME_LENGTH as nat);
        lemma_pad_to_len(lines.last().1, MAX_URI_LENGTH as nat);
        assert(line_records(lines).subrange(k * CONFIG_LINE_SIZE, (k + 1) * CONFIG_LINE_SIZE)
            =~= borsh_pair(padded_line(lines.last())));
    }
}

/// The counter that storing lines writes is the one the account then holds:
/// the old counter plus the lines whose bit was clear, modulo 2^32.
pub proof fn lemma_count_after_add(d: Seq<u8>, m: nat, index: nat, lines: Seq<(Seq<char>, Seq<char>)>)
    requires
        CONFIG_ARRAY_START + 4 <= d.len(),
        forall|i: int| 0 <= i < lines.len() ==> line_fits(#[trigger] lines[i]),
        add_lines_fits(d, m, index, lines.len()),
    ensures
        after_add_lines(d, m, index, lines).len() == d.len(),
        config_count(after_add_lines(d, m, index, lines)) == count_after_add(d, m, index, lines)
            % 4294967296,
{
    crate::config_lines::lemma_line_records_len(lines);
    let d1 = with_records(d, index, lines);
    assert(d1.len() == d.len());
    let bm = bitmask_start(d, m);
    lemma_set_bits_len(d1, bm, index as int, lines.len());
    let marked = set_bits(d1, bm, index as int, lines.len());
    let x = count_after_add(d, m, index, lines) % 4294967296;
    lemma_le_u32_of_u32_le(x);
    let after = after_add_lines(d, m, index, lines);
    assert(after.subrange(CONFIG_ARRAY_START as int, CONFIG_ARRAY_START + 4) =~= u32_le(x));
}

/// The bit marks and the counter leave alone a record that lies between
/// the counter and the bit mask.
proof fn lemma_marks_keep_record(d: Seq<u8>, m: nat, index: nat, lines: Seq<(Seq<char>, Seq<char>)>, i: int)
    requires
        CONFIG_ARRAY_START + 4 <= d.len(),
        forall|j: int| 0 <= j < lines.len() ==> line_fits(#[trigger] lines[j]),
        add_lines_fits(d, m, index, lines.len()),
        0 <= i,
        lines.len() > 0,
        line_offset(i + 1) <= bitmask_start(d, m),
    ensures
        line_record(after_add_lines(d, m, index, lines), i) == line_record(
            with_records(d, index, lines),
            i,
        ),
{
    lemma_count_after_add(d, m, index, lines);
    let d1 = with_records(d, index, lines);
    let bm = bitmask_start(d, m);
    lemma_set_bits_len(d1, bm, index as int, lines.len());
    let marked = set_bits(d1, bm, index as int, lines.len());
    assert(line_offset(i + 1) <= d.len());
    assert(line_record(marked, i) =~= line_record(d1, i));
    assert(line_record(after_add_lines(d, m, index, lines), i) =~= line_record(marked, i));
}

/// The bit marks and the counter leave alone a record written by the call in
/// which each mark finds its bit already set.
proof fn lemma_marks_kept_record(
    d: Seq<u8>,
    m: nat,
    index: nat,
    lines: Seq<(Seq<char>, Seq<char>)>,
    i: int,
)
    requires
        CONFIG_ARRAY_START + 4 <= d.len(),
        forall|j: int| 0 <= j < lines.len() ==> line_fits(#[trigger] lines[j]),
        add_lines_fits(d, m, index, lines.len()),
        index <= i < index + lines.len(),
        marks_kept_in(d, m, index, lines, line_offset(i), line_offset(i + 1)),
    ensures
        line_record(after_add_lines(d, m, index, lines), i) == line_record(
            with_records(d, index, lines),
            i,
        ),
{
    lemma_count_after_add(d, m, index, lines);
    crate::config_lines::lemma_line_records_len(lines);
    let d1 = with_records(d, index, lines);
    let bm = bitmask_start(d, m);
    let n = lines.len();
    lemma_set_bits_len(d1, bm, index as int, n);
    let marked = set_bits(d1, bm, index as int, n);
    assert(line_offset(i + 1) <= line_offset(index as int) + n * CONFIG_LINE_SIZE) by (nonlinear_arith)
        requires
            i + 1 <= index + n,
    ;
    assert forall|j: int| line_offset(i) <= j < line_offset(i + 1) implies marked[j] == d1[j] by {
        lemma_set_bits_keep_byte(d1, bm, index as int, n, j);
    }
    assert(line_record(marked, i) =~= line_record(d1, i));
    assert(line_record(after_add_lines(d, m, index, lines), i) =~= line_record(marked, i));
}

/// Record `index + k` of the data holds the `k`-th stored line, padded.
proof fn lemma_written_record(d: Seq<u8>, index: nat, lines: Seq<(Seq<char>, Seq<char>)>, k: int)
    requires
        forall|j: int| 0 <= j < lines.len() ==> line_fits(#[trigger] lines[j]),
        line_offset(index as int) + lines.len() * CONFIG_LINE_SIZE <= d.len(),
        0 <= k < lines.len(),
    ensures
        line_record(with_records(d, index, lines), index + k) == borsh_pair(padded_line(lines[k])),
{
    lemma_record_at(lines, k);
    let i = index + k;
    assert(line_offset(index as int) + k * CONFIG_LINE_SIZE == line_offset(i)) by (nonlinear_arith)
        requires
            i == index + k,
    ;
    assert(line_offset(index as int) + (k + 1) * CONFIG_LINE_SIZE == line_offset(i + 1))
        by (nonlinear_arith)
        requires
            i == index + k,
    ;
    assert((k + 1) * CONFIG_LINE_SIZE <= lines.len() * CONFIG_LINE_SIZE) by (nonlinear_arith)
        requires
            k + 1 <= lines.len(),
    ;
    assert(line_record(with_records(d, index, lines), i) =~= line_records(lines).subrange(
        k * CONFIG_LINE_SIZE,
        (k + 1) * CONFIG_LINE_SIZE,
    ));
}

/// A line stored by `add_config_lines` is read back by `get_config_line`,
/// padded, as long as the item is within the counter and the marks of the
/// call leave its record alone: because the record lies within the line
/// limit (later lines of the same call may run past it), or because every
/// mark that falls inside it finds its bit already set.
pub proof fn lemma_read_back_line(
    d: Seq<u8>,
    m: nat,
    index: nat,
    lines: Seq<(Seq<char>, Seq<char>)>,
    k: int,
)
    requires
        CONFIG_ARRAY_START + 4 <= d.len(),
        forall|i: int| 0 <= i < lines.len() ==> line_fits(#[trigger] lines[i]),
        add_lines_fits(d, m, index, lines.len()),
        0 <= k < lines.len(),
        index + k + 1 <= m || marks_kept_in(
            d,
            m,
            index,
            lines,
            line_offset(index + k),
            line_offset(index + k + 1),
        ),
        index + k <= config_count(after_add_lines(d, m, index, lines)),
    ensures
        spec_config_line(after_add_lines(d, m, index, lines), false, (index + k) as nat) == Ok::<
            (Seq<char>, Seq<char>),
            crate::state::CandyError,
        >(padded_line(lines[k])),
{
    let i = index + k;
    if i + 1 <= m {
        assert(line_offset(i + 1) <= line_offset(m as int)) by (nonlinear_arith)
            requires
                i + 1 <= m,
        ;
        lemma_marks_keep_record(d, m, index, lines, i);
    } else {
        lemma_marks_kept_record(d, m, index, lines, i);
    }
    lemma_written_record(d, index, lines, k);
    assert(line_fits(lines[k]));
    lemma_pad_to_len(lines[k].0, MAX_NAME_LENGTH as nat);
    lemma_pad_to_len(lines[k].1, MAX_URI_LENGTH as nat);
    lemma_decode_pair(padded_line(lines[k]));
}

/// After the bits of a range of lines are set, each of them is set.
proof fn lemma_bits_set_after(d: Seq<u8>, bm: int, from: int, k: nat, p: int)
    requires
        0 <= from <= p < from + k,
        0 <= bm,
        bit_byte(bm, from + k - 1) < d.len(),
    ensures
        bit_is_set(set_bits(d, bm, from, k), bm, p),
    decreases k,
{
    vstd::arithmetic::div_mod::lemma_div_is_ordered(p, from + k - 1, 8);
    let e = set_bits(d, bm, from, (k - 1) as nat);
    if k > 1 {
        vstd::arithmetic::div_mod::lemma_div_is_ordered(from + k - 2, from + k - 1, 8);
    }
    lemma_set_bits_len(d, bm, from, (k - 1) as nat);
    if p == from + k - 1 {
        lemma_or_same_bit(e[bit_byte(bm, p)], (7 - p % 8) as u8);
    } else {
        lemma_bits_set_after(d, bm, from, (k - 1) as nat, p);
        lemma_set_bit_frame(e, bm, from + k - 1, p);
    }
}

/// Setting bits that are all set already changes nothing and counts nothing.
proof fn lemma_set_bits_noop(a: Seq<u8>, bm: int, from: int, k: nat)
    requires
        0 <= from,
        0 <= bm,
        k > 0 ==> bit_byte(bm, from + k - 1) < a.len(),
        forall|p: int| from <= p < from + k ==> #[trigger] bit_is_set(a, bm, p),
    ensures
        set_bits(a, bm, from, k) == a,
        newly_set(a, bm, from, k) == 0,
    decreases k,
{
    if k > 0 {
        if k > 1 {
            vstd::arithmetic::div_mod::lemma_div_is_ordered(from + k - 2, from + k - 1, 8);
        }
        lemma_set_bits_noop(a, bm, from, (k - 1) as nat);
        let p = from + k - 1;
        assert(bit_is_set(a, bm, p));
        lemma_or_same_bit(a[bit_byte(bm, p)], (7 - p % 8) as u8);
        assert(set_bit(a, bm, p) =~= a);
    }
}

/// Whether every line from `index` whose mask byte falls in the bytes `lo`
/// up to `hi` already has its bit set once the records of `lines` are
/// written there: the marks that storing `lines` puts inside those bytes
/// change nothing (it holds at once where no mark falls inside them).
pub open spec fn marks_kept_in(
    d: Seq<u8>,
    m: nat,
    index: nat,
    lines: Seq<(Seq<char>, Seq<char>)>,
    lo: int,
    hi: int,
) -> bool {
    forall|p: int|
        index <= p < index + lines.len() && lo <= #[trigger] bit_byte(bitmask_start(d, m), p) < hi
            ==> bit_is_set(with_records(d, index, lines), bitmask_start(d, m), p)
}

/// Whether the marks of storing `lines` from line `index` leave the records
/// just written as they are.
pub open spec fn marks_keep_records(
    d: Seq<u8>,
    m: nat,
    index: nat,
    lines: Seq<(Seq<char>, Seq<char>)>,
) -> bool {
    marks_kept_in(
        d,
        m,
        index,
        lines,
        line_offset(index as int),
        line_offset(index as int) + lines.len() * CONFIG_LINE_SIZE,
    )
}

/// Setting bits that are already set in byte `j` leaves that byte alone.
proof fn lemma_set_bits_keep_byte(x: Seq<u8>, bm: int, from: int, k: nat, j: int)
    requires
        0 <= from,
        0 <= bm,
        k > 0 ==> bit_byte(bm, from + k - 1) < x.len(),
        0 <= j < x.len(),
        forall|p: int|
            from <= p < from + k && #[trigger] bit_byte(bm, p) == j ==> bit_is_set(x, bm, p),
    ensures
        set_bits(x, bm, from, k)[j] == x[j],
    decreases k,
{
    if k > 0 {
        let p = from + k - 1;
        if k > 1 {
            vstd::arithmetic::div_mod::lemma_div_is_ordered(from + k - 2, p, 8);
        }
        lemma_set_bits_keep_byte(x, bm, from, (k - 1) as nat, j);
        lemma_set_bits_len(x, bm, from, (k - 1) as nat);
        let e = set_bits(x, bm, from, (k - 1) as nat);
        assert(set_bits(x, bm, from, k) == set_bit(e, bm, p));
        if bit_byte(bm, p) == j {
            assert(bit_is_set(x, bm, p));
            lemma_or_same_bit(e[j], (7 - p % 8) as u8);
        }
    }
}

/// After storing lines whose marks leave their records alone, the records
/// are in the data.
proof fn lemma_records_in_place(d: Seq<u8>, m: nat, index: nat, lines: Seq<(Seq<char>, Seq<char>)>)
    requires
        CONFIG_ARRAY_START + 4 <= d.len(),
        forall|i: int| 0 <= i < lines.len() ==> line_fits(#[trigger] lines[i]),
        add_lines_fits(d, m, index, lines.len()),
        marks_keep_records(d, m, index, lines),
        lines.len() > 0,
    ensures
        with_records(after_add_lines(d, m, index, lines), index, lines) == after_add_lines(
            d,
            m,
            index,
            lines,
        ),
{
    let n = lines.len();
    let a = after_add_lines(d, m, index, lines);
    lemma_count_after_add(d, m, index, lines);
    crate::config_lines::lemma_line_records_len(lines);
    let bm = bitmask_start(d, m);
    let d1 = with_records(d, index, lines);
    lemma_set_bits_len(d1, bm, index as int, n);
    let marked = set_bits(d1, bm, index as int, n);
    let pos = line_offset(index as int);
    let len = line_records(lines).len();
    assert(pos + len == line_offset((index + n) as int)) by (nonlinear_arith)
        requires
            pos == line_offset(index as int),
            len == n * CONFIG_LINE_SIZE,
    ;
    assert forall|j: int| pos <= j < pos + len implies a[j] == d1[j] by {
        lemma_set_bits_keep_byte(d1, bm, index as int, n, j);
    }
    assert(d1.subrange(pos, pos + len) =~= line_records(lines));
    assert(a.subrange(pos, pos + len) =~= line_records(lines));
    assert(with_records(a, index, lines) =~= a);
}

/// After storing lines, the bit of each of them is set.
proof fn lemma_bits_in_place(d: Seq<u8>, m: nat, index: nat, lines: Seq<(Seq<char>, Seq<char>)>)
    requires
        CONFIG_ARRAY_START + 4 <= d.len(),
        forall|i: int| 0 <= i < lines.len() ==> line_fits(#[trigger] lines[i]),
        add_lines_fits(d, m, index, lines.len()),
        lines.len() > 0,
    ensures
        forall|p: int|
            index <= p < index + lines.len() ==> #[trigger] bit_is_set(
                after_add_lines(d, m, index, lines),
                bitmask_start(d, m),
                p,
            ),
{
    let n = lines.len();
    let a = after_add_lines(d, m, index, lines);
    lemma_count_after_add(d, m, index, lines);
    crate::config_lines::lemma_line_records_len(lines);
    let bm = bitmask_start(d, m);
    let d1 = with_records(d, index, lines);
    lemma_set_bits_len(d1, bm, index as int, n);
    let marked = set_bits(d1, bm, index as int, n);
    assert forall|p: int| index <= p < index + n implies #[trigger] bit_is_set(a, bm, p) by {
        lemma_bits_set_after(d1, bm, index as int, n, p);
        vstd::arithmetic::div_mod::lemma_div_is_ordered(p, index + n - 1, 8);
        assert(a[bit_byte(bm, p)] == marked[bit_byte(bm, p)]);
    }
}

/// Storing lines whose records and bits are already in place rewrites only
/// the counter, with its own value.
proof fn lemma_store_again(a: Seq<u8>, m: nat, index: nat, lines: Seq<(Seq<char>, Seq<char>)>)
    requires
        CONFIG_ARRAY_START + 4 <= a.len(),
        with_records(a, index, lines) == a,
        set_bits(a, bitmask_start(a, m), index as int, lines.len()) == a,
        newly_set(a, bitmask_start(a, m), index as int, lines.len()) == 0,
        config_count(a) < 4294967296,
    ensures
        after_add_lines(a, m, index, lines) == a,
{
    let x = config_count(a);
    assert(count_after_add(a, m, index, lines) == x);
    lemma_le_u32_of_u32_le(x);
    let w = a.subrange(CONFIG_ARRAY_START as int, CONFIG_ARRAY_START + 4);
    assert(w == u32_le(x)) by {
        assert(w.len() == 4);
        assert(x == w[0] + 256 * w[1] + 65536 * w[2] + 16777216 * w[3]);
        assert(w[0] == x % 256) by (nonlinear_arith)
            requires
                x == w[0] + 256 * w[1] + 65536 * w[2] + 16777216 * w[3],
                w[0] < 256,
        ;
        assert(w =~= u32_le(x)) by {
            assert((x / 256) == w[1] + 256 * w[2] + 65536 * w[3]) by (nonlinear_arith)
                requires
                    x == w[0] + 256 * w[1] + 65536 * w[2] + 16777216 * w[3],
                    w[0] < 256,
            ;
            assert((x / 256) % 256 == w[1]) by (nonlinear_arith)
                requires
                    (x / 256) == w[1] + 256 * w[2] + 65536 * w[3],
                    w[1] < 256,
            ;
            assert(x / 65536 == w[2] + 256 * w[3]) by (nonlinear_arith)
                requires
                    x == w[0] + 256 * w[1] + 65536 * w[2] + 16777216 * w[3],
                    w[0] < 256,
                    w[1] < 256,
            ;
            assert((x / 65536) % 256 == w[2]) by (nonlinear_arith)
                requires
                    x / 65536 == w[2] + 256 * w[3],
                    w[2] < 256,
            ;
            assert(x / 16777216 == w[3]) by (nonlinear_arith)
                requires
                    x == w[0] + 256 * w[1] + 65536 * w[2] + 16777216 * w[3],
                    w[0] < 256,
                    w[1] < 256,
                    w[2] < 256,
            ;
        }
    }
    assert(splice(a, CONFIG_ARRAY_START as int, u32_le(x % 4294967296)) =~= a);
}

/// Storing the same lines again at the same place changes nothing, as long
/// as each mark the store puts inside the records it writes finds its bit
/// already set there (as when the marks miss the records), and the first
/// storing left the account with the templated flag byte just when it had it
/// before (the bit mask is found after that byte).
pub proof fn lemma_add_lines_idempotent(
    d: Seq<u8>,
    m: nat,
    index: nat,
    lines: Seq<(Seq<char>, Seq<char>)>,
)
    requires
        CONFIG_ARRAY_START + 4 <= d.len(),
        forall|i: int| 0 <= i < lines.len() ==> line_fits(#[trigger] lines[i]),
        add_lines_fits(d, m, index, lines.len()),
        marks_keep_records(d, m, index, lines),
        has_flag_byte(after_add_lines(d, m, index, lines)) == has_flag_byte(d),
    ensures
        add_lines_fits(after_add_lines(d, m, index, lines), m, index, lines.len()),
        after_add_lines(after_add_lines(d, m, index, lines), m, index, lines) == after_add_lines(
            d,
            m,
            index,
            lines,
        ),
{
    let n = lines.len();
    let a = after_add_lines(d, m, index, lines);
    lemma_count_after_add(d, m, index, lines);
    let bm = bitmask_start(d, m);
    assert(bitmask_start(a, m) == bm);
    if n > 0 {
        lemma_records_in_place(d, m, index, lines);
        lemma_bits_in_place(d, m, index, lines);
    } else {
        assert(with_records(a, index, lines) =~= a);
    }
    lemma_set_bits_noop(a, bm, index as int, n);
    lemma_store_again(a, m, index, lines);
}

/// A mint counts an item in only while one is left, one at a time, and
/// changes nothing else of the candy machine; so a machine that has not
/// given out more than its supply never does after a mint, paid or refused.
pub proof fn lemma_mint_within_supply(
    candy_machine: CandyMachine,
    payer: Pubkey,
    now: i64,
    payer_lamports: u64,
    token_account: Option<Result<TokenAccount, CandyError>>,
    d: Seq<u8>,
)
    ensures
        ({
            let after = after_mint(candy_machine, payer, now, payer_lamports, token_account, d);
            ||| after == candy_machine
            ||| {
                &&& candy_machine.items_redeemed < candy_machine.data.items_available
                &&& after == (CandyMachine {
                    items_redeemed: (candy_machine.items_redeemed + 1) as u64,
                    ..candy_machine
                })
            }
        }),
        candy_machine.items_redeemed <= candy_machine.data.items_available ==> after_mint(
            candy_machine,
            payer,
            now,
            payer_lamports,
            token_account,
            d,
        ).items_redeemed <= candy_machine.data.items_available,
{
}

/// One mint attempt: who pays, when, the payer's lamports, what was read of
/// the paying token account, and the config data the line is read from.
pub type MintAttempt = (Pubkey, i64, u64, Option<Result<TokenAccount, CandyError>>, Seq<u8>);

/// The candy machine after a run of mint attempts, in order.
pub open spec fn run_mints(candy_machine: CandyMachine, attempts: Seq<MintAttempt>) -> CandyMachine
    decreases attempts.len(),
{
    if attempts.len() == 0 {
        candy_machine
    } else {
        let before = run_mints(candy_machine, attempts.drop_last());
        let (payer, now, payer_lamports, token_account, d) = attempts.last();
        after_mint(before, payer, now, payer_lamports, token_account, d)
    }
}

/// However many mints are tried, a candy machine that starts within its
/// supply never counts more items than it has available, keeps its
/// description, and counts at most one item per attempt.
pub proof fn lemma_mints_within_supply(candy_machine: CandyMachine, attempts: Seq<MintAttempt>)
    requires
        candy_machine.items_redeemed <= candy_machine.data.items_available,
    ensures
        run_mints(candy_machine, attempts).data == candy_machine.data,
        run_mints(candy_machine, attempts).items_redeemed <= candy_machine.data.items_available,
        candy_machine.items_redeemed <= run_mints(candy_machine, attempts).items_redeemed
            <= candy_machine.items_redeemed + attempts.len(),
    decreases attempts.len(),
{
    if attempts.len() > 0 {
        let rest = attempts.drop_last();
        lemma_mints_within_supply(candy_machine, rest);
        let before = run_mints(candy_machine, rest);
        let (payer, now, payer_lamports, token_account, d) = attempts.last();
        lemma_mint_within_supply(before, payer, now, payer_lamports, token_account, d);
    }
}

/// Before the go-live date (or while none is set) only the authority may
/// mint: anyone else is refused, whatever they could pay.
pub proof fn lemma_only_authority_before_live(
    candy_machine: CandyMachine,
    payer: Pubkey,
    now: i64,
    payer_lamports: u64,
    token_account: Option<Result<TokenAccount, CandyError>>,
)
    requires
        payer != candy_machine.authority,
        match candy_machine.data.go_live_date {
            None => true,
            Some(date) => now < date,
        },
    ensures
        spec_mint_payment(candy_machine, payer, now, payer_lamports, token_account) == Err::<
            Payment,
            CandyError,
        >(CandyError::Code(ErrorCode::CandyMachineNotLiveYet)),
{
}

/// A paid mint pays exactly the price, in the candy machine's token when it
/// has one and in lamports otherwise.
pub proof fn lemma_payment_is_price(
    candy_machine: CandyMachine,
    payer: Pubkey,
    now: i64,
    payer_lamports: u64,
    token_account: Option<Result<TokenAccount, CandyError>>,
)
    requires
        spec_mint_payment(candy_machine, payer, now, payer_lamports, token_account) is Ok,
    ensures
        spec_mint_payment(candy_machine, payer, now, payer_lamports, token_account) == Ok::<
            Payment,
            CandyError,
        >(
            if candy_machine.token_mint is Some {
                Payment::Token { amount: candy_machine.data.price }
            } else {
                Payment::Lamports { amount: candy_machine.data.price }
            },
        ),
{
}

/// A config account made by `initialize_config_v2` is recognised as a
/// second-version config, unless the two versions' discriminators coincide
/// (the first version is tried first).
pub proof fn lemma_new_config_is_v2(
    d: Seq<u8>,
    authority: Pubkey,
    data: ConfigDataModel,
    templated: bool,
)
    requires
        discriminator("ConfigV2"@).len() == 8,
        config_header(authority, data, templated).len() <= d.len(),
        flag_offset(data.max_number_of_lines) + 4 <= d.len(),
    ensures
        spec_config_version(
            after_init_config(
                d,
                config_header(authority, data, templated),
                data.max_number_of_lines,
                templated,
            ),
        ) == if discriminator("ConfigV1"@) == discriminator("ConfigV2"@) {
            Ok::<ConfigVersion, CandyError>(ConfigVersion::V1)
        } else {
            Ok::<ConfigVersion, CandyError>(ConfigVersion::V2)
        },
{
    let header = config_header(authority, data, templated);
    let after = after_init_config(d, header, data.max_number_of_lines, templated);
    assert(after.take(8) =~= discriminator("ConfigV2"@));
}

/// At most `k` of `k` lines can have their bit clear.
proof fn lemma_newly_set_bound(d: Seq<u8>, bm: int, from: int, k: nat)
    ensures
        newly_set(d, bm, from, k) <= k,
    decreases k,
{
    if k > 0 {
        lemma_newly_set_bound(d, bm, from, (k - 1) as nat);
    }
}

/// Storing lines raises the counter (before it is reduced modulo 2^32) by at
/// most the number of lines stored, and never lowers it.
pub proof fn lemma_count_growth(d: Seq<u8>, m: nat, index: nat, lines: Seq<(Seq<char>, Seq<char>)>)
    ensures
        config_count(d) <= count_after_add(d, m, index, lines) <= config_count(d) + lines.len(),
{
    lemma_newly_set_bound(with_records(d, index, lines), bitmask_start(d, m), index as int, lines.len());
}

/// A new config account keeps its counter, and once the counter equals the
/// line limit in an account of exactly the size for that many lines, the
/// account reports the templated flag it was made with.
pub proof fn lemma_init_flag_read_back(d: Seq<u8>, header: Seq<u8>, m: u32, templated: bool)
    requires
        header.len() <= CONFIG_ARRAY_START,
        flag_offset(m) + 4 <= d.len(),
    ensures
        config_count(after_init_config(d, header, m, templated)) == config_count(d),
        config_count(d) == m && d.len() == templatable_size(m as nat) ==> templated_flag(
            after_init_config(d, header, m, templated),
        ) == templated,
{
    let after = after_init_config(d, header, m, templated);
    assert(after.subrange(CONFIG_ARRAY_START as int, CONFIG_ARRAY_START + 4) =~= d.subrange(
        CONFIG_ARRAY_START as int,
        CONFIG_ARRAY_START + 4,
    ));
}

/// Storing lines within the line limit leaves the templated flag byte alone.
pub proof fn lemma_add_lines_keeps_flag(
    d: Seq<u8>,
    m: nat,
    index: nat,
    lines: Seq<(Seq<char>, Seq<char>)>,
)
    requires
        CONFIG_ARRAY_START + 4 <= d.len(),
        forall|i: int| 0 <= i < lines.len() ==> line_fits(#[trigger] lines[i]),
        add_lines_fits(d, m, index, lines.len()),
        index + lines.len() <= m,
        line_offset(m as int) < d.len(),
    ensures
        after_add_lines(d, m, index, lines)[line_offset(m as int)] == d[line_offset(m as int)],
{
    let n = lines.len();
    lemma_count_after_add(d, m, index, lines);
    crate::config_lines::lemma_line_records_len(lines);
    let bm = bitmask_start(d, m);
    let d1 = with_records(d, index, lines);
    lemma_set_bits_len(d1, bm, index as int, n);
    let f = line_offset(m as int);
    assert(line_offset(index as int) + n * CONFIG_LINE_SIZE <= f) by (nonlinear_arith)
        requires
            index + n <= m,
            f == line_offset(m as int),
    ;
    assert(d1[f] == d[f]);
    assert(set_bits(d1, bm, index as int, n)[f] == d1[f]);
}

} // verus!
