//! The line counter and the bit mask of filled lines over runs of calls: in an
//! account with room for its line limit, the counter stays the number of
//! marked lines, and a filled config of exactly that size reports the
//! templated flag it was made with.
use vstd::prelude::*;
use crate::config_lines::{
    add_lines_fits, after_add_lines, bit_byte, bit_is_set, bitmask_start, count_after_add,
    has_flag_byte, lemma_or_same_bit, lemma_set_bit_frame, lemma_set_bits_frame, line_fits,
    newly_set, set_bit, set_bits, with_records,
};
use crate::config_init::after_init_config;
use crate::laws::{lemma_add_lines_keeps_flag, lemma_count_after_add, lemma_init_flag_read_back, lemma_set_bits_len};
use crate::layout::{bitmask_size, config_count, line_offset, templatable_size, templated_flag};
use crate::state::{CONFIG_ARRAY_START, CONFIG_LINE_SIZE};

verus! {

/// How many of the lines `0` up to `k` are marked in the mask that starts at `bm`.
pub open spec fn marked_lines(d: Seq<u8>, bm: int, k: nat) -> nat
    decreases k,
{
    if k == 0 {
        0
    } else {
        marked_lines(d, bm, (k - 1) as nat) + if bit_is_set(d, bm, k - 1) {
            1nat
        } else {
            0nat
        }
    }
}

/// Where the bit mask of an account sized for `m` lines starts.
pub open spec fn sized_mask_start(m: nat) -> int {
    line_offset(m as int) + 5
}

/// Whether `d` has exactly the size of a config account with room for `m`
/// lines: the records, the templated flag, a `u32`, and one bit per line.
pub open spec fn sized_for(d: Seq<u8>, m: nat) -> bool {
    d.len() == sized_mask_start(m) + bitmask_size(m)
}

/// Whether `d` is at least the size of a config account with room for `m`
/// lines, so that while the counter stays within `m` the bit mask is found
/// where such an account keeps it.
pub open spec fn holds_mask(d: Seq<u8>, m: nat) -> bool {
    d.len() >= sized_mask_start(m) + bitmask_size(m)
}

/// Whether the counter of `d` is the number of marked lines among the first `m`.
pub open spec fn counter_matches_marks(d: Seq<u8>, m: nat) -> bool {
    config_count(d) == marked_lines(d, sized_mask_start(m), m)
}

/// At most `k` of `k` lines are marked.
proof fn lemma_marked_lines_bound(d: Seq<u8>, bm: int, k: nat)
    ensures
        marked_lines(d, bm, k) <= k,
    decreases k,
{
    if k > 0 {
        lemma_marked_lines_bound(d, bm, (k - 1) as nat);
    }
}

/// Data that agree on the mask bytes agree on the marked lines.
proof fn lemma_marked_lines_same(d: Seq<u8>, e: Seq<u8>, bm: int, k: nat)
    requires
        forall|p: int| 0 <= p < k ==> d[bit_byte(bm, p)] == e[bit_byte(bm, p)],
    ensures
        marked_lines(d, bm, k) == marked_lines(e, bm, k),
    decreases k,
{
    if k > 0 {
        lemma_marked_lines_same(d, e, bm, (k - 1) as nat);
        assert(d[bit_byte(bm, k - 1)] == e[bit_byte(bm, k - 1)]);
    }
}

/// Setting the bit of line `p < k` adds one marked line when it was clear.
proof fn lemma_marked_after_set_bit(e: Seq<u8>, bm: int, p: int, k: nat)
    requires
        0 <= p < k,
        0 <= bm,
        bit_byte(bm, k - 1) < e.len(),
    ensures
        marked_lines(set_bit(e, bm, p), bm, k) == marked_lines(e, bm, k) + if bit_is_set(e, bm, p) {
            0nat
        } else {
            1nat
        },
    decreases k,
{
    let q = k - 1;
    vstd::arithmetic::div_mod::lemma_div_is_ordered(p, q, 8);
    if q > p {
        if k > 1 {
            vstd::arithmetic::div_mod::lemma_div_is_ordered(q - 1, q, 8);
        }
        lemma_marked_after_set_bit(e, bm, p, (k - 1) as nat);
        lemma_set_bit_frame(e, bm, p, q);
    } else {
        assert forall|r: int| 0 <= r < q implies set_bit(e, bm, p)[bit_byte(bm, r)] & crate::config_lines::mask_of(r)
            == e[bit_byte(bm, r)] & crate::config_lines::mask_of(r) by {
            vstd::arithmetic::div_mod::lemma_div_is_ordered(r, q, 8);
            lemma_set_bit_frame(e, bm, p, r);
        }
        lemma_marked_lines_bits(set_bit(e, bm, p), e, bm, q as nat);
        lemma_or_same_bit(e[bit_byte(bm, p)], (7 - p % 8) as u8);
    }
}

/// Data that agree on the bits of the first `k` lines agree on the marked lines.
proof fn lemma_marked_lines_bits(d: Seq<u8>, e: Seq<u8>, bm: int, k: nat)
    requires
        forall|p: int|
            0 <= p < k ==> d[bit_byte(bm, p)] & crate::config_lines::mask_of(p) == e[bit_byte(bm, p)]
                & crate::config_lines::mask_of(p),
    ensures
        marked_lines(d, bm, k) == marked_lines(e, bm, k),
    decreases k,
{
    if k > 0 {
        lemma_marked_lines_bits(d, e, bm, (k - 1) as nat);
        assert(d[bit_byte(bm, k - 1)] & crate::config_lines::mask_of(k - 1) == e[bit_byte(bm, k - 1)]
            & crate::config_lines::mask_of(k - 1));
    }
}

/// Setting the bits of lines `from` up to `from + n`, all below `m`, adds to
/// the marked lines exactly those whose bit was clear.
proof fn lemma_marked_after_set_bits(d: Seq<u8>, bm: int, from: int, n: nat, m: nat)
    requires
        0 <= from,
        from + n <= m,
        0 <= bm,
        m > 0,
        bit_byte(bm, m - 1) < d.len(),
    ensures
        marked_lines(set_bits(d, bm, from, n), bm, m) == marked_lines(d, bm, m) + newly_set(
            d,
            bm,
            from,
            n,
        ),
    decreases n,
{
    if n > 0 {
        let p = from + n - 1;
        vstd::arithmetic::div_mod::lemma_div_is_ordered(p, m - 1, 8);
        lemma_marked_after_set_bits(d, bm, from, (n - 1) as nat, m);
        if n > 1 {
            vstd::arithmetic::div_mod::lemma_div_is_ordered(from + n - 2, p, 8);
        }
        let e = set_bits(d, bm, from, (n - 1) as nat);
        lemma_set_bits_len(d, bm, from, (n - 1) as nat);
        lemma_set_bits_frame(d, bm, from, (n - 1) as nat, p);
        lemma_marked_after_set_bit(e, bm, p, m);
        assert(set_bits(d, bm, from, n) == set_bit(e, bm, p));
        assert(bit_is_set(e, bm, p) == bit_is_set(d, bm, p));
    }
}

/// Whether each of a run of calls stores lines within the line limit `m`,
/// each line fitting the name and URI widths.
pub open spec fn calls_within(calls: Seq<(nat, Seq<(Seq<char>, Seq<char>)>)>, m: nat) -> bool {
    forall|i: int|
        0 <= i < calls.len() ==> {
            &&& (#[trigger] calls[i]).0 + calls[i].1.len() <= m
            &&& forall|j: int| 0 <= j < calls[i].1.len() ==> line_fits(#[trigger] calls[i].1[j])
        }
}

/// The data after a run of calls that store lines, one after the other.
pub open spec fn run_adds(d: Seq<u8>, m: nat, calls: Seq<(nat, Seq<(Seq<char>, Seq<char>)>)>) -> Seq<u8>
    decreases calls.len(),
{
    if calls.len() == 0 {
        d
    } else {
        let before = run_adds(d, m, calls.drop_last());
        after_add_lines(before, m, calls.last().0, calls.last().1)
    }
}

/// In an account at least the size for `m` lines (so that its bit mask does
/// not move) whose counter is its number of marked lines, storing lines
/// within the limit keeps the counter the number of marked lines, so it never
/// exceeds the limit; the writes stay inside the account, its length and the
/// templated flag byte are kept.
pub proof fn lemma_counter_counts_marks(
    d: Seq<u8>,
    m: nat,
    index: nat,
    lines: Seq<(Seq<char>, Seq<char>)>,
)
    requires
        m < 4294967296,
        holds_mask(d, m),
        counter_matches_marks(d, m),
        index + lines.len() <= m,
        forall|i: int| 0 <= i < lines.len() ==> line_fits(#[trigger] lines[i]),
    ensures
        add_lines_fits(d, m, index, lines.len()),
        bitmask_start(d, m) == sized_mask_start(m),
        after_add_lines(d, m, index, lines).len() == d.len(),
        counter_matches_marks(after_add_lines(d, m, index, lines), m),
        config_count(after_add_lines(d, m, index, lines)) <= m,
        after_add_lines(d, m, index, lines)[line_offset(m as int)] == d[line_offset(m as int)],
{
    let n = lines.len();
    let bm = sized_mask_start(m);
    lemma_marked_lines_bound(d, bm, m);
    let c = config_count(d);
    assert(line_offset(c as int) <= line_offset(m as int)) by (nonlinear_arith)
        requires
            c <= m,
    ;
    assert(has_flag_byte(d));
    assert(bitmask_start(d, m) == bm);
    if n > 0 {
        assert(line_offset(index as int) + n * CONFIG_LINE_SIZE <= line_offset(m as int)) by (
        nonlinear_arith)
            requires
                index + n <= m,
        ;
        assert((index + n - 1) / 8 < bitmask_size(m)) by (nonlinear_arith)
            requires
                index + n <= m,
                n > 0,
        ;
    } else {
        assert(line_offset(index as int) <= line_offset(m as int)) by (nonlinear_arith)
            requires
                index <= m,
        ;
    }
    assert(add_lines_fits(d, m, index, n));
    lemma_count_after_add(d, m, index, lines);
    crate::config_lines::lemma_line_records_len(lines);
    let a = after_add_lines(d, m, index, lines);
    let d1 = with_records(d, index, lines);
    assert(line_offset(index as int) + n * CONFIG_LINE_SIZE <= line_offset(m as int)) by (
    nonlinear_arith)
        requires
            index + n <= m,
    ;
    if m > 0 {
        assert((m - 1) / 8 < bitmask_size(m));
        lemma_set_bits_len(d1, bm, index as int, n);
        assert forall|p: int| 0 <= p < m implies d[bit_byte(bm, p)] == d1[bit_byte(bm, p)] by {
            vstd::arithmetic::div_mod::lemma_div_is_ordered(p, m - 1, 8);
        }
        lemma_marked_lines_same(d, d1, bm, m);
        lemma_marked_after_set_bits(d1, bm, index as int, n, m);
        let marked = set_bits(d1, bm, index as int, n);
        assert forall|p: int| 0 <= p < m implies marked[bit_byte(bm, p)] == a[bit_byte(bm, p)] by {
            vstd::arithmetic::div_mod::lemma_div_is_ordered(p, m - 1, 8);
        }
        lemma_marked_lines_same(marked, a, bm, m);
        lemma_marked_lines_bound(a, bm, m);
    }
    assert(count_after_add(d, m, index, lines) == c + newly_set(d1, bm, index as int, n));
    assert(count_after_add(d, m, index, lines) % 4294967296 == count_after_add(d, m, index, lines));
    lemma_add_lines_keeps_flag(d, m, index, lines);
}

/// After a config account sized for its line limit `m`, with its counter the
/// number of marked lines (as in a zeroed account), is made with templated
/// flag `templated`, and any run of calls stores lines within the limit: the
/// counter is the number of marked lines and at most `m`, and once it reaches
/// `m` the account reports the templated flag it was made with.
pub proof fn lemma_templated_after_filling(
    d: Seq<u8>,
    header: Seq<u8>,
    m: u32,
    templated: bool,
    calls: Seq<(nat, Seq<(Seq<char>, Seq<char>)>)>,
)
    requires
        header.len() <= CONFIG_ARRAY_START,
        sized_for(d, m as nat),
        counter_matches_marks(d, m as nat),
        calls_within(calls, m as nat),
    ensures
        counter_matches_marks(run_adds(after_init_config(d, header, m, templated), m as nat, calls), m as nat),
        config_count(run_adds(after_init_config(d, header, m, templated), m as nat, calls)) <= m,
        config_count(run_adds(after_init_config(d, header, m, templated), m as nat, calls)) == m
            ==> templated_flag(run_adds(after_init_config(d, header, m, templated), m as nat, calls))
            == templated,
    decreases calls.len(),
{
    let a0 = after_init_config(d, header, m, templated);
    let bm = sized_mask_start(m as nat);
    lemma_init_flag_read_back(d, header, m, templated);
    let f = line_offset(m as int);
    assert(a0.len() == d.len());
    assert(a0[f] == if templated { 1u8 } else { 0u8 });
    assert forall|j: int| bm <= j < d.len() implies a0[j] == d[j] by {}
    if m > 0 {
        assert forall|p: int| 0 <= p < m implies d[bit_byte(bm, p)] == a0[bit_byte(bm, p)] by {}
        lemma_marked_lines_same(d, a0, bm, m as nat);
    }
    assert(counter_matches_marks(a0, m as nat));
    assert(sized_for(a0, m as nat));
    lemma_run_keeps(a0, m as nat, calls);
    let r = run_adds(a0, m as nat, calls);
    lemma_marked_lines_bound(r, bm, m as nat);
}

/// In an account at least the size for `m` lines whose counter is its
/// number of marked lines, any run of calls that store lines within the
/// limit keeps the counter the number of marked lines (so at most `m`), the
/// account's length, and its templated flag byte.
pub proof fn lemma_run_keeps(a: Seq<u8>, m: nat, calls: Seq<(nat, Seq<(Seq<char>, Seq<char>)>)>)
    requires
        m < 4294967296,
        holds_mask(a, m),
        counter_matches_marks(a, m),
        calls_within(calls, m),
    ensures
        run_adds(a, m, calls).len() == a.len(),
        config_count(run_adds(a, m, calls)) <= m,
        counter_matches_marks(run_adds(a, m, calls), m),
        run_adds(a, m, calls)[line_offset(m as int)] == a[line_offset(m as int)],
    decreases calls.len(),
{
    if calls.len() > 0 {
        let rest = calls.drop_last();
        assert(calls_within(rest, m)) by {
            assert forall|i: int| 0 <= i < rest.len() implies (#[trigger] rest[i]).0 + rest[i].1.len()
                <= m && forall|j: int| 0 <= j < rest[i].1.len() ==> line_fits(
                #[trigger] rest[i].1[j],
            ) by {
                assert(rest[i] == calls[i]);
            }
        }
        lemma_run_keeps(a, m, rest);
        let last = calls.last();
        assert(last == calls[calls.len() - 1]);
        lemma_counter_counts_marks(run_adds(a, m, rest), m, last.0, last.1);
    }
    lemma_marked_lines_bound(run_adds(a, m, calls), sized_mask_start(m), m);
}

} // verus!
