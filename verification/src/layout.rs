//! The layout of a config account's data, and reading it: the line counter,
//! the templated flag, and the stored lines.
//!
//! After the serialized header come, from `CONFIG_ARRAY_START`: the number of
//! lines as a little-endian `u32`, the line records of `CONFIG_LINE_SIZE`
//! bytes each, then (in accounts made since the flag exists) one byte saying
//! whether lines are templates, a `u32`, and a bit mask with one bit per line.
use vstd::prelude::*;
use crate::encoding::{
    borsh_decode_pair, borsh_decode_string_pair, decimal, le_u32, read_u32_le, replace_all,
    str_replace, usize_to_string,
};
use crate::state::{CandyError, ConfigLine, ErrorCode, CONFIG_ARRAY_START, CONFIG_LINE_SIZE};

verus! {

/// The line counter stored in `d`.
pub open spec fn config_count(d: Seq<u8>) -> nat {
    le_u32(d.subrange(CONFIG_ARRAY_START as int, CONFIG_ARRAY_START + 4))
}

/// Where the record of line `i` starts.
pub open spec fn line_offset(i: int) -> int {
    CONFIG_ARRAY_START + 4 + i * CONFIG_LINE_SIZE
}

/// The record of line `i`.
pub open spec fn line_record(d: Seq<u8>, i: int) -> Seq<u8> {
    d.subrange(line_offset(i), line_offset(i + 1))
}

/// The number of bytes in a bit mask of `c` bits.
pub open spec fn bitmask_size(c: nat) -> nat {
    c / 8 + if c % 8 != 0 {
        1nat
    } else {
        0nat
    }
}

/// The data length of an account with `c` lines that holds the templated flag.
pub open spec fn templatable_size(c: nat) -> int {
    line_offset(c as int) + 1 + 4 + bitmask_size(c)
}

/// Whether the lines of the account are templates: the account has exactly
/// the size of one with the flag after its `config_count` lines, and the flag
/// byte is 1.
pub open spec fn templated_flag(d: Seq<u8>) -> bool {
    let c = config_count(d);
    templatable_size(c) == d.len() && d[line_offset(c as int)] == 1
}

/// The text `{i}`, which a templated line holds where the item number goes.
pub open spec fn template_marker() -> Seq<char> {
    seq!['{', 'i', '}']
}

/// The line that is read from a line record, given its decoded pair: with
/// templates, each `{i}` becomes the 1-based item number.
pub open spec fn fill_template(p: (Seq<char>, Seq<char>), templated: bool, item: nat) -> (
    Seq<char>,
    Seq<char>,
) {
    if templated {
        (
            replace_all(p.0, template_marker(), decimal(item)),
            replace_all(p.1, template_marker(), decimal(item)),
        )
    } else {
        p
    }
}

/// Which record holds item `in_index`: the first one when lines are templates.
pub open spec fn record_index(templated: bool, in_index: nat) -> nat {
    if templated {
        0
    } else {
        in_index
    }
}

/// What reading item `in_index` from `d` gives: an index above the counter is
/// refused, a record that does not decode is an error, otherwise the decoded
/// line with its template filled in.
pub open spec fn spec_config_line(d: Seq<u8>, templated: bool, in_index: nat) -> Result<
    (Seq<char>, Seq<char>),
    CandyError,
> {
    let index = record_index(templated, in_index);
    if index > config_count(d) {
        Err(CandyError::Code(ErrorCode::IndexGreaterThanLength))
    } else {
        match borsh_decode_pair(line_record(d, index as int)) {
            None => Err(CandyError::BorshIoError),
            Some(p) => Ok(fill_template(p, templated, in_index + 1)),
        }
    }
}

/// The text of a line.
pub open spec fn line_view(l: ConfigLine) -> (Seq<char>, Seq<char>) {
    (l.name@, l.uri@)
}

/// The text of a read line, or the error.
pub open spec fn line_result_view(r: Result<ConfigLine, CandyError>) -> Result<
    (Seq<char>, Seq<char>),
    CandyError,
> {
    match r {
        Ok(l) => Ok(line_view(l)),
        Err(e) => Err(e),
    }
}

/// The condition under which reading item `in_index` stays inside `d`: when
/// the record index is within the counter, its record lies in the data.
pub open spec fn line_readable(d: Seq<u8>, templated: bool, in_index: nat) -> bool {
    let index = record_index(templated, in_index);
    index <= config_count(d) ==> line_offset(index + 1int) <= d.len()
}

/// The number of lines stored in the account.
pub fn get_config_count(data: &[u8]) -> (r: Result<usize, CandyError>)
    requires
        CONFIG_ARRAY_START + 4 <= data@.len(),
    ensures
        r == Ok::<usize, CandyError>(config_count(data@) as usize),
{
    let c = read_u32_le(data, CONFIG_ARRAY_START);
    Ok(c as usize)
}

/// Whether the lines of the account are templates. Accounts made before the
/// flag existed, and accounts whose size does not match their line count,
/// are not templated.
pub fn is_config_templated(data: &[u8]) -> (r: Result<bool, CandyError>)
    requires
        CONFIG_ARRAY_START + 4 <= data@.len(),
    ensures
        r == Ok::<bool, CandyError>(templated_flag(data@)),
{
    let config_count = read_u32_le(data, CONFIG_ARRAY_START);
    let c = config_count as u64;
    assert(c * 240 <= 4294967295u64 * 240) by (nonlinear_arith)
        requires
            c <= 4294967295u64,
    ;
    let bitmask_size: u64 = c / 8 + if c % 8 != 0 {
        1
    } else {
        0
    };
    let expected: u64 = (CONFIG_ARRAY_START as u64) + 4 + c * (CONFIG_LINE_SIZE as u64) + 1 + 4
        + bitmask_size;
    if expected == data.len() as u64 {
        let templated_pos = CONFIG_ARRAY_START + 4 + (config_count as usize) * CONFIG_LINE_SIZE;
        return Ok(data[templated_pos] == 1);
    }
    Ok(false)
}

/// Reads item `in_index` of the config. With templates every item comes from
/// the first record, with `{i}` replaced by the item number counted from 1.
/// An index above the counter is refused; one equal to it is read.
pub fn get_config_line(data: &[u8], is_templated_metadatas: bool, in_index: usize) -> (r: Result<
    ConfigLine,
    CandyError,
>)
    requires
        CONFIG_ARRAY_START + 4 <= data@.len(),
        in_index < usize::MAX,
        line_readable(data@, is_templated_metadatas, in_index as nat),
    ensures
        line_result_view(r) == spec_config_line(data@, is_templated_metadatas, in_index as nat),
{
    let requested_index: usize = in_index + 1;
    let index: usize = if is_templated_metadatas {
        0
    } else {
        in_index
    };
    let total = read_u32_le(data, CONFIG_ARRAY_START);
    if index > total as usize {
        return Err(CandyError::Code(ErrorCode::IndexGreaterThanLength));
    }
    assert(line_offset(index + 1int) <= data@.len());
    let data_len = data.len();
    assert(index * CONFIG_LINE_SIZE + 240 + 251 <= data_len);
    let start: usize = CONFIG_ARRAY_START + 4 + index * CONFIG_LINE_SIZE;
    let end: usize = start + CONFIG_LINE_SIZE;
    let record = slice_range(data, start, end);
    assert(record@ == line_record(data@, index as int));
    let decoded = borsh_decode_string_pair(record);
    match decoded {
        None => Err(CandyError::BorshIoError),
        Some(pair) => {
            let (name, uri) = pair;
            if is_templated_metadatas {
                let marker = "{i}";
                proof {
                    reveal_strlit("{i}");
                    assert(marker@ =~= template_marker());
                }
                let number = usize_to_string(requested_index);
                let name = str_replace(name.as_str(), marker, number.as_str());
                let uri = str_replace(uri.as_str(), marker, number.as_str());
                Ok(ConfigLine { name, uri })
            } else {
                Ok(ConfigLine { name, uri })
            }
        },
    }
}

/// The bytes of `data` from `start` up to `end`.
pub fn slice_range(data: &[u8], start: usize, end: usize) -> (r: &[u8])
    requires
        start <= end <= data@.len(),
    ensures
        r@ == data@.subrange(start as int, end as int),
{
    vstd::slice::slice_subrange(data, start, end)
}

/// `d` with `b` written over it from `at`.
pub open spec fn splice(d: Seq<u8>, at: int, b: Seq<u8>) -> Seq<u8> {
    d.subrange(0, at) + b + d.subrange(at + b.len(), d.len() as int)
}

/// Writes `bytes` into `data` from `at`.
pub fn write_bytes(data: &mut Vec<u8>, at: usize, bytes: &[u8])
    requires
        at + bytes@.len() <= old(data)@.len(),
    ensures
        final(data)@ == splice(old(data)@, at as int, bytes@),
{
    let data_len = data.len();
    let mut j: usize = 0;
    while j < bytes.len()
        invariant
            j <= bytes@.len(),
            data_len == old(data)@.len(),
            at + bytes@.len() <= old(data)@.len(),
            data@.len() == old(data)@.len(),
            data@ =~= old(data)@.subrange(0, at as int) + bytes@.take(j as int) + old(data)@.subrange(
                at + j,
                old(data)@.len() as int,
            ),
        decreases bytes.len() - j,
    {
        data.set(at + j, bytes[j]);
        j = j + 1;
        assert(data@ =~= old(data)@.subrange(0, at as int) + bytes@.take(j as int)
            + old(data)@.subrange(at + j, old(data)@.len() as int));
    }
    assert(bytes@.take(j as int) =~= bytes@);
}

} // verus!
