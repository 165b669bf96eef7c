use anchor_lang::AnchorSerialize;
use nft_candy_machine::layout::{get_config_count, get_config_line, is_config_templated};
use nft_candy_machine::state::{
    CandyError, ErrorCode, CONFIG_ARRAY_START, CONFIG_LINE_SIZE, MAX_NAME_LENGTH, MAX_URI_LENGTH,
};

fn padded(s: &str, width: usize) -> String {
    let mut r = s.to_string();
    while r.len() < width {
        r.push('\0');
    }
    r
}

fn record(name: &str, uri: &str) -> Vec<u8> {
    (padded(name, MAX_NAME_LENGTH), padded(uri, MAX_URI_LENGTH)).try_to_vec().unwrap()
}

/// Config data with `count` in the counter, the given records, and `extra`
/// bytes after them.
fn config_data(count: u32, records: &[Vec<u8>], extra: usize) -> Vec<u8> {
    let mut data = vec![0u8; CONFIG_ARRAY_START];
    data.extend_from_slice(&count.to_le_bytes());
    for r in records {
        assert_eq!(r.len(), CONFIG_LINE_SIZE);
        data.extend_from_slice(r);
    }
    data.extend(std::iter::repeat(0u8).take(extra));
    data
}

#[test]
fn config_count_reads_little_endian_counter() {
    let mut data = vec![0u8; CONFIG_ARRAY_START + 4];
    data[CONFIG_ARRAY_START] = 0x34;
    data[CONFIG_ARRAY_START + 1] = 0x12;
    assert_eq!(get_config_count(&data), Ok(0x1234));
}

#[test]
fn config_count_reads_all_four_bytes() {
    let mut data = vec![0u8; CONFIG_ARRAY_START + 10];
    data[CONFIG_ARRAY_START..CONFIG_ARRAY_START + 4].copy_from_slice(&0xdead_beefu32.to_le_bytes());
    assert_eq!(get_config_count(&data), Ok(0xdead_beef));
}

#[test]
fn templated_flag_is_read_when_size_matches() {
    let records = vec![record("a", "b"), record("c", "d")];
    // flag byte, u32, one bit mask byte
    let mut data = config_data(2, &records, 1 + 4 + 1);
    assert_eq!(data.len(), 737);
    data[CONFIG_ARRAY_START + 4 + 2 * CONFIG_LINE_SIZE] = 1;
    assert_eq!(is_config_templated(&data), Ok(true));
    data[CONFIG_ARRAY_START + 4 + 2 * CONFIG_LINE_SIZE] = 0;
    assert_eq!(is_config_templated(&data), Ok(false));
}

#[test]
fn templated_flag_needs_exact_size() {
    let records = vec![record("a", "b"), record("c", "d")];
    let mut data = config_data(2, &records, 1 + 4 + 1 + 1);
    data[CONFIG_ARRAY_START + 4 + 2 * CONFIG_LINE_SIZE] = 1;
    assert_eq!(is_config_templated(&data), Ok(false));
    let mut short = config_data(2, &records, 1 + 4);
    short[CONFIG_ARRAY_START + 4 + 2 * CONFIG_LINE_SIZE] = 1;
    assert_eq!(is_config_templated(&short), Ok(false));
}

#[test]
fn config_line_reads_record_of_item() {
    let records = vec![record("First", "uri-1"), record("Second", "uri-2")];
    let data = config_data(2, &records, 10);
    let line = get_config_line(&data, false, 1).unwrap();
    assert_eq!(line.name, padded("Second", MAX_NAME_LENGTH));
    assert_eq!(line.uri, padded("uri-2", MAX_URI_LENGTH));
    let first = get_config_line(&data, false, 0).unwrap();
    assert_eq!(first.name, padded("First", MAX_NAME_LENGTH));
}

#[test]
fn config_line_templated_fills_item_number() {
    let records = vec![record("Item #{i}", "https://example.com/{i}.json")];
    let data = config_data(1, &records, 10);
    let line = get_config_line(&data, true, 6).unwrap();
    assert_eq!(line.name, padded("Item #7", MAX_NAME_LENGTH - 2));
    assert!(line.name.starts_with("Item #7\0"));
    assert_eq!(line.uri, padded("https://example.com/7.json", MAX_URI_LENGTH - 2));
    let later = get_config_line(&data, true, 122).unwrap();
    assert!(later.name.starts_with("Item #123\0"));
    assert_eq!(later.name.len(), MAX_NAME_LENGTH);
}

#[test]
fn config_line_index_past_counter_is_refused() {
    let records = vec![record("a", "b"), record("c", "d")];
    let data = config_data(1, &records, 10);
    assert_eq!(
        get_config_line(&data, false, 2).err(),
        Some(CandyError::Code(ErrorCode::IndexGreaterThanLength))
    );
}

#[test]
fn config_line_at_counter_is_still_read() {
    // The counter is 1 but record 1 is compared with `>`, so it is read; its
    // zero bytes decode as two empty strings with bytes left over.
    let records = vec![record("a", "b"), vec![0u8; CONFIG_LINE_SIZE]];
    let data = config_data(1, &records, 10);
    assert_eq!(get_config_line(&data, false, 1).err(), Some(CandyError::BorshIoError));
}

#[test]
fn config_line_invalid_utf8_is_an_error() {
    let mut bad = record("a", "b");
    bad[4] = 0xff;
    let data = config_data(1, &[bad], 10);
    assert_eq!(get_config_line(&data, false, 0).err(), Some(CandyError::BorshIoError));
}

#[test]
fn templated_item_numbers_in_decimal() {
    let records = vec![record("N{i}", "u")];
    let data = config_data(1, &records, 10);
    for (index, text) in [(0usize, "N1\0"), (8, "N9\0"), (9, "N10\0"), (99, "N100\0"), (40959, "N40960\0")] {
        let line = get_config_line(&data, true, index).unwrap();
        assert!(line.name.starts_with(text), "{} gave {:?}", index, line.name);
    }
}
