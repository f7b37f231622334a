//! The streaming record reader: separator expansion, splitting, numbering.

use fixedwidth::parser::FileBuffer;

fn feed(buffer: &mut FileBuffer, data: &[u8]) -> Vec<(usize, String)> {
    let mut out = Vec::new();
    for b in data {
        if let Some(item) = buffer.push_byte(*b) {
            let line = item.expect("record bytes should be UTF-8");
            out.push((line.line_number, line.line_content));
        }
    }
    if let Some(item) = buffer.finish() {
        let line = item.expect("record bytes should be UTF-8");
        out.push((line.line_number, line.line_content));
    }
    out
}

#[test]
fn multi_byte_separator_splits_records() {
    let mut buffer = FileBuffer::new("\\r\\n".to_string());
    let records = feed(&mut buffer, b"A\r\nB\r\nC");
    assert_eq!(
        records,
        vec![(1, "A".to_string()), (2, "B".to_string()), (3, "C".to_string())]
    );
}

#[test]
fn record_numbers_start_at_one_and_increase() {
    let mut buffer = FileBuffer::new("\\n".to_string());
    let records = feed(&mut buffer, b"first\nsecond\nthird\n");
    let numbers: Vec<usize> = records.iter().map(|r| r.0).collect();
    assert_eq!(numbers, vec![1, 2, 3]);
}

#[test]
fn trailing_separator_leaves_no_empty_record() {
    let mut buffer = FileBuffer::new("\\n".to_string());
    let records = feed(&mut buffer, b"A\nB\n");
    assert_eq!(records, vec![(1, "A".to_string()), (2, "B".to_string())]);
}

#[test]
fn escapes_cover_tab_formfeed_and_nul() {
    let mut buffer = FileBuffer::new("\\t\\f\\0".to_string());
    let records = feed(&mut buffer, b"one\t\x0C\x00two");
    assert_eq!(records, vec![(1, "one".to_string()), (2, "two".to_string())]);
}

#[test]
fn unknown_escape_stands_for_itself() {
    let mut buffer = FileBuffer::new("\\q".to_string());
    let records = feed(&mut buffer, b"aqb");
    assert_eq!(records, vec![(1, "a".to_string()), (2, "b".to_string())]);
}

#[test]
fn literal_separator_text_is_kept() {
    let mut buffer = FileBuffer::new("|".to_string());
    let records = feed(&mut buffer, b"x|y");
    assert_eq!(records, vec![(1, "x".to_string()), (2, "y".to_string())]);
}

#[test]
fn naive_match_resets_on_mismatch() {
    // With separator `ab`, the input `aab` never matches: the second `a`
    // resets the match without restarting it.
    let mut buffer = FileBuffer::new("ab".to_string());
    let records = feed(&mut buffer, b"xaaby");
    assert_eq!(records, vec![(1, "xaaby".to_string())]);
}

#[test]
fn invalid_utf8_record_yields_an_error_item() {
    let mut buffer = FileBuffer::new("\\n".to_string());
    let mut errors = 0;
    let mut records = Vec::new();
    for b in b"ok\n\xFF\xFEbad\nrest" {
        match buffer.push_byte(*b) {
            Some(Ok(line)) => records.push(line.line_content),
            Some(Err(_)) => errors += 1,
            None => {}
        }
    }
    match buffer.finish() {
        Some(Ok(line)) => records.push(line.line_content),
        Some(Err(_)) => errors += 1,
        None => {}
    }
    // The invalid bytes stay buffered after the first error item, so the
    // residue at the end of the input is invalid again.
    assert_eq!(errors, 2);
    assert_eq!(records, vec!["ok".to_string()]);
}
