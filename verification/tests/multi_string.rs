use hivex_rs::error::ErrorKind;
use hivex_rs::multi_sz::{count_strings, strings_value};

fn record(text: &str) -> Vec<i8> {
    let mut raw = Vec::new();
    for unit in text.encode_utf16() {
        raw.push((unit & 0xff) as u8 as i8);
        raw.push((unit >> 8) as u8 as i8);
    }
    raw.push(0);
    raw.push(0);
    raw
}

fn records(texts: &[&str]) -> Vec<i8> {
    let mut raw = Vec::new();
    for text in texts {
        raw.extend(record(text));
    }
    raw
}

fn texts(list: &[&str]) -> Vec<Vec<u8>> {
    list.iter().map(|t| t.as_bytes().to_vec()).collect()
}

#[test]
fn two_records_are_two_strings() {
    let raw = records(&["Alpha", "Beta"]);
    assert_eq!(raw.len(), 22);
    assert_eq!(count_strings(&raw), 2);
    let list = strings_value(&raw, &texts(&["Alpha", "Beta"])).unwrap();
    assert_eq!(list, vec!["Alpha".to_string(), "Beta".to_string()]);
}

#[test]
fn records_come_out_in_order() {
    let names = ["one", "two", "three", "4", "five five"];
    let raw = records(&names);
    assert_eq!(count_strings(&raw), 5);
    let list = strings_value(&raw, &texts(&names)).unwrap();
    assert_eq!(list, names.iter().map(|n| n.to_string()).collect::<Vec<_>>());
}

#[test]
fn one_character_is_one_record() {
    let raw = records(&["A"]);
    assert_eq!(raw, vec![0x41, 0, 0, 0]);
    assert_eq!(count_strings(&raw), 1);
    assert_eq!(strings_value(&raw, &texts(&["A"])).unwrap(), vec!["A".to_string()]);
}

#[test]
fn short_buffers_announce_nothing() {
    assert_eq!(count_strings(&[]), 0);
    assert_eq!(count_strings(&[0]), 0);
    assert_eq!(count_strings(&[0, 0, 0]), 0);
    assert_eq!(strings_value(&[0, 0, 0], &texts(&["kept out"])).unwrap(), Vec::<String>::new());
}

#[test]
fn every_window_counts() {
    assert_eq!(count_strings(&[0, 0, 0, 0]), 1);
    assert_eq!(count_strings(&[7, 0, 0, 0]), 1);
    assert_eq!(count_strings(&[0, 0, 0, 7]), 0);
    assert_eq!(count_strings(&[0, 0, 0, 0, 0]), 2);
    assert_eq!(count_strings(&[1, 0, 0, 0, 0, 0, 9]), 3);
    assert_eq!(count_strings(&[1, 0, 2, 0, 3, 0, 4, 0]), 0);
}

#[test]
fn only_the_announced_texts_are_taken() {
    let raw = records(&["Alpha"]);
    let list = strings_value(&raw, &texts(&["Alpha", "Beta", "Gamma"])).unwrap();
    assert_eq!(list, vec!["Alpha".to_string()]);
}

#[test]
fn a_closing_terminator_announces_more_than_there_is() {
    let mut raw = records(&["Alpha", "Beta"]);
    raw.push(0);
    raw.push(0);
    assert_eq!(count_strings(&raw), 4);
    let e = strings_value(&raw, &texts(&["Alpha", "Beta"])).unwrap_err();
    assert!(
        matches!(e.kind(), ErrorKind::Hivex { function } if function == "hivex_value_multiple_strings")
    );
}

#[test]
fn text_beyond_ascii_is_miscounted() {
    let raw = records(&["\u{4e2d}\u{6587}", "B"]);
    assert_eq!(count_strings(&raw), 1);
    let list = strings_value(&raw, &texts(&["\u{4e2d}\u{6587}", "B"])).unwrap();
    assert_eq!(list, vec!["\u{4e2d}\u{6587}".to_string()]);
}

#[test]
fn an_empty_record_in_front_is_not_counted() {
    let raw = records(&["", "A"]);
    assert_eq!(count_strings(&raw), 1);
}

#[test]
fn one_bad_text_fails_the_list() {
    let raw = records(&["Alpha", "Beta"]);
    let bad = vec![b"Alpha".to_vec(), vec![0x42, 0xff]];
    let e = strings_value(&raw, &bad).unwrap_err();
    assert!(matches!(e.kind(), ErrorKind::StrConvert));
    let bad_first = vec![vec![0xff], b"Beta".to_vec()];
    let e = strings_value(&raw, &bad_first).unwrap_err();
    assert!(matches!(e.kind(), ErrorKind::StrConvert));
}

#[test]
fn a_bad_text_that_is_not_taken_does_no_harm() {
    let raw = records(&["Alpha"]);
    let list = strings_value(&raw, &vec![b"Alpha".to_vec(), vec![0xff]]).unwrap();
    assert_eq!(list, vec!["Alpha".to_string()]);
}
