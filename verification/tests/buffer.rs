use logs_plugin::render::render_with_times;
use logs_plugin::LogBuffer;

const TS: u64 = 1_700_000_000;

#[test]
fn starts_empty() {
    let b = LogBuffer::new();
    assert_eq!(b.len(), 0);
    assert_eq!(b.render(), "");
}

#[test]
fn append_stores_text_and_timestamp() {
    let mut b = LogBuffer::new();
    b.append("hello".to_owned(), TS);
    assert_eq!(b.len(), 1);
    assert_eq!(b.entry(0).text, "hello");
    assert_eq!(b.entry(0).ts, TS);
}

#[test]
fn bounded_after_each_append() {
    let mut b = LogBuffer::new();
    for k in 1..=501u64 {
        b.append(k.to_string(), TS + k);
        assert!(b.len() <= 500);
    }
    assert_eq!(b.len(), 500);
    // Entry 1 was evicted, entries 2..=501 remain in order.
    assert_eq!(b.entry(0).text, "2");
    assert_eq!(b.entry(499).text, "501");
}

#[test]
fn clear_empties_the_buffer() {
    let mut b = LogBuffer::new();
    b.append("one".to_owned(), TS);
    b.append("two".to_owned(), TS + 1);
    b.clear();
    assert_eq!(b.len(), 0);
    assert_eq!(b.render(), "");
}

#[test]
fn render_line_format_is_exact() {
    let texts = vec!["boot ok".to_owned()];
    let times = vec!["2024-01-02 03:04:05 +02:00".to_owned()];
    assert_eq!(
        render_with_times(&texts, &times),
        "1: 2024-01-02 03:04:05 +02:00 : boot ok\n"
    );
}

#[test]
fn render_indexes_from_one_in_order() {
    let texts: Vec<String> = (0..12).map(|k| format!("line {k}")).collect();
    let times: Vec<String> = (0..12).map(|_| "T".to_owned()).collect();
    let out = render_with_times(&texts, &times);
    let lines: Vec<&str> = out.lines().collect();
    assert_eq!(lines.len(), 12);
    assert_eq!(lines[0], "1: T : line 0");
    assert_eq!(lines[9], "10: T : line 9");
    assert_eq!(lines[11], "12: T : line 11");
}

#[test]
fn render_uses_local_time_with_offset() {
    let mut b = LogBuffer::new();
    b.append("stamped".to_owned(), TS);
    let out = b.render();
    // "<index>: <YYYY-MM-DD HH:MM:SS +ZZ:ZZ> : <text>"
    assert!(out.starts_with("1: "));
    assert!(out.ends_with(" : stamped\n"));
    let middle = &out[3..out.len() - " : stamped\n".len()];
    assert_eq!(middle.len(), "2023-11-14 22:13:20 +00:00".len());
    assert_eq!(&middle[4..5], "-");
    assert_eq!(&middle[10..11], " ");
    assert_eq!(&middle[13..14], ":");
    let offset = &middle[20..];
    assert!(offset.starts_with('+') || offset.starts_with('-'));
    assert_eq!(&offset[3..4], ":");
}
