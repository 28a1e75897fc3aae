use activity_tracker::reader::parse_csv;
use activity_tracker::record::{render_csv, ActivityRecord};
use activity_tracker::text::{parse_i32, parse_u64, push_i32, push_u64};

fn rec(timestamp: u64, mouse_x: i32, mouse_y: i32, keys: &[&str]) -> ActivityRecord {
    ActivityRecord {
        timestamp,
        mouse_x,
        mouse_y,
        keys_pressed: keys.iter().map(|k| k.to_string()).collect(),
    }
}

fn chars(s: &str) -> Vec<char> {
    s.chars().collect()
}

fn same(a: &ActivityRecord, b: &ActivityRecord) -> bool {
    a.timestamp == b.timestamp
        && a.mouse_x == b.mouse_x
        && a.mouse_y == b.mouse_y
        && a.keys_pressed == b.keys_pressed
}

#[test]
fn render_header_only_when_empty() {
    assert_eq!(render_csv(&vec![]), "timestamp,mouse_x,mouse_y,keys_pressed\n");
}

#[test]
fn render_rows_in_log_order() {
    let log = vec![
        rec(1700000000, 10, -20, &[]),
        rec(1700000001, -3, 0, &["LShift"]),
        rec(1700000001, 640, 480, &["LControl", "C"]),
    ];
    assert_eq!(
        render_csv(&log),
        "timestamp,mouse_x,mouse_y,keys_pressed\n\
         1700000000,10,-20,\"\"\n\
         1700000001,-3,0,\"LShift\"\n\
         1700000001,640,480,\"LControl+C\"\n"
    );
}

#[test]
fn round_trip_keeps_fields_and_order() {
    let log = vec![
        rec(0, i32::MIN, i32::MAX, &["A", "B", "Key1"]),
        rec(u64::MAX, 0, -1, &[]),
        rec(42, 7, 7, &["Space"]),
    ];
    let text = render_csv(&log);
    let back = parse_csv(&text).expect("a rendered file parses");
    assert_eq!(back.len(), log.len());
    for (a, b) in back.iter().zip(log.iter()) {
        assert!(same(a, b));
    }
}

#[test]
fn parse_header_only_gives_no_records() {
    let back = parse_csv("timestamp,mouse_x,mouse_y,keys_pressed\n").unwrap();
    assert!(back.is_empty());
}

#[test]
fn parse_rejects_malformed_files() {
    assert!(parse_csv("").is_none());
    assert!(parse_csv("timestamp,mouse_x,mouse_y,keys_pressed").is_none());
    assert!(parse_csv("time,mouse_x,mouse_y,keys_pressed\n").is_none());
    let h = "timestamp,mouse_x,mouse_y,keys_pressed\n";
    // missing final line break
    assert!(parse_csv(&format!("{}1,2,3,\"\"", h)).is_none());
    // leading zero, minus zero, out of range
    assert!(parse_csv(&format!("{}01,2,3,\"\"\n", h)).is_none());
    assert!(parse_csv(&format!("{}1,-0,3,\"\"\n", h)).is_none());
    assert!(parse_csv(&format!("{}1,2147483648,3,\"\"\n", h)).is_none());
    assert!(parse_csv(&format!("{}18446744073709551616,2,3,\"\"\n", h)).is_none());
    // unquoted keys, empty key name
    assert!(parse_csv(&format!("{}1,2,3,A\n", h)).is_none());
    assert!(parse_csv(&format!("{}1,2,3,\"A++B\"\n", h)).is_none());
    assert!(parse_csv(&format!("{}1,2,3,\"A+\"\n", h)).is_none());
}

#[test]
fn parse_reads_a_written_line() {
    let h = "timestamp,mouse_x,mouse_y,keys_pressed\n";
    let back = parse_csv(&format!("{}5,-2147483648,9,\"Enter+Escape\"\n", h)).unwrap();
    assert_eq!(back.len(), 1);
    assert!(same(&back[0], &rec(5, i32::MIN, 9, &["Enter", "Escape"])));
}

#[test]
fn decimal_text_of_integers() {
    let mut s = String::new();
    push_u64(&mut s, 0);
    push_u64(&mut s, 1234567890);
    push_u64(&mut s, u64::MAX);
    assert_eq!(s, "0123456789018446744073709551615");
    let mut t = String::new();
    push_i32(&mut t, i32::MIN);
    t.push(' ');
    push_i32(&mut t, -7);
    t.push(' ');
    push_i32(&mut t, i32::MAX);
    assert_eq!(t, "-2147483648 -7 2147483647");
}

#[test]
fn parse_numbers_in_a_range() {
    let s = chars("x18446744073709551615y");
    assert_eq!(parse_u64(&s, 1, 21), Some(u64::MAX));
    assert_eq!(parse_u64(&s, 1, 3), Some(18));
    assert_eq!(parse_u64(&s, 1, 1), None);
    assert_eq!(parse_u64(&s, 0, 3), None);
    let z = chars("0");
    assert_eq!(parse_u64(&z, 0, 1), Some(0));
    let over = chars("18446744073709551616");
    assert_eq!(parse_u64(&over, 0, over.len()), None);
    let n = chars("-2147483648");
    assert_eq!(parse_i32(&n, 0, n.len()), Some(i32::MIN));
    let m = chars("-2147483649");
    assert_eq!(parse_i32(&m, 0, m.len()), None);
    let p = chars("2147483647");
    assert_eq!(parse_i32(&p, 0, p.len()), Some(i32::MAX));
    let dash = chars("-");
    assert_eq!(parse_i32(&dash, 0, 1), None);
}
