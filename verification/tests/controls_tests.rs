use datarender::{apply_message, gettuple, parse_i64, parse_usize, update};

#[test]
fn parse_usize_accepts_digits_and_plus() {
    assert_eq!(parse_usize(b"0"), Some(0));
    assert_eq!(parse_usize(b"42"), Some(42));
    assert_eq!(parse_usize(b"+7"), Some(7));
    assert_eq!(parse_usize(b"007"), Some(7));
}

#[test]
fn parse_usize_rejects_what_std_rejects() {
    for s in ["", "+", "-", "-1", "1a", " 1", "++1", "1.0"] {
        assert_eq!(parse_usize(s.as_bytes()), None, "{:?}", s);
        assert!(s.parse::<usize>().is_err());
    }
}

#[test]
fn parse_usize_overflow() {
    let max = usize::MAX.to_string();
    assert_eq!(parse_usize(max.as_bytes()), Some(usize::MAX));
    let over = format!("{}0", usize::MAX);
    assert_eq!(parse_usize(over.as_bytes()), None);
}

#[test]
fn parse_i64_signs_and_bounds() {
    assert_eq!(parse_i64(b"-3600"), Some(-3600));
    assert_eq!(parse_i64(b"+15"), Some(15));
    assert_eq!(parse_i64(b"9223372036854775807"), Some(i64::MAX));
    assert_eq!(parse_i64(b"-9223372036854775808"), Some(i64::MIN));
    assert_eq!(parse_i64(b"9223372036854775808"), None);
    assert_eq!(parse_i64(b"-9223372036854775809"), None);
    assert_eq!(parse_i64(b"-"), None);
    assert_eq!(parse_i64(b"--1"), None);
    assert_eq!(parse_i64(b"+-1"), None);
}

#[test]
fn parse_agrees_with_std_on_samples() {
    for s in ["0", "12", "-12", "+12", "-0", "18446744073709551615", "x", "", "9999999999999999999999"] {
        assert_eq!(parse_usize(s.as_bytes()), s.parse::<usize>().ok(), "{:?}", s);
        assert_eq!(parse_i64(s.as_bytes()), s.parse::<i64>().ok(), "{:?}", s);
    }
}

#[test]
fn gettuple_reads_index_and_value() {
    assert_eq!(gettuple(b"8|120"), Some((8, 120)));
    assert_eq!(gettuple(b"0|-3600"), Some((0, -3600)));
}

#[test]
fn gettuple_splits_at_last_bar() {
    assert_eq!(gettuple(b"1|2|3"), None);
    assert_eq!(gettuple(b"12|"), None);
    assert_eq!(gettuple(b"open"), None);
    assert_eq!(gettuple(b"|5"), None);
}

#[test]
fn apply_message_sets_one_slot() {
    let values: [i64; 9] = [1, 2, 3, 4, 5, 6, 7, 8, 9];
    assert_eq!(
        apply_message(values, b"3|-10000"),
        Some([1, 2, 3, -10000, 5, 6, 7, 8, 9])
    );
}

#[test]
fn apply_message_rejects_bad_slot_and_text() {
    let values: [i64; 9] = [0; 9];
    assert_eq!(apply_message(values, b"9|1"), None);
    assert_eq!(apply_message(values, b"exit"), None);
    assert_eq!(apply_message(values, b"open"), None);
}

#[test]
fn update_reads_slots() {
    let c = update([10, 11, 12, 13, 14, 15, 16, 17, 18]);
    assert_eq!((c.rotx, c.roty, c.rotz), (10, 11, 12));
    assert_eq!((c.posx, c.posy, c.posz), (13, 14, 15));
    assert_eq!(c.ind, 17);
    assert_eq!(c.buf, 16);
    assert_eq!(c.fov, 18);
}

#[test]
fn panel_messages_read_back() {
    for index in 0..9usize {
        for value in [-10000i64, -1, 0, 7, 3600, i64::MIN, i64::MAX] {
            let msg = format!("{}|{}", index, value);
            assert_eq!(gettuple(msg.as_bytes()), Some((index, value)));
            let mut expected: [i64; 9] = [5; 9];
            expected[index] = value;
            assert_eq!(apply_message([5; 9], msg.as_bytes()), Some(expected));
        }
    }
}
