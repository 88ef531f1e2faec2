use taskmaster_rs::color::{parse_color, Color};
use taskmaster_rs::date::{format_timestamp, parse_timestamp, Date, Timestamp};
use taskmaster_rs::ident::{format_id, parse_id};

// What the documentation of `color_of_text` says, written out.
fn color_as_described(s: &str) -> Option<Color> {
    let digits: Vec<char> = s.chars().filter(|c| *c != '#').collect();
    if !digits.iter().all(|c| c.is_ascii_hexdigit()) {
        return None;
    }
    let v: Vec<u8> = digits.iter().map(|c| c.to_digit(16).unwrap() as u8).collect();
    if v.len() == 3 {
        Some(Color { red: 17 * v[0], green: 17 * v[1], blue: 17 * v[2] })
    } else if v.len() == 6 && !s.ends_with('#') {
        Some(Color { red: 16 * v[0] + v[1], green: 16 * v[2] + v[3], blue: 16 * v[4] + v[5] })
    } else {
        None
    }
}

// Every text of up to `len` characters over `alphabet`.
fn texts(alphabet: &[char], len: usize) -> Vec<String> {
    let mut all = vec![String::new()];
    let mut last = vec![String::new()];
    for _ in 0..len {
        let mut next = Vec::new();
        for s in &last {
            for c in alphabet {
                let mut t = s.clone();
                t.push(*c);
                next.push(t);
            }
        }
        all.extend(next.iter().cloned());
        last = next;
    }
    all
}

#[test]
fn colors_are_read_as_described_from_every_short_text() {
    for s in texts(&['#', '0', 'a', 'F', 'g'], 7) {
        assert_eq!(parse_color(&s), color_as_described(&s), "{:?}", s);
    }
}

#[test]
fn colors_are_read_as_described_from_texts_with_other_characters() {
    for s in texts(&['#', '9', ' ', '\u{e9}', '+', 'x', 'B'], 4) {
        assert_eq!(parse_color(&s), color_as_described(&s), "{:?}", s);
    }
    for s in ["#12345g", "1234567", "#1234567", "12345#6", "1#2#3#4#5#6", "1#2#3#4#5#6#", "######", "#abcdef", "#ABCDEF", "0x1234"] {
        assert_eq!(parse_color(s), color_as_described(s), "{:?}", s);
    }
}

// What the documentation of `uuid_text` says, written out.
fn id_as_described(id: u128) -> String {
    let mut s = String::new();
    for i in 0..36u32 {
        if i == 8 || i == 13 || i == 18 || i == 23 {
            s.push('-');
        } else {
            let hyphens = if i > 23 { 4 } else if i > 18 { 3 } else if i > 13 { 2 } else if i > 8 { 1 } else { 0 };
            let k = i - hyphens;
            let d = ((id / 16u128.pow(31 - k)) % 16) as u32;
            s.push(if d < 10 { char::from_u32(d + '0' as u32).unwrap() } else { char::from_u32(d - 10 + 'a' as u32).unwrap() });
        }
    }
    s
}

#[test]
fn identifiers_are_written_as_described() {
    let mut id: u128 = 0x0123_4567_89ab_cdef_0011_2233_4455_6677;
    for _ in 0..2000 {
        assert_eq!(format_id(id), id_as_described(id));
        assert_eq!(parse_id(&format_id(id)), Some(id));
        id = id.wrapping_mul(0x2360_ed05_1fc6_5da4_4385_df64_9fcc_f645).wrapping_add(0x5851_f42d_4c95_7f2d);
    }
    for id in [0, 1, 15, 16, u128::MAX, 1 << 127, (1 << 64) - 1, 1 << 64] {
        assert_eq!(format_id(id), id_as_described(id));
    }
}

// What the documentation of `plain_timestamp_text` says, written out.
fn timestamp_as_described(t: &Timestamp) -> String {
    let second = if t.nanosecond() >= 1_000_000_000 { t.second() + 1 } else { t.second() };
    format!(
        "{:04}{:02}{:02}T{:02}{:02}{:02}",
        t.date().year(),
        t.date().month(),
        t.date().day(),
        t.hour(),
        t.minute(),
        second
    )
}

fn whole_second(t: &Timestamp) -> Timestamp {
    let nanos = if t.nanosecond() >= 1_000_000_000 { 1_000_000_000 } else { 0 };
    Timestamp::new(t.date(), t.hour(), t.minute(), t.second(), nanos).unwrap()
}

#[test]
fn timestamps_are_written_and_read_as_described() {
    let mut seen = 0;
    for year in [0, 1, 9, 10, 99, 100, 999, 1000, 1582, 1900, 2000, 2023, 2024, 9999] {
        for month in 1..=12 {
            for day in [1, 2, 9, 10, 28, 29, 30, 31] {
                let Some(date) = Date::new(year, month, day) else { continue };
                for (h, m, s, n) in [
                    (0, 0, 0, 0),
                    (9, 9, 9, 999_999_999),
                    (10, 10, 10, 1),
                    (23, 59, 59, 0),
                    (23, 59, 59, 1_000_000_000),
                    (12, 30, 59, 1_999_999_999),
                ] {
                    let t = Timestamp::new(date, h, m, s, n).unwrap();
                    let text = format_timestamp(&t);
                    assert_eq!(text, timestamp_as_described(&t));
                    assert_eq!(parse_timestamp(&text), Some(whole_second(&t)));
                    seen += 1;
                }
            }
        }
    }
    assert!(seen > 7000);
}

#[test]
fn every_day_that_exists_is_a_day_of_chrono() {
    for year in [-262143, -401, -400, -100, -4, -1, 0, 1, 4, 100, 400, 1900, 2000, 2023, 2024, 2100, 262142] {
        for month in 0..=13 {
            for day in 0..=32 {
                let ours = Date::new(year, month, day);
                let theirs = chrono::NaiveDate::from_ymd_opt(year, month, day);
                assert_eq!(ours.is_some(), theirs.is_some(), "{}-{}-{}", year, month, day);
            }
        }
    }
    assert!(Date::new(262143, 1, 1).is_none() && chrono::NaiveDate::from_ymd_opt(262143, 1, 1).is_none());
    assert!(Date::new(-262144, 1, 1).is_none() && chrono::NaiveDate::from_ymd_opt(-262144, 1, 1).is_none());
}

#[test]
fn every_time_of_day_is_a_time_of_chrono() {
    let date = Date::new(2023, 8, 1).unwrap();
    let theirs = chrono::NaiveDate::from_ymd_opt(2023, 8, 1).unwrap();
    for h in [0, 1, 23, 24, 25] {
        for m in [0, 59, 60] {
            for s in [0, 58, 59, 60, 61] {
                for n in [0, 999_999_999, 1_000_000_000, 1_999_999_999, 2_000_000_000, u32::MAX] {
                    assert_eq!(
                        Timestamp::new(date, h, m, s, n).is_some(),
                        theirs.and_hms_nano_opt(h, m, s, n).is_some(),
                        "{}:{}:{}.{}",
                        h,
                        m,
                        s,
                        n
                    );
                }
            }
        }
    }
}
