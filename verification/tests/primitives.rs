use synclock::clock::{
    count_minutes, floor_mod, millis_of, pick_read, read_start, read_wall_clock, resolve,
    resolve_here, LocalOffsets, Moment,
};
use synclock::http::{basic_auth, bearer, is_success, required};
use synclock::minutes::{divide, fmt_duration, minutes_per_key};
use synclock::sorting::sort_by_keys;
use synclock::text::{contains_text, i64_text, not_after, strip_trailing, text_eq, u64_text};

#[test]
fn durations_in_hours_and_minutes() {
    assert_eq!(fmt_duration(0), "0m");
    assert_eq!(fmt_duration(45), "45m");
    assert_eq!(fmt_duration(60), "1h");
    assert_eq!(fmt_duration(90), "1h 30m");
    assert_eq!(fmt_duration(1445), "24h 5m");
    assert_eq!(fmt_duration(-30), "-30m");
    assert_eq!(fmt_duration(-90), "-1h -30m");
    assert_eq!(fmt_duration(i64::MIN), "-153722867280912930h -8m");
}

#[test]
fn shares_are_rounded() {
    assert_eq!(minutes_per_key(30, 1), 30);
    assert_eq!(minutes_per_key(30, 4), 8);
    assert_eq!(minutes_per_key(10, 4), 3);
    assert_eq!(minutes_per_key(9, 4), 2);
    assert_eq!(minutes_per_key(1, 5), 1);
    assert_eq!(minutes_per_key(0, 2), 1);
    assert_eq!(minutes_per_key(-100, 2), 1);
    for min in 0..200i64 {
        for n in 1..9usize {
            let float = (min as f64 / n as f64).round().max(1.0) as i64;
            assert_eq!(minutes_per_key(min, n), float);
        }
    }
}

#[test]
fn division_is_cut_towards_zero() {
    assert_eq!(divide(7, 2), (3, 1));
    assert_eq!(divide(-7, 2), (-3, -1));
    assert_eq!(divide(i64::MIN, 1), (i64::MIN, 0));
    assert_eq!(floor_mod(-7, 2), 1);
    assert_eq!(floor_mod(7, 2), 1);
    assert_eq!(floor_mod(i64::MIN, 3), 1);
    assert_eq!(floor_mod(i64::MIN, i64::MAX), i64::MAX - 1);
}

#[test]
fn sorting_is_stable() {
    let keys = ["b", "a", "b", "", "a"].iter().map(|s| s.to_string()).collect();
    assert_eq!(sort_by_keys(vec![1, 2, 3, 4, 5], keys), vec![4, 2, 5, 1, 3]);
}

#[test]
fn texts_are_ordered_as_strings_are() {
    let list = ["", "a", "ab", "b", "B", "é", "10:00", "9:00", "\u{10ffff}", "\u{ffff}"];
    for a in list {
        for b in list {
            assert_eq!(not_after(a, b), a <= b);
            assert_eq!(text_eq(a, b), a == b);
            assert_eq!(contains_text(a, b), a.contains(b));
        }
    }
}

#[test]
fn trailing_characters_are_stripped() {
    assert_eq!(strip_trailing("https://x//", '/'), "https://x");
    assert_eq!(strip_trailing("//", '/'), "");
    assert_eq!(strip_trailing("a/b", '/'), "a/b");
}

#[test]
fn numbers_in_decimal() {
    for n in [0u64, 9, 10, 200, 4_294_967_296, u64::MAX] {
        assert_eq!(u64_text(n), n.to_string());
    }
    for n in [0i64, -1, 42, i64::MIN, i64::MAX] {
        assert_eq!(i64_text(n), n.to_string());
    }
}

#[test]
fn headers_and_settings() {
    assert_eq!(basic_auth("user", "pass"), "Basic dXNlcjpwYXNz");
    assert_eq!(bearer("t"), "Bearer t");
    assert!(is_success(200) && is_success(299));
    assert!(!is_success(199) && !is_success(300) && !is_success(401));
    assert_eq!(required(Some("v".into()), "NAME"), Ok("v".to_string()));
    assert_eq!(required(None, "NAME"), Err("NAME not set".to_string()));
}

#[test]
fn minutes_between_moments() {
    let at = |secs: i64, frac: u32| Moment { secs, frac };
    assert_eq!(count_minutes(at(0, 0), at(60, 0)), 1);
    assert_eq!(count_minutes(at(0, 1), at(60, 0)), 0);
    assert_eq!(count_minutes(at(60, 0), at(0, 0)), -1);
    assert_eq!(millis_of(at(-1, 999_000_000)), -1);
    assert_eq!(count_minutes(at(0, 0), at(59, 999_000_000)), 0);
    assert_eq!(count_minutes(at(0, 0), at(7200, 0)), 120);
    assert_eq!(count_minutes(at(7200, 0), at(0, 0)), -120);
    let (m, n) = (at(1, 0), at(2, 0));
    assert_eq!(pick_read(Some(m), Some(n), None), Some(m));
    assert_eq!(pick_read(None, Some(n), Some(m)), Some(n));
    assert_eq!(pick_read(None, None, Some(m)), Some(m));
    assert_eq!(pick_read(None, None, None), None);
    assert_eq!(read_start("1970-01-01T00:00:01Z"), Some(m));
    assert_eq!(read_start("1970-01-01T00:00:02"), Some(n));
    assert_eq!(read_start("nope"), None);
}

#[test]
fn wall_clock_times_of_a_zone() {
    let wall = read_wall_clock("2026-05-26", 23, 0, 0, 0).unwrap();
    assert_eq!(wall, Moment { secs: 1_779_836_400, frac: 0 });
    let at = |secs: i64| Some(Moment { secs, frac: 0 });
    let none = LocalOffsets::Missing;
    assert_eq!(resolve(wall, LocalOffsets::Single(7200), none), at(1_779_829_200));
    assert_eq!(resolve(wall, LocalOffsets::Ambiguous(7200, 3600), none), at(1_779_829_200));
    assert_eq!(resolve(wall, LocalOffsets::Ambiguous(3600, 7200), none), at(1_779_829_200));
    // Clocks jump over the time: it is taken an hour later.
    assert_eq!(resolve(wall, none, LocalOffsets::Single(7200)), at(1_779_832_800));
    assert_eq!(resolve(wall, none, LocalOffsets::Ambiguous(7200, 3600)), None);
    assert_eq!(resolve(wall, none, none), None);
    assert!(resolve_here(wall).is_some());
    let last = read_wall_clock("2026-05-26", 23, 59, 59, 999).unwrap();
    let first = read_wall_clock("2026-05-26", 0, 0, 0, 0).unwrap();
    let zone = LocalOffsets::Single(-18_000);
    let length = millis_of(resolve(last, zone, none).unwrap()) - millis_of(resolve(first, zone, none).unwrap());
    assert_eq!(length, 86_399_999);
}
