use ppk2tui::build_info::{build_date, git_sha, tui_label, version_string};

const NOW: i64 = 1_778_680_800; // 2026-05-13 14:00 UTC

fn current_date() -> String {
    build_date(None, NOW)
}

fn current_sha() -> String {
    git_sha(None, Some("abc1234\n"), false)
}

#[test]
fn build_date_is_iso_yyyy_mm_dd() {
    let date = current_date();
    let parts: Vec<&str> = date.split('-').collect();
    assert_eq!(parts.len(), 3, "expected YYYY-MM-DD, got {date}");
    assert_eq!(parts[0].len(), 4, "expected 4-digit year in {date}");
    let year: u32 = parts[0].parse().expect("year should parse");
    let month: u32 = parts[1].parse().expect("month should parse");
    let day: u32 = parts[2].parse().expect("day should parse");
    assert!(year >= 2024, "implausible build year {year}");
    assert!((1..=12).contains(&month), "bad month {month}");
    assert!((1..=31).contains(&day), "bad day {day}");
    assert_eq!(date, "2026-05-13");
}

#[test]
fn git_sha_is_populated() {
    assert!(!current_sha().is_empty(), "git sha should never be empty");
    assert!(!git_sha(None, None, false).is_empty());
    assert!(!git_sha(Some(""), Some(""), true).is_empty());
}

#[test]
fn version_strings_embed_the_crate_version() {
    let version = "0.1.0";
    let sha = current_sha();
    let date = current_date();
    let long = version_string(version, &sha, &date);
    let label = tui_label(version, &sha, &date);
    assert!(long.starts_with(version));
    assert!(label.contains(version));
    assert!(label.contains(&sha));
    assert!(label.contains(&date));
    assert_eq!(long, "0.1.0 (abc1234, built 2026-05-13)");
    assert_eq!(label, "v0.1.0 · abc1234 · 2026-05-13");
}

#[test]
fn a_given_sha_wins() {
    assert_eq!(git_sha(Some(" f00 \n"), Some("abc"), true), "f00");
    assert_eq!(git_sha(Some(" \t"), Some("abc\n"), true), "abc-dirty");
    assert_eq!(git_sha(None, Some(" abc\n"), false), "abc");
    assert_eq!(git_sha(None, Some("\n"), true), "unknown");
    assert_eq!(git_sha(None, None, true), "unknown");
}

#[test]
fn a_given_second_wins() {
    assert_eq!(build_date(Some(" 0\n"), NOW), "1970-01-01");
    assert_eq!(build_date(Some("+951782400"), NOW), "2000-02-29");
    assert_eq!(build_date(Some("-1"), NOW), "1969-12-31");
    for bad in ["", "x", "1.5", "99999999999999999999", "253402300800", "-377705116801"] {
        assert_eq!(build_date(Some(bad), NOW), "2026-05-13", "{bad}");
    }
}

#[test]
fn dates_reach_from_one_end_of_the_calendar_to_the_other() {
    assert_eq!(build_date(None, -377_705_116_800), "-9999-01-01");
    assert_eq!(build_date(None, 253_402_300_799), "9999-12-31");
    assert_eq!(build_date(None, -62_167_219_200), "0000-01-01");
    assert_eq!(build_date(None, -62_167_219_201), "-0001-12-31");
    assert_eq!(build_date(None, -62_135_596_800), "0001-01-01");
}

fn leap(y: i64) -> bool {
    y.rem_euclid(4) == 0 && (y.rem_euclid(100) != 0 || y.rem_euclid(400) == 0)
}

#[test]
fn every_day_has_its_date() {
    // Day by day through four centuries.
    let (mut y, mut m, mut d) = (1800i64, 1i64, 1i64);
    let mut secs: i64 = -5_364_662_400;
    while y < 2200 {
        assert_eq!(build_date(None, secs + 86_399), format!("{y:04}-{m:02}-{d:02}"));
        let last = match m {
            2 => {
                if leap(y) {
                    29
                } else {
                    28
                }
            }
            4 | 6 | 9 | 11 => 30,
            _ => 31,
        };
        d += 1;
        if d > last {
            d = 1;
            m += 1;
        }
        if m > 12 {
            m = 1;
            y += 1;
        }
        secs += 86_400;
    }
}
