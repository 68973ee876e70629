use sysfetch::uptime::get_uptime;
use sysfetch::uptime::split_uptime;
use sysfetch::uptime::Uptime;

/// The line as a chain of divisions and a final trim write it.
fn line_by_hand(uptime: u64) -> String {
    let (centuries, uptime) = (uptime / 3_153_600_000, uptime % 3_153_600_000);
    let (decades, uptime) = (uptime / 315_360_000, uptime % 315_360_000);
    let (years, uptime) = (uptime / 31_563_000, uptime % 31_563_000);
    let (days, uptime) = (uptime / 86_400, uptime % 86_400);
    let (hours, uptime) = (uptime / 3_600, uptime % 3_600);
    let minutes = uptime / 60;
    let mut output = String::new();
    if centuries > 0 {
        output += format!("{}C. ", centuries).as_str();
    }
    if decades > 0 {
        output += format!("{}D. ", decades).as_str();
    }
    if years > 0 {
        output += format!("{}y ", years).as_str();
    }
    if days > 0 {
        output += format!("{}d ", days).as_str();
    }
    if hours > 0 {
        output += format!("{}h ", hours).as_str();
    }
    if minutes > 0 {
        output += format!("{}m ", minutes).as_str();
    }
    output.trim_end().to_string()
}

#[test]
fn below_a_minute_is_empty() {
    assert_eq!(get_uptime(0), "");
    assert_eq!(get_uptime(59), "");
}

#[test]
fn minutes_hours_days() {
    assert_eq!(get_uptime(60), "1m");
    assert_eq!(get_uptime(3_599), "59m");
    assert_eq!(get_uptime(3_600), "1h");
    assert_eq!(get_uptime(3_700), "1h 1m");
    assert_eq!(get_uptime(86_400), "1d");
    assert_eq!(get_uptime(86_400 + 2 * 3_600 + 3 * 60 + 4), "1d 2h 3m");
    assert_eq!(get_uptime(12 * 86_400 + 5 * 60), "12d 5m");
}

#[test]
fn years_decades_centuries() {
    assert_eq!(get_uptime(31_563_000), "1y");
    assert_eq!(get_uptime(31_562_999), "365d 7h 29m");
    assert_eq!(get_uptime(315_360_000), "1D.");
    assert_eq!(get_uptime(3_153_600_000), "1C.");
    assert_eq!(
        get_uptime(3_153_600_000 + 2 * 315_360_000 + 3 * 31_563_000 + 4 * 86_400 + 5 * 3_600 + 6 * 60),
        "1C. 2D. 3y 4d 5h 6m"
    );
}

#[test]
fn longest_uptime() {
    assert_eq!(get_uptime(u64::MAX), line_by_hand(u64::MAX));
    assert_eq!(split_uptime(u64::MAX).centuries, u64::MAX / 3_153_600_000);
}

#[test]
fn split_of_a_known_uptime() {
    assert_eq!(
        split_uptime(90_061),
        Uptime { centuries: 0, decades: 0, years: 0, days: 1, hours: 1, minutes: 1 }
    );
}

#[test]
fn split_adds_up() {
    let mut s: u64 = 12345;
    for _ in 0..500 {
        let u = split_uptime(s);
        let counted = (u.centuries as u128) * 3_153_600_000
            + (u.decades as u128) * 315_360_000
            + (u.years as u128) * 31_563_000
            + (u.days as u128) * 86_400
            + (u.hours as u128) * 3_600
            + (u.minutes as u128) * 60;
        assert!(counted <= s as u128 && (s as u128) < counted + 60);
        assert!(u.decades < 10 && u.years < 10 && u.days <= 365 && u.hours < 24 && u.minutes < 60);
        s = s.wrapping_mul(6364136223846793005).wrapping_add(1442695040888963407);
    }
}

#[test]
fn line_agrees_with_the_chain_by_hand() {
    let mut s: u64 = 1;
    for i in 0..2000u64 {
        assert_eq!(get_uptime(s), line_by_hand(s));
        assert_eq!(get_uptime(i * 55), line_by_hand(i * 55));
        s = s.wrapping_mul(6364136223846793005).wrapping_add(1442695040888963407) >> (i % 40);
    }
}
