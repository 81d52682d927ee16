use ongrow_server::clock::{
    earlier_or_now, get_expired_time, now, seconds_or_zero, EXPIRY_SECONDS,
};
use ongrow_server::update::{is_newer, latest_release_version, ONE_DAY_IN_SECONDS};
use std::time::{Duration, Instant, SystemTime};

#[test]
fn now_is_the_time_of_day() {
    let seconds = || {
        SystemTime::now()
            .duration_since(SystemTime::UNIX_EPOCH)
            .unwrap()
            .as_secs()
    };
    let before = seconds();
    let time = now();
    assert!(before <= time && time <= seconds());
    assert_eq!(seconds_or_zero(Some(7)), 7);
    assert_eq!(seconds_or_zero(None), 0);
}

#[test]
fn expired_time_lies_an_hour_back() {
    assert_eq!(EXPIRY_SECONDS, 3600);
    let expired = get_expired_time();
    let now = Instant::now();
    match now.checked_sub(Duration::from_secs(3600)) {
        Some(_) => assert!(now.duration_since(expired) >= Duration::from_secs(3600)),
        None => assert!(expired <= now),
    }
    let later = now + Duration::from_secs(1);
    assert_eq!(earlier_or_now(Some(now), later), now);
    assert_eq!(earlier_or_now(None, later), later);
}

#[test]
fn newer_releases_are_noticed() {
    assert_eq!(
        latest_release_version("https://example.com/releases/tag/1.1.15"),
        "1.1.15"
    );
    assert_eq!(latest_release_version("1.1.15"), "1.1.15");
    assert_eq!(latest_release_version("https://example.com/"), "");
    assert!(is_newer(2, 1));
    assert!(!is_newer(1, 1));
    assert!(!is_newer(-1, 1));
    assert_eq!(ONE_DAY_IN_SECONDS, 60 * 60 * 24);
}
