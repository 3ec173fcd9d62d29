use vertebrae::text::numbered_name;
use vertebrae::time::{SystemTimeError, Timestamp};

#[test]
fn seconds_are_whole() {
    assert_eq!(Timestamp::after_epoch(5, 999_999_999).unix_secs(), Ok(5));
    assert_eq!(Timestamp::after_epoch(u64::MAX, 0).unix_secs(), Ok(u64::MAX));
    assert_eq!(Timestamp::before_epoch(0, 0).unix_secs(), Ok(0));
    assert_eq!(
        Timestamp::before_epoch(2, 1).unix_secs(),
        Err(SystemTimeError { nanos: 2_000_000_001 })
    );
}

#[test]
fn durations_do_not_go_back() {
    let a = Timestamp::before_epoch(1, 0);
    let b = Timestamp::after_epoch(2, 5);
    assert_eq!(b.nanos_since(&a), Some(3_000_000_005));
    assert_eq!(a.nanos_since(&a), Some(0));
    assert_eq!(a.nanos_since(&b), None);
}

#[test]
fn the_clock_shows_the_time() {
    let before = std::time::SystemTime::now()
        .duration_since(std::time::UNIX_EPOCH)
        .unwrap()
        .as_secs();
    let now = Timestamp::now().unix_secs().unwrap();
    assert!(before <= now && now <= before + 60);
}

#[test]
fn numbers_go_behind_names() {
    let name = |n| String::from_utf8(numbered_name(&b"report.txt".to_vec(), n)).unwrap();
    assert_eq!(name(0), "report.txt.0");
    assert_eq!(name(10), "report.txt.10");
    assert_eq!(name(u64::MAX), format!("report.txt.{}", u64::MAX));
    assert_eq!(numbered_name(&vec![], 7), b".7".to_vec());
}

#[test]
fn a_reading_counts_from_the_epoch_both_ways() {
    let after = Timestamp::from_reading(Ok((7, 8)));
    let before = Timestamp::from_reading(Err((7, 8)));
    assert_eq!(after, Timestamp::after_epoch(7, 8));
    assert_eq!(before, Timestamp::before_epoch(7, 8));
    assert_eq!(after.nanos_since(&before), Some(14_000_000_016));
}
