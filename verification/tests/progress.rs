use mini_wallpaper::progress::{ProgressCounter, THROTTLE_BYTES};

#[test]
fn reports_every_64_kib_and_at_the_end() {
    let mut c = ProgressCounter::new(200_000);
    assert_eq!(c.total(), 200_000);
    assert_eq!(c.advance(1_000), None);
    assert_eq!(c.advance(THROTTLE_BYTES - 1_000), Some(THROTTLE_BYTES));
    assert_eq!(c.advance(10), None);
    assert_eq!(c.advance(THROTTLE_BYTES), Some(2 * THROTTLE_BYTES + 10));
    assert_eq!(c.advance(200_000 - c.written()), Some(200_000));
    assert_eq!(c.advance(0), Some(200_000));
    assert_eq!(c.written(), 200_000);
}

#[test]
fn empty_total_reports_at_once() {
    let mut c = ProgressCounter::new(0);
    assert_eq!(c.advance(0), Some(0));
}
