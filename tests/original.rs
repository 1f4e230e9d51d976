use swipe_video::dates::days_since_epoch;

#[test]
fn main_test() {}

#[test]
fn duration_test() {
    let year = 0;
    let month = 1;
    let day = 1;
    let days_since_epoch = days_since_epoch(year, month, day).unwrap();
    assert_eq!(days_since_epoch, 719162);
}
