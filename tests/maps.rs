use swipe_video::error::{IoErrorKind, Kind};
use swipe_video::maps::merge_map;
use swipe_video::sources::{find_image, image_candidates, pick_existing};

fn entry(k: &str, v: &[&str]) -> (String, Vec<String>) {
    (k.to_string(), v.iter().map(|s| s.to_string()).collect())
}

#[test]
fn merge_appends_values_of_shared_keys() {
    let a = vec![entry("amiya", &["a1"]), entry("kal", &["k1", "k2"])];
    let b = vec![entry("kal", &["k3"]), entry("w", &["w1"])];
    let mut r = merge_map(a, b);
    r.sort();
    assert_eq!(r, vec![entry("amiya", &["a1"]), entry("kal", &["k1", "k2", "k3"]), entry("w", &["w1"])]);
}

#[test]
fn merge_with_empty_maps() {
    let a = vec![entry("x", &["1"])];
    assert_eq!(merge_map(a.clone(), Vec::new()), a);
    assert_eq!(merge_map(Vec::new(), a.clone()), a);
}

#[test]
fn picture_candidates_in_order() {
    let c = image_candidates("pics", "amiya");
    assert_eq!(
        c,
        vec!["pics/amiya_skin3.png", "pics/amiya_skin2.png", "pics/amiya_skin1.png", "pics/amiya_2.png", "pics/amiya_1.png"]
    );
    let e = find_image("./no/such/dir", "amiya").unwrap_err();
    assert_eq!(e.kind, Kind::IoError(IoErrorKind::NotFound));
}

#[test]
fn first_existing_picture_is_picked() {
    let paths = image_candidates("d", "n");
    let r = pick_existing(&paths, &vec![false, false, true, true, false]).unwrap();
    assert_eq!(r, "d/n_skin1.png");
    let e = pick_existing(&paths, &vec![false; 5]).unwrap_err();
    assert_eq!(e.kind, Kind::IoError(IoErrorKind::NotFound));
}
