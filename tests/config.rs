use swipe_video::canvas::Color;
use swipe_video::config::{BigImg, BigImgBuilder};
use swipe_video::error::{IoErrorKind, Kind};
use swipe_video::tile::Chunk;

fn tiles(n: usize) -> Vec<Chunk> {
    (0..n)
        .map(|i| {
            Chunk::with_picture_check(true, format!("{i}.png"), vec![format!("up {i}")], vec![format!("down {i}")])
                .unwrap()
        })
        .collect()
}

#[test]
fn screen_of_four_tiles_needs_overlap_four() {
    let chunks = tiles(10);
    let mut b = BigImgBuilder::new(String::from("."), &chunks);
    let big = b.build_checked(true).unwrap();
    assert_eq!(big.overlap, 4);
    assert_eq!(big.step, 10);
    assert_eq!(big.text_down_h, 1080 - 520 - 214);
    assert_eq!(big.text_color, Color::new(255, 255, 255, 255));
}

#[test]
fn tile_width_not_dividing_screen_fails() {
    let chunks = tiles(10);
    let mut b = BigImg::builder(String::from("."), &chunks);
    b.width_chunk = 500;
    let e = b.build_checked(true).unwrap_err();
    assert_eq!(e.kind, Kind::BigImgBuilderError);
    assert_eq!(e.message, "width_screen % width_chunk != 0");
}

#[test]
fn build_checks_in_order() {
    let chunks = tiles(10);
    let mut b = BigImgBuilder::new(String::from("."), &chunks);
    assert_eq!(b.build_checked(false).unwrap_err().message, "work_dir is not exist");
    let none: Vec<Chunk> = Vec::new();
    let mut e = BigImgBuilder::new(String::from("."), &none);
    assert_eq!(e.build_checked(true).unwrap_err().message, "chunks data is empty");
    let mut p = BigImgBuilder::new(String::from("."), &chunks);
    p.pic_h = 2000;
    assert_eq!(p.build_checked(true).unwrap_err().message, "pic_h > height_screen");
    let mut u = BigImgBuilder::new(String::from("."), &chunks);
    u.text_up_h = 600;
    assert_eq!(u.build_checked(true).unwrap_err().message, "pic_h + text_up_h > height_screen");
    let mut s = BigImgBuilder::new(String::from("."), &chunks);
    s.step = 4;
    assert_eq!(s.build_checked(true).unwrap_err().message, "step must exceed the tiles of one screen");
    let mut v = BigImgBuilder::new(String::from("."), &chunks);
    v.video_swip_speed = 0;
    assert_eq!(v.build_checked(true).unwrap_err().message, "video_swip_speed is zero");
}

#[test]
fn step_is_lowered_to_the_tile_count() {
    let chunks = tiles(3);
    let mut b = BigImgBuilder::new(String::from("."), &chunks);
    b.width_chunk = 960;
    let big = b.build_checked(true).unwrap();
    assert_eq!(b.step, 3);
    assert_eq!(big.step, 3);
    assert_eq!(big.overlap, 2);
}

#[test]
fn build_looks_up_the_work_dir() {
    let chunks = tiles(10);
    let mut b = BigImgBuilder::new(String::from("./no/such/dir/here"), &chunks);
    assert_eq!(b.build().unwrap_err().message, "work_dir is not exist");
    let mut ok = BigImgBuilder::new(String::from("."), &chunks);
    assert!(ok.build().is_ok());
}

#[test]
fn missing_picture_fails_with_not_found() {
    let r = Chunk::new(String::from("./no/such/picture.png"), vec![], vec![]);
    let e = r.unwrap_err();
    assert_eq!(e.kind, Kind::IoError(IoErrorKind::NotFound));
    let ok = Chunk::new(String::from("."), vec![String::from("a")], vec![]).unwrap();
    assert_eq!(ok.pic_path(), ".");
    assert_eq!(ok.text_up(), &vec![String::from("a")]);
}

#[test]
fn setters_chain() {
    let chunks = tiles(10);
    let mut b = BigImgBuilder::new(String::from("."), &chunks);
    b.screen((960, 540)).step(6).width_chunk(320).pic_h(300).text_up_h(100).video_fps(30).video_swip_speed(2);
    let big = b.build_checked(true).unwrap();
    assert_eq!(big.screen, (960, 540));
    assert_eq!(big.overlap, 3);
    assert_eq!(big.step, 6);
    assert_eq!(big.text_down_h, 140);
    assert_eq!(big.video_fps, 30);
}

#[test]
fn defaults_are_valid() {
    let chunks = tiles(10);
    let big = BigImg::new(String::from("."), &chunks).unwrap();
    assert_eq!(big.overlap, 4);
    assert_eq!(big.video_background_color, "white");
    assert_eq!(big.max_scale, 120);
}

#[test]
fn failed_build_leaves_the_builder_unchanged() {
    let chunks = tiles(10);
    let mut b = BigImgBuilder::new(String::from("."), &chunks);
    b.width_chunk(500);
    assert!(b.build_checked(true).is_err());
    assert_eq!(b.step, 40);
    assert!(b.build().is_err());
    assert_eq!(b.step, 40);
    b.width_chunk(480);
    assert!(b.build_checked(true).is_ok());
    assert_eq!(b.step, 10);
}
