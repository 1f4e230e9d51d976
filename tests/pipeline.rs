use swipe_video::config::BigImgBuilder;
use swipe_video::pipeline::{clip_list, concat_command, frame_picture_name, manifest, plan_run, Step};
use swipe_video::tile::Chunk;

fn tiles(n: usize) -> Vec<Chunk> {
    (0..n).map(|i| Chunk::with_picture_check(true, format!("{i}.png"), vec![], vec![]).unwrap()).collect()
}

#[test]
fn run_plan_orders_cover_scrolls_and_ending() {
    assert_eq!(
        plan_run(3),
        vec![
            Step::Render(0),
            Step::Cover(0),
            Step::Scroll(0),
            Step::Render(1),
            Step::Scroll(1),
            Step::Render(2),
            Step::Scroll(2),
            Step::Ending(2),
            Step::Concat
        ]
    );
    assert_eq!(plan_run(1), vec![Step::Render(0), Step::Cover(0), Step::Scroll(0), Step::Ending(0), Step::Concat]);
}

#[test]
fn names_are_zero_padded() {
    assert_eq!(frame_picture_name(0), "00.png");
    assert_eq!(frame_picture_name(7), "07.png");
    assert_eq!(frame_picture_name(123), "123.png");
    assert_eq!(clip_list(2), vec!["cover.mp4", "00.mp4", "01.mp4", "ending.mp4"]);
}

#[test]
fn manifest_lists_each_clip() {
    let names = clip_list(1);
    assert_eq!(manifest(&names), "file cover.mp4\nfile 00.mp4\nfile ending.mp4\n");
    assert_eq!(manifest(&Vec::new()), "");
}

#[test]
fn concat_arguments() {
    assert_eq!(
        concat_command("list.txt", "result.mp4"),
        vec!["-f", "concat", "-i", "list.txt", "-c", "copy", "-y", "result.mp4"]
    );
}

#[test]
fn still_arguments() {
    let chunks = tiles(10);
    let mut b = BigImgBuilder::new(String::from("."), &chunks);
    let big = b.build_checked(true).unwrap();
    assert_eq!(
        big.generate_endpoint_video("cover.png", "cover.mp4", 3),
        vec![
            "-r",
            "1",
            "-loop",
            "1",
            "-i",
            "cover.png",
            "-filter_complex",
            "color=white:s=1920x1080:r=60[bg];[bg][0]overlay=shortest=1",
            "-preset",
            "fast",
            "-t",
            "3",
            "-y",
            "cover.mp4"
        ]
    );
}

#[test]
fn scrolling_arguments() {
    let chunks = tiles(10);
    let mut b = BigImgBuilder::new(String::from("."), &chunks);
    b.video_background_color = String::from("black");
    let big = b.build_checked(true).unwrap();
    // 10 tiles less an overlap of 4, 3 seconds each, plus one; 480 / 3 pixels per second.
    assert_eq!(
        big.generate_mid_video(10, "00.png", "00.mp4"),
        vec![
            "-r",
            "1",
            "-loop",
            "1",
            "-t",
            "19",
            "-i",
            "00.png",
            "-filter_complex",
            "color=black:s=1920x1080:r=60[bg];[bg][0]overlay=x=-t*160:shortest=1",
            "-preset",
            "fast",
            "-y",
            "00.mp4"
        ]
    );
}

#[test]
fn divide_uses_step_and_overlap() {
    let chunks = tiles(10);
    let mut b = BigImgBuilder::new(String::from("."), &chunks);
    b.step = 6;
    let big = b.build_checked(true).unwrap();
    let frames = big.divide();
    let starts: Vec<usize> = frames.iter().map(|w| w.start).collect();
    let ends: Vec<usize> = frames.iter().map(|w| w.end).collect();
    assert_eq!(starts, vec![0, 2, 4]);
    assert_eq!(ends, vec![6, 8, 10]);
}
