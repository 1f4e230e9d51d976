use swipe_video::canvas::{Canvas, Color};
use swipe_video::slides::{combain_slides, divide, generate_endpoint_video, generate_mid_video, VideoConfig};

fn config() -> VideoConfig {
    VideoConfig {
        screen: (1920, 1080),
        fps: 30,
        transition_sec: 2,
        work_dir: String::from("."),
        overlap: 1,
        step: 3,
        back_color: "black".to_string(),
        cover_time: 3,
        ending_time: 3,
        video_swip_speed: 10,
        width_slides: 192,
    }
}

#[test]
fn test_divide() {
    let config = config();
    let divided = divide(10, &config);
    assert_eq!(divided.len(), 5);
    assert_eq!(divided[0].len(), 3);
    assert_eq!(divided[1].len(), 3);
    assert_eq!(divided[2].len(), 3);
    assert_eq!(divided[3].len(), 3);
    assert_eq!(divided[4].len(), 2);
}

#[test]
fn test_combain_slides_empty() {
    let config = config();
    let result = combain_slides(&config, &Vec::new());
    assert!(result.is_err());
}

#[test]
fn slides_join_and_encoder_arguments() {
    let config = config();
    let c = Color::new(1, 2, 3, 255);
    let frame = combain_slides(&config, &vec![Canvas::new(192, 1080, c), Canvas::new(192, 1080, c)]).unwrap();
    assert_eq!(frame.dimensions(), (384, 1080));
    assert_eq!(generate_endpoint_video(&config, "a.png", "a.mp4", 3)[7], "color=black:s=1920x1080:r=30[bg];[bg][0]overlay=shortest=1");
    let mid = generate_mid_video(&config, 3, "00.png", "00.mp4");
    assert_eq!(mid[5], "21");
    assert_eq!(mid[9], "color=black:s=1920x1080:r=30[bg];[bg][0]overlay=x=-t*19:shortest=1");
}
