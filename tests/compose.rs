use image::GenericImageView;
use swipe_video::canvas::{Canvas, Color};
use swipe_video::config::BigImgBuilder;
use swipe_video::error::Kind;
use swipe_video::tile::Chunk;

const BLANK: Color = Color { r: 0, g: 0, b: 0, a: 0 };
const GREEN: Color = Color { r: 0, g: 200, b: 0, a: 255 };

fn tiles(n: usize, up: usize, down: usize) -> Vec<Chunk> {
    (0..n)
        .map(|i| {
            Chunk::with_picture_check(
                true,
                format!("{i}.png"),
                (0..up).map(|k| format!("up {k}")).collect(),
                (0..down).map(|k| format!("down {k}")).collect(),
            )
            .unwrap()
        })
        .collect()
}

#[test]
fn draw_data_places_picture_and_caption_boxes() {
    let chunks = tiles(10, 1, 3);
    let mut b = BigImgBuilder::new(String::from("."), &chunks);
    let big = b.build_checked(true).unwrap();
    let picture = Canvas::new(400, 300, GREEN);
    let drawn = chunks[0].draw_data(&big, &picture).unwrap();
    assert_eq!(drawn.image.dimensions(), (480, 1080));
    // Centred: (480 - 400) / 2 = 40 across, (520 - 300) / 2 = 110 down.
    assert_eq!(drawn.image.get_pixel(40, 110), GREEN);
    assert_eq!(drawn.image.get_pixel(439, 409), GREEN);
    assert_eq!(drawn.image.get_pixel(39, 110), BLANK);
    assert_eq!(drawn.image.get_pixel(40, 410), BLANK);
    // Caption backgrounds and the separator line.
    assert_eq!(drawn.image.get_pixel(240, 600), big.text_background_color.0);
    assert_eq!(drawn.image.get_pixel(240, 900), big.text_background_color.1);
    assert_eq!(drawn.image.get_pixel(0, 500), big.text_color);
    assert_eq!(drawn.image.get_pixel(0, 5), BLANK);
    // One upper box 214 high; three lower boxes of (346 - 30) / 3 = 105.
    assert_eq!(drawn.text_up_boxes.len(), 1);
    assert_eq!((drawn.text_up_boxes[0].left(), drawn.text_up_boxes[0].top()), (10, 520));
    assert_eq!((drawn.text_up_boxes[0].width(), drawn.text_up_boxes[0].height()), (460, 214));
    let tops: Vec<i32> = drawn.text_down_boxes.iter().map(|r| r.top()).collect();
    assert_eq!(tops, vec![734, 839, 944]);
    assert!(drawn.text_down_boxes.iter().all(|r| r.height() == 105));
}

#[test]
fn draw_data_errors() {
    let chunks = tiles(10, 1, 1);
    let mut b = BigImgBuilder::new(String::from("."), &chunks);
    let big = b.build_checked(true).unwrap();
    let too_wide = Canvas::new(481, 10, GREEN);
    assert_eq!(chunks[0].draw_data(&big, &too_wide).unwrap_err().kind, Kind::ImageError);
    let no_captions = tiles(1, 0, 1);
    let picture = Canvas::new(10, 10, GREEN);
    assert_eq!(no_captions[0].draw_data(&big, &picture).unwrap_err().kind, Kind::Other);
}

#[test]
fn join_tiles_side_by_side() {
    let chunks = tiles(10, 1, 1);
    let mut b = BigImgBuilder::new(String::from("."), &chunks);
    b.screen = (20, 4);
    b.width_chunk = 10;
    b.pic_h = 2;
    b.text_up_h = 1;
    let big = b.build_checked(true).unwrap();
    let red = Color::new(255, 0, 0, 255);
    let tiles = vec![Canvas::new(10, 4, red), Canvas::new(5, 4, GREEN)];
    let frame = big.combain_chunk(&tiles).unwrap();
    assert_eq!(frame.dimensions(), (20, 4));
    assert_eq!(frame.get_pixel(9, 3), red);
    assert_eq!(frame.get_pixel(14, 0), GREEN);
    assert_eq!(frame.get_pixel(15, 0), BLANK);
    assert_eq!(big.combain_chunk(&Vec::new()).unwrap_err().kind, Kind::Other);
    let big_tile = vec![Canvas::new(11, 4, red)];
    assert_eq!(big.combain_chunk(&big_tile).unwrap_err().kind, Kind::ImageError);
}

#[test]
fn crop_cover_and_ending() {
    let mut c = Canvas::new(6, 2, BLANK);
    c.draw_pixel(5, 1, GREEN);
    let ending = c.crop(6 - 4, 0, 4, 2);
    assert_eq!(ending.dimensions(), (4, 2));
    assert_eq!(ending.get_pixel(3, 1), GREEN);
    let clipped = c.crop(4, 1, 10, 10);
    assert_eq!(clipped.dimensions(), (2, 1));
    assert_eq!(c.crop(9, 9, 3, 3).dimensions(), (0, 0));
}

#[test]
fn copy_from_refuses_what_does_not_fit() {
    let mut c = Canvas::new(4, 4, BLANK);
    assert!(!c.copy_from(&Canvas::new(3, 3, GREEN), 2, 0));
    assert_eq!(c.get_pixel(2, 0), BLANK);
    assert!(c.copy_from(&Canvas::new(2, 2, GREEN), 2, 2));
    assert_eq!(c.get_pixel(3, 3), GREEN);
}

#[test]
fn still_round_trip_keeps_dimensions() {
    let c = Canvas::new(32, 18, GREEN);
    let (w, h) = c.dimensions();
    let img = image::RgbaImage::from_fn(w, h, |x, y| {
        let p = c.get_pixel(x, y);
        image::Rgba([p.r, p.g, p.b, p.a])
    });
    let mut bytes: Vec<u8> = Vec::new();
    image::DynamicImage::ImageRgba8(img)
        .write_to(&mut std::io::Cursor::new(&mut bytes), image::ImageFormat::Png)
        .unwrap();
    let back = image::load_from_memory(&bytes).unwrap();
    assert_eq!(back.dimensions(), (w, h));
}
