//! The slide-show variant of the pipeline: its parameters come whole from a
//! configuration instead of a builder, and its frames are rendered slides.
use vstd::prelude::*;
use crate::canvas::Canvas;
use crate::compose::{join_failure, join_tiles, joined_pixel};
use crate::error::Error;
use crate::partition::{Window, partition, windows};
use crate::pipeline::{scroll_args, scroll_command, scroll_duration, scroll_filter, scroll_seconds, still_args, still_command, still_filter, views};

verus! {

/// Parameters of a slide-show video.
///
/// * `screen`: the video's resolution; `fps`: its frames per second.
/// * `step`: the most slides in one frame; `overlap`: slides shared by
///   consecutive frames; `width_slides`: the width of one slide.
/// * `back_color`: the letterboxing color; `cover_time`, `ending_time`: the
///   seconds of the stills; `video_swip_speed`: seconds to scroll by one slide.
#[derive(Debug)]
pub struct VideoConfig {
    pub screen: (u32, u32),
    pub fps: u32,
    pub transition_sec: u32,
    pub work_dir: String,
    pub overlap: u32,
    pub step: u32,
    pub back_color: String,
    pub cover_time: u32,
    pub ending_time: u32,
    pub video_swip_speed: u32,
    pub width_slides: u32,
}

/// The frames of `n_slides` slides: overlapping windows of up to `step`
/// slides, consecutive ones sharing `overlap` slides.
pub fn divide(n_slides: usize, config: &VideoConfig) -> (frames: Vec<Window>)
    requires
        config.step > config.overlap,
        n_slides > config.overlap,
    ensures
        frames@ == windows(n_slides as nat, config.step as nat, config.overlap as nat),
{
    partition(n_slides, config.step as usize, config.overlap as usize)
}

/// Joins rendered slides side by side, slide `i` at `x = i * width_slides`.
pub fn combain_slides(config: &VideoConfig, slides: &Vec<Canvas>) -> (r: Result<Canvas, Error>)
    requires
        config.width_slides > 0,
        forall|i: int| 0 <= i < slides@.len() ==> (#[trigger] slides@[i]).wf(),
    ensures
        r is Err <==> join_failure(slides@, config.width_slides as int, config.screen.1 as int) is Some,
        r matches Err(e) ==> Some(e.kind) == join_failure(slides@, config.width_slides as int, config.screen.1 as int),
        r matches Ok(c) ==> {
            &&& c.wf()
            &&& c.width == slides@.len() * config.width_slides
            &&& c.height == config.screen.1
            &&& forall|x: int, y: int| #![trigger c.at(x, y)]
                c.in_bounds(x, y) ==> c.at(x, y) == joined_pixel(slides@, config.width_slides as int, x, y)
        },
{
    join_tiles(slides, config.width_slides, config.screen.1)
}

/// Encoder arguments that turn the picture `pic_name` into a still clip
/// `video_name` of `video_time` seconds.
pub fn generate_endpoint_video(config: &VideoConfig, pic_name: &str, video_name: &str, video_time: u32) -> (args: Vec<String>)
    ensures
        views(args@) == still_args(pic_name@, video_name@, video_time as nat,
            still_filter(config.back_color@, config.screen.0 as nat, config.screen.1 as nat, config.fps as nat)),
{
    still_command(config.back_color.as_str(), config.screen, config.fps, pic_name, video_name, video_time as u64)
}

/// Encoder arguments that turn the picture of a frame of `len` slides into
/// a clip that scrolls left at `width_slides / video_swip_speed` pixels per second.
pub fn generate_mid_video(config: &VideoConfig, len: u32, pic_name: &str, video_name: &str) -> (args: Vec<String>)
    requires
        len >= config.overlap,
        config.video_swip_speed > 0,
    ensures
        views(args@) == scroll_args(pic_name@, video_name@,
            scroll_seconds(config.video_swip_speed as nat, len as nat, config.overlap as nat),
            scroll_filter(config.back_color@, config.screen.0 as nat, config.screen.1 as nat, config.fps as nat,
                (config.width_slides / config.video_swip_speed) as nat)),
{
    let seconds = scroll_duration(config.video_swip_speed, len, config.overlap);
    let speed = config.width_slides / config.video_swip_speed;
    scroll_command(config.back_color.as_str(), config.screen, config.fps, speed, pic_name, video_name, seconds)
}

} // verus!
