//! The video pipeline: which frames to render and encode, in what order, and
//! the encoder invocations for stills, scrolling clips and the final join.
use vstd::prelude::*;
use vstd::string::StringExecFns;
use crate::config::BigImg;
use crate::decimal::{decimal, decimal_pad2, push_decimal};
use crate::partition::{Window, partition, windows};

verus! {

/// One step of a run. Steps are carried out in order; the first failure ends the run.
#[derive(Debug, Clone, Copy, PartialEq, Eq, Structural)]
pub enum Step {
    /// Render frame `i` and save it as its picture.
    Render(usize),
    /// Crop the leading screen of frame `i` and encode it as the cover still.
    Cover(usize),
    /// Encode frame `i` as a horizontally scrolling clip.
    Scroll(usize),
    /// Crop the trailing screen of frame `i` and encode it as the ending still.
    Ending(usize),
    /// Join the clips, cover first and ending last, into the output file.
    Concat,
}

/// The steps for frame `i` of `n`.
pub open spec fn frame_steps(i: nat, n: nat) -> Seq<Step> {
    seq![Step::Render(i as usize)] + (if i == 0 { seq![Step::Cover(i as usize)] } else { Seq::empty() })
        + seq![Step::Scroll(i as usize)] + (if i + 1 == n { seq![Step::Ending(i as usize)] } else { Seq::empty() })
}

/// The steps for frames `0..k` of `n`.
pub open spec fn steps_upto(k: nat, n: nat) -> Seq<Step>
    decreases k,
{
    if k == 0 {
        Seq::empty()
    } else {
        steps_upto((k - 1) as nat, n) + frame_steps((k - 1) as nat, n)
    }
}

/// The whole run over `n` frames: each frame's steps in order, then the join.
pub open spec fn run_steps(n: nat) -> Seq<Step> {
    steps_upto(n, n).push(Step::Concat)
}

/// The file names of the clips to join, in order: the cover, one clip per
/// frame named by its two-digit index, the ending.
pub open spec fn clip_names(n: nat) -> Seq<Seq<char>> {
    seq!["cover.mp4"@] + Seq::new(n, |i: int| decimal_pad2(i as nat) + ".mp4"@) + seq!["ending.mp4"@]
}

/// The manifest of a concatenation: one `file <name>` line per clip.
pub open spec fn concat_manifest(names: Seq<Seq<char>>) -> Seq<char>
    decreases names.len(),
{
    if names.len() == 0 {
        Seq::empty()
    } else {
        concat_manifest(names.drop_last()) + "file "@ + names.last() + "\n"@
    }
}

/// The filter that lays a picture over a background of the screen's size.
pub open spec fn still_filter(bg: Seq<char>, w: nat, h: nat, fps: nat) -> Seq<char> {
    "color="@ + bg + ":s="@ + decimal(w) + "x"@ + decimal(h) + ":r="@ + decimal(fps)
        + "[bg];[bg][0]overlay=shortest=1"@
}

/// The filter that slides a picture left by `speed` pixels per second.
pub open spec fn scroll_filter(bg: Seq<char>, w: nat, h: nat, fps: nat, speed: nat) -> Seq<char> {
    "color="@ + bg + ":s="@ + decimal(w) + "x"@ + decimal(h) + ":r="@ + decimal(fps)
        + "[bg];[bg][0]overlay=x=-t*"@ + decimal(speed) + ":shortest=1"@
}

/// Encoder arguments for a still of `seconds` seconds.
pub open spec fn still_args(pic: Seq<char>, video: Seq<char>, seconds: nat, filter: Seq<char>) -> Seq<Seq<char>> {
    seq!["-r"@, "1"@, "-loop"@, "1"@, "-i"@, pic, "-filter_complex"@, filter, "-preset"@, "fast"@,
        "-t"@, decimal(seconds), "-y"@, video]
}

/// Encoder arguments for a scrolling clip of `seconds` seconds.
pub open spec fn scroll_args(pic: Seq<char>, video: Seq<char>, seconds: nat, filter: Seq<char>) -> Seq<Seq<char>> {
    seq!["-r"@, "1"@, "-loop"@, "1"@, "-t"@, decimal(seconds), "-i"@, pic, "-filter_complex"@, filter,
        "-preset"@, "fast"@, "-y"@, video]
}

/// Encoder arguments that join the clips listed in `list` by stream copy.
pub open spec fn concat_args(list: Seq<char>, output: Seq<char>) -> Seq<Seq<char>> {
    seq!["-f"@, "concat"@, "-i"@, list, "-c"@, "copy"@, "-y"@, output]
}

pub open spec fn views(v: Seq<String>) -> Seq<Seq<char>> {
    v.map_values(|s: String| s@)
}

fn push_text(v: &mut Vec<String>, s: &str)
    ensures
        views(final(v)@) == views(old(v)@).push(s@),
{
    let ghost before = v@;
    v.push(String::from_str(s));
    assert(views(v@) =~= views(before).push(s@));
}

fn push_string(v: &mut Vec<String>, s: String)
    ensures
        views(final(v)@) == views(old(v)@).push(s@),
{
    let ghost before = v@;
    let ghost sv = s@;
    v.push(s);
    assert(views(v@) =~= views(before).push(sv));
}

/// The steps of a run over `n` frames.
pub fn plan_run(n: usize) -> (steps: Vec<Step>)
    requires
        n > 0,
    ensures
        steps@ == run_steps(n as nat),
{
    let mut steps: Vec<Step> = Vec::new();
    let mut i: usize = 0;
    while i < n
        invariant
            i <= n,
            steps@ == steps_upto(i as nat, n as nat),
        decreases n - i,
    {
        let ghost before = steps@;
        steps.push(Step::Render(i));
        if i == 0 {
            steps.push(Step::Cover(i));
        }
        steps.push(Step::Scroll(i));
        if i + 1 == n {
            steps.push(Step::Ending(i));
        }
        assert(steps@ =~= before + frame_steps(i as nat, n as nat));
        i = i + 1;
    }
    steps.push(Step::Concat);
    steps
}

/// The picture file of frame `index`: its two-digit index and `.png`.
pub fn frame_picture_name(index: usize) -> (s: String)
    ensures
        s@ == decimal_pad2(index as nat) + ".png"@,
{
    let mut s = crate::decimal::to_decimal_pad2(index as u64);
    s.append(".png");
    s
}

/// The clip file of frame `index`: its two-digit index and `.mp4`.
pub fn frame_clip_name(index: usize) -> (s: String)
    ensures
        s@ == decimal_pad2(index as nat) + ".mp4"@,
{
    let mut s = crate::decimal::to_decimal_pad2(index as u64);
    s.append(".mp4");
    s
}

/// The names of the clips to join for `n` frames, in order.
pub fn clip_list(n: usize) -> (names: Vec<String>)
    ensures
        views(names@) == clip_names(n as nat),
{
    let mut names: Vec<String> = Vec::new();
    push_text(&mut names, "cover.mp4");
    let mut i: usize = 0;
    while i < n
        invariant
            i <= n,
            views(names@) == seq!["cover.mp4"@] + Seq::new(i as nat, |k: int| decimal_pad2(k as nat) + ".mp4"@),
        decreases n - i,
    {
        let ghost before = views(names@);
        push_string(&mut names, frame_clip_name(i));
        assert(views(names@) =~= seq!["cover.mp4"@] + Seq::new((i + 1) as nat, |k: int| decimal_pad2(k as nat) + ".mp4"@));
        i = i + 1;
    }
    push_text(&mut names, "ending.mp4");
    assert(views(names@) =~= clip_names(n as nat));
    names
}

/// The concatenation manifest for `names`: a `file <name>` line for each.
pub fn manifest(names: &Vec<String>) -> (text: String)
    ensures
        text@ == concat_manifest(views(names@)),
{
    let mut text = String::new();
    let mut i: usize = 0;
    while i < names.len()
        invariant
            i <= names@.len(),
            text@ == concat_manifest(views(names@).take(i as int)),
        decreases names@.len() - i,
    {
        text.append("file ");
        text.append(names[i].as_str());
        text.append("\n");
        proof {
            let t = views(names@).take(i + 1);
            assert(t.drop_last() =~= views(names@).take(i as int));
            assert(t.last() == names@[i as int]@);
        }
        i = i + 1;
    }
    assert(views(names@).take(i as int) =~= views(names@));
    text
}

/// Encoder arguments that join the clips listed in `list` into `output`.
pub fn concat_command(list: &str, output: &str) -> (args: Vec<String>)
    ensures
        views(args@) == concat_args(list@, output@),
{
    let mut args: Vec<String> = Vec::new();
    push_text(&mut args, "-f");
    push_text(&mut args, "concat");
    push_text(&mut args, "-i");
    push_text(&mut args, list);
    push_text(&mut args, "-c");
    push_text(&mut args, "copy");
    push_text(&mut args, "-y");
    push_text(&mut args, output);
    assert(views(args@) =~= concat_args(list@, output@));
    args
}

/// Appends the background part of a filter, `color=<bg>:s=<w>x<h>:r=<fps>`.
fn push_background(s: &mut String, bg: &str, screen: (u32, u32), fps: u32)
    ensures
        final(s)@ == old(s)@ + "color="@ + bg@ + ":s="@ + decimal(screen.0 as nat) + "x"@ + decimal(screen.1 as nat)
            + ":r="@ + decimal(fps as nat),
{
    s.append("color=");
    s.append(bg);
    s.append(":s=");
    push_decimal(s, screen.0 as u64);
    s.append("x");
    push_decimal(s, screen.1 as u64);
    s.append(":r=");
    push_decimal(s, fps as u64);
}

/// Encoder arguments for a still clip of `seconds` seconds made of the
/// picture `pic`, laid over a `bg` background of the screen's size.
pub fn still_command(bg: &str, screen: (u32, u32), fps: u32, pic: &str, video: &str, seconds: u64) -> (args: Vec<String>)
    ensures
        views(args@) == still_args(pic@, video@, seconds as nat, still_filter(bg@, screen.0 as nat, screen.1 as nat, fps as nat)),
{
    let mut filter = String::new();
    push_background(&mut filter, bg, screen, fps);
    filter.append("[bg];[bg][0]overlay=shortest=1");
    assert(filter@ =~= still_filter(bg@, screen.0 as nat, screen.1 as nat, fps as nat));
    let mut args: Vec<String> = Vec::new();
    push_text(&mut args, "-r");
    push_text(&mut args, "1");
    push_text(&mut args, "-loop");
    push_text(&mut args, "1");
    push_text(&mut args, "-i");
    push_text(&mut args, pic);
    push_text(&mut args, "-filter_complex");
    push_string(&mut args, filter);
    push_text(&mut args, "-preset");
    push_text(&mut args, "fast");
    push_text(&mut args, "-t");
    push_string(&mut args, crate::decimal::to_decimal(seconds));
    push_text(&mut args, "-y");
    push_text(&mut args, video);
    assert(views(args@) =~= still_args(pic@, video@, seconds as nat, still_filter(bg@, screen.0 as nat, screen.1 as nat, fps as nat)));
    args
}

/// Encoder arguments for a clip of `seconds` seconds in which the picture
/// `pic` slides left at `speed` pixels per second over a `bg` background.
pub fn scroll_command(bg: &str, screen: (u32, u32), fps: u32, speed: u32, pic: &str, video: &str, seconds: u64) -> (args: Vec<String>)
    ensures
        views(args@) == scroll_args(pic@, video@, seconds as nat,
            scroll_filter(bg@, screen.0 as nat, screen.1 as nat, fps as nat, speed as nat)),
{
    let mut filter = String::new();
    push_background(&mut filter, bg, screen, fps);
    filter.append("[bg];[bg][0]overlay=x=-t*");
    push_decimal(&mut filter, speed as u64);
    filter.append(":shortest=1");
    assert(filter@ =~= scroll_filter(bg@, screen.0 as nat, screen.1 as nat, fps as nat, speed as nat));
    let mut args: Vec<String> = Vec::new();
    push_text(&mut args, "-r");
    push_text(&mut args, "1");
    push_text(&mut args, "-loop");
    push_text(&mut args, "1");
    push_text(&mut args, "-t");
    push_string(&mut args, crate::decimal::to_decimal(seconds));
    push_text(&mut args, "-i");
    push_text(&mut args, pic);
    push_text(&mut args, "-filter_complex");
    push_string(&mut args, filter);
    push_text(&mut args, "-preset");
    push_text(&mut args, "fast");
    push_text(&mut args, "-y");
    push_text(&mut args, video);
    assert(views(args@) =~= scroll_args(pic@, video@, seconds as nat,
        scroll_filter(bg@, screen.0 as nat, screen.1 as nat, fps as nat, speed as nat)));
    args
}

/// Seconds of the scrolling clip of a frame of `len` tiles: scrolling by
/// `len - overlap` tiles at `seconds_per_tile` each, plus one second.
pub open spec fn scroll_seconds(seconds_per_tile: nat, len: nat, overlap: nat) -> nat {
    (seconds_per_tile * (len - overlap) + 1) as nat
}

/// The seconds of a scrolling clip of a frame of `len` tiles.
pub fn scroll_duration(seconds_per_tile: u32, len: u32, overlap: u32) -> (s: u64)
    requires
        len >= overlap,
    ensures
        s == scroll_seconds(seconds_per_tile as nat, len as nat, overlap as nat),
{
    let adjust_len = len - overlap;
    assert(seconds_per_tile as u64 * adjust_len as u64 <= 0xffff_fffe_0000_0001) by (nonlinear_arith)
        requires
            seconds_per_tile <= 0xffff_ffff,
            adjust_len <= 0xffff_ffff,
    ;
    seconds_per_tile as u64 * adjust_len as u64 + 1
}

impl<'a> BigImg<'a> {
    /// The frames: overlapping windows of up to `step` tiles, consecutive
    /// ones sharing `overlap` tiles.
    pub fn divide(&self) -> (frames: Vec<Window>)
        requires
            self.wf(),
        ensures
            frames@ == windows(self.chunks@.len() as nat, self.step as nat, self.overlap as nat),
    {
        partition(self.chunks.len(), self.step as usize, self.overlap as usize)
    }

    /// Encoder arguments that turn the picture `pic_name` into a still clip
    /// `video_name` of `video_time` seconds over the letterboxing color.
    pub fn generate_endpoint_video(&self, pic_name: &str, video_name: &str, video_time: u32) -> (args: Vec<String>)
        ensures
            views(args@) == still_args(pic_name@, video_name@, video_time as nat,
                still_filter(self.video_background_color@, self.screen.0 as nat, self.screen.1 as nat, self.video_fps as nat)),
    {
        still_command(self.video_background_color.as_str(), self.screen, self.video_fps, pic_name, video_name, video_time as u64)
    }

    /// Encoder arguments that turn the picture `pic_name` of a frame of `len`
    /// tiles into a clip `video_name` that scrolls left at `width_chunk /
    /// video_swip_speed` pixels per second.
    pub fn generate_mid_video(&self, len: u32, pic_name: &str, video_name: &str) -> (args: Vec<String>)
        requires
            self.wf(),
            len >= self.overlap,
        ensures
            views(args@) == scroll_args(pic_name@, video_name@,
                scroll_seconds(self.video_swip_speed as nat, len as nat, self.overlap as nat),
                scroll_filter(self.video_background_color@, self.screen.0 as nat, self.screen.1 as nat,
                    self.video_fps as nat, (self.width_chunk / self.video_swip_speed) as nat)),
    {
        let seconds = scroll_duration(self.video_swip_speed, len, self.overlap);
        let speed = self.width_chunk / self.video_swip_speed;
        scroll_command(self.video_background_color.as_str(), self.screen, self.video_fps, speed, pic_name, video_name, seconds)
    }
}

} // verus!
