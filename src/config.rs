//! Layout and video parameters, validated once when they are built.
use vstd::prelude::*;
use vstd::string::StringExecFns;
use crate::canvas::Color;
use crate::error::{Error, Kind};
use crate::tile::{Chunk, path_exists};

verus! {

/// Parameters being gathered for a [`BigImg`]; `build` validates them.
#[derive(Debug)]
pub struct BigImgBuilder<'a> {
    pub work_dir: String,
    pub chunks: &'a [Chunk],
    pub screen: (u32, u32),
    pub step: u32,
    pub width_chunk: u32,
    pub text_background_color: (Color, Color),
    pub text_color: Color,
    pub max_scale: u32,
    pub pic_h: u32,
    pub text_up_h: u32,
    pub video_cover_time: u32,
    pub video_ending_time: u32,
    pub video_background_color: String,
    pub video_swip_speed: u32,
    pub video_fps: u32,
}

/// Validated parameters of a run over a sequence of tiles.
///
/// * `screen`: the video's resolution, width and height.
/// * `step`: the most tiles in one frame.
/// * `width_chunk`: the width of one tile; it divides the screen width.
/// * `overlap`: tiles shared by consecutive frames, as many as fill one screen.
/// * `pic_h`, `text_up_h`, `text_down_h`: heights of the picture region and of
///   the caption regions above and below, which together fill the screen height.
/// * `max_scale`: the largest text scale, in pixels.
/// * `video_swip_speed`: seconds taken to scroll by one tile width.
#[derive(Debug)]
pub struct BigImg<'a> {
    pub work_dir: String,
    pub chunks: &'a [Chunk],
    pub screen: (u32, u32),
    pub step: u32,
    pub width_chunk: u32,
    pub overlap: u32,
    pub text_background_color: (Color, Color),
    pub text_color: Color,
    pub max_scale: u32,
    pub pic_h: u32,
    pub text_up_h: u32,
    pub text_down_h: u32,
    pub video_cover_time: u32,
    pub video_ending_time: u32,
    pub video_background_color: String,
    pub video_swip_speed: u32,
    pub video_fps: u32,
}

impl<'a> BigImg<'a> {
    /// The invariant that `BigImgBuilder::build` establishes.
    pub open spec fn wf(&self) -> bool {
        &&& self.width_chunk > 0
        &&& self.screen.0 % self.width_chunk == 0
        &&& self.overlap == self.screen.0 / self.width_chunk
        &&& self.pic_h + self.text_up_h <= self.screen.1
        &&& self.text_down_h == self.screen.1 - self.pic_h - self.text_up_h
        &&& self.overlap < self.step
        &&& self.step <= self.chunks@.len()
        &&& self.video_swip_speed > 0
    }

    /// The default parameters (see `BigImgBuilder::has_defaults`), validated.
    pub fn new(work_dir: String, chunks: &'a [Chunk]) -> (r: Result<BigImg<'a>, Error>)
        ensures
            r matches Ok(b) ==> b.wf() && b.work_dir == work_dir && b.chunks == chunks
                && b.screen == (1920u32, 1080u32) && b.step == (if chunks@.len() < 40 { chunks@.len() as int } else { 40 })
                && b.width_chunk == 480 && b.overlap == 4
                && b.text_background_color == (Color { r: 23, g: 150, b: 235, a: 255 }, Color { r: 44, g: 85, b: 153, a: 255 })
                && b.text_color == (Color { r: 255, g: 255, b: 255, a: 255 }) && b.max_scale == 120
                && b.pic_h == 520 && b.text_up_h == 214 && b.text_down_h == 346
                && b.video_cover_time == 3 && b.video_ending_time == 3 && b.video_background_color@ == "white"@
                && b.video_swip_speed == 3 && b.video_fps == 60,
            r matches Err(e) ==> e.kind == Kind::BigImgBuilderError,
            chunks@.len() <= 4 ==> r is Err,
    {
        let mut b = BigImgBuilder::new(work_dir, chunks);
        b.build()
    }

    /// A builder with the default parameters.
    pub fn builder(work_dir: String, chunks: &'a [Chunk]) -> (b: BigImgBuilder<'a>)
        ensures
            b.work_dir == work_dir,
            b.chunks == chunks,
            b.has_defaults(),
    {
        BigImgBuilder::new(work_dir, chunks)
    }
}

impl<'a> BigImgBuilder<'a> {
    /// The defaults: a 1920x1080 screen, frames of up to 40 tiles 480 pixels
    /// wide, a 520-pixel picture region, a 214-pixel upper caption region,
    /// white text on blue captions of scale up to 120, white letterboxing,
    /// stills of 3 seconds, 3 seconds per tile of scrolling, 60 frames per second.
    pub open spec fn has_defaults(&self) -> bool {
        &&& self.screen == (1920u32, 1080u32)
        &&& self.step == 40
        &&& self.width_chunk == 480
        &&& self.text_background_color == (
            Color { r: 23, g: 150, b: 235, a: 255 },
            Color { r: 44, g: 85, b: 153, a: 255 },
        )
        &&& self.text_color == Color { r: 255, g: 255, b: 255, a: 255 }
        &&& self.max_scale == 120
        &&& self.pic_h == 520
        &&& self.text_up_h == 214
        &&& self.video_cover_time == 3
        &&& self.video_ending_time == 3
        &&& self.video_background_color@ == "white"@
        &&& self.video_swip_speed == 3
        &&& self.video_fps == 60
    }

    /// A builder with the default parameters.
    pub fn new(work_dir: String, chunks: &'a [Chunk]) -> (b: BigImgBuilder<'a>)
        ensures
            b.work_dir == work_dir,
            b.chunks == chunks,
            b.has_defaults(),
    {
        BigImgBuilder {
            work_dir,
            chunks,
            screen: (1920, 1080),
            step: 40,
            width_chunk: 480,
            text_background_color: (Color::new(23, 150, 235, 255), Color::new(44, 85, 153, 255)),
            text_color: Color::new(255, 255, 255, 255),
            max_scale: 120,
            pic_h: 520,
            text_up_h: 214,
            video_cover_time: 3,
            video_ending_time: 3,
            video_background_color: String::from_str("white"),
            video_swip_speed: 3,
            video_fps: 60,
        }
    }

    /// The checks of `build`, in order; `None` when all pass.
    pub open spec fn first_failure(&self, work_dir_exists: bool) -> Option<Seq<char>> {
        let step = if self.step <= self.chunks@.len() { self.step as int } else { self.chunks@.len() as int };
        if !work_dir_exists {
            Some("work_dir is not exist"@)
        } else if self.chunks@.len() == 0 {
            Some("chunks data is empty"@)
        } else if self.pic_h > self.screen.1 {
            Some("pic_h > height_screen"@)
        } else if self.width_chunk == 0 || self.screen.0 % self.width_chunk != 0 {
            Some("width_screen % width_chunk != 0"@)
        } else if self.pic_h + self.text_up_h > self.screen.1 {
            Some("pic_h + text_up_h > height_screen"@)
        } else if step <= self.screen.0 / self.width_chunk {
            Some("step must exceed the tiles of one screen"@)
        } else if self.video_swip_speed == 0 {
            Some("video_swip_speed is zero"@)
        } else {
            None
        }
    }

    /// The step after lowering it to the number of tiles when it exceeds it.
    pub open spec fn lowered_step(&self) -> int {
        if self.step <= self.chunks@.len() {
            self.step as int
        } else {
            self.chunks@.len() as int
        }
    }

    /// `b` holds exactly these parameters, with the step lowered, the overlap
    /// and the lower caption height worked out.
    pub open spec fn builds(&self, b: BigImg<'a>) -> bool {
        &&& b.wf()
        &&& b.work_dir == self.work_dir
        &&& b.chunks == self.chunks
        &&& b.screen == self.screen
        &&& b.step == self.lowered_step()
        &&& b.width_chunk == self.width_chunk
        &&& b.overlap == self.screen.0 / self.width_chunk
        &&& b.text_background_color == self.text_background_color
        &&& b.text_color == self.text_color
        &&& b.max_scale == self.max_scale
        &&& b.pic_h == self.pic_h
        &&& b.text_up_h == self.text_up_h
        &&& b.text_down_h == self.screen.1 - self.pic_h - self.text_up_h
        &&& b.video_cover_time == self.video_cover_time
        &&& b.video_ending_time == self.video_ending_time
        &&& b.video_background_color == self.video_background_color
        &&& b.video_swip_speed == self.video_swip_speed
        &&& b.video_fps == self.video_fps
    }

    /// Validates the parameters, given whether the working directory exists.
    /// Fails with a `BigImgBuilderError` naming the first check that fails,
    /// leaving the builder as it was. On success the builder's step is
    /// lowered to the number of tiles when it exceeds it.
    pub fn build_checked(&mut self, work_dir_exists: bool) -> (r: Result<BigImg<'a>, Error>)
        ensures
            r is Ok <==> old(self).first_failure(work_dir_exists) is None,
            r matches Err(e) ==> e.kind == Kind::BigImgBuilderError
                && e.message@ == old(self).first_failure(work_dir_exists)->Some_0,
            r is Err ==> *final(self) == *old(self),
            r is Ok ==> *final(self) == (BigImgBuilder { step: old(self).lowered_step() as u32, ..*old(self) }),
            r matches Ok(b) ==> old(self).builds(b),
    {
        let step = if self.chunks.len() < self.step as usize {
            self.chunks.len() as u32
        } else {
            self.step
        };
        if !work_dir_exists {
            return Err(Error::from_message(Kind::BigImgBuilderError, "work_dir is not exist"));
        }
        if self.chunks.len() == 0 {
            return Err(Error::from_message(Kind::BigImgBuilderError, "chunks data is empty"));
        }
        if self.pic_h > self.screen.1 {
            return Err(Error::from_message(Kind::BigImgBuilderError, "pic_h > height_screen"));
        }
        if self.width_chunk == 0 || self.screen.0 % self.width_chunk != 0 {
            return Err(Error::from_message(Kind::BigImgBuilderError, "width_screen % width_chunk != 0"));
        }
        if self.pic_h as u64 + self.text_up_h as u64 > self.screen.1 as u64 {
            return Err(Error::from_message(Kind::BigImgBuilderError, "pic_h + text_up_h > height_screen"));
        }
        let overlap = self.screen.0 / self.width_chunk;
        if step <= overlap {
            return Err(Error::from_message(Kind::BigImgBuilderError, "step must exceed the tiles of one screen"));
        }
        if self.video_swip_speed == 0 {
            return Err(Error::from_message(Kind::BigImgBuilderError, "video_swip_speed is zero"));
        }
        self.step = step;
        Ok(BigImg {
            work_dir: self.work_dir.clone(),
            chunks: self.chunks,
            screen: self.screen,
            step,
            width_chunk: self.width_chunk,
            overlap,
            text_background_color: self.text_background_color,
            text_color: self.text_color,
            max_scale: self.max_scale,
            pic_h: self.pic_h,
            text_up_h: self.text_up_h,
            text_down_h: self.screen.1 - self.pic_h - self.text_up_h,
            video_cover_time: self.video_cover_time,
            video_ending_time: self.video_ending_time,
            video_background_color: self.video_background_color.clone(),
            video_swip_speed: self.video_swip_speed,
            video_fps: self.video_fps,
        })
    }

    /// Validates the parameters (see `build_checked`), looking up whether the
    /// working directory exists.
    pub fn build(&mut self) -> (r: Result<BigImg<'a>, Error>)
        ensures
            r matches Err(e) ==> e.kind == Kind::BigImgBuilderError,
            old(self).first_failure(true) is Some ==> r is Err,
            r is Err ==> *final(self) == *old(self),
            r is Ok ==> *final(self) == (BigImgBuilder { step: old(self).lowered_step() as u32, ..*old(self) }),
            r matches Ok(b) ==> old(self).builds(b),
    {
        let exists = path_exists(self.work_dir.as_str());
        self.build_checked(exists)
    }
}

impl<'a> BigImgBuilder<'a> {
    /// Sets the screen resolution; neither side may be zero.
    pub fn screen(&mut self, screen: (u32, u32)) -> (r: &mut Self)
        requires
            screen.0 != 0 && screen.1 != 0,
        ensures
            *r == (BigImgBuilder { screen, ..*old(self) }),
            *final(self) == *final(r),
    {
        self.screen = screen;
        self
    }

    /// Sets the most tiles in one frame; it may not be zero.
    pub fn step(&mut self, step: u32) -> (r: &mut Self)
        requires
            step != 0,
        ensures
            *r == (BigImgBuilder { step, ..*old(self) }),
            *final(self) == *final(r),
    {
        self.step = step;
        self
    }

    /// Sets the width of one tile; it may not be zero.
    pub fn width_chunk(&mut self, width_chunk: u32) -> (r: &mut Self)
        requires
            width_chunk != 0,
        ensures
            *r == (BigImgBuilder { width_chunk, ..*old(self) }),
            *final(self) == *final(r),
    {
        self.width_chunk = width_chunk;
        self
    }

    /// Sets the caption text color.
    pub fn text_color(&mut self, text_color: Color) -> (r: &mut Self)
        ensures
            *r == (BigImgBuilder { text_color, ..*old(self) }),
            *final(self) == *final(r),
    {
        self.text_color = text_color;
        self
    }

    /// Sets the upper and lower caption background colors.
    pub fn text_background_color(&mut self, text_background_color: (Color, Color)) -> (r: &mut Self)
        ensures
            *r == (BigImgBuilder { text_background_color, ..*old(self) }),
            *final(self) == *final(r),
    {
        self.text_background_color = text_background_color;
        self
    }

    /// Sets the largest text scale, in pixels.
    pub fn max_scale(&mut self, max_scale: u32) -> (r: &mut Self)
        ensures
            *r == (BigImgBuilder { max_scale, ..*old(self) }),
            *final(self) == *final(r),
    {
        self.max_scale = max_scale;
        self
    }

    /// Sets the height of the picture region; it may not be zero.
    pub fn pic_h(&mut self, pic_h: u32) -> (r: &mut Self)
        requires
            pic_h != 0,
        ensures
            *r == (BigImgBuilder { pic_h, ..*old(self) }),
            *final(self) == *final(r),
    {
        self.pic_h = pic_h;
        self
    }

    /// Sets the height of the upper caption region; it may not be zero.
    pub fn text_up_h(&mut self, text_up_h: u32) -> (r: &mut Self)
        requires
            text_up_h != 0,
        ensures
            *r == (BigImgBuilder { text_up_h, ..*old(self) }),
            *final(self) == *final(r),
    {
        self.text_up_h = text_up_h;
        self
    }

    /// Sets the seconds the cover still is shown.
    pub fn video_cover_time(&mut self, video_cover_time: u32) -> (r: &mut Self)
        ensures
            *r == (BigImgBuilder { video_cover_time, ..*old(self) }),
            *final(self) == *final(r),
    {
        self.video_cover_time = video_cover_time;
        self
    }

    /// Sets the seconds the ending still is shown.
    pub fn video_ending_time(&mut self, video_ending_time: u32) -> (r: &mut Self)
        ensures
            *r == (BigImgBuilder { video_ending_time, ..*old(self) }),
            *final(self) == *final(r),
    {
        self.video_ending_time = video_ending_time;
        self
    }

    /// Sets the letterboxing color, as the encoder names it.
    pub fn video_background_color(&mut self, video_background_color: String) -> (r: &mut Self)
        ensures
            *r == (BigImgBuilder { video_background_color, ..*old(self) }),
            *final(self) == *final(r),
    {
        self.video_background_color = video_background_color;
        self
    }

    /// Sets the seconds taken to scroll by one tile width.
    pub fn video_swip_speed(&mut self, video_swip_speed: u32) -> (r: &mut Self)
        ensures
            *r == (BigImgBuilder { video_swip_speed, ..*old(self) }),
            *final(self) == *final(r),
    {
        self.video_swip_speed = video_swip_speed;
        self
    }

    /// Sets the frames per second of the video.
    pub fn video_fps(&mut self, video_fps: u32) -> (r: &mut Self)
        ensures
            *r == (BigImgBuilder { video_fps, ..*old(self) }),
            *final(self) == *final(r),
    {
        self.video_fps = video_fps;
        self
    }
}

} // verus!
