//! Tiles: one captioned picture each.
use vstd::prelude::*;
use crate::error::{Error, IoErrorKind, Kind};

verus! {

/// One captioned picture: the path of its image, the caption lines shown
/// above it and those shown below. Immutable once made.
#[derive(Debug, Clone)]
pub struct Chunk {
    pic_path: String,
    text_up: Vec<String>,
    text_down: Vec<String>,
}

/// Relies on std::path::Path::exists: whether something is at `path` now.
/// The answer depends on the file system, so nothing is stated of it.
#[verifier::external_body]
pub(crate) fn path_exists(path: &str) -> bool {
    std::path::Path::new(path).exists()
}

impl Chunk {
    pub closed spec fn spec_pic_path(&self) -> Seq<char> {
        self.pic_path@
    }

    pub closed spec fn spec_text_up(&self) -> Seq<String> {
        self.text_up@
    }

    pub closed spec fn spec_text_down(&self) -> Seq<String> {
        self.text_down@
    }

    /// A tile for the picture at `pic_path`, which must exist; fails with an
    /// I/O "not found" error otherwise.
    pub fn new(pic_path: String, text_up: Vec<String>, text_down: Vec<String>) -> (r: Result<Chunk, Error>)
        ensures
            r matches Ok(c) ==> c.spec_pic_path() == pic_path@ && c.spec_text_up() == text_up@
                && c.spec_text_down() == text_down@,
            r matches Err(e) ==> e.kind == Kind::IoError(IoErrorKind::NotFound),
    {
        let exists = path_exists(pic_path.as_str());
        Chunk::with_picture_check(exists, pic_path, text_up, text_down)
    }

    /// A tile, given whether its picture exists: `Ok` exactly when it does.
    pub fn with_picture_check(picture_exists: bool, pic_path: String, text_up: Vec<String>, text_down: Vec<String>) -> (r: Result<Chunk, Error>)
        ensures
            picture_exists <==> r is Ok,
            r matches Ok(c) ==> c.spec_pic_path() == pic_path@ && c.spec_text_up() == text_up@
                && c.spec_text_down() == text_down@,
            r matches Err(e) ==> e.kind == Kind::IoError(IoErrorKind::NotFound),
    {
        if !picture_exists {
            return Err(Error::from_message(Kind::IoError(IoErrorKind::NotFound), "Invalid path"));
        }
        Ok(Chunk { pic_path, text_up, text_down })
    }

    pub fn pic_path(&self) -> (r: &String)
        ensures
            r@ == self.spec_pic_path(),
    {
        &self.pic_path
    }

    pub fn text_up(&self) -> (r: &Vec<String>)
        ensures
            r@ == self.spec_text_up(),
    {
        &self.text_up
    }

    pub fn text_down(&self) -> (r: &Vec<String>)
        ensures
            r@ == self.spec_text_down(),
    {
        &self.text_down
    }
}

} // verus!
