//! Where the picture of a named tile is looked for.
use vstd::prelude::*;
use vstd::string::StringExecFns;
use crate::error::{Error, IoErrorKind, Kind};
use crate::tile::path_exists;

verus! {

/// The directory holding the pictures.
pub open spec fn image_dir() -> Seq<char> {
    "E:/pictures/arknights"@
}

/// The picture variants of a name, in order of preference.
pub open spec fn variant(i: int) -> Seq<char> {
    if i == 0 {
        "skin3"@
    } else if i == 1 {
        "skin2"@
    } else if i == 2 {
        "skin1"@
    } else if i == 3 {
        "2"@
    } else {
        "1"@
    }
}

/// The path of variant `i` of `name` under `dir`: `dir/name_variant.png`.
pub open spec fn candidate(dir: Seq<char>, name: Seq<char>, i: int) -> Seq<char> {
    dir + "/"@ + name + "_"@ + variant(i) + ".png"@
}

fn variant_text(i: usize) -> (s: &'static str)
    requires
        i < 5,
    ensures
        s@ == variant(i as int),
{
    if i == 0 {
        "skin3"
    } else if i == 1 {
        "skin2"
    } else if i == 2 {
        "skin1"
    } else if i == 3 {
        "2"
    } else {
        "1"
    }
}

/// The paths where the picture of `name` may be, most preferred first.
pub fn image_candidates(dir: &str, name: &str) -> (paths: Vec<String>)
    ensures
        paths@.len() == 5,
        forall|i: int| 0 <= i < 5 ==> #[trigger] paths@[i]@ == candidate(dir@, name@, i),
{
    let mut paths: Vec<String> = Vec::new();
    let mut i: usize = 0;
    while i < 5
        invariant
            i <= 5,
            paths@.len() == i,
            forall|k: int| 0 <= k < i ==> #[trigger] paths@[k]@ == candidate(dir@, name@, k),
        decreases 5 - i,
    {
        let mut p = String::from_str(dir);
        p.append("/");
        p.append(name);
        p.append("_");
        p.append(variant_text(i));
        p.append(".png");
        paths.push(p);
        i = i + 1;
    }
    paths
}

/// The first of `paths` whose flag in `present` is set; an I/O "not found"
/// error when none is.
pub fn pick_existing(paths: &Vec<String>, present: &Vec<bool>) -> (r: Result<String, Error>)
    requires
        paths@.len() == present@.len(),
    ensures
        r is Ok <==> exists|i: int| 0 <= i < present@.len() && present@[i],
        r matches Ok(p) ==> exists|i: int|
            0 <= i < present@.len() && present@[i] && p@ == paths@[i]@ && (forall|k: int| 0 <= k < i ==> !present@[k]),
        r matches Err(e) ==> e.kind == Kind::IoError(IoErrorKind::NotFound),
{
    let mut i: usize = 0;
    while i < paths.len()
        invariant
            paths@.len() == present@.len(),
            i <= paths@.len(),
            forall|k: int| 0 <= k < i ==> !present@[k],
        decreases paths@.len() - i,
    {
        if present[i] {
            return Ok(paths[i].clone());
        }
        i = i + 1;
    }
    Err(Error::from_message(Kind::IoError(IoErrorKind::NotFound), "picture not found"))
}

/// The first of the candidate paths of `name` under `dir` where a file
/// exists, looked up on disk; an I/O "not found" error when there is none.
pub fn find_image(dir: &str, name: &str) -> (r: Result<String, Error>)
    ensures
        r matches Ok(p) ==> exists|i: int| 0 <= i < 5 && p@ == candidate(dir@, name@, i),
        r matches Err(e) ==> e.kind == Kind::IoError(IoErrorKind::NotFound),
{
    let paths = image_candidates(dir, name);
    let mut present: Vec<bool> = Vec::new();
    let mut i: usize = 0;
    while i < paths.len()
        invariant
            i <= paths@.len(),
            present@.len() == i,
        decreases paths@.len() - i,
    {
        present.push(path_exists(paths[i].as_str()));
        i = i + 1;
    }
    pick_existing(&paths, &present)
}

/// The picture of the tile named `name` in the picture directory.
pub fn img_path(name: &str) -> (r: Result<String, Error>)
    ensures
        r matches Ok(p) ==> exists|i: int| 0 <= i < 5 && p@ == candidate(image_dir(), name@, i),
        r matches Err(e) ==> e.kind == Kind::IoError(IoErrorKind::NotFound),
{
    let dir = "E:/pictures/arknights";
    assert(dir@ == image_dir());
    let r = find_image(dir, name);
    proof {
        if r is Ok {
            let p = r->Ok_0;
            let i = choose|i: int| 0 <= i < 5 && p@ == candidate(dir@, name@, i);
            assert(p@ == candidate(image_dir(), name@, i));
        }
    }
    r
}

} // verus!
