//! The media binaries bundled with the bot (`ffmpeg`, `yt-dlp`): where they
//! lie, the permissions they need, and how their directories join `PATH`.

use vstd::prelude::*;
use vstd::string::*;
use crate::text::{push_str, string_of};

verus! {

broadcast use vstd::string::group_string_axioms;

/// The bundled binaries: `(directory, sub-directory, name)` each, under
/// `bin/`.
pub struct BinariesExt<'a> {
    pub binaries: [(&'a str, &'a str, &'a str); 2],
}

impl BinariesExt<'static> {
    /// The bundled binaries: ffmpeg (`engines/media`) and yt-dlp
    /// (`providers/youtube`).
    pub fn bundled() -> (r: Self)
        ensures
            r.binaries@[0].0@ == "engines"@,
            r.binaries@[0].1@ == "media"@,
            r.binaries@[0].2@ == "ffmpeg"@,
            r.binaries@[1].0@ == "providers"@,
            r.binaries@[1].1@ == "youtube"@,
            r.binaries@[1].2@ == "yt-dlp"@,
    {
        BinariesExt { binaries: [("engines", "media", "ffmpeg"), ("providers", "youtube", "yt-dlp")] }
    }
}

/// The file name of binary `bin` on a platform whose executables end in
/// `exe_suffix`.
pub fn exe_name(bin: &str, exe_suffix: &str) -> (r: String)
    ensures
        r@ == bin@ + exe_suffix@,
{
    let mut m: Vec<char> = Vec::new();
    push_str(&mut m, bin);
    push_str(&mut m, exe_suffix);
    string_of(m.as_slice())
}

/// The permission bits to set on a bundled binary whose mode is `mode`:
/// `None` when it is executable by owner, group and others already,
/// otherwise the mode with those three bits added.
pub fn exec_mode(mode: u32) -> (r: Option<u32>)
    ensures
        r == if mode & 0o111 != 0o111 {
            Some(mode | 0o111)
        } else {
            None::<u32>
        },
{
    if mode & 0o111 != 0o111 {
        Some(mode | 0o111)
    } else {
        None
    }
}

/// Whether the paths `a` and `b` are the same path (`Path` equality: they
/// have the same components).
pub uninterp spec fn same_path(a: Seq<char>, b: Seq<char>) -> bool;

/// `<Path as PartialEq>::eq` on the two paths. Claimed: the result is
/// `same_path(a@, b@)`, a function of the two texts; how components are
/// compared is not stated here.
#[verifier::external_body]
fn paths_equal(a: &str, b: &str) -> (r: bool)
    ensures
        r == same_path(a@, b@),
{
    std::path::Path::new(a) == std::path::Path::new(b)
}

/// Whether `paths` has a path that is the same as `p`.
pub open spec fn has_path(paths: Seq<Seq<char>>, p: Seq<char>) -> bool {
    exists|i: int| 0 <= i < paths.len() && same_path(paths[i], p)
}

/// The search path `paths` after adding each of `extra` in order: a
/// directory not on it yet goes first.
pub open spec fn with_extra(paths: Seq<Seq<char>>, extra: Seq<Seq<char>>) -> Seq<Seq<char>>
    decreases extra.len(),
{
    if extra.len() == 0 {
        paths
    } else {
        let p = with_extra(paths, extra.drop_last());
        if has_path(p, extra.last()) {
            p
        } else {
            seq![extra.last()] + p
        }
    }
}

/// Adds the directories `extra` of the bundled binaries to the search path
/// `paths`: each not on it yet goes first.
pub fn extend_search_path(paths: Vec<String>, extra: &Vec<String>) -> (r: Vec<String>)
    ensures
        r@.map_values(|p: String| p@) == with_extra(paths@.map_values(|p: String| p@), extra@.map_values(|p: String| p@)),
{
    let ghost base = paths@.map_values(|p: String| p@);
    let ghost ex = extra@.map_values(|p: String| p@);
    let mut r = paths;
    let mut k: usize = 0;
    assert(ex.take(0) == Seq::<Seq<char>>::empty());
    while k < extra.len()
        invariant
            k <= extra@.len(),
            ex == extra@.map_values(|p: String| p@),
            r@.map_values(|p: String| p@) == with_extra(base, ex.take(k as int)),
        decreases extra@.len() - k,
    {
        let ghost cur = r@.map_values(|p: String| p@);
        assert(ex.take(k + 1).drop_last() == ex.take(k as int));
        assert(ex.take(k + 1).last() == extra@[k as int]@);
        let e = &extra[k];
        let mut found = false;
        let mut i: usize = 0;
        while i < r.len()
            invariant
                i <= r@.len(),
                cur == r@.map_values(|p: String| p@),
                found == exists|j: int| 0 <= j < i && same_path(cur[j], e@),
            decreases r@.len() - i,
        {
            assert(cur[i as int] == r@[i as int]@);
            if paths_equal(r[i].as_str(), e.as_str()) {
                found = true;
            }
            assert(found == exists|j: int| 0 <= j < i + 1 && same_path(cur[j], e@)) by {
                if exists|j: int| 0 <= j < i + 1 && same_path(cur[j], e@) {
                    let j = choose|j: int| 0 <= j < i + 1 && same_path(cur[j], e@);
                    if j < i {
                        assert(exists|j2: int| 0 <= j2 < i && same_path(cur[j2], e@));
                    }
                }
            }
            i += 1;
        }
        if !found {
            r.insert(0, e.clone());
            assert(r@.map_values(|p: String| p@) =~= seq![e@] + cur);
        }
        k += 1;
    }
    assert(ex.take(ex.len() as int) == ex);
    r
}

} // verus!
