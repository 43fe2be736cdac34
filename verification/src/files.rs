//! The fixed file names of the pipeline and the input-presence check.

use vstd::prelude::*;
use vstd::string::*;
use crate::errors::PipelineError;

verus! {

/// The name of required playlist `i`: the master list first, then the five
/// per-language lists.
pub open spec fn required_name(i: int) -> Seq<char> {
    if i == 0 {
        "All.m3u8"@
    } else if i == 1 {
        "Songs - CN.m3u8"@
    } else if i == 2 {
        "Songs - EN.m3u8"@
    } else if i == 3 {
        "Songs - JP.m3u8"@
    } else if i == 4 {
        "Songs - KR.m3u8"@
    } else {
        "Songs - O.m3u8"@
    }
}

/// The six playlist files a run requires, in fixed order.
pub fn required_m3u8_file_names() -> (r: Vec<String>)
    ensures
        r@.len() == 6,
        forall|i: int| 0 <= i < 6 ==> (#[trigger] r@[i])@ == required_name(i),
{
    let mut v: Vec<String> = Vec::new();
    v.push("All.m3u8".to_owned());
    v.push("Songs - CN.m3u8".to_owned());
    v.push("Songs - EN.m3u8".to_owned());
    v.push("Songs - JP.m3u8".to_owned());
    v.push("Songs - KR.m3u8".to_owned());
    v.push("Songs - O.m3u8".to_owned());
    proof {
        assert forall|i: int| 0 <= i < 6 implies (#[trigger] v@[i])@ == required_name(i) by {
            if i == 0 {
                assert(v@[0]@ == required_name(0));
            } else if i == 1 {
                assert(v@[1]@ == required_name(1));
            } else if i == 2 {
                assert(v@[2]@ == required_name(2));
            } else if i == 3 {
                assert(v@[3]@ == required_name(3));
            } else if i == 4 {
                assert(v@[4]@ == required_name(4));
            } else {
                assert(v@[5]@ == required_name(5));
            }
        }
    }
    v
}

/// `dir` and `name` joined with a single `/`.
pub fn join_path(dir: &str, name: &str) -> (r: String)
    ensures
        r@ == dir@ + "/"@ + name@,
{
    let mut s = dir.to_owned();
    s.append("/");
    s.append(name);
    proof {
        assert(s@ =~= dir@ + "/"@ + name@);
    }
    s
}

/// Checks the six required playlists for presence before any is read:
/// `present[i]` says whether `dir/required_name(i)` is on disk. `Ok` iff all
/// six are present; otherwise the error names the first missing path.
pub fn check_required_m3u8s_exist(dir: &str, present: &Vec<bool>) -> (r: Result<
    (),
    PipelineError,
>)
    requires
        present@.len() == 6,
    ensures
        r is Ok <==> (forall|i: int| 0 <= i < 6 ==> present@[i]),
        r matches Err(e) ==> exists|i: int|
            {
                &&& 0 <= i < 6
                &&& !(#[trigger] present@[i])
                &&& forall|j: int| 0 <= j < i ==> present@[j]
                &&& (e matches PipelineError::MissingFile { path } && path@ == dir@ + "/"@
                    + required_name(i))
            },
{
    let names = required_m3u8_file_names();
    let mut i: usize = 0;
    while i < 6
        invariant
            i <= 6,
            present@.len() == 6,
            names@.len() == 6,
            forall|m: int| 0 <= m < 6 ==> (#[trigger] names@[m])@ == required_name(m),
            forall|j: int| 0 <= j < i ==> present@[j],
        decreases 6 - i,
    {
        if !present[i] {
            return Err(PipelineError::MissingFile { path: join_path(dir, names[i].as_str()) });
        }
        i = i + 1;
    }
    Ok(())
}

/// The name of the generated union playlist of all tagged-language tracks.
pub fn auto_songs_playlist_name() -> (r: String)
    ensures
        r@ == "[Auto] Songs.m3u8"@,
{
    "[Auto] Songs.m3u8".to_owned()
}

/// The name of the generated playlist for rating `stars`.
pub open spec fn auto_rating_name(stars: u8) -> Seq<char> {
    if stars == 1 {
        "[Auto] 1S.m3u8"@
    } else if stars == 2 {
        "[Auto] 2S.m3u8"@
    } else if stars == 3 {
        "[Auto] 3S.m3u8"@
    } else if stars == 4 {
        "[Auto] 4S.m3u8"@
    } else {
        "[Auto] 5S.m3u8"@
    }
}

/// Builds the file name of the per-rating playlist for `stars`. Unrated
/// tracks get no playlist, so zero stars is excluded.
pub fn auto_rating_playlist_name(stars: u8) -> (r: String)
    requires
        1 <= stars <= 5,
    ensures
        r@ == auto_rating_name(stars),
{
    match stars {
        1 => "[Auto] 1S.m3u8".to_owned(),
        2 => "[Auto] 2S.m3u8".to_owned(),
        3 => "[Auto] 3S.m3u8".to_owned(),
        4 => "[Auto] 4S.m3u8".to_owned(),
        _ => "[Auto] 5S.m3u8".to_owned(),
    }
}

/// The fixed relative path of the optional sealed-directories list.
pub fn sealed_list_file_name() -> (r: String)
    ensures
        r@ == "sealed.txt"@,
{
    "sealed.txt".to_owned()
}

} // verus!
