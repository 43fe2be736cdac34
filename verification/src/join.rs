//! Tagging each track with its per-language membership.
//!
//! A track is tagged for a language iff its verbatim file line appears in
//! that language's playlist. Matching is exact string equality: whitespace,
//! case and URI-encoding differences all count, on purpose.

use vstd::prelude::*;
use crate::strings::{lines_contain, seq_contains_str};
use crate::track::{spec_with_flag, Lang, Track};

verus! {

/// `t` with its flag for `l` set to `present`; every other field unchanged.
pub open spec fn spec_tagged(t: Track, l: Lang, present: bool) -> Track {
    Track { lang_flags: spec_with_flag(t.lang_flags, l, present), ..t }
}

/// Returns the track table with the column for language `l` filled in: row
/// `i` is tagged iff its file line occurs verbatim among `playlist_lines`.
pub fn with_language_membership(tracks: &Vec<Track>, l: Lang, playlist_lines: &Vec<String>) -> (res:
    Vec<Track>)
    ensures
        res@.len() == tracks@.len(),
        forall|i: int|
            0 <= i < tracks@.len() ==> #[trigger] res@[i] == spec_tagged(
                tracks@[i],
                l,
                seq_contains_str(playlist_lines@, tracks@[i].file_line@),
            ),
{
    let mut res: Vec<Track> = Vec::new();
    let n = tracks.len();
    let mut i: usize = 0;
    while i < n
        invariant
            i <= n,
            n == tracks@.len(),
            res@.len() == i,
            forall|k: int|
                0 <= k < i ==> #[trigger] res@[k] == spec_tagged(
                    tracks@[k],
                    l,
                    seq_contains_str(playlist_lines@, tracks@[k].file_line@),
                ),
        decreases n - i,
    {
        let present = lines_contain(playlist_lines, &tracks[i].file_line);
        let t = &tracks[i];
        res.push(
            Track {
                rating_line: t.rating_line.clone(),
                file_line: t.file_line.clone(),
                rating: t.rating,
                parent_dir: t.parent_dir.clone(),
                file_name: t.file_name.clone(),
                lang_flags: t.lang_flags.with(l, present),
            },
        );
        i = i + 1;
    }
    res
}

} // verus!
