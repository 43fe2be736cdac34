//! Filtering, ordering and serializing tracks into playlist text.
//!
//! A generated playlist is the header line `#EXTM3U`, then the selected
//! tracks sorted by their raw file line, each contributing its two original
//! lines verbatim, all joined by single newlines with no trailing newline.

use vstd::prelude::*;
use vstd::string::*;
use crate::sort::{lemma_sort_by_key_sorted, sort_by_key, sort_by_key_spec, sorted_by_key, SortKey};
use crate::track::{any_lang_flag, clone_track, Track};

verus! {

/// Which tracks a generated playlist selects.
#[derive(Debug, Clone, Copy, PartialEq, Eq, Structural)]
pub enum Selection {
    /// Tracks tagged for at least one language.
    AnyLanguage,
    /// Tracks with exactly this star rating.
    RatingIs(u8),
}

/// Whether `sel` selects track `t`.
pub open spec fn selects(sel: Selection, t: Track) -> bool {
    match sel {
        Selection::AnyLanguage => any_lang_flag(t.lang_flags),
        Selection::RatingIs(k) => t.rating == k,
    }
}

/// Decides `selects` on one track.
pub fn selects_exec(sel: Selection, t: &Track) -> (r: bool)
    ensures
        r == selects(sel, *t),
{
    match sel {
        Selection::AnyLanguage => t.lang_flags.any(),
        Selection::RatingIs(k) => t.rating == k,
    }
}

/// The subsequence of `s` selected by `sel`, in input order.
pub open spec fn filter_spec(s: Seq<Track>, sel: Selection) -> Seq<Track>
    decreases s.len(),
{
    if s.len() == 0 {
        Seq::empty()
    } else {
        let rest = filter_spec(s.drop_last(), sel);
        if selects(sel, s.last()) {
            rest.push(s.last())
        } else {
            rest
        }
    }
}

/// Selects the tracks of `tracks` that `sel` selects, in input order.
pub fn filter_tracks(tracks: &Vec<Track>, sel: Selection) -> (res: Vec<Track>)
    ensures
        res@ == filter_spec(tracks@, sel),
{
    let mut res: Vec<Track> = Vec::new();
    let n = tracks.len();
    let mut i: usize = 0;
    while i < n
        invariant
            i <= n,
            n == tracks@.len(),
            res@ == filter_spec(tracks@.take(i as int), sel),
        decreases n - i,
    {
        if selects_exec(sel, &tracks[i]) {
            res.push(clone_track(&tracks[i]));
        }
        proof {
            assert(tracks@.take(i as int + 1).drop_last() =~= tracks@.take(i as int));
            assert(tracks@.take(i as int + 1).last() == tracks@[i as int]);
        }
        i = i + 1;
    }
    proof {
        assert(tracks@.take(n as int) =~= tracks@);
    }
    res
}

/// The selection is sound and complete: a track stands in the filtered
/// sequence iff it stands in the input and `sel` selects it.
pub proof fn lemma_filter_spec_membership(s: Seq<Track>, sel: Selection)
    ensures
        forall|t: Track|
            #[trigger] filter_spec(s, sel).contains(t) <==> (s.contains(t) && selects(sel, t)),
    decreases s.len(),
{
    if s.len() > 0 {
        lemma_filter_spec_membership(s.drop_last(), sel);
        let rest = filter_spec(s.drop_last(), sel);
        assert forall|t: Track| #[trigger] filter_spec(s, sel).contains(t) <==> (s.contains(t)
            && selects(sel, t)) by {
            if filter_spec(s, sel).contains(t) {
                if rest.contains(t) {
                    let i = choose|i: int| 0 <= i < rest.len() && rest[i] == t;
                    assert(s.drop_last().contains(t));
                    let m = choose|m: int|
                        0 <= m < s.drop_last().len() && s.drop_last()[m] == t;
                    assert(s[m] == t);
                    assert(s.contains(t));
                } else {
                    assert(selects(sel, s.last()));
                    let i = choose|i: int|
                        0 <= i < filter_spec(s, sel).len() && filter_spec(s, sel)[i] == t;
                    assert(t == s.last());
                    assert(s.contains(s.last()));
                }
            }
            if s.contains(t) && selects(sel, t) {
                let m = choose|m: int| 0 <= m < s.len() && s[m] == t;
                if m < s.len() - 1 {
                    assert(s.drop_last()[m] == t);
                    assert(s.drop_last().contains(t));
                    assert(rest.contains(t));
                    let i = choose|i: int| 0 <= i < rest.len() && rest[i] == t;
                    if selects(sel, s.last()) {
                        assert(filter_spec(s, sel)[i] == t);
                    } else {
                        assert(filter_spec(s, sel)[i] == t);
                    }
                } else {
                    assert(t == s.last());
                    assert(filter_spec(s, sel).last() == t);
                }
            }
        }
    }
}

/// Ordering loses nothing: the sorted selection holds exactly the tracks of
/// the filtered selection, multiplicity included.
pub proof fn lemma_playlist_entries_exact(s: Seq<Track>, sel: Selection)
    ensures
        sort_by_key_spec(filter_spec(s, sel)).to_multiset() == filter_spec(s, sel).to_multiset(),
{
    crate::sort::lemma_sort_by_key_multiset(filter_spec(s, sel));
}

/// The two raw lines one track contributes.
pub open spec fn entry_chars(t: Track) -> Seq<char> {
    t.rating_line@ + "\n"@ + t.file_line@
}

/// The entries of the tracks joined by `\n`, with no trailing newline.
pub open spec fn entries_chars(s: Seq<Track>) -> Seq<char>
    decreases s.len(),
{
    if s.len() == 0 {
        Seq::empty()
    } else if s.len() == 1 {
        entry_chars(s[0])
    } else {
        entries_chars(s.drop_last()) + "\n"@ + entry_chars(s.last())
    }
}

/// The full playlist text: the header line, then the entries.
pub open spec fn render_spec(s: Seq<Track>) -> Seq<char> {
    "#EXTM3U\n"@ + entries_chars(s)
}

/// Serializes already selected and ordered tracks into playlist text.
pub fn render_playlist(tracks: &Vec<Track>) -> (r: String)
    ensures
        r@ == render_spec(tracks@),
{
    let mut out = "#EXTM3U\n".to_owned();
    proof {
        assert(("#EXTM3U\n"@ + entries_chars(tracks@.take(0))) =~= "#EXTM3U\n"@);
    }
    let n = tracks.len();
    let mut i: usize = 0;
    while i < n
        invariant
            i <= n,
            n == tracks@.len(),
            out@ == render_spec(tracks@.take(i as int)),
        decreases n - i,
    {
        if i > 0 {
            out.append("\n");
        }
        out.append(tracks[i].rating_line.as_str());
        out.append("\n");
        out.append(tracks[i].file_line.as_str());
        proof {
            let tnext = tracks@.take(i as int + 1);
            assert(tnext.drop_last() =~= tracks@.take(i as int));
            assert(tnext.last() == tracks@[i as int]);
            if i == 0 {
                assert(tnext[0] == tracks@[0]);
            }
            assert(out@ =~= render_spec(tnext));
        }
        i = i + 1;
    }
    proof {
        assert(tracks@.take(n as int) =~= tracks@);
    }
    out
}

/// The text of the playlist that `sel` selects out of `s`: the selected
/// tracks, sorted by raw file line, serialized after the header.
pub open spec fn playlist_spec(s: Seq<Track>, sel: Selection) -> Seq<char> {
    render_spec(sort_by_key_spec(filter_spec(s, sel)))
}

/// Builds the playlist text for `sel`: filter, sort, serialize.
pub fn generate_playlist_content(tracks: &Vec<Track>, sel: Selection) -> (r: String)
    ensures
        r@ == playlist_spec(tracks@, sel),
{
    let selected = filter_tracks(tracks, sel);
    let sorted = sort_by_key(selected);
    render_playlist(&sorted)
}

/// Generated playlist text always begins with the `#EXTM3U` header line, and
/// its entries stand in ascending file-line order.
pub proof fn lemma_playlist_well_formed(s: Seq<Track>, sel: Selection)
    ensures
        playlist_spec(s, sel).len() >= 8,
        playlist_spec(s, sel).take(8) == "#EXTM3U\n"@,
        sorted_by_key(sort_by_key_spec(filter_spec(s, sel))),
{
    reveal_strlit("#EXTM3U\n");
    assert(("#EXTM3U\n"@ + entries_chars(sort_by_key_spec(filter_spec(s, sel)))).take(8)
        =~= "#EXTM3U\n"@);
    lemma_sort_by_key_sorted(filter_spec(s, sel));
}

/// Rebuilding playlist text from an unchanged track table yields identical
/// text: the output is a function of the table and the selection alone.
pub proof fn lemma_playlist_deterministic(a: Seq<Track>, b: Seq<Track>, sel: Selection)
    requires
        a == b,
    ensures
        playlist_spec(a, sel) == playlist_spec(b, sel),
{
}

/// What to do about a destination that may already hold a playlist.
#[derive(Debug, Clone, Copy, PartialEq, Eq, Structural)]
pub enum WriteDecision {
    /// Create or overwrite the destination file.
    Write,
    /// Leave the existing file untouched; a skip, not an error.
    SkipDeclined,
}

/// Decides an overwrite: an absent destination or force mode writes without
/// asking; otherwise the caller's confirmation answer decides, and a decline
/// skips this one file while the run continues.
pub fn overwrite_decision(destination_exists: bool, force: bool, confirmed: bool) -> (d:
    WriteDecision)
    ensures
        d == WriteDecision::Write <==> (!destination_exists || force || confirmed),
{
    if !destination_exists || force || confirmed {
        WriteDecision::Write
    } else {
        WriteDecision::SkipDeclined
    }
}

} // verus!
