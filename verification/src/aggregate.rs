//! Grouping the track table by parent directory.
//!
//! One summary row per distinct directory, counting tracks per star rating
//! and per language tag, with the rows in ascending directory order. A row
//! also records whether its directory stands in the externally supplied
//! sealed-directory list; with no list supplied, no directory is sealed.

use vstd::prelude::*;
use crate::sort::{
    lemma_sort_by_key_multiset, lemma_sort_by_key_sorted, sort_by_key, sorted_by_key, SortKey,
};
use crate::strings::{lemma_lex_le_antisym, lex_le, lines_contain, seq_contains_str};
use crate::track::{lang_flag, Lang, Track};

verus! {

/// One row of the per-directory report, fully derived from the track table.
#[derive(Debug)]
pub struct DirectorySummary {
    /// The directory the row describes.
    pub parent_dir: String,
    /// Tracks rated zero stars.
    pub count_0s: usize,
    /// Tracks rated one star.
    pub count_1s: usize,
    /// Tracks rated two stars.
    pub count_2s: usize,
    /// Tracks rated three stars.
    pub count_3s: usize,
    /// Tracks rated four stars.
    pub count_4s: usize,
    /// Tracks rated five stars.
    pub count_5s: usize,
    /// Tracks tagged CN.
    pub count_cn: usize,
    /// Tracks tagged EN.
    pub count_en: usize,
    /// Tracks tagged JP.
    pub count_jp: usize,
    /// Tracks tagged KR.
    pub count_kr: usize,
    /// Tracks tagged O.
    pub count_o: usize,
    /// All tracks of the directory.
    pub total: usize,
    /// The directory stands in the sealed-directory list.
    pub sealed: bool,
}

/// How many tracks of `s` sit in `dir` with rating `k`.
pub open spec fn count_rating(s: Seq<Track>, dir: Seq<char>, k: u8) -> nat
    decreases s.len(),
{
    if s.len() == 0 {
        0
    } else {
        count_rating(s.drop_last(), dir, k) + if s.last().parent_dir@ == dir && s.last().rating
            == k {
            1nat
        } else {
            0nat
        }
    }
}

/// How many tracks of `s` sit in `dir` with the tag for `l` set.
pub open spec fn count_lang(s: Seq<Track>, dir: Seq<char>, l: Lang) -> nat
    decreases s.len(),
{
    if s.len() == 0 {
        0
    } else {
        count_lang(s.drop_last(), dir, l) + if s.last().parent_dir@ == dir && lang_flag(
            s.last().lang_flags,
            l,
        ) {
            1nat
        } else {
            0nat
        }
    }
}

/// How many tracks of `s` sit in `dir`.
pub open spec fn count_dir(s: Seq<Track>, dir: Seq<char>) -> nat
    decreases s.len(),
{
    if s.len() == 0 {
        0
    } else {
        count_dir(s.drop_last(), dir) + if s.last().parent_dir@ == dir {
            1nat
        } else {
            0nat
        }
    }
}

/// Whether `dir` stands in the optional sealed-directory list; an absent
/// list seals nothing.
pub open spec fn spec_sealed(sealed_dirs: Option<Vec<String>>, dir: Seq<char>) -> bool {
    match sealed_dirs {
        Some(l) => seq_contains_str(l@, dir),
        None => false,
    }
}

/// Decides `spec_sealed` for one directory.
pub fn sealed_exec(sealed_dirs: &Option<Vec<String>>, dir: &String) -> (r: bool)
    ensures
        r == spec_sealed(*sealed_dirs, dir@),
{
    match sealed_dirs {
        Some(l) => lines_contain(l, dir),
        None => false,
    }
}

/// Counts the tracks of `dir` with rating `k`.
fn count_rating_exec(tracks: &Vec<Track>, dir: &String, k: u8) -> (c: usize)
    ensures
        c == count_rating(tracks@, dir@, k),
{
    let n = tracks.len();
    let mut c: usize = 0;
    let mut i: usize = 0;
    while i < n
        invariant
            i <= n,
            n == tracks@.len(),
            c <= i,
            c == count_rating(tracks@.take(i as int), dir@, k),
        decreases n - i,
    {
        if tracks[i].parent_dir == *dir && tracks[i].rating == k {
            c = c + 1;
        }
        proof {
            assert(tracks@.take(i as int + 1).drop_last() =~= tracks@.take(i as int));
            assert(tracks@.take(i as int + 1).last() == tracks@[i as int]);
        }
        i = i + 1;
    }
    proof {
        assert(tracks@.take(n as int) =~= tracks@);
    }
    c
}

/// Counts the tracks of `dir` tagged for `l`.
fn count_lang_exec(tracks: &Vec<Track>, dir: &String, l: Lang) -> (c: usize)
    ensures
        c == count_lang(tracks@, dir@, l),
{
    let n = tracks.len();
    let mut c: usize = 0;
    let mut i: usize = 0;
    while i < n
        invariant
            i <= n,
            n == tracks@.len(),
            c <= i,
            c == count_lang(tracks@.take(i as int), dir@, l),
        decreases n - i,
    {
        if tracks[i].parent_dir == *dir && tracks[i].lang_flags.get(l) {
            c = c + 1;
        }
        proof {
            assert(tracks@.take(i as int + 1).drop_last() =~= tracks@.take(i as int));
            assert(tracks@.take(i as int + 1).last() == tracks@[i as int]);
        }
        i = i + 1;
    }
    proof {
        assert(tracks@.take(n as int) =~= tracks@);
    }
    c
}

/// Counts all tracks of `dir`.
fn count_dir_exec(tracks: &Vec<Track>, dir: &String) -> (c: usize)
    ensures
        c == count_dir(tracks@, dir@),
{
    let n = tracks.len();
    let mut c: usize = 0;
    let mut i: usize = 0;
    while i < n
        invariant
            i <= n,
            n == tracks@.len(),
            c <= i,
            c == count_dir(tracks@.take(i as int), dir@),
        decreases n - i,
    {
        if tracks[i].parent_dir == *dir {
            c = c + 1;
        }
        proof {
            assert(tracks@.take(i as int + 1).drop_last() =~= tracks@.take(i as int));
            assert(tracks@.take(i as int + 1).last() == tracks@[i as int]);
        }
        i = i + 1;
    }
    proof {
        assert(tracks@.take(n as int) =~= tracks@);
    }
    c
}

/// Every count field of `row` states the matching count over `tracks`, and
/// `sealed` states membership in the sealed-directory list.
pub open spec fn summary_ok(
    row: DirectorySummary,
    tracks: Seq<Track>,
    sealed_dirs: Option<Vec<String>>,
) -> bool {
    &&& row.count_0s == count_rating(tracks, row.parent_dir@, 0)
    &&& row.count_1s == count_rating(tracks, row.parent_dir@, 1)
    &&& row.count_2s == count_rating(tracks, row.parent_dir@, 2)
    &&& row.count_3s == count_rating(tracks, row.parent_dir@, 3)
    &&& row.count_4s == count_rating(tracks, row.parent_dir@, 4)
    &&& row.count_5s == count_rating(tracks, row.parent_dir@, 5)
    &&& row.count_cn == count_lang(tracks, row.parent_dir@, Lang::Cn)
    &&& row.count_en == count_lang(tracks, row.parent_dir@, Lang::En)
    &&& row.count_jp == count_lang(tracks, row.parent_dir@, Lang::Jp)
    &&& row.count_kr == count_lang(tracks, row.parent_dir@, Lang::Kr)
    &&& row.count_o == count_lang(tracks, row.parent_dir@, Lang::O)
    &&& row.total == count_dir(tracks, row.parent_dir@)
    &&& row.sealed == spec_sealed(sealed_dirs, row.parent_dir@)
}

/// Builds the summary row of one directory.
fn build_summary(tracks: &Vec<Track>, dir: &String, sealed_dirs: &Option<Vec<String>>) -> (row:
    DirectorySummary)
    ensures
        summary_ok(row, tracks@, *sealed_dirs),
        row.parent_dir == *dir,
{
    DirectorySummary {
        parent_dir: dir.clone(),
        count_0s: count_rating_exec(tracks, dir, 0),
        count_1s: count_rating_exec(tracks, dir, 1),
        count_2s: count_rating_exec(tracks, dir, 2),
        count_3s: count_rating_exec(tracks, dir, 3),
        count_4s: count_rating_exec(tracks, dir, 4),
        count_5s: count_rating_exec(tracks, dir, 5),
        count_cn: count_lang_exec(tracks, dir, Lang::Cn),
        count_en: count_lang_exec(tracks, dir, Lang::En),
        count_jp: count_lang_exec(tracks, dir, Lang::Jp),
        count_kr: count_lang_exec(tracks, dir, Lang::Kr),
        count_o: count_lang_exec(tracks, dir, Lang::O),
        total: count_dir_exec(tracks, dir),
        sealed: sealed_exec(sealed_dirs, dir),
    }
}

/// For any directory, the six per-rating counts partition its tracks: as
/// long as every rating is 0 through 5, their sum is the directory's total.
pub proof fn lemma_rating_counts_sum(s: Seq<Track>, dir: Seq<char>)
    requires
        forall|k: int| 0 <= k < s.len() ==> (#[trigger] s[k]).rating <= 5,
    ensures
        count_rating(s, dir, 0) + count_rating(s, dir, 1) + count_rating(s, dir, 2) + count_rating(
            s,
            dir,
            3,
        ) + count_rating(s, dir, 4) + count_rating(s, dir, 5) == count_dir(s, dir),
    decreases s.len(),
{
    if s.len() > 0 {
        assert forall|k: int|
            0 <= k < s.drop_last().len() implies (#[trigger] s.drop_last()[k]).rating <= 5 by {
            assert(s.drop_last()[k] == s[k]);
        }
        lemma_rating_counts_sum(s.drop_last(), dir);
        assert(s[s.len() - 1].rating <= 5);
    }
}

/// At the row level: a summary row's six rating counts sum to its total.
pub proof fn lemma_summary_counts_sum(
    row: DirectorySummary,
    tracks: Seq<Track>,
    sealed_dirs: Option<Vec<String>>,
)
    requires
        summary_ok(row, tracks, sealed_dirs),
        forall|k: int| 0 <= k < tracks.len() ==> (#[trigger] tracks[k]).rating <= 5,
    ensures
        row.count_0s + row.count_1s + row.count_2s + row.count_3s + row.count_4s + row.count_5s
            == row.total,
{
    lemma_rating_counts_sum(tracks, row.parent_dir@);
}

/// Some row of `rows` describes the directory named `v`.
pub open spec fn rows_have_dir(rows: Seq<DirectorySummary>, v: Seq<char>) -> bool {
    exists|a: int| 0 <= a < rows.len() && (#[trigger] rows[a]).parent_dir@ == v
}

/// The rows stand in strictly ascending directory order: later rows have
/// larger directory names, and no two rows share one.
pub open spec fn rows_ascending(rows: Seq<DirectorySummary>) -> bool {
    forall|a: int, b: int|
        0 <= a < b < rows.len() ==> lex_le(
            (#[trigger] rows[a]).parent_dir@,
            (#[trigger] rows[b]).parent_dir@,
        ) && rows[a].parent_dir@ != rows[b].parent_dir@
}

/// The name `v` occurs among the first `j` strings of `s`.
pub open spec fn some_dir_before(s: Seq<String>, j: int, v: Seq<char>) -> bool {
    exists|m: int| 0 <= m < j && (#[trigger] s[m])@ == v
}

/// Some track of `tracks` sits in the directory named `v`.
pub open spec fn tracks_have_dir(tracks: Seq<Track>, v: Seq<char>) -> bool {
    exists|k: int| 0 <= k < tracks.len() && (#[trigger] tracks[k]).parent_dir@ == v
}

/// Walks an already sorted directory list and emits one summary row per
/// distinct name, skipping repeats of the previous name.
fn summarize_sorted_dirs(
    tracks: &Vec<Track>,
    sorted: &Vec<String>,
    sealed_dirs: &Option<Vec<String>>,
) -> (res: Vec<DirectorySummary>)
    requires
        sorted_by_key(sorted@),
    ensures
        rows_ascending(res@),
        forall|m: int| 0 <= m < sorted@.len() ==> rows_have_dir(res@, (#[trigger] sorted@[m])@),
        forall|a: int|
            0 <= a < res@.len() ==> some_dir_before(
                sorted@,
                sorted@.len() as int,
                (#[trigger] res@[a]).parent_dir@,
            ),
        forall|a: int| 0 <= a < res@.len() ==> summary_ok(#[trigger] res@[a], tracks@, *sealed_dirs),
{
    let sn = sorted.len();
    let mut res: Vec<DirectorySummary> = Vec::new();
    let mut j: usize = 0;
    while j < sn
        invariant
            j <= sn,
            sn == sorted@.len(),
            sorted_by_key(sorted@),
            rows_ascending(res@),
            forall|m: int| 0 <= m < j ==> rows_have_dir(res@, (#[trigger] sorted@[m])@),
            forall|a: int|
                0 <= a < res@.len() ==> some_dir_before(
                    sorted@,
                    j as int,
                    (#[trigger] res@[a]).parent_dir@,
                ),
            forall|a: int|
                0 <= a < res@.len() ==> summary_ok(#[trigger] res@[a], tracks@, *sealed_dirs),
        decreases sn - j,
    {
        let d = &sorted[j];
        let is_new = if res.len() == 0 {
            true
        } else {
            !(res[res.len() - 1].parent_dir == *d)
        };
        if is_new {
            let ghost old_res = res@;
            proof {
                assert forall|a: int| 0 <= a < old_res.len() implies lex_le(
                    (#[trigger] old_res[a]).parent_dir@,
                    sorted@[j as int]@,
                ) && old_res[a].parent_dir@ != sorted@[j as int]@ by {
                    assert(some_dir_before(sorted@, j as int, old_res[a].parent_dir@));
                    let m = choose|m: int|
                        0 <= m < j && (#[trigger] sorted@[m])@ == old_res[a].parent_dir@;
                    assert(lex_le(sorted@[m].key(), sorted@[j as int].key()));
                    if old_res[a].parent_dir@ == sorted@[j as int]@ {
                        let last = old_res.len() - 1;
                        if a == last {
                            assert(false);
                        } else {
                            assert(some_dir_before(sorted@, j as int, old_res[last].parent_dir@));
                            let ml = choose|m2: int|
                                0 <= m2 < j && (#[trigger] sorted@[m2])@
                                    == old_res[last].parent_dir@;
                            assert(lex_le(sorted@[ml].key(), sorted@[j as int].key()));
                            assert(lex_le(old_res[a].parent_dir@, old_res[last].parent_dir@));
                            lemma_lex_le_antisym(old_res[last].parent_dir@, sorted@[j as int]@);
                            assert(false);
                        }
                    }
                }
            }
            let row = build_summary(tracks, d, sealed_dirs);
            res.push(row);
            proof {
                let newlen = res@.len() as int;
                assert((res@[newlen - 1]).parent_dir@ == sorted@[j as int]@);
                assert forall|m: int| 0 <= m < j + 1 implies rows_have_dir(
                    res@,
                    (#[trigger] sorted@[m])@,
                ) by {
                    if m < j {
                        assert(rows_have_dir(old_res, sorted@[m]@));
                        let a = choose|a: int|
                            0 <= a < old_res.len() && (#[trigger] old_res[a]).parent_dir@
                                == sorted@[m]@;
                        assert((res@[a]).parent_dir@ == sorted@[m]@);
                    }
                }
                assert forall|a: int| 0 <= a < res@.len() implies some_dir_before(
                    sorted@,
                    j as int + 1,
                    (#[trigger] res@[a]).parent_dir@,
                ) by {
                    if a < newlen - 1 {
                        assert(some_dir_before(sorted@, j as int, old_res[a].parent_dir@));
                        let m = choose|m: int|
                            0 <= m < j && (#[trigger] sorted@[m])@ == old_res[a].parent_dir@;
                        assert((sorted@[m])@ == res@[a].parent_dir@);
                    } else {
                        assert((sorted@[j as int])@ == res@[a].parent_dir@);
                    }
                }
                assert forall|a: int, b: int| 0 <= a < b < res@.len() implies lex_le(
                    (#[trigger] res@[a]).parent_dir@,
                    (#[trigger] res@[b]).parent_dir@,
                ) && res@[a].parent_dir@ != res@[b].parent_dir@ by {
                    if b < newlen - 1 {
                        assert(res@[a] == old_res[a]);
                        assert(res@[b] == old_res[b]);
                    } else {
                        assert(res@[a] == old_res[a]);
                        assert(lex_le(old_res[a].parent_dir@, sorted@[j as int]@));
                    }
                }
            }
        } else {
            proof {
                let last = res@.len() - 1;
                assert((res@[last]).parent_dir@ == sorted@[j as int]@);
                assert forall|m: int| 0 <= m < j + 1 implies rows_have_dir(
                    res@,
                    (#[trigger] sorted@[m])@,
                ) by {
                    if m == j {
                        assert((res@[last]).parent_dir@ == sorted@[m]@);
                    }
                }
                assert forall|a: int| 0 <= a < res@.len() implies some_dir_before(
                    sorted@,
                    j as int + 1,
                    (#[trigger] res@[a]).parent_dir@,
                ) by {
                    assert(some_dir_before(sorted@, j as int, res@[a].parent_dir@));
                    let m = choose|m: int|
                        0 <= m < j && (#[trigger] sorted@[m])@ == res@[a].parent_dir@;
                    assert((sorted@[m])@ == res@[a].parent_dir@);
                }
            }
        }
        j = j + 1;
    }
    res
}

/// Summary rows of `tracks`: exactly one per distinct parent directory, in
/// strictly ascending directory order, each with exact counts.
pub fn aggregate_by_directory(tracks: &Vec<Track>, sealed_dirs: &Option<Vec<String>>) -> (res: Vec<
    DirectorySummary,
>)
    ensures
        rows_ascending(res@),
        forall|k: int|
            0 <= k < tracks@.len() ==> rows_have_dir(res@, (#[trigger] tracks@[k]).parent_dir@),
        forall|a: int|
            0 <= a < res@.len() ==> tracks_have_dir(tracks@, (#[trigger] res@[a]).parent_dir@),
        forall|a: int| 0 <= a < res@.len() ==> summary_ok(#[trigger] res@[a], tracks@, *sealed_dirs),
{
    let n = tracks.len();
    let mut all_dirs: Vec<String> = Vec::new();
    let mut k: usize = 0;
    while k < n
        invariant
            k <= n,
            n == tracks@.len(),
            all_dirs@.len() == k,
            forall|m: int| 0 <= m < k ==> all_dirs@[m] == (#[trigger] tracks@[m]).parent_dir,
        decreases n - k,
    {
        all_dirs.push(tracks[k].parent_dir.clone());
        k = k + 1;
    }
    let ghost dirs0 = all_dirs@;
    let sorted = sort_by_key(all_dirs);
    proof {
        lemma_sort_by_key_sorted(dirs0);
        lemma_sort_by_key_multiset(dirs0);
    }
    let res = summarize_sorted_dirs(tracks, &sorted, sealed_dirs);
    proof {
        broadcast use vstd::seq_lib::group_to_multiset_ensures;

        let sn = sorted@.len() as int;
        assert forall|a: int| 0 <= a < res@.len() implies tracks_have_dir(
            tracks@,
            (#[trigger] res@[a]).parent_dir@,
        ) by {
            assert(some_dir_before(sorted@, sn, res@[a].parent_dir@));
            let m = choose|m: int| 0 <= m < sn && (#[trigger] sorted@[m])@ == res@[a].parent_dir@;
            assert(sorted@.contains(sorted@[m]));
            assert(sorted@.to_multiset().count(sorted@[m]) > 0);
            assert(dirs0.to_multiset().count(sorted@[m]) > 0);
            assert(dirs0.contains(sorted@[m]));
            let q = choose|q: int| 0 <= q < dirs0.len() && dirs0[q] == sorted@[m];
            assert(dirs0[q] == (tracks@[q]).parent_dir);
            assert((tracks@[q]).parent_dir@ == res@[a].parent_dir@);
        }
        assert forall|k2: int| 0 <= k2 < tracks@.len() implies rows_have_dir(
            res@,
            (#[trigger] tracks@[k2]).parent_dir@,
        ) by {
            assert(dirs0[k2] == (tracks@[k2]).parent_dir);
            assert(dirs0.contains(dirs0[k2]));
            assert(dirs0.to_multiset().count(dirs0[k2]) > 0);
            assert(sorted@.to_multiset().count(dirs0[k2]) > 0);
            assert(sorted@.contains(dirs0[k2]));
            let m = choose|m: int| 0 <= m < sorted@.len() && sorted@[m] == dirs0[k2];
            assert(rows_have_dir(res@, (sorted@[m])@));
            let a = choose|a: int|
                0 <= a < res@.len() && (#[trigger] res@[a]).parent_dir@ == (sorted@[m])@;
            assert(res@[a].parent_dir@ == (tracks@[k2]).parent_dir@);
        }
    }
    res
}

} // verus!
