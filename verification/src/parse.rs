//! Parsing playlist text into track records.
//!
//! A playlist body is consumed two lines at a time: a rating line, then a
//! file line. The rating is the last character of the rating line; the
//! directory and file name are the last two `/`-separated segments of the
//! file line.

use vstd::prelude::*;
use vstd::string::*;
use crate::errors::{MalformedKind, PipelineError};
use crate::track::{no_lang_flags, LangFlags, Track};

verus! {

/// The rating encoded by a rating line: its last character must be one of
/// `0` through `5`; an empty line or any other last character is invalid.
pub open spec fn rating_of(line: Seq<char>) -> Option<u8> {
    if line.len() == 0 {
        None
    } else if ('0' as u32) <= (line.last() as u32) <= ('5' as u32) {
        Some((line.last() as u32 - '0' as u32) as u8)
    } else {
        None
    }
}

/// Parses the star rating from the last character of `line`.
pub fn parse_rating(line: &str) -> (r: Option<u8>)
    ensures
        r == rating_of(line@),
{
    let n = line.unicode_len();
    if n == 0 {
        return None;
    }
    let c = line.get_char(n - 1);
    let u = c as u32;
    if ('0' as u32) <= u && u <= ('5' as u32) {
        Some((u - ('0' as u32)) as u8)
    } else {
        None
    }
}

/// The index of the last `/` in `s`, or `-1` if there is none.
pub open spec fn last_slash(s: Seq<char>) -> int
    decreases s.len(),
{
    if s.len() == 0 {
        -1
    } else if s.last() == '/' {
        s.len() - 1
    } else {
        last_slash(s.drop_last())
    }
}

/// What `last_slash` finds: a `/` with none after it, or `-1` when `s` has
/// no `/` at all.
pub proof fn lemma_last_slash(s: Seq<char>)
    ensures
        -1 <= last_slash(s) < s.len(),
        last_slash(s) >= 0 ==> s[last_slash(s)] == '/',
        forall|k: int| last_slash(s) < k < s.len() ==> s[k] != '/',
    decreases s.len(),
{
    if s.len() == 0 {
    } else if s.last() == '/' {
    } else {
        lemma_last_slash(s.drop_last());
        assert forall|k: int| last_slash(s) < k < s.len() implies s[k] != '/' by {
            if k < s.len() - 1 {
                assert(s.drop_last()[k] == s[k]);
            }
        }
    }
}

/// `s` has at least one `/`, that is, at least two `/`-separated segments.
pub open spec fn has_slash(s: Seq<char>) -> bool {
    last_slash(s) >= 0
}

/// The last `/`-separated segment of `s`.
pub open spec fn spec_file_name(s: Seq<char>) -> Seq<char> {
    s.subrange(last_slash(s) + 1, s.len() as int)
}

/// The second-to-last `/`-separated segment of `s`.
pub open spec fn spec_parent_dir(s: Seq<char>) -> Seq<char> {
    let j = last_slash(s);
    s.take(j).subrange(last_slash(s.take(j)) + 1, j)
}

/// The split is faithful: for a line with at least one `/`, the parent
/// directory, a `/`, and the file name, concatenated, rebuild the line's
/// tail from the start of its second-to-last segment, and that `/` is the
/// only one after that start — the two fields really are the final two
/// `/`-separated segments of the line.
pub proof fn lemma_split_reconstructs(s: Seq<char>)
    requires
        has_slash(s),
    ensures
        ({
            let j = last_slash(s);
            let i = last_slash(s.take(j));
            &&& spec_parent_dir(s) + "/"@ + spec_file_name(s) == s.subrange(i + 1, s.len() as int)
            &&& s[j] == '/'
            &&& (i >= 0 ==> s[i] == '/')
            &&& forall|k: int| i < k < s.len() && k != j ==> s[k] != '/'
        }),
{
    reveal_strlit("/");
    let j = last_slash(s);
    let i = last_slash(s.take(j));
    lemma_last_slash(s);
    lemma_last_slash(s.take(j));
    assert("/"@.len() == 1);
    assert("/"@[0] == '/');
    if i >= 0 {
        assert(s[i] == s.take(j)[i]);
    }
    assert forall|k: int| i < k < s.len() && k != j implies s[k] != '/' by {
        if k < j {
            assert(s.take(j)[k] == s[k]);
        }
    }
    assert(spec_parent_dir(s) + "/"@ + spec_file_name(s) =~= s.subrange(i + 1, s.len() as int));
}

/// Finds the index of the last `/` among the first `upto` characters of `s`,
/// scanning from the end.
fn find_last_slash_before(s: &str, upto: usize) -> (r: Option<usize>)
    requires
        upto <= s@.len(),
    ensures
        match r {
            Some(j) => last_slash(s@.take(upto as int)) == j,
            None => last_slash(s@.take(upto as int)) == -1,
        },
{
    let mut k: usize = upto;
    while k > 0
        invariant
            k <= upto,
            upto <= s@.len(),
            forall|m: int| k <= m < upto ==> s@[m] != '/',
        decreases k,
    {
        let c = s.get_char(k - 1);
        if c == '/' {
            proof {
                let p = s@.take(upto as int);
                lemma_last_slash(p);
                assert(p[k - 1] == s@[k - 1]);
                assert forall|m: int| k - 1 < m < p.len() implies p[m] != '/' by {
                    assert(p[m] == s@[m]);
                }
                if last_slash(p) != k - 1 {
                    // either it would sit after k - 1, contradicting the scan,
                    // or `/` at k - 1 would sit after it, contradicting the lemma
                    assert(false);
                }
            }
            return Some(k - 1);
        }
        k = k - 1;
    }
    proof {
        let p = s@.take(upto as int);
        lemma_last_slash(p);
        if last_slash(p) >= 0 {
            assert(p[last_slash(p)] == s@[last_slash(p)]);
            assert(false);
        }
    }
    None
}

/// Splits `s` into its last two `/`-separated segments: the parent directory
/// and the file name. Yields nothing when `s` has no `/`.
pub fn split_file_line(s: &str) -> (r: Option<(String, String)>)
    ensures
        r is Some <==> has_slash(s@),
        r matches Some(pf) ==> pf.0@ == spec_parent_dir(s@) && pf.1@ == spec_file_name(s@),
{
    let n = s.unicode_len();
    proof {
        assert(s@.take(n as int) =~= s@);
    }
    let j = match find_last_slash_before(s, n) {
        None => {
            return None;
        },
        Some(j) => j,
    };
    proof {
        lemma_last_slash(s@);
        lemma_last_slash(s@.take(j as int));
    }
    let i_plus_one = match find_last_slash_before(s, j) {
        None => 0usize,
        Some(i) => i + 1,
    };
    let parent_dir = s.substring_char(i_plus_one, j).to_owned();
    let file_name = s.substring_char(j + 1, n).to_owned();
    proof {
        let jj = last_slash(s@);
        assert(jj == j);
        assert(spec_parent_dir(s@) =~= s@.subrange(last_slash(s@.take(jj)) + 1, jj));
        assert(parent_dir@ =~= spec_parent_dir(s@));
        assert(file_name@ =~= spec_file_name(s@));
    }
    Some((parent_dir, file_name))
}

/// The pair of a rating line and a file line is well formed: the rating line
/// ends in `0`-`5` and the file line has at least two segments.
pub open spec fn valid_pair(rl: String, fl: String) -> bool {
    rating_of(rl@) is Some && has_slash(fl@)
}

/// Pair `i` of `lines` — the lines at `2i` and `2i + 1` — is well formed.
pub open spec fn valid_pair_at(lines: Seq<String>, i: int) -> bool {
    valid_pair(lines[2 * i], lines[2 * i + 1])
}

/// Every complete (rating line, file line) pair of `lines` is well formed.
pub open spec fn all_pairs_valid(lines: Seq<String>) -> bool {
    forall|i: int| 0 <= i < lines.len() / 2 ==> #[trigger] valid_pair_at(lines, i)
}

/// Pair `i` is the first ill-formed pair of `lines`.
pub open spec fn is_first_bad_pair(lines: Seq<String>, i: int) -> bool {
    &&& 0 <= i < lines.len() / 2
    &&& !valid_pair_at(lines, i)
    &&& forall|k: int| 0 <= k < i ==> #[trigger] valid_pair_at(lines, k)
}

/// Row `i` of the track table is built from pair `i` of the lines.
pub open spec fn track_matches_at(ts: Seq<Track>, lines: Seq<String>, i: int) -> bool {
    track_matches(ts[i], lines[2 * i], lines[2 * i + 1])
}

/// The track built from the pair `(rl, fl)` carries both lines verbatim, the
/// rating and path fields derived from them, and no language flags yet.
pub open spec fn track_matches(t: Track, rl: String, fl: String) -> bool {
    &&& t.rating_line == rl
    &&& t.file_line == fl
    &&& rating_of(rl@) == Some(t.rating)
    &&& t.parent_dir@ == spec_parent_dir(fl@)
    &&& t.file_name@ == spec_file_name(fl@)
    &&& t.lang_flags == no_lang_flags()
}

/// The error for the first ill-formed pair: the bad rating line when the
/// rating is invalid, else the file line with too few segments.
pub open spec fn describes_bad_pair(
    e: PipelineError,
    path: Seq<char>,
    rl: String,
    fl: String,
) -> bool {
    match e {
        PipelineError::MalformedPlaylist { path: p, kind, line } => {
            &&& p@ == path
            &&& if rating_of(rl@) is None {
                kind == MalformedKind::BadRating && line == rl
            } else {
                kind == MalformedKind::BadPath && line == fl
            }
        },
        _ => false,
    }
}

/// The error for a trailing rating line with no following file line.
pub open spec fn describes_trailing_line(e: PipelineError, path: Seq<char>, l: String) -> bool {
    match e {
        PipelineError::MalformedPlaylist { path: p, kind, line } => {
            p@ == path && kind == MalformedKind::TrailingRatingLine && line == l
        },
        _ => false,
    }
}

/// Builds one track per (rating line, file line) pair of the master playlist
/// body, in input order. `path` only names the file in errors.
pub fn build_tracks(path: &str, lines: &Vec<String>) -> (r: Result<Vec<Track>, PipelineError>)
    ensures
        r is Ok <==> lines@.len() % 2 == 0 && all_pairs_valid(lines@),
        r matches Ok(ts) ==> {
            &&& ts@.len() == lines@.len() / 2
            &&& forall|i: int| 0 <= i < ts@.len() ==> #[trigger] track_matches_at(ts@, lines@, i)
            &&& forall|i: int| 0 <= i < ts@.len() ==> (#[trigger] ts@[i].rating) <= 5
        },
        lines@.len() % 2 == 1 ==> (r matches Err(e) && describes_trailing_line(
            e,
            path@,
            lines@.last(),
        )),
        lines@.len() % 2 == 0 && !all_pairs_valid(lines@) ==> (r matches Err(e) && exists|i: int|
            is_first_bad_pair(lines@, i) && describes_bad_pair(
                e,
                path@,
                lines@[2 * i],
                lines@[2 * i + 1],
            )),
{
    let n = lines.len();
    if n % 2 == 1 {
        return Err(
            PipelineError::MalformedPlaylist {
                path: path.to_owned(),
                kind: MalformedKind::TrailingRatingLine,
                line: lines[n - 1].clone(),
            },
        );
    }
    let m = n / 2;
    let mut tracks: Vec<Track> = Vec::new();
    let mut i: usize = 0;
    while i < m
        invariant
            i <= m,
            m == lines@.len() / 2,
            n == lines@.len(),
            n % 2 == 0,
            tracks@.len() == i,
            forall|k: int| 0 <= k < i ==> #[trigger] valid_pair_at(lines@, k),
            forall|k: int| 0 <= k < i ==> #[trigger] track_matches_at(tracks@, lines@, k),
        decreases m - i,
    {
        let rating = match parse_rating(lines[2 * i].as_str()) {
            None => {
                proof {
                    assert(!valid_pair_at(lines@, i as int));
                    assert(is_first_bad_pair(lines@, i as int));
                }
                return Err(
                    PipelineError::MalformedPlaylist {
                        path: path.to_owned(),
                        kind: MalformedKind::BadRating,
                        line: lines[2 * i].clone(),
                    },
                );
            },
            Some(v) => v,
        };
        let (parent_dir, file_name) = match split_file_line(lines[2 * i + 1].as_str()) {
            None => {
                proof {
                    assert(!valid_pair_at(lines@, i as int));
                    assert(is_first_bad_pair(lines@, i as int));
                }
                return Err(
                    PipelineError::MalformedPlaylist {
                        path: path.to_owned(),
                        kind: MalformedKind::BadPath,
                        line: lines[2 * i + 1].clone(),
                    },
                );
            },
            Some(pf) => pf,
        };
        let ghost old_tracks = tracks@;
        tracks.push(
            Track {
                rating_line: lines[2 * i].clone(),
                file_line: lines[2 * i + 1].clone(),
                rating,
                parent_dir,
                file_name,
                lang_flags: LangFlags::none(),
            },
        );
        proof {
            assert forall|k: int| 0 <= k < i + 1 implies #[trigger] track_matches_at(
                tracks@,
                lines@,
                k,
            ) by {
                if k == i {
                    assert(track_matches(tracks@[k], lines@[2 * k], lines@[2 * k + 1]));
                } else {
                    assert(track_matches_at(old_tracks, lines@, k));
                    assert(tracks@[k] == old_tracks[k]);
                }
            }
        }
        i = i + 1;
    }
    proof {
        assert forall|k: int| 0 <= k < tracks@.len() implies (#[trigger] tracks@[k].rating)
            <= 5 by {
            assert(track_matches_at(tracks@, lines@, k));
        }
    }
    Ok(tracks)
}

/// Extracts the file line of every pair of a language playlist body; the
/// rating lines are discarded unexamined. `path` only names the file in
/// errors.
pub fn language_file_lines(path: &str, lines: &Vec<String>) -> (r: Result<
    Vec<String>,
    PipelineError,
>)
    ensures
        r is Ok <==> lines@.len() % 2 == 0,
        r matches Ok(fs) ==> {
            &&& fs@.len() == lines@.len() / 2
            &&& forall|i: int| 0 <= i < fs@.len() ==> fs@[i] == lines@[2 * i + 1]
        },
        lines@.len() % 2 == 1 ==> (r matches Err(e) && describes_trailing_line(
            e,
            path@,
            lines@.last(),
        )),
{
    let n = lines.len();
    if n % 2 == 1 {
        return Err(
            PipelineError::MalformedPlaylist {
                path: path.to_owned(),
                kind: MalformedKind::TrailingRatingLine,
                line: lines[n - 1].clone(),
            },
        );
    }
    let m = n / 2;
    let mut file_lines: Vec<String> = Vec::new();
    let mut i: usize = 0;
    while i < m
        invariant
            i <= m,
            m == lines@.len() / 2,
            n == lines@.len(),
            n % 2 == 0,
            file_lines@.len() == i,
            forall|k: int| 0 <= k < i ==> file_lines@[k] == lines@[2 * k + 1],
        decreases m - i,
    {
        file_lines.push(lines[2 * i + 1].clone());
        i = i + 1;
    }
    Ok(file_lines)
}

/// Drops the leading `count` header lines of a freshly read playlist.
pub fn drop_header(lines: &Vec<String>, count: usize) -> (r: Vec<String>)
    ensures
        count <= lines@.len() ==> r@ == lines@.skip(count as int),
        count > lines@.len() ==> r@ == Seq::<String>::empty(),
{
    let n = lines.len();
    let mut body: Vec<String> = Vec::new();
    if count >= n {
        proof {
            if count <= lines@.len() {
                assert(lines@.skip(count as int) =~= Seq::<String>::empty());
            }
        }
        return body;
    }
    let mut i: usize = count;
    while i < n
        invariant
            count <= i <= n,
            n == lines@.len(),
            body@ =~= lines@.subrange(count as int, i as int),
        decreases n - i,
    {
        body.push(lines[i].clone());
        i = i + 1;
    }
    proof {
        assert(lines@.subrange(count as int, n as int) =~= lines@.skip(count as int));
    }
    body
}

} // verus!
