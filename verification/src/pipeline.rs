//! The single source of truth: building the fully tagged track table.
//!
//! The master playlist body yields one track per line pair; each of the five
//! language playlist bodies then fills in one membership column. All file
//! reading happens outside the library; this module takes the line
//! sequences and the paths they came from (the paths only name files in
//! errors).

use vstd::prelude::*;
use crate::errors::PipelineError;
use crate::join::{spec_tagged, with_language_membership};
use crate::parse::{
    all_pairs_valid, build_tracks, describes_bad_pair, describes_trailing_line, is_first_bad_pair,
    language_file_lines, rating_of, spec_file_name, spec_parent_dir, track_matches_at,
};
use crate::strings::seq_contains_str;
use crate::track::{Lang, Track};

verus! {

/// The file line of every pair of a playlist body: the lines at odd indices.
pub open spec fn file_lines_of(lines: Seq<String>) -> Seq<String> {
    Seq::new((lines.len() / 2) as nat, |i: int| lines[2 * i + 1])
}

/// Row `t`, built from pair `i` of the master body, with every language
/// column filled in by exact-match membership against the language bodies.
pub open spec fn full_row_ok(
    t: Track,
    master: Seq<String>,
    i: int,
    bodies: Seq<Vec<String>>,
) -> bool {
    &&& t.rating_line == master[2 * i]
    &&& t.file_line == master[2 * i + 1]
    &&& rating_of(master[2 * i]@) == Some(t.rating)
    &&& t.rating <= 5
    &&& t.parent_dir@ == spec_parent_dir(master[2 * i + 1]@)
    &&& t.file_name@ == spec_file_name(master[2 * i + 1]@)
    &&& t.lang_flags.cn == seq_contains_str(file_lines_of(bodies[0]@), master[2 * i + 1]@)
    &&& t.lang_flags.en == seq_contains_str(file_lines_of(bodies[1]@), master[2 * i + 1]@)
    &&& t.lang_flags.jp == seq_contains_str(file_lines_of(bodies[2]@), master[2 * i + 1]@)
    &&& t.lang_flags.kr == seq_contains_str(file_lines_of(bodies[3]@), master[2 * i + 1]@)
    &&& t.lang_flags.o == seq_contains_str(file_lines_of(bodies[4]@), master[2 * i + 1]@)
}

/// Language body `l` is the first one with a dangling rating line.
pub open spec fn first_odd_body(bodies: Seq<Vec<String>>, l: int) -> bool {
    &&& 0 <= l < bodies.len()
    &&& bodies[l]@.len() % 2 == 1
    &&& forall|m: int| 0 <= m < l ==> (#[trigger] bodies[m])@.len() % 2 == 0
}

/// Builds the full track table from the master playlist body and the five
/// language playlist bodies (in the order CN, EN, JP, KR, O), all already
/// stripped of their header line.
pub fn build_track_table(
    master_path: &str,
    master_body: &Vec<String>,
    lang_paths: &Vec<String>,
    lang_bodies: &Vec<Vec<String>>,
) -> (r: Result<Vec<Track>, PipelineError>)
    requires
        lang_paths@.len() == 5,
        lang_bodies@.len() == 5,
    ensures
        r is Ok <==> master_body@.len() % 2 == 0 && all_pairs_valid(master_body@) && (forall|
            l: int,
        |
            0 <= l < 5 ==> (#[trigger] lang_bodies@[l])@.len() % 2 == 0),
        r matches Ok(ts) ==> {
            &&& ts@.len() == master_body@.len() / 2
            &&& forall|i: int|
                0 <= i < ts@.len() ==> full_row_ok(#[trigger] ts@[i], master_body@, i, lang_bodies@)
        },
        master_body@.len() % 2 == 1 ==> (r matches Err(e) && describes_trailing_line(
            e,
            master_path@,
            master_body@.last(),
        )),
        master_body@.len() % 2 == 0 && !all_pairs_valid(master_body@) ==> (r matches Err(e)
            && exists|i: int|
            is_first_bad_pair(master_body@, i) && describes_bad_pair(
                e,
                master_path@,
                master_body@[2 * i],
                master_body@[2 * i + 1],
            )),
        master_body@.len() % 2 == 0 && all_pairs_valid(master_body@) && !(forall|l: int|
            0 <= l < 5 ==> (#[trigger] lang_bodies@[l])@.len() % 2 == 0) ==> (r matches Err(e)
            && exists|l: int|
            first_odd_body(lang_bodies@, l) && describes_trailing_line(
                e,
                lang_paths@[l]@,
                lang_bodies@[l]@.last(),
            )),
{
    let base = match build_tracks(master_path, master_body) {
        Err(e) => {
            return Err(e);
        },
        Ok(ts) => ts,
    };
    let cn_lines = match language_file_lines(lang_paths[0].as_str(), &lang_bodies[0]) {
        Err(e) => {
            proof {
                assert(first_odd_body(lang_bodies@, 0));
            }
            return Err(e);
        },
        Ok(fs) => fs,
    };
    let en_lines = match language_file_lines(lang_paths[1].as_str(), &lang_bodies[1]) {
        Err(e) => {
            proof {
                assert(first_odd_body(lang_bodies@, 1));
            }
            return Err(e);
        },
        Ok(fs) => fs,
    };
    let jp_lines = match language_file_lines(lang_paths[2].as_str(), &lang_bodies[2]) {
        Err(e) => {
            proof {
                assert(first_odd_body(lang_bodies@, 2));
            }
            return Err(e);
        },
        Ok(fs) => fs,
    };
    let kr_lines = match language_file_lines(lang_paths[3].as_str(), &lang_bodies[3]) {
        Err(e) => {
            proof {
                assert(first_odd_body(lang_bodies@, 3));
            }
            return Err(e);
        },
        Ok(fs) => fs,
    };
    let o_lines = match language_file_lines(lang_paths[4].as_str(), &lang_bodies[4]) {
        Err(e) => {
            proof {
                assert(first_odd_body(lang_bodies@, 4));
            }
            return Err(e);
        },
        Ok(fs) => fs,
    };
    proof {
        assert(cn_lines@ =~= file_lines_of(lang_bodies@[0]@));
        assert(en_lines@ =~= file_lines_of(lang_bodies@[1]@));
        assert(jp_lines@ =~= file_lines_of(lang_bodies@[2]@));
        assert(kr_lines@ =~= file_lines_of(lang_bodies@[3]@));
        assert(o_lines@ =~= file_lines_of(lang_bodies@[4]@));
    }
    let t1 = with_language_membership(&base, Lang::Cn, &cn_lines);
    let t2 = with_language_membership(&t1, Lang::En, &en_lines);
    let t3 = with_language_membership(&t2, Lang::Jp, &jp_lines);
    let t4 = with_language_membership(&t3, Lang::Kr, &kr_lines);
    let t5 = with_language_membership(&t4, Lang::O, &o_lines);
    proof {
        assert forall|i: int| 0 <= i < t5@.len() implies full_row_ok(
            #[trigger] t5@[i],
            master_body@,
            i,
            lang_bodies@,
        ) by {
            assert(track_matches_at(base@, master_body@, i));
            assert(t1@[i] == spec_tagged(
                base@[i],
                Lang::Cn,
                seq_contains_str(cn_lines@, base@[i].file_line@),
            ));
            assert(t2@[i] == spec_tagged(
                t1@[i],
                Lang::En,
                seq_contains_str(en_lines@, t1@[i].file_line@),
            ));
            assert(t3@[i] == spec_tagged(
                t2@[i],
                Lang::Jp,
                seq_contains_str(jp_lines@, t2@[i].file_line@),
            ));
            assert(t4@[i] == spec_tagged(
                t3@[i],
                Lang::Kr,
                seq_contains_str(kr_lines@, t3@[i].file_line@),
            ));
            assert(t5@[i] == spec_tagged(
                t4@[i],
                Lang::O,
                seq_contains_str(o_lines@, t4@[i].file_line@),
            ));
        }
    }
    Ok(t5)
}

} // verus!
