use m3u8_pipeline::join::with_language_membership;
use m3u8_pipeline::parse::build_tracks;
use m3u8_pipeline::playlist::{
    generate_playlist_content, overwrite_decision, Selection, WriteDecision,
};
use m3u8_pipeline::track::{Lang, Track};

fn lines(xs: &[&str]) -> Vec<String> {
    xs.iter().map(|s| s.to_string()).collect()
}

fn table(master: &[&str], en: &[&str]) -> Vec<Track> {
    let base = build_tracks("All.m3u8", &lines(master)).unwrap();
    with_language_membership(&base, Lang::En, &lines(en))
}

#[test]
fn rating_playlist_selects_exact_rating() {
    let tracks = table(
        &[
            "#EXTINF:100,3",
            "a/dirX/song1.mp3",
            "#EXTINF:101,0",
            "a/dirX/song2.mp3",
        ],
        &[],
    );
    let content = generate_playlist_content(&tracks, Selection::RatingIs(3));
    assert_eq!(content, "#EXTM3U\n#EXTINF:100,3\na/dirX/song1.mp3");
}

#[test]
fn language_union_selects_tagged_tracks() {
    let tracks = table(
        &[
            "#EXTINF:100,3",
            "a/dirX/song1.mp3",
            "#EXTINF:101,0",
            "a/dirX/song2.mp3",
        ],
        &["a/dirX/song1.mp3"],
    );
    let content = generate_playlist_content(&tracks, Selection::AnyLanguage);
    assert_eq!(content, "#EXTM3U\n#EXTINF:100,3\na/dirX/song1.mp3");
}

#[test]
fn membership_is_exact_string_match() {
    // A trailing space in the language playlist excludes the track; no
    // normalization of any kind is applied.
    let tracks = table(
        &["#EXTINF:100,3", "a/dirX/song1.mp3"],
        &["a/dirX/song1.mp3 "],
    );
    assert!(!tracks[0].lang_flags.en);

    let tracks = table(
        &["#EXTINF:100,3", "a/dirX/song1.mp3"],
        &["a/dirX/song1.mp3"],
    );
    assert!(tracks[0].lang_flags.en);
}

#[test]
fn playlist_is_sorted_by_file_line() {
    let tracks = table(
        &[
            "#EXTINF:1,2",
            "b/dir/z.mp3",
            "#EXTINF:2,2",
            "a/dir/a.mp3",
            "#EXTINF:3,2",
            "a/dir/b.mp3",
        ],
        &[],
    );
    let content = generate_playlist_content(&tracks, Selection::RatingIs(2));
    assert_eq!(
        content,
        "#EXTM3U\n#EXTINF:2,2\na/dir/a.mp3\n#EXTINF:3,2\na/dir/b.mp3\n#EXTINF:1,2\nb/dir/z.mp3"
    );
}

#[test]
fn playlist_begins_with_header() {
    let tracks = table(&["#EXTINF:1,4", "a/d/s.mp3"], &[]);
    for sel in [
        Selection::AnyLanguage,
        Selection::RatingIs(0),
        Selection::RatingIs(4),
    ] {
        let content = generate_playlist_content(&tracks, sel);
        assert!(content.starts_with("#EXTM3U"));
    }
}

#[test]
fn empty_selection_gives_bare_header() {
    let tracks = table(&["#EXTINF:1,4", "a/d/s.mp3"], &[]);
    let content = generate_playlist_content(&tracks, Selection::RatingIs(5));
    assert_eq!(content, "#EXTM3U\n");
}

#[test]
fn regeneration_is_byte_identical() {
    let master = [
        "#EXTINF:1,2",
        "b/dir/z.mp3",
        "#EXTINF:2,2",
        "a/dir/a.mp3",
        "#EXTINF:3,5",
        "c/dir/q.mp3",
    ];
    let en = ["a/dir/a.mp3", "c/dir/q.mp3"];
    let first = table(&master, &en);
    let second = table(&master, &en);
    for sel in [
        Selection::AnyLanguage,
        Selection::RatingIs(2),
        Selection::RatingIs(5),
    ] {
        let a = generate_playlist_content(&first, sel);
        let b = generate_playlist_content(&second, sel);
        assert_eq!(a, b);
    }
}

#[test]
fn sort_is_stable_for_equal_file_lines() {
    // Two entries with the same file line keep their input order.
    let tracks = table(
        &[
            "#EXTINF:first,2",
            "a/dir/same.mp3",
            "#EXTINF:second,2",
            "a/dir/same.mp3",
        ],
        &[],
    );
    let content = generate_playlist_content(&tracks, Selection::RatingIs(2));
    assert_eq!(
        content,
        "#EXTM3U\n#EXTINF:first,2\na/dir/same.mp3\n#EXTINF:second,2\na/dir/same.mp3"
    );
}

#[test]
fn overwrite_decision_rules() {
    // No destination: always write, nobody is asked.
    assert_eq!(overwrite_decision(false, false, false), WriteDecision::Write);
    assert_eq!(overwrite_decision(false, true, false), WriteDecision::Write);
    // Force mode: overwrite without asking.
    assert_eq!(overwrite_decision(true, true, false), WriteDecision::Write);
    // Confirmation decides otherwise; a decline is a skip, not an error.
    assert_eq!(overwrite_decision(true, false, true), WriteDecision::Write);
    assert_eq!(
        overwrite_decision(true, false, false),
        WriteDecision::SkipDeclined
    );
}
