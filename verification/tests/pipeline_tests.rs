use m3u8_pipeline::aggregate::aggregate_by_directory;
use m3u8_pipeline::errors::{MalformedKind, PipelineError};
use m3u8_pipeline::files::{
    auto_rating_playlist_name, auto_songs_playlist_name, check_required_m3u8s_exist, join_path,
    required_m3u8_file_names, sealed_list_file_name,
};
use m3u8_pipeline::parse::drop_header;
use m3u8_pipeline::pipeline::build_track_table;
use m3u8_pipeline::playlist::{generate_playlist_content, Selection};
use m3u8_pipeline::track::Track;

fn lines(xs: &[&str]) -> Vec<String> {
    xs.iter().map(|s| s.to_string()).collect()
}

/// The six playlists of the worked example: a master with a header line and
/// two pairs, an EN playlist tagging only the first track, the rest empty.
fn example_table() -> Vec<Track> {
    let master = lines(&[
        "#EXTM3U",
        "#EXTINF:100,3",
        "a/dirX/song1.mp3",
        "#EXTINF:101,0",
        "a/dirX/song2.mp3",
    ]);
    let empty = lines(&["#EXTM3U"]);
    let en = lines(&["#EXTM3U", "#EXTINF:100,3", "a/dirX/song1.mp3"]);
    let bodies = vec![
        drop_header(&empty, 1),
        drop_header(&en, 1),
        drop_header(&empty, 1),
        drop_header(&empty, 1),
        drop_header(&empty, 1),
    ];
    let paths = lines(&[
        "Songs - CN.m3u8",
        "Songs - EN.m3u8",
        "Songs - JP.m3u8",
        "Songs - KR.m3u8",
        "Songs - O.m3u8",
    ]);
    build_track_table("All.m3u8", &drop_header(&master, 1), &paths, &bodies).unwrap()
}

#[test]
fn example_two_rows_with_en_tag() {
    let tracks = example_table();
    assert_eq!(tracks.len(), 2);
    assert!(tracks[0].lang_flags.en);
    assert!(!tracks[0].lang_flags.cn);
    assert!(!tracks[0].lang_flags.jp);
    assert!(!tracks[0].lang_flags.kr);
    assert!(!tracks[0].lang_flags.o);
    assert!(!tracks[1].lang_flags.en);
    assert_eq!(tracks[0].rating, 3);
    assert_eq!(tracks[1].rating, 0);
}

#[test]
fn example_directory_summary() {
    let tracks = example_table();
    let rows = aggregate_by_directory(&tracks, &None);
    assert_eq!(rows.len(), 1);
    let row = &rows[0];
    assert_eq!(row.parent_dir, "dirX");
    assert_eq!(row.count_0s, 1);
    assert_eq!(row.count_3s, 1);
    assert_eq!(row.count_en, 1);
    assert_eq!(row.total, 2);
}

#[test]
fn example_generated_playlists() {
    let tracks = example_table();
    let three_stars = generate_playlist_content(&tracks, Selection::RatingIs(3));
    assert_eq!(three_stars, "#EXTM3U\n#EXTINF:100,3\na/dirX/song1.mp3");
    let union = generate_playlist_content(&tracks, Selection::AnyLanguage);
    assert_eq!(union, "#EXTM3U\n#EXTINF:100,3\na/dirX/song1.mp3");
}

#[test]
fn master_error_comes_before_language_error() {
    let master_body = lines(&["#EXTINF:1,x", "a/d/s.mp3"]);
    let odd_body = lines(&["#EXTINF:1,3"]);
    let bodies = vec![
        odd_body,
        lines(&[]),
        lines(&[]),
        lines(&[]),
        lines(&[]),
    ];
    let paths = lines(&["CN", "EN", "JP", "KR", "O"]);
    match build_track_table("All.m3u8", &master_body, &paths, &bodies) {
        Err(PipelineError::MalformedPlaylist { path, kind, .. }) => {
            assert_eq!(path, "All.m3u8");
            assert_eq!(kind, MalformedKind::BadRating);
        }
        other => panic!("expected a malformed-playlist error, got {:?}", other),
    }
}

#[test]
fn language_error_names_its_playlist() {
    let master_body = lines(&["#EXTINF:1,3", "a/d/s.mp3"]);
    let bodies = vec![
        lines(&[]),
        lines(&["#EXTINF:1,3"]),
        lines(&[]),
        lines(&[]),
        lines(&[]),
    ];
    let paths = lines(&["CN", "EN", "JP", "KR", "O"]);
    match build_track_table("All.m3u8", &master_body, &paths, &bodies) {
        Err(PipelineError::MalformedPlaylist { path, kind, line }) => {
            assert_eq!(path, "EN");
            assert_eq!(kind, MalformedKind::TrailingRatingLine);
            assert_eq!(line, "#EXTINF:1,3");
        }
        other => panic!("expected a malformed-playlist error, got {:?}", other),
    }
}

#[test]
fn required_file_names_are_fixed() {
    let names = required_m3u8_file_names();
    assert_eq!(
        names,
        lines(&[
            "All.m3u8",
            "Songs - CN.m3u8",
            "Songs - EN.m3u8",
            "Songs - JP.m3u8",
            "Songs - KR.m3u8",
            "Songs - O.m3u8",
        ])
    );
}

#[test]
fn presence_check_passes_when_all_present() {
    let present = vec![true; 6];
    assert!(check_required_m3u8s_exist("music", &present).is_ok());
}

#[test]
fn presence_check_names_first_missing_path() {
    let present = vec![true, true, false, true, false, true];
    match check_required_m3u8s_exist("music", &present) {
        Err(PipelineError::MissingFile { path }) => {
            assert_eq!(path, "music/Songs - EN.m3u8");
        }
        other => panic!("expected a missing-file error, got {:?}", other),
    }
}

#[test]
fn output_file_names() {
    assert_eq!(auto_songs_playlist_name(), "[Auto] Songs.m3u8");
    assert_eq!(auto_rating_playlist_name(1), "[Auto] 1S.m3u8");
    assert_eq!(auto_rating_playlist_name(5), "[Auto] 5S.m3u8");
    assert_eq!(sealed_list_file_name(), "sealed.txt");
    assert_eq!(join_path("a/b", "c.m3u8"), "a/b/c.m3u8");
}
