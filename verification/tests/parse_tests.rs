use m3u8_pipeline::errors::{MalformedKind, PipelineError};
use m3u8_pipeline::parse::{
    build_tracks, drop_header, language_file_lines, parse_rating, split_file_line,
};

fn lines(xs: &[&str]) -> Vec<String> {
    xs.iter().map(|s| s.to_string()).collect()
}

#[test]
fn rating_is_last_character() {
    assert_eq!(parse_rating("#EXTINF:123,3"), Some(3));
    assert_eq!(parse_rating("0"), Some(0));
    assert_eq!(parse_rating("#EXTINF:123,5"), Some(5));
    assert_eq!(parse_rating(""), None);
    assert_eq!(parse_rating("#EXTINF:123,9"), None);
    assert_eq!(parse_rating("#EXTINF:123,x"), None);
    assert_eq!(parse_rating("3x"), None);
}

#[test]
fn split_takes_last_two_segments() {
    let (dir, file) = split_file_line("a/dirX/song1.mp3").unwrap();
    assert_eq!(dir, "dirX");
    assert_eq!(file, "song1.mp3");

    let (dir, file) = split_file_line("dirX/song.mp3").unwrap();
    assert_eq!(dir, "dirX");
    assert_eq!(file, "song.mp3");

    let (dir, file) = split_file_line("a//b").unwrap();
    assert_eq!(dir, "");
    assert_eq!(file, "b");

    let (dir, file) = split_file_line("x/").unwrap();
    assert_eq!(dir, "x");
    assert_eq!(file, "");

    assert!(split_file_line("noslash").is_none());
}

#[test]
fn split_reconstructs_tail_of_line() {
    let line = "music/a/dirX/song1.mp3";
    let (dir, file) = split_file_line(line).unwrap();
    let rebuilt = format!("{}/{}", dir, file);
    assert!(line.ends_with(&rebuilt));
    assert_eq!(rebuilt, "dirX/song1.mp3");
}

#[test]
fn build_tracks_one_row_per_pair() {
    let body = lines(&[
        "#EXTINF:100,3",
        "a/dirX/song1.mp3",
        "#EXTINF:101,0",
        "a/dirX/song2.mp3",
    ]);
    let tracks = build_tracks("All.m3u8", &body).unwrap();
    assert_eq!(tracks.len(), 2);
    assert_eq!(tracks[0].rating_line, "#EXTINF:100,3");
    assert_eq!(tracks[0].file_line, "a/dirX/song1.mp3");
    assert_eq!(tracks[0].rating, 3);
    assert_eq!(tracks[0].parent_dir, "dirX");
    assert_eq!(tracks[0].file_name, "song1.mp3");
    assert!(!tracks[0].lang_flags.cn);
    assert!(!tracks[0].lang_flags.en);
    assert_eq!(tracks[1].rating, 0);
    assert!(tracks.iter().all(|t| t.rating <= 5));
}

#[test]
fn build_tracks_empty_body() {
    let tracks = build_tracks("All.m3u8", &lines(&[])).unwrap();
    assert_eq!(tracks.len(), 0);
}

#[test]
fn trailing_rating_line_is_fatal() {
    let body = lines(&["#EXTINF:100,3", "a/d/s.mp3", "#EXTINF:101,4"]);
    match build_tracks("p/All.m3u8", &body) {
        Err(PipelineError::MalformedPlaylist { path, kind, line }) => {
            assert_eq!(path, "p/All.m3u8");
            assert_eq!(kind, MalformedKind::TrailingRatingLine);
            assert_eq!(line, "#EXTINF:101,4");
        }
        other => panic!("expected a malformed-playlist error, got {:?}", other),
    }
}

#[test]
fn empty_rating_line_is_fatal() {
    let body = lines(&["", "a/d/s.mp3"]);
    match build_tracks("All.m3u8", &body) {
        Err(PipelineError::MalformedPlaylist { kind, line, .. }) => {
            assert_eq!(kind, MalformedKind::BadRating);
            assert_eq!(line, "");
        }
        other => panic!("expected a malformed-playlist error, got {:?}", other),
    }
}

#[test]
fn non_digit_rating_is_fatal() {
    let body = lines(&["#EXTINF:100,7", "a/d/s.mp3"]);
    match build_tracks("All.m3u8", &body) {
        Err(PipelineError::MalformedPlaylist { kind, line, .. }) => {
            assert_eq!(kind, MalformedKind::BadRating);
            assert_eq!(line, "#EXTINF:100,7");
        }
        other => panic!("expected a malformed-playlist error, got {:?}", other),
    }
}

#[test]
fn file_line_without_slash_is_fatal() {
    let body = lines(&["#EXTINF:100,3", "nodirectory.mp3"]);
    match build_tracks("All.m3u8", &body) {
        Err(PipelineError::MalformedPlaylist { kind, line, .. }) => {
            assert_eq!(kind, MalformedKind::BadPath);
            assert_eq!(line, "nodirectory.mp3");
        }
        other => panic!("expected a malformed-playlist error, got {:?}", other),
    }
}

#[test]
fn first_bad_pair_wins() {
    let body = lines(&[
        "#EXTINF:100,3",
        "ok/s.mp3",
        "#EXTINF:101,x",
        "also-bad-but-later",
    ]);
    match build_tracks("All.m3u8", &body) {
        Err(PipelineError::MalformedPlaylist { kind, line, .. }) => {
            assert_eq!(kind, MalformedKind::BadRating);
            assert_eq!(line, "#EXTINF:101,x");
        }
        other => panic!("expected a malformed-playlist error, got {:?}", other),
    }
}

#[test]
fn language_lines_keep_only_file_lines() {
    let body = lines(&["#EXTINF:1,4", "a/d/s1.mp3", "#EXTINF:2,2", "a/d/s2.mp3"]);
    let fs = language_file_lines("Songs - EN.m3u8", &body).unwrap();
    assert_eq!(fs, lines(&["a/d/s1.mp3", "a/d/s2.mp3"]));
}

#[test]
fn language_lines_odd_count_is_fatal() {
    let body = lines(&["#EXTINF:1,4"]);
    match language_file_lines("q/Songs - JP.m3u8", &body) {
        Err(PipelineError::MalformedPlaylist { path, kind, line }) => {
            assert_eq!(path, "q/Songs - JP.m3u8");
            assert_eq!(kind, MalformedKind::TrailingRatingLine);
            assert_eq!(line, "#EXTINF:1,4");
        }
        other => panic!("expected a malformed-playlist error, got {:?}", other),
    }
}

#[test]
fn drop_header_skips_leading_lines() {
    let all = lines(&["#EXTM3U", "#EXTINF:1,3", "a/d/s.mp3"]);
    assert_eq!(drop_header(&all, 1), lines(&["#EXTINF:1,3", "a/d/s.mp3"]));
    assert_eq!(drop_header(&all, 0), all);
    assert_eq!(drop_header(&all, 3), lines(&[]));
    assert_eq!(drop_header(&all, 9), lines(&[]));
}
