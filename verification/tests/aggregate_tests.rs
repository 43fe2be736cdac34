use m3u8_pipeline::aggregate::aggregate_by_directory;
use m3u8_pipeline::join::with_language_membership;
use m3u8_pipeline::parse::build_tracks;
use m3u8_pipeline::report::{language_flagged, zero_star_flagged};
use m3u8_pipeline::track::{Lang, Track};

fn lines(xs: &[&str]) -> Vec<String> {
    xs.iter().map(|s| s.to_string()).collect()
}

fn table(master: &[&str], en: &[&str]) -> Vec<Track> {
    let base = build_tracks("All.m3u8", &lines(master)).unwrap();
    with_language_membership(&base, Lang::En, &lines(en))
}

#[test]
fn directory_summary_counts() {
    let tracks = table(
        &[
            "#EXTINF:100,3",
            "a/dirX/song1.mp3",
            "#EXTINF:101,0",
            "a/dirX/song2.mp3",
        ],
        &["a/dirX/song1.mp3"],
    );
    let rows = aggregate_by_directory(&tracks, &None);
    assert_eq!(rows.len(), 1);
    let row = &rows[0];
    assert_eq!(row.parent_dir, "dirX");
    assert_eq!(row.count_0s, 1);
    assert_eq!(row.count_1s, 0);
    assert_eq!(row.count_2s, 0);
    assert_eq!(row.count_3s, 1);
    assert_eq!(row.count_4s, 0);
    assert_eq!(row.count_5s, 0);
    assert_eq!(row.count_en, 1);
    assert_eq!(row.count_cn, 0);
    assert_eq!(row.total, 2);
    assert!(!row.sealed);
}

#[test]
fn rows_sorted_by_directory_one_per_directory() {
    let tracks = table(
        &[
            "#EXTINF:1,1",
            "m/zeta/a.mp3",
            "#EXTINF:2,2",
            "m/alpha/b.mp3",
            "#EXTINF:3,3",
            "m/zeta/c.mp3",
            "#EXTINF:4,4",
            "m/beta/d.mp3",
        ],
        &[],
    );
    let rows = aggregate_by_directory(&tracks, &None);
    let names: Vec<&str> = rows.iter().map(|r| r.parent_dir.as_str()).collect();
    assert_eq!(names, vec!["alpha", "beta", "zeta"]);
    assert_eq!(rows[2].total, 2);
    assert_eq!(rows[2].count_1s, 1);
    assert_eq!(rows[2].count_3s, 1);
}

#[test]
fn rating_counts_sum_to_total() {
    let tracks = table(
        &[
            "#EXTINF:1,0",
            "m/d/a.mp3",
            "#EXTINF:2,5",
            "m/d/b.mp3",
            "#EXTINF:3,5",
            "m/d/c.mp3",
            "#EXTINF:4,2",
            "m/e/d.mp3",
        ],
        &[],
    );
    for row in aggregate_by_directory(&tracks, &None) {
        let sum = row.count_0s
            + row.count_1s
            + row.count_2s
            + row.count_3s
            + row.count_4s
            + row.count_5s;
        assert_eq!(sum, row.total);
    }
}

#[test]
fn empty_table_has_no_rows() {
    let rows = aggregate_by_directory(&Vec::new(), &None);
    assert!(rows.is_empty());
}

#[test]
fn sealed_comes_from_supplied_list() {
    let tracks = table(
        &["#EXTINF:1,1", "m/dirX/a.mp3", "#EXTINF:2,2", "m/dirY/b.mp3"],
        &[],
    );
    let sealed_list = Some(lines(&["dirX"]));
    let rows = aggregate_by_directory(&tracks, &sealed_list);
    assert_eq!(rows.len(), 2);
    assert!(rows[0].sealed);
    assert!(!rows[1].sealed);

    let rows_unsealed = aggregate_by_directory(&tracks, &None);
    assert!(rows_unsealed.iter().all(|r| !r.sealed));
}

#[test]
fn zero_star_cell_flagged_when_nonzero() {
    assert!(!zero_star_flagged(0));
    assert!(zero_star_flagged(1));
    assert!(zero_star_flagged(17));
}

#[test]
fn language_cells_flagged_only_for_unsealed_with_list() {
    // With no sealed list supplied, nothing is flagged.
    assert!(!language_flagged(false, false));
    // With a list, an unsealed directory is flagged, a sealed one is not.
    assert!(language_flagged(true, false));
    assert!(!language_flagged(true, true));
}
