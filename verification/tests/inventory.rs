use putio::{ends_with, is_marker_name, local_inventory, PARTIAL_MARKER};

fn names(words: &[&str]) -> Vec<String> {
    words.iter().map(|word| String::from(*word)).collect()
}

#[test]
fn the_marker_is_the_downloader_suffix() {
    assert_eq!(PARTIAL_MARKER, ".aria2");
}

#[test]
fn ends_with_finds_a_suffix() {
    assert!(ends_with("movie.mp4.aria2", ".aria2"));
    assert!(ends_with(".aria2", ".aria2"));
    assert!(ends_with("anything", ""));
    assert!(ends_with("", ""));
}

#[test]
fn ends_with_rejects_what_is_no_suffix() {
    assert!(!ends_with("movie.mp4", ".aria2"));
    assert!(!ends_with("aria2", ".aria2"));
    assert!(!ends_with("movie.aria2.mp4", ".aria2"));
    assert!(!ends_with("", ".aria2"));
    assert!(!ends_with("movie.ARIA2", ".aria2"));
}

#[test]
fn ends_with_counts_characters_not_bytes() {
    assert!(ends_with("héllo.aria2", ".aria2"));
    assert!(ends_with("日本語", "本語"));
    assert!(!ends_with("日本語", "日本"));
}

#[test]
fn inventory_of_an_empty_directory_is_empty() {
    assert_eq!(local_inventory(&names(&[])), names(&[]));
}

#[test]
fn inventory_keeps_completed_files_in_order() {
    let all = names(&["b.mp4", "a.mp4", "notes.txt"]);
    assert_eq!(local_inventory(&all), all);
}

#[test]
fn inventory_drops_markers() {
    let all = names(&["movie.mp4.aria2"]);
    assert_eq!(local_inventory(&all), names(&[]));
}

#[test]
fn inventory_drops_a_file_that_still_has_its_marker() {
    let all = names(&["movie.mp4", "movie.mp4.aria2", "other.mp4"]);
    assert_eq!(local_inventory(&all), names(&["other.mp4"]));
}

#[test]
fn inventory_finds_the_marker_wherever_it_stands() {
    let all = names(&["movie.mp4.aria2", "other.mp4", "movie.mp4"]);
    assert_eq!(local_inventory(&all), names(&["other.mp4"]));
}

#[test]
fn inventory_treats_a_marker_alone_as_nothing_local() {
    let all = names(&["movie.mp4.aria2"]);
    let local = local_inventory(&all);
    assert!(!local.contains(&String::from("movie.mp4")));
    assert!(!local.contains(&String::from("movie.mp4.aria2")));
}

#[test]
fn inventory_drops_the_marker_of_a_marker_too() {
    let all = names(&["a.aria2", "a.aria2.aria2", "a"]);
    assert_eq!(local_inventory(&all), names(&[]));
}

#[test]
fn inventory_is_exact_about_the_marker_name() {
    let all = names(&["movie.mp4", "movie.mp4.ARIA2", "movie.mp4.aria2x"]);
    assert_eq!(local_inventory(&all), all);
}

#[test]
fn a_marker_name_ends_with_the_marker_suffix() {
    assert!(is_marker_name("movie.mp4.aria2"));
    assert!(is_marker_name(".aria2"));
    assert!(!is_marker_name("movie.mp4"));
    assert!(!is_marker_name("movie.aria2.mp4"));
    assert!(!is_marker_name(""));
}

#[test]
fn inventory_names_every_file_once() {
    let all = names(&["a.mp4", "b.mp4", "b.mp4.aria2", "c.mp4"]);
    let local = local_inventory(&all);
    for name in &local {
        assert_eq!(local.iter().filter(|held| *held == name).count(), 1);
    }
    assert_eq!(local, names(&["a.mp4", "c.mp4"]));
}
