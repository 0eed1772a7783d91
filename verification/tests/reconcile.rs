use putio::{
    contains_name, decide, local_inventory, run, Config, Decision, Reconciler, RemoteEntry,
};

fn remote(id: i64, name: &str, file_type: &str, parent_id: i64) -> RemoteEntry {
    RemoteEntry::new(id, String::from(name), &String::from(file_type), parent_id, 1)
}

fn local(words: &[&str]) -> Vec<String> {
    words.iter().map(|word| String::from(*word)).collect()
}

fn config(max_display: Option<u32>) -> Config {
    let mut args = local(&["putio", "token", "0"]);
    if let Some(cap) = max_display {
        args.push(format!("{}", cap));
    }
    Config::new(&args).unwrap()
}

fn archive(file_id: i64, name: &str) -> Decision {
    Decision::Archive { file_id, local_name: String::from(name) }
}

fn emits(decisions: &Vec<Decision>) -> usize {
    decisions.iter().filter(|decision| matches!(decision, Decision::Emit { .. })).count()
}

fn archives(decisions: &Vec<Decision>) -> usize {
    decisions.iter().filter(|decision| matches!(decision, Decision::Archive { .. })).count()
}

#[test]
fn contains_name_compares_whole_names() {
    let names = local(&["movie.mp4", "other.mp4"]);
    assert!(contains_name(&names, &String::from("movie.mp4")));
    assert!(!contains_name(&names, &String::from("movie")));
    assert!(!contains_name(&names, &String::from("Movie.mp4")));
    assert!(!contains_name(&Vec::new(), &String::from("movie.mp4")));
}

#[test]
fn a_video_that_is_not_local_is_emitted() {
    let files = vec![remote(10, "movie.mp4", "VIDEO", 0)];
    assert_eq!(run(&config(None), &local(&[]), &files), vec![Decision::Emit { file_id: 10 }]);
}

#[test]
fn a_video_that_is_local_is_archived() {
    let files = vec![remote(10, "movie.mp4", "VIDEO", 0)];
    assert_eq!(
        run(&config(None), &local(&["movie.mp4"]), &files),
        vec![archive(10, "movie.mp4")]
    );
}

#[test]
fn only_videos_get_a_decision() {
    let files = vec![
        remote(21, "ep1.mp4", "VIDEO", 20),
        remote(22, "ep1.srt", "TEXT", 20),
        remote(23, "cover.jpg", "IMAGE", 20),
    ];
    let decisions = run(&config(None), &local(&["ep1.mp4", "ep1.srt"]), &files);
    assert_eq!(decisions, vec![archive(21, "ep1.mp4")]);
}

#[test]
fn the_cap_bounds_the_links_and_the_rest_is_skipped() {
    let files = vec![remote(1, "a.mp4", "VIDEO", 0), remote(2, "b.mp4", "VIDEO", 0)];
    assert_eq!(
        run(&config(Some(1)), &local(&[]), &files),
        vec![Decision::Emit { file_id: 1 }, Decision::Skip]
    );
}

#[test]
fn archiving_is_not_bounded_by_the_cap() {
    let files = vec![
        remote(1, "a.mp4", "VIDEO", 0),
        remote(2, "b.mp4", "VIDEO", 0),
        remote(3, "c.mp4", "VIDEO", 0),
        remote(4, "d.mp4", "VIDEO", 0),
    ];
    let decisions = run(&config(Some(1)), &local(&["b.mp4", "d.mp4"]), &files);
    assert_eq!(
        decisions,
        vec![Decision::Emit { file_id: 1 }, archive(2, "b.mp4"), Decision::Skip, archive(4, "d.mp4")]
    );
}

#[test]
fn emitted_count_never_exceeds_the_cap() {
    let files: Vec<RemoteEntry> =
        (0..20).map(|id| remote(id, &format!("v{}.mp4", id), "VIDEO", 0)).collect();
    for cap in 1..25u32 {
        let decisions = run(&config(Some(cap)), &local(&["v3.mp4", "v7.mp4"]), &files);
        assert_eq!(decisions.len(), 20);
        assert_eq!(emits(&decisions), std::cmp::min(cap as usize, 18));
        assert_eq!(archives(&decisions), 2);
    }
}

#[test]
fn without_a_cap_every_missing_video_is_emitted() {
    let files: Vec<RemoteEntry> =
        (0..20).map(|id| remote(id, &format!("v{}.mp4", id), "VIDEO", 0)).collect();
    let decisions = run(&config(None), &local(&["v3.mp4", "v7.mp4"]), &files);
    assert_eq!(emits(&decisions), 18);
    assert_eq!(archives(&decisions), 2);
    assert!(!decisions.contains(&Decision::Skip));
}

#[test]
fn a_local_name_is_archived_and_never_emitted() {
    let files = vec![remote(1, "a.mp4", "VIDEO", 0), remote(2, "a.mp4", "VIDEO", 5)];
    for cap in [None, Some(1), Some(9)] {
        let decisions = run(&config(cap), &local(&["a.mp4"]), &files);
        assert_eq!(decisions, vec![archive(1, "a.mp4"), archive(2, "a.mp4")]);
    }
}

#[test]
fn decide_follows_the_running_count() {
    let video = remote(1, "a.mp4", "VIDEO", 0);
    let none = local(&[]);
    assert_eq!(decide(&video, &none, 0, Some(2)), Some(Decision::Emit { file_id: 1 }));
    assert_eq!(decide(&video, &none, 1, Some(2)), Some(Decision::Emit { file_id: 1 }));
    assert_eq!(decide(&video, &none, 2, Some(2)), Some(Decision::Skip));
    assert_eq!(decide(&video, &none, 1000, None), Some(Decision::Emit { file_id: 1 }));
    assert_eq!(decide(&video, &local(&["a.mp4"]), 2, Some(2)), Some(archive(1, "a.mp4")));
}

#[test]
fn decide_passes_over_what_is_no_video() {
    assert_eq!(decide(&remote(2, "a.srt", "TEXT", 0), &local(&["a.srt"]), 0, None), None);
    assert_eq!(decide(&remote(3, "F", "FOLDER", 0), &local(&[]), 0, None), None);
}

#[test]
fn a_file_with_a_marker_beside_it_is_emitted_not_archived() {
    let files = vec![remote(10, "movie.mp4", "VIDEO", 0)];
    let seen = local_inventory(&local(&["movie.mp4", "movie.mp4.aria2"]));
    assert_eq!(run(&config(None), &seen, &files), vec![Decision::Emit { file_id: 10 }]);
}

#[test]
fn a_marker_without_its_file_leaves_the_video_to_be_emitted() {
    let files = vec![remote(10, "movie.mp4", "VIDEO", 0)];
    let seen = local_inventory(&local(&["movie.mp4.aria2"]));
    assert_eq!(run(&config(None), &seen, &files), vec![Decision::Emit { file_id: 10 }]);
}

#[test]
fn a_second_run_after_archiving_everything_decides_nothing() {
    let files = vec![remote(1, "a.mp4", "VIDEO", 0), remote(2, "a.srt", "TEXT", 0)];
    let first = run(&config(None), &local(&["a.mp4"]), &files);
    assert_eq!(first, vec![archive(1, "a.mp4")]);
    let left_remote = vec![remote(2, "a.srt", "TEXT", 0)];
    let second = run(&config(None), &local(&[]), &left_remote);
    assert!(second.is_empty());
}

#[test]
fn a_second_run_archives_nothing_and_repeats_the_links() {
    let files = vec![
        remote(1, "a.mp4", "VIDEO", 0),
        remote(2, "b.mp4", "VIDEO", 0),
        remote(3, "c.mp4", "VIDEO", 0),
    ];
    let first = run(&config(None), &local(&["b.mp4", "notes.txt"]), &files);
    assert_eq!(
        first,
        vec![Decision::Emit { file_id: 1 }, archive(2, "b.mp4"), Decision::Emit { file_id: 3 }]
    );
    let left_remote = vec![remote(1, "a.mp4", "VIDEO", 0), remote(3, "c.mp4", "VIDEO", 0)];
    let second = run(&config(None), &local(&["notes.txt"]), &left_remote);
    assert_eq!(second, vec![Decision::Emit { file_id: 1 }, Decision::Emit { file_id: 3 }]);
    assert_eq!(archives(&second), 0);
}

#[test]
fn deciding_entry_by_entry_gives_the_plan_of_the_run() {
    let files = vec![
        remote(1, "a.mp4", "VIDEO", 0),
        remote(2, "a.srt", "TEXT", 0),
        remote(3, "b.mp4", "VIDEO", 0),
        remote(4, "c.mp4", "VIDEO", 0),
        remote(5, "d.mp4", "VIDEO", 0),
    ];
    let seen = local(&["b.mp4"]);
    let settings = config(Some(2));
    let mut reconciler = Reconciler::new(&seen, &settings);
    let mut decisions = Vec::new();
    let mut counts = Vec::new();
    for file in &files {
        if let Some(decision) = reconciler.next_decision(file) {
            decisions.push(decision);
        }
        counts.push(reconciler.emitted());
    }
    assert_eq!(counts, vec![1, 1, 1, 2, 2]);
    assert_eq!(decisions, run(&settings, &seen, &files));
    assert_eq!(
        decisions,
        vec![
            Decision::Emit { file_id: 1 },
            archive(3, "b.mp4"),
            Decision::Emit { file_id: 4 },
            Decision::Skip,
        ]
    );
}
