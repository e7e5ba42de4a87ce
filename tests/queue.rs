use dir_transcribe::paths::{has_recording_extension, join, lex_less};
use dir_transcribe::queue::{DirRecordingQueue, Entry, Place, QueueError, Recording};

fn queue() -> DirRecordingQueue {
    DirRecordingQueue::try_new("/data".to_string(), None).unwrap()
}

fn entry(path: &str, modified: u128) -> Entry {
    Entry { path: path.to_string(), modified }
}

#[test]
fn join_adds_one_separator() {
    assert_eq!(join("/a", "b"), "/a/b");
    assert_eq!(join("/a/", "b"), "/a/b");
    assert_eq!(join("", "b"), "b");
    assert_eq!(join("/a", "/c"), "/c");
}

#[test]
fn recording_extension_is_wav() {
    assert!(has_recording_extension("call.wav"));
    assert!(has_recording_extension("a.b.wav"));
    assert!(!has_recording_extension("note.txt"));
    assert!(!has_recording_extension(".wav"));
    assert!(!has_recording_extension("call.wav.txt"));
    assert!(!has_recording_extension("wav"));
}

#[test]
fn layout_defaults_to_subdirectories() {
    let q = queue();
    assert_eq!(q.input_dir(), "/data");
    assert_eq!(q.staging_dir(), "/data/in_process");
    assert_eq!(q.output_dir(), "/data/processed");
    assert_eq!(q.staging_pattern(), "/data/in_process/*");
}

#[test]
fn layout_takes_given_output_dir() {
    let q = DirRecordingQueue::try_new("/data".to_string(), Some("/done".to_string())).unwrap();
    assert_eq!(q.output_dir(), "/done");
    assert_eq!(q.path_of(Place::Output, "x.wav"), "/done/x.wav");
}

#[test]
fn relative_or_empty_input_is_refused() {
    assert!(matches!(
        DirRecordingQueue::try_new("data".to_string(), None),
        Err(QueueError::InvalidInput)
    ));
    assert!(matches!(
        DirRecordingQueue::try_new(String::new(), None),
        Err(QueueError::InvalidInput)
    ));
}

#[test]
fn scenario_latest_first_then_empty() {
    let q = queue();
    let mut entries = vec![entry("/data/a.wav", 100), entry("/data/b.wav", 200)];
    let m = q.next(&entries).unwrap();
    assert_eq!(m.name, "b.wav");
    assert_eq!(m.from, Place::Input);
    assert_eq!(m.to, Place::Staging);
    assert_eq!(q.recording(&m).0, "/data/in_process/b.wav");
    entries.remove(1);
    let m = q.next(&entries).unwrap();
    assert_eq!(m.name, "a.wav");
    assert_eq!(q.recording(&m).0, "/data/in_process/a.wav");
    entries.remove(0);
    assert!(q.next(&entries).is_none());
}

#[test]
fn successive_claims_have_decreasing_times() {
    let q = queue();
    let mut entries = vec![
        entry("/data/one.wav", 30),
        entry("/data/two.wav", 10),
        entry("/data/three.wav", 20),
    ];
    let mut last: Option<u128> = None;
    while let Some(i) = q.find_latest_new_recording(&entries) {
        let t = entries[i].modified;
        if let Some(prev) = last {
            assert!(t < prev);
        }
        last = Some(t);
        entries.remove(i);
    }
    assert_eq!(last, Some(10));
}

#[test]
fn nothing_eligible_signals_empty() {
    let q = queue();
    assert!(q.next(&Vec::new()).is_none());
    let entries = vec![entry("/data/note.txt", 5), entry("/data/in_process", 9)];
    assert!(q.next(&entries).is_none());
    assert_eq!(q.find_latest_new_recording(&entries), None);
}

#[test]
fn extension_filter_skips_text_files() {
    let q = queue();
    let entries = vec![entry("/data/note.txt", 900), entry("/data/call.wav", 1)];
    let m = q.next(&entries).unwrap();
    assert_eq!(m.name, "call.wav");
}

#[test]
fn equal_times_claim_smallest_name() {
    let q = queue();
    let entries = vec![
        entry("/data/z.wav", 7),
        entry("/data/x.txt", 7),
        entry("/data/y.wav", 7),
        entry("/data/yy.wav", 7),
    ];
    assert_eq!(q.find_latest_new_recording(&entries), Some(2));
    assert_eq!(q.next(&entries).unwrap().name, "y.wav");
}

#[test]
fn equal_times_ignore_other_extensions() {
    let q = queue();
    let entries = vec![
        entry("/data/x.txt", 7),
        entry("/data/y.wav", 7),
        entry("/data/z.wav", 7),
    ];
    assert_eq!(q.find_latest_new_recording(&entries), Some(1));
}

#[test]
fn scenario_stale_file_returns_to_input() {
    let q = queue();
    let moves = q
        .empty_processing_queue(&vec!["/data/in_process/stale.wav".to_string()])
        .unwrap();
    assert_eq!(moves.len(), 1);
    assert_eq!(moves[0].name, "stale.wav");
    assert_eq!(moves[0].from, Place::Staging);
    assert_eq!(moves[0].to, Place::Input);
    assert_eq!(q.path_of(moves[0].from, &moves[0].name), "/data/in_process/stale.wav");
    assert_eq!(q.path_of(moves[0].to, &moves[0].name), "/data/stale.wav");
}

#[test]
fn empty_staging_plans_no_moves() {
    let q = queue();
    assert!(q.empty_processing_queue(&Vec::new()).unwrap().is_empty());
}

#[test]
fn staged_path_without_file_name_is_refused() {
    let q = queue();
    let staged = vec!["/data/in_process/a.wav".to_string(), "/data/..".to_string()];
    assert!(matches!(
        q.empty_processing_queue(&staged),
        Err(QueueError::NoFileName)
    ));
}

#[test]
fn teardown_returns_claimed_file() {
    let q = queue();
    let entries = vec![entry("/data/rec.wav", 3)];
    let m = q.next(&entries).unwrap();
    let rec = q.recording(&m);
    let moves = q.empty_processing_queue(&vec![rec.0.clone()]).unwrap();
    assert_eq!(moves.len(), 1);
    assert_eq!(moves[0].name, "rec.wav");
    assert_eq!(q.path_of(moves[0].to, &moves[0].name), "/data/rec.wav");
}

#[test]
fn completed_recording_moves_to_output() {
    let q = queue();
    let m = q
        .move_file_to_out_dir(&Recording("/data/in_process/b.wav".to_string()))
        .unwrap();
    assert_eq!(m.name, "b.wav");
    assert_eq!(m.from, Place::Staging);
    assert_eq!(m.to, Place::Output);
    assert_eq!(q.path_of(m.to, &m.name), "/data/processed/b.wav");
    assert!(matches!(
        q.move_file_to_out_dir(&Recording("/".to_string())),
        Err(QueueError::NoFileName)
    ));
}

#[test]
fn claim_move_of_a_path() {
    let q = queue();
    let m = q.move_file_to_processing_queue("/data/c.wav").unwrap();
    assert_eq!(m.name, "c.wav");
    assert_eq!(q.path_of(m.to, &m.name), "/data/in_process/c.wav");
}

#[test]
fn lexicographic_order_of_paths() {
    assert!(lex_less("a", "b"));
    assert!(lex_less("a", "ab"));
    assert!(!lex_less("ab", "a"));
    assert!(!lex_less("a", "a"));
    assert!(lex_less("", "a"));
    assert!(!lex_less("b.wav", "a.wav"));
}
