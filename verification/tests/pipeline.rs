use clip_export::error::ExportError;
use clip_export::listing::{
    clip_directories, locate_segment_dir, require_segment_dir, DirEntry, EntryKind,
};
use clip_export::pipeline::{
    step_result, summarize, Action, ClipState, Outcome, RunSummary, Stage, StepResult,
};
use clip_export::title::{
    app_details_url, game_title, name_clip, title_in_response, title_or_default,
};

fn entry(name: &str, kind: EntryKind) -> DirEntry {
    DirEntry { name: name.to_string(), unicode: true, kind }
}

fn lossy(name: &str, kind: EntryKind) -> DirEntry {
    DirEntry { name: name.to_string(), unicode: false, kind }
}

fn run(results: &[StepResult]) -> (ClipState, Vec<Action>) {
    let mut state = ClipState::begin();
    let mut actions = Vec::new();
    for r in results {
        actions.push(state.action());
        state = state.advance(*r);
    }
    (state, actions)
}

#[test]
fn success_path_goes_through_every_state() {
    let mut state = ClipState::begin();
    assert_eq!(state, ClipState::Discovered);
    assert_eq!(state.action(), Action::Locate);
    state = state.advance(StepResult::Done);
    assert_eq!(state, ClipState::Located);
    assert_eq!(state.action(), Action::Assemble);
    state = state.advance(StepResult::Done);
    assert_eq!(state, ClipState::Assembled);
    assert_eq!(state.action(), Action::Name);
    state = state.advance(StepResult::Done);
    assert_eq!(state, ClipState::Named);
    assert_eq!(state.action(), Action::Mux);
    state = state.advance(StepResult::Done);
    assert_eq!(state, ClipState::Muxed);
    assert_eq!(state.action(), Action::Cleanup);
    assert_eq!(state.outcome(), None);
    state = state.advance(StepResult::Done);
    assert_eq!(state, ClipState::Cleaned(Outcome::Completed));
    assert_eq!(state.action(), Action::Finish);
    assert_eq!(state.outcome(), Some(Outcome::Completed));
}

#[test]
fn missing_segment_dir_skips_without_writing() {
    let (state, actions) = run(&[StepResult::Missing, StepResult::Done]);
    assert_eq!(state, ClipState::Cleaned(Outcome::SkippedNoSegments));
    assert_eq!(actions, vec![Action::Locate, Action::Cleanup]);
    assert!(!actions.contains(&Action::Assemble));
    assert!(!actions.contains(&Action::Mux));
}

#[test]
fn missing_segments_at_assembly_skip() {
    let (state, actions) = run(&[StepResult::Done, StepResult::Missing, StepResult::Failed]);
    assert_eq!(state, ClipState::Cleaned(Outcome::SkippedNoSegments));
    assert_eq!(actions, vec![Action::Locate, Action::Assemble, Action::Cleanup]);
}

#[test]
fn mux_failure_marks_failed_then_cleans() {
    let done = StepResult::Done;
    let (state, actions) = run(&[done, done, done, StepResult::Failed]);
    assert_eq!(state, ClipState::Failed(Stage::Mux));
    assert_eq!(state.action(), Action::Cleanup);
    assert_eq!(state.outcome(), None);
    assert_eq!(actions, vec![Action::Locate, Action::Assemble, Action::Name, Action::Mux]);
    let end = state.advance(StepResult::Done);
    assert_eq!(end, ClipState::Cleaned(Outcome::Failed(Stage::Mux)));
    assert_eq!(end.action(), Action::Finish);
}

#[test]
fn cleanup_follows_failure_at_every_stage() {
    let done = StepResult::Done;
    let failed = StepResult::Failed;
    let cases: Vec<(Vec<StepResult>, Stage)> = vec![
        (vec![failed], Stage::Locate),
        (vec![done, failed], Stage::Assemble),
        (vec![done, done, failed], Stage::Name),
        (vec![done, done, done, failed], Stage::Mux),
    ];
    for (results, stage) in cases {
        let (state, _) = run(&results);
        assert_eq!(state, ClipState::Failed(stage));
        assert_eq!(state.action(), Action::Cleanup);
        for cleanup in [StepResult::Done, StepResult::Missing, StepResult::Failed] {
            assert_eq!(state.advance(cleanup), ClipState::Cleaned(Outcome::Failed(stage)));
        }
    }
}

#[test]
fn every_run_of_five_results_is_cleaned_after_a_cleanup() {
    let all = [StepResult::Done, StepResult::Missing, StepResult::Failed];
    for a in all {
        for b in all {
            for c in all {
                for d in all {
                    for e in all {
                        let (state, actions) = run(&[a, b, c, d, e]);
                        assert!(matches!(state, ClipState::Cleaned(_)));
                        assert!(actions.contains(&Action::Cleanup));
                        let completed = a == StepResult::Done
                            && b == StepResult::Done
                            && c == StepResult::Done
                            && d == StepResult::Done;
                        assert_eq!(state == ClipState::Cleaned(Outcome::Completed), completed);
                    }
                }
            }
        }
    }
}

#[test]
fn naming_and_muxing_treat_missing_as_failure() {
    let done = StepResult::Done;
    let (state, _) = run(&[done, done, StepResult::Missing]);
    assert_eq!(state, ClipState::Failed(Stage::Name));
    let (state, _) = run(&[done, done, done, StepResult::Missing]);
    assert_eq!(state, ClipState::Failed(Stage::Mux));
}

#[test]
fn cleaned_state_stays() {
    let state = ClipState::Cleaned(Outcome::Failed(Stage::Assemble));
    assert_eq!(state.advance(StepResult::Done), state);
    assert_eq!(state.advance(StepResult::Failed), state);
}

#[test]
fn step_result_of_each_error() {
    assert_eq!(step_result(&Ok::<u8, ExportError>(3)), StepResult::Done);
    assert_eq!(step_result(&Err::<(), _>(ExportError::SegmentsNotFound)), StepResult::Missing);
    assert_eq!(step_result(&Err::<(), _>(ExportError::IoFailure)), StepResult::Failed);
    assert_eq!(step_result(&Err::<(), _>(ExportError::UnreadableClipName)), StepResult::Failed);
    assert_eq!(step_result(&Err::<(), _>(ExportError::LookupFailure)), StepResult::Failed);
    assert_eq!(
        step_result(&Err::<(), _>(ExportError::MuxFailure { status: Some(1) })),
        StepResult::Failed
    );
}

#[test]
fn clip_directories_are_the_directories_in_order() {
    let listing = vec![
        entry("clip_2_20240101_000001", EntryKind::Directory),
        entry("notes.txt", EntryKind::File),
        entry("clip_1_20240101_000002", EntryKind::Directory),
        lossy("clip_3_\u{fffd}", EntryKind::Directory),
        entry("socket", EntryKind::Other),
        entry("other", EntryKind::Directory),
    ];
    assert_eq!(
        clip_directories(&listing),
        vec!["clip_2_20240101_000001", "clip_1_20240101_000002", "clip_3_\u{fffd}", "other"]
    );
    assert!(clip_directories(&Vec::new()).is_empty());
}

#[test]
fn locate_finds_first_bg_directory() {
    let listing = vec![
        entry("bg_file", EntryKind::File),
        entry("fg_1", EntryKind::Directory),
        entry("bg_238960_1", EntryKind::Directory),
        entry("bg_238960_0", EntryKind::Directory),
    ];
    assert_eq!(locate_segment_dir(&Some(listing)), Some("bg_238960_1".to_string()));
}

#[test]
fn locate_finds_nothing() {
    assert_eq!(locate_segment_dir(&None), None);
    assert_eq!(locate_segment_dir(&Some(Vec::new())), None);
    let listing = vec![
        entry("bg_file", EntryKind::File),
        entry("bg", EntryKind::Directory),
        entry("Bg_1", EntryKind::Directory),
        lossy("bg_\u{fffd}", EntryKind::Directory),
    ];
    assert_eq!(locate_segment_dir(&Some(listing)), None);
}

#[test]
fn lookup_failure_falls_back_to_default() {
    assert_eq!(game_title(238960, &Err(ExportError::LookupFailure), false), "clip");
    assert_eq!(game_title(238960, &Err(ExportError::IoFailure), true), "clip");
    assert_eq!(game_title(238960, &Ok("not json".to_string()), false), "clip");
    assert_eq!(game_title(238960, &Ok("[1, 2]".to_string()), false), "clip");
    assert_eq!(game_title(238960, &Ok("{}".to_string()), false), "clip");
    assert_eq!(game_title(238960, &Ok("{\"238960\": {\"success\": false}}".to_string()), false), "clip");
    assert_eq!(
        game_title(238960, &Ok("{\"238960\": {\"data\": {\"type\": \"game\"}}}".to_string()), false),
        "clip"
    );
    assert_eq!(
        game_title(1, &Ok("{\"238960\": {\"data\": {\"name\": \"X\"}}}".to_string()), false),
        "clip"
    );
    assert_eq!(game_title(238960, &Ok("{\"238960\": {\"data\": []}}".to_string()), false), "clip");
}

#[test]
fn title_comes_from_the_answer_and_is_sanitized() {
    let body = "{\"238960\": {\"success\": true, \"data\": {\"type\": \"game\", \"name\": \"Path of Exile\"}}}";
    assert_eq!(title_in_response(238960, body), Some("Path of Exile".to_string()));
    assert_eq!(game_title(238960, &Ok(body.to_string()), false), "Path of Exile");
    let odd = "{\"7\": {\"data\": {\"name\": \"A/B: C? <D>\"}}}";
    assert_eq!(title_in_response(7, odd), Some("A/B: C? <D>".to_string()));
    assert_eq!(game_title(7, &Ok(odd.to_string()), false), "AB C D");
    let quoted = "{\"7\": {\"data\": {\"name\": \"Say \\\"hi\\\"\"}}}";
    assert_eq!(title_in_response(7, quoted), Some("Say \"hi\"".to_string()));
    assert_eq!(game_title(7, &Ok(quoted.to_string()), false), "Say hi");
}

#[test]
fn escapes_in_a_title_are_read_before_sanitizing() {
    let tab = "{\"7\": {\"data\": {\"name\": \"A\\tB\"}}}";
    assert_eq!(title_in_response(7, tab), Some("A\tB".to_string()));
    assert_eq!(game_title(7, &Ok(tab.to_string()), false), "AB");
    let unicode = "{\"7\": {\"data\": {\"name\": \"Pok\\u00e9mon\"}}}";
    assert_eq!(game_title(7, &Ok(unicode.to_string()), false), "Pok\u{e9}mon");
}

#[test]
fn windows_rules_apply_only_when_asked() {
    let reserved = "{\"7\": {\"data\": {\"name\": \"CON\"}}}";
    assert_eq!(game_title(7, &Ok(reserved.to_string()), false), "CON");
    assert_eq!(game_title(7, &Ok(reserved.to_string()), true), "");
    let trailing = "{\"7\": {\"data\": {\"name\": \"trail. \"}}}";
    assert_eq!(game_title(7, &Ok(trailing.to_string()), false), "trail. ");
    assert_eq!(game_title(7, &Ok(trailing.to_string()), true), "trail");
}

#[test]
fn title_that_is_not_a_string_falls_back_to_default() {
    let null = "{\"238960\":{\"success\":true,\"data\":{\"name\":null}}}";
    assert_eq!(title_in_response(238960, null), None);
    assert_eq!(game_title(238960, &Ok(null.to_string()), false), "clip");
    let number = "{\"7\": {\"data\": {\"name\": 42}}}";
    assert_eq!(game_title(7, &Ok(number.to_string()), true), "clip");
    let object = "{\"7\": {\"data\": {\"name\": {\"a\": 1}}}}";
    assert_eq!(game_title(7, &Ok(object.to_string()), false), "clip");
    let list = "{\"7\": {\"data\": {\"name\": [\"x\"]}}}";
    assert_eq!(game_title(7, &Ok(list.to_string()), false), "clip");
    let truth = "{\"7\": {\"data\": {\"name\": true}}}";
    assert_eq!(game_title(7, &Ok(truth.to_string()), false), "clip");
}

#[test]
fn sanitized_title_fits_a_file_name() {
    let dots = "{\"7\": {\"data\": {\"name\": \"..\"}}}";
    assert_eq!(game_title(7, &Ok(dots.to_string()), false), "");
    let long = format!("{{\"7\": {{\"data\": {{\"name\": \"{}\"}}}}}}", "\u{e9}".repeat(200));
    let title = game_title(7, &Ok(long), false);
    assert!(title.len() <= 255);
    assert_eq!(title, "\u{e9}".repeat(127));
    let control = "{\"7\": {\"data\": {\"name\": \"a\\u0000b\\u0085c\\u001fd\"}}}";
    assert_eq!(game_title(7, &Ok(control.to_string()), false), "abcd");
}

#[test]
fn title_or_default_values() {
    assert_eq!(title_or_default(None), "clip");
    assert_eq!(title_or_default(Some("Half-Life".to_string())), "Half-Life");
    assert_eq!(title_or_default(Some(String::new())), "");
}

#[test]
fn details_url() {
    assert_eq!(
        app_details_url(238960),
        "https://store.steampowered.com/api/appdetails?appids=238960"
    );
    assert_eq!(app_details_url(0), "https://store.steampowered.com/api/appdetails?appids=0");
}

#[test]
fn default_name_still_gives_an_output_name() {
    let title = game_title(238960, &Err(ExportError::LookupFailure), false);
    let name = clip_export::clip_name::clip_output_name(&title, 20240815, 15514);
    assert_eq!(name, "clip 20240815 15514");
    assert_eq!(
        clip_export::mux::destination_path(&None, &name),
        "clip 20240815 15514.mp4"
    );
}

#[test]
fn summary_counts_every_clip_once() {
    let outcomes = vec![
        Outcome::Completed,
        Outcome::Failed(Stage::Mux),
        Outcome::SkippedNoSegments,
        Outcome::Completed,
        Outcome::Failed(Stage::Locate),
        Outcome::Completed,
    ];
    assert_eq!(summarize(&outcomes), RunSummary { completed: 3, skipped: 1, failed: 2 });
    assert_eq!(summarize(&Vec::new()), RunSummary { completed: 0, skipped: 0, failed: 0 });
}

#[test]
fn name_clip_with_and_without_an_answer() {
    let body = "{\"238960\": {\"data\": {\"name\": \"Path of Exile\"}}}";
    assert_eq!(
        name_clip(238960, 20240815, 15514, &Ok(body.to_string()), false),
        "Path of Exile 20240815 15514"
    );
    assert_eq!(
        name_clip(238960, 20240815, 15514, &Err(ExportError::LookupFailure), false),
        "clip 20240815 15514"
    );
    assert_eq!(
        name_clip(238960, 20240815, 15514, &Ok("<html>".to_string()), true),
        "clip 20240815 15514"
    );
}

#[test]
fn nothing_located_means_segments_not_found() {
    assert_eq!(require_segment_dir(None), Err(ExportError::SegmentsNotFound));
    assert_eq!(require_segment_dir(Some("bg_1".to_string())), Ok("bg_1".to_string()));
    let result = require_segment_dir(locate_segment_dir(&None));
    assert_eq!(step_result(&result), StepResult::Missing);
    assert_eq!(ClipState::begin().advance(step_result(&result)), ClipState::Skipped);
}
