use clip_export::clip_name::{clip_output_name, parse_clip_string};
use clip_export::error::ExportError;
use clip_export::mux::{
    cleanup_targets, destination_path, join_path, mux_arguments, mux_failure_message,
    mux_program, mux_result, quick_mux_arguments, temp_stream_path,
};
use clip_export::chunks::Stream;
use clip_export::text::{
    chars_of, decimal_string, has_prefix, last_component_of, parse_decimal, same_text,
};
use clip_export::validate::validate_directory;

#[test]
fn parse_clip_directory_name() {
    assert_eq!(
        parse_clip_string("clip_238960_20240815_015514"),
        Ok((238960, 20240815, 15514))
    );
}

#[test]
fn parse_clip_name_is_lenient_about_prefix_and_tail() {
    assert_eq!(parse_clip_string("1_2_3"), Ok((1, 2, 3)));
    assert_eq!(parse_clip_string("clip_clip_1_2_3"), Ok((1, 2, 3)));
    assert_eq!(parse_clip_string("clip_1_2_3_extra"), Ok((1, 2, 3)));
    assert_eq!(parse_clip_string("clip_1_2_3_"), Ok((1, 2, 3)));
    assert_eq!(parse_clip_string("clip_+1_+2_+3"), Ok((1, 2, 3)));
    assert_eq!(parse_clip_string("clip_0_00_000"), Ok((0, 0, 0)));
    assert_eq!(
        parse_clip_string("clip_18446744073709551615_1_2"),
        Ok((18446744073709551615, 1, 2))
    );
}

#[test]
fn parse_clip_name_rejects_what_is_not_three_numbers() {
    let bad = Err(ExportError::UnreadableClipName);
    assert_eq!(parse_clip_string(""), bad);
    assert_eq!(parse_clip_string("clip_"), bad);
    assert_eq!(parse_clip_string("clip_1"), bad);
    assert_eq!(parse_clip_string("clip_1_2"), bad);
    assert_eq!(parse_clip_string("clip_1_2_"), bad);
    assert_eq!(parse_clip_string("clip_a_2_3"), bad);
    assert_eq!(parse_clip_string("clip_1_b_3"), bad);
    assert_eq!(parse_clip_string("clip_1_2_c"), bad);
    assert_eq!(parse_clip_string("clip__1_2_3"), bad);
    assert_eq!(parse_clip_string("clip_-1_2_3"), bad);
    assert_eq!(parse_clip_string("clip_1 _2_3"), bad);
    assert_eq!(parse_clip_string("clip_18446744073709551616_1_2"), bad);
    assert_eq!(parse_clip_string("Clip_1_2_3"), bad);
    assert_eq!(parse_clip_string("video"), bad);
}

#[test]
fn output_name_joins_title_date_time() {
    assert_eq!(clip_output_name("Portal 2", 20240815, 15514), "Portal 2 20240815 15514");
    assert_eq!(clip_output_name("clip", 20240815, 15514), "clip 20240815 15514");
    assert_eq!(clip_output_name("", 0, 0), " 0 0");
}

#[test]
fn decimal_string_values() {
    assert_eq!(decimal_string(0), "0");
    assert_eq!(decimal_string(7), "7");
    assert_eq!(decimal_string(10), "10");
    assert_eq!(decimal_string(238960), "238960");
    assert_eq!(decimal_string(u64::MAX), "18446744073709551615");
}

#[test]
fn text_helpers() {
    assert_eq!(chars_of("aé-1"), vec!['a', 'é', '-', '1']);
    assert!(has_prefix("bg_123", "bg_"));
    assert!(has_prefix("bg_", "bg_"));
    assert!(has_prefix("anything", ""));
    assert!(!has_prefix("bg", "bg_"));
    assert!(!has_prefix("xbg_1", "bg_"));
    assert!(same_text("abc", "abc"));
    assert!(!same_text("abc", "abcd"));
    assert!(!same_text("abc", "abd"));
    assert!(same_text("", ""));
}

#[test]
fn join_path_puts_one_separator() {
    assert_eq!(join_path("/tmp/x", "a.mp4"), "/tmp/x/a.mp4");
    assert_eq!(join_path("/tmp/x/", "a.mp4"), "/tmp/x/a.mp4");
    assert_eq!(join_path("", "a.mp4"), "a.mp4");
    assert_eq!(join_path("/", "a.mp4"), "/a.mp4");
    assert_eq!(join_path("rel", ""), "rel/");
}

#[test]
fn destination_with_and_without_output_dir() {
    assert_eq!(
        destination_path(&Some("/out".to_string()), "Portal 2 20240815 15514"),
        "/out/Portal 2 20240815 15514.mp4"
    );
    assert_eq!(destination_path(&None, "clip 20240815 15514"), "clip 20240815 15514.mp4");
    assert_eq!(destination_path(&None, "Dr. Game 1 2"), "Dr. Game 1 2.mp4");
    assert_eq!(destination_path(&Some("out/".to_string()), "a"), "out/a.mp4");
}

#[test]
fn temp_paths_are_the_two_fixed_names() {
    assert_eq!(temp_stream_path("/tmp/abc", Stream::Video), "/tmp/abc/tmp_video.mp4");
    assert_eq!(temp_stream_path("/tmp/abc", Stream::Audio), "/tmp/abc/tmp_audio.mp4");
}

#[test]
fn cleanup_names_both_temp_files() {
    assert_eq!(
        cleanup_targets("/tmp/abc"),
        vec!["/tmp/abc/tmp_video.mp4".to_string(), "/tmp/abc/tmp_audio.mp4".to_string()]
    );
}

#[test]
fn mux_call_copies_both_streams() {
    assert_eq!(mux_program(), "ffmpeg");
    assert_eq!(
        mux_arguments("/t/tmp_video.mp4", "/t/tmp_audio.mp4", "/out/a b.mp4"),
        vec!["-i", "/t/tmp_video.mp4", "-i", "/t/tmp_audio.mp4", "-c", "copy", "/out/a b.mp4"]
    );
    assert_eq!(
        quick_mux_arguments("/clips/c/video/bg_1"),
        vec!["-i", "/clips/c/video/bg_1/session.mpd", "-c", "copy", "output.mp4"]
    );
}

#[test]
fn mux_exit_status() {
    assert_eq!(mux_result(Some(0)), Ok(()));
    assert_eq!(mux_result(Some(1)), Err(ExportError::MuxFailure { status: Some(1) }));
    assert_eq!(mux_result(Some(-1)), Err(ExportError::MuxFailure { status: Some(-1) }));
    assert_eq!(mux_result(Some(255)), Err(ExportError::MuxFailure { status: Some(255) }));
    assert_eq!(mux_result(None), Err(ExportError::MuxFailure { status: None }));
}

#[test]
fn validate_directory_accepts_or_explains() {
    assert_eq!(validate_directory("/clips", true), Ok("/clips".to_string()));
    assert_eq!(
        validate_directory("/nope", false),
        Err("'/nope' is not a valid directory path".to_string())
    );
    assert_eq!(validate_directory("", false), Err("'' is not a valid directory path".to_string()));
}

#[test]
fn parse_decimal_reads_unsigned_numbers() {
    assert_eq!(parse_decimal("0", u64::MAX), Some(0));
    assert_eq!(parse_decimal("015514", u64::MAX), Some(15514));
    assert_eq!(parse_decimal("+42", u64::MAX), Some(42));
    assert_eq!(parse_decimal("18446744073709551615", u64::MAX), Some(u64::MAX));
    assert_eq!(parse_decimal("18446744073709551616", u64::MAX), None);
    assert_eq!(parse_decimal("256", 255), None);
    assert_eq!(parse_decimal("255", 255), Some(255));
    assert_eq!(parse_decimal("", u64::MAX), None);
    assert_eq!(parse_decimal("+", u64::MAX), None);
    assert_eq!(parse_decimal("++1", u64::MAX), None);
    assert_eq!(parse_decimal("-1", u64::MAX), None);
    assert_eq!(parse_decimal("1 ", u64::MAX), None);
    assert_eq!(parse_decimal(" 1", u64::MAX), None);
    assert_eq!(parse_decimal("1_000", u64::MAX), None);
    assert_eq!(parse_decimal("12a", u64::MAX), None);
}

#[test]
fn parse_decimal_reads_back_decimal_string() {
    for n in [0u64, 1, 9, 10, 99, 100, 15514, 20240815, u64::MAX] {
        assert_eq!(parse_decimal(&decimal_string(n), u64::MAX), Some(n));
    }
}

#[test]
fn parse_clip_path_reads_the_last_component() {
    assert_eq!(
        parse_clip_string("/home/u/clips/clip_238960_20240815_235514"),
        Ok((238960, 20240815, 235514))
    );
    assert_eq!(
        parse_clip_string("/home/u/clips/clip_238960_20240815_235514/"),
        Ok((238960, 20240815, 235514))
    );
    assert_eq!(parse_clip_string("clips/clip_1_2_3"), Ok((1, 2, 3)));
    assert_eq!(parse_clip_string("./clip_1_2_3//"), Ok((1, 2, 3)));
    assert_eq!(parse_clip_string("/clip_9_8_7/video"), Err(ExportError::UnreadableClipName));
    assert_eq!(parse_clip_string("/"), Err(ExportError::UnreadableClipName));
    assert_eq!(parse_clip_string("clip_1_2_3/.."), Err(ExportError::UnreadableClipName));
}

#[test]
fn clip_name_round_trip_with_and_without_parents() {
    for (id, date, time) in [(238960u64, 20240815u64, 15514u64), (0, 0, 0), (u64::MAX, 1, 2)] {
        let name = format!("clip_{}_{}_{}", id, date, time);
        assert_eq!(parse_clip_string(&name), Ok((id, date, time)));
        assert_eq!(parse_clip_string(&format!("/a/b_c/{}", name)), Ok((id, date, time)));
        assert_eq!(parse_clip_string(&format!("rel/{}/", name)), Ok((id, date, time)));
    }
}

#[test]
fn last_component_of_paths() {
    let last = |p: &str| -> String { last_component_of(&chars_of(p)).into_iter().collect() };
    assert_eq!(last("/a/b/c"), "c");
    assert_eq!(last("/a/b/c/"), "c");
    assert_eq!(last("/a/b/c///"), "c");
    assert_eq!(last("c"), "c");
    assert_eq!(last(""), "");
    assert_eq!(last("/"), "");
    assert_eq!(last("a/"), "a");
    assert_eq!(last("/a"), "a");
}

#[test]
fn mux_failure_message_carries_the_status() {
    assert_eq!(
        mux_failure_message("exit status: 1"),
        "Failed to combine video and audio: exit status: 1"
    );
    assert_eq!(mux_failure_message(""), "Failed to combine video and audio: ");
}
