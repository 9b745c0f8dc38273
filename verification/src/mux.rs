//! What is handed to the mux tool and what its exit status means: the
//! paths of the temporary stream files, the path of the output file, and
//! the arguments of the call.

use vstd::prelude::*;
use crate::chunks::Stream;
use crate::error::ExportError;
use crate::text::chars_of;

verus! {

/// The path of `name` inside `dir`. `name` is taken as a relative path: a
/// `/` is put between the two unless `dir` is empty or ends with one.
pub open spec fn joined(dir: Seq<char>, name: Seq<char>) -> Seq<char> {
    if dir.len() == 0 || dir.last() == '/' {
        dir + name
    } else {
        dir + seq!['/'] + name
    }
}

/// The name of the temporary file that holds an assembled stream.
pub open spec fn temp_stream_name(stream: Stream) -> Seq<char> {
    match stream {
        Stream::Video => "tmp_video.mp4"@,
        Stream::Audio => "tmp_audio.mp4"@,
    }
}

/// The path of the output file: `name` with the extension `.mp4`, inside
/// the output directory where one is given.
pub open spec fn destination(output_dir: Option<Seq<char>>, name: Seq<char>) -> Seq<char> {
    match output_dir {
        Some(dir) => joined(dir, name + ".mp4"@),
        None => name + ".mp4"@,
    }
}

/// The arguments that make the mux tool copy both streams, as they are,
/// into one file at `destination`.
pub open spec fn mux_args(video: Seq<char>, audio: Seq<char>, destination: Seq<char>) -> Seq<
    Seq<char>,
> {
    seq!["-i"@, video, "-i"@, audio, "-c"@, "copy"@, destination]
}

/// The arguments that make the mux tool copy the streams that
/// `session.mpd` in `dir` describes into the file `output.mp4`.
pub open spec fn quick_mux_args(dir: Seq<char>) -> Seq<Seq<char>> {
    seq!["-i"@, joined(dir, "session.mpd"@), "-c"@, "copy"@, "output.mp4"@]
}

/// What the exit status of the mux tool means: success for exit code 0, a
/// failure that carries the status for every other code and for the end
/// by a signal (`None`).
pub open spec fn mux_meaning(status: Option<i32>) -> Result<(), ExportError> {
    if status == Some(0i32) {
        Ok(())
    } else {
        Err(ExportError::MuxFailure { status })
    }
}

/// What is said of a mux tool that ended without success; `status` is how
/// the system words its exit status.
pub open spec fn mux_failure_text(status: Seq<char>) -> Seq<char> {
    "Failed to combine video and audio: "@ + status
}

/// The path of `name` inside `dir`.
pub fn join_path(dir: &str, name: &str) -> (path: String)
    ensures
        path@ == joined(dir@, name@),
{
    proof {
        reveal_strlit("/");
    }
    let letters: Vec<char> = chars_of(dir);
    let mut path: String = String::from_str(dir);
    if letters.len() > 0 && letters[letters.len() - 1] != '/' {
        path.append("/");
    }
    path.append(name);
    assert(path@ =~= joined(dir@, name@));
    path
}

/// The name of the mux tool.
pub fn mux_program() -> (program: &'static str)
    ensures
        program@ == "ffmpeg"@,
{
    "ffmpeg"
}

/// The path of the temporary file that holds an assembled stream.
pub fn temp_stream_path(tmp_dir: &str, stream: Stream) -> (path: String)
    ensures
        path@ == joined(tmp_dir@, temp_stream_name(stream)),
{
    match stream {
        Stream::Video => join_path(tmp_dir, "tmp_video.mp4"),
        Stream::Audio => join_path(tmp_dir, "tmp_audio.mp4"),
    }
}

/// The temporary files to remove when a clip is done with, however it
/// ended: both stream files, the video first.
pub fn cleanup_targets(tmp_dir: &str) -> (paths: Vec<String>)
    ensures
        paths.deep_view() == seq![
            joined(tmp_dir@, temp_stream_name(Stream::Video)),
            joined(tmp_dir@, temp_stream_name(Stream::Audio)),
        ],
{
    let mut paths: Vec<String> = Vec::new();
    paths.push(temp_stream_path(tmp_dir, Stream::Video));
    paths.push(temp_stream_path(tmp_dir, Stream::Audio));
    assert(paths.deep_view() =~= seq![
        joined(tmp_dir@, temp_stream_name(Stream::Video)),
        joined(tmp_dir@, temp_stream_name(Stream::Audio)),
    ]);
    paths
}

/// The path of the output file called `name`.
pub fn destination_path(output_dir: &Option<String>, name: &str) -> (path: String)
    ensures
        path@ == destination(
            match *output_dir {
                Some(dir) => Some(dir@),
                None => None,
            },
            name@,
        ),
{
    let mut file: String = String::from_str(name);
    file.append(".mp4");
    match output_dir {
        Some(dir) => join_path(dir.as_str(), file.as_str()),
        None => file,
    }
}

/// The arguments of the call that muxes the two assembled streams into the
/// output file.
pub fn mux_arguments(video: &str, audio: &str, destination: &str) -> (args: Vec<String>)
    ensures
        args.deep_view() == mux_args(video@, audio@, destination@),
{
    let mut args: Vec<String> = Vec::new();
    args.push(String::from_str("-i"));
    args.push(String::from_str(video));
    args.push(String::from_str("-i"));
    args.push(String::from_str(audio));
    args.push(String::from_str("-c"));
    args.push(String::from_str("copy"));
    args.push(String::from_str(destination));
    assert(args.deep_view() =~= mux_args(video@, audio@, destination@));
    args
}

/// The arguments of the call that muxes a clip from the `session.mpd` of
/// its segment directory.
pub fn quick_mux_arguments(dir: &str) -> (args: Vec<String>)
    ensures
        args.deep_view() == quick_mux_args(dir@),
{
    let mut args: Vec<String> = Vec::new();
    args.push(String::from_str("-i"));
    args.push(join_path(dir, "session.mpd"));
    args.push(String::from_str("-c"));
    args.push(String::from_str("copy"));
    args.push(String::from_str("output.mp4"));
    assert(args.deep_view() =~= quick_mux_args(dir@));
    args
}

/// Tells from the exit status of the mux tool whether it succeeded.
pub fn mux_result(status: Option<i32>) -> (result: Result<(), ExportError>)
    ensures
        result == mux_meaning(status),
{
    match status {
        Some(code) => if code == 0 {
            Ok(())
        } else {
            Err(ExportError::MuxFailure { status })
        },
        None => Err(ExportError::MuxFailure { status }),
    }
}

/// The message for a mux tool that ended without success.
pub fn mux_failure_message(status: &str) -> (message: String)
    ensures
        message@ == mux_failure_text(status@),
{
    let mut message: String = String::from_str("Failed to combine video and audio: ");
    message.append(status);
    message
}

} // verus!
