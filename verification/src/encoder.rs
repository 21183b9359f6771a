//! The boundary to the external transcoder.
//!
//! The transcoder is a separate program that turns an uncompressed recording
//! into a compressed one. This module decides how its files are named and how
//! it is invoked; writing the input, running the program and reading the
//! output are left to the caller.

use crate::error::PipelineError;
use crate::text::{decimal, lemma_decimal_is_injective, push_decimal, push_text, string_of};
use vstd::prelude::*;

verus! {

/// The part of a staging file name that tells the artifacts of one encoding
/// from those of every other: the process, the moment, and what is encoded.
pub open spec fn artifact_stem(process_id: u32, nanos: u128, suffix: Seq<char>) -> Seq<char> {
    "whis_"@ + decimal(process_id as nat) + "_"@ + decimal(nanos as nat) + "_"@ + suffix
}

/// The suffix for the window with this index.
pub open spec fn window_suffix_spec(index: nat) -> Seq<char> {
    "chunk"@ + decimal(index)
}

/// The windows of one recording get different staging names, so that
/// encodings that run side by side never share a file.
pub proof fn lemma_window_artifacts_are_distinct(
    process_id: u32,
    nanos: u128,
    first: nat,
    second: nat,
)
    requires
        first != second,
    ensures
        artifact_stem(process_id, nanos, window_suffix_spec(first)) != artifact_stem(
            process_id,
            nanos,
            window_suffix_spec(second),
        ),
{
    let head = "whis_"@ + decimal(process_id as nat) + "_"@ + decimal(nanos as nat) + "_"@;
    let one = artifact_stem(process_id, nanos, window_suffix_spec(first));
    let other = artifact_stem(process_id, nanos, window_suffix_spec(second));
    if one == other {
        assert(one.skip(head.len() as int) =~= window_suffix_spec(first));
        assert(other.skip(head.len() as int) =~= window_suffix_spec(second));
        let tag = "chunk"@;
        assert(window_suffix_spec(first).skip(tag.len() as int) =~= decimal(first));
        assert(window_suffix_spec(second).skip(tag.len() as int) =~= decimal(second));
        lemma_decimal_is_injective(first, second);
    }
}

/// The names of the two staging files of one encoding: the uncompressed
/// input and the compressed output.
pub struct ArtifactNames {
    /// File name of the uncompressed input.
    pub input: String,
    /// File name of the compressed output.
    pub output: String,
}

/// The suffix under which the whole recording is encoded.
pub fn whole_suffix() -> (suffix: String)
    ensures
        suffix@ == "main"@,
{
    "main".to_owned()
}

/// The suffix under which the window with this index is encoded.
pub fn window_suffix(index: usize) -> (suffix: String)
    ensures
        suffix@ == window_suffix_spec(index as nat),
{
    let mut chars: Vec<char> = Vec::new();
    push_text(&mut chars, "chunk");
    push_decimal(&mut chars, index as u128);
    string_of(&chars)
}

/// Names the staging files of one encoding.
pub fn artifact_names(process_id: u32, nanos: u128, suffix: &str) -> (names: ArtifactNames)
    ensures
        names.input@ == artifact_stem(process_id, nanos, suffix@) + ".wav"@,
        names.output@ == artifact_stem(process_id, nanos, suffix@) + ".mp3"@,
{
    let mut stem: Vec<char> = Vec::new();
    push_text(&mut stem, "whis_");
    push_decimal(&mut stem, process_id as u128);
    push_text(&mut stem, "_");
    push_decimal(&mut stem, nanos);
    push_text(&mut stem, "_");
    push_text(&mut stem, suffix);
    assert(stem@ =~= artifact_stem(process_id, nanos, suffix@));
    let mut input = stem.clone();
    let mut output = stem;
    push_text(&mut input, ".wav");
    push_text(&mut output, ".mp3");
    ArtifactNames { input: string_of(&input), output: string_of(&output) }
}

/// The arguments of the transcoder, after the program name.
pub open spec fn transcoder_arguments_spec(input: Seq<char>, output: Seq<char>) -> Seq<Seq<char>> {
    seq![
        "-hide_banner"@,
        "-loglevel"@,
        "error"@,
        "-i"@,
        input,
        "-codec:a"@,
        "libmp3lame"@,
        "-b:a"@,
        "128k"@,
        "-y"@,
        output,
    ]
}

/// The views of a sequence of strings.
pub open spec fn string_views(strings: Seq<String>) -> Seq<Seq<char>> {
    strings.map_values(|s: String| s@)
}

/// The arguments with which the transcoder turns the file at `input` into
/// the file at `output`.
pub fn transcoder_arguments(input: &str, output: &str) -> (arguments: Vec<String>)
    ensures
        string_views(arguments@) == transcoder_arguments_spec(input@, output@),
{
    let mut arguments: Vec<String> = Vec::new();
    arguments.push("-hide_banner".to_owned());
    arguments.push("-loglevel".to_owned());
    arguments.push("error".to_owned());
    arguments.push("-i".to_owned());
    arguments.push(input.to_owned());
    arguments.push("-codec:a".to_owned());
    arguments.push("libmp3lame".to_owned());
    arguments.push("-b:a".to_owned());
    arguments.push("128k".to_owned());
    arguments.push("-y".to_owned());
    arguments.push(output.to_owned());
    assert(string_views(arguments@) =~= transcoder_arguments_spec(input@, output@));
    arguments
}

/// The diagnostic for a run of the transcoder that did not succeed.
pub open spec fn conversion_failure(diagnostics: Seq<char>) -> Seq<char> {
    "FFmpeg conversion failed: "@ + diagnostics
}

/// What a finished run of the transcoder amounts to: the encoded audio when
/// it exited with success and its output could be read, else an error. A
/// failed run is reported with the diagnostic output of the transcoder.
pub fn encode_outcome(succeeded: bool, diagnostics: &str, output: Option<Vec<u8>>) -> (r: Result<
    Vec<u8>,
    PipelineError,
>)
    ensures
        succeeded && output is Some ==> r == Ok::<Vec<u8>, PipelineError>(output->Some_0),
        succeeded && output is None ==> (r matches Err(PipelineError::Encode(detail)) && detail@
            == "Failed to read converted MP3 file"@),
        !succeeded ==> (r matches Err(PipelineError::Encode(detail)) && detail@
            == conversion_failure(diagnostics@)),
{
    if succeeded {
        match output {
            Some(bytes) => Ok(bytes),
            None => Err(PipelineError::Encode("Failed to read converted MP3 file".to_owned())),
        }
    } else {
        let mut detail: Vec<char> = Vec::new();
        push_text(&mut detail, "FFmpeg conversion failed: ");
        push_text(&mut detail, diagnostics);
        Err(PipelineError::Encode(string_of(&detail)))
    }
}

} // verus!
