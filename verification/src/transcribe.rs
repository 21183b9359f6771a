//! Transcription results and the rules of the transcription service boundary.

use crate::audio::AudioChunk;
use crate::error::PipelineError;
use crate::text::{decimal, push_decimal, push_text, string_of};
use vstd::prelude::*;

verus! {

/// Request timeout of one call to the transcription service, in seconds.
pub const API_TIMEOUT_SECS: u64 = 300;

/// Result of transcribing a single chunk.
#[derive(Debug, Clone, PartialEq, Eq)]
pub struct ChunkTranscription {
    /// Position of the chunk in the recording (0-based).
    pub index: usize,
    /// Transcript of the chunk.
    pub text: String,
    /// Whether the chunk starts inside the tail of its predecessor.
    pub has_leading_overlap: bool,
}

/// Mathematical model of a [`ChunkTranscription`].
pub struct TranscriptModel {
    pub index: nat,
    pub text: Seq<char>,
    pub has_leading_overlap: bool,
}

impl View for ChunkTranscription {
    type V = TranscriptModel;

    open spec fn view(&self) -> TranscriptModel {
        TranscriptModel {
            index: self.index as nat,
            text: self.text@,
            has_leading_overlap: self.has_leading_overlap,
        }
    }
}

/// The models of a sequence of transcriptions.
pub open spec fn transcript_models(items: Seq<ChunkTranscription>) -> Seq<TranscriptModel> {
    items.map_values(|t: ChunkTranscription| t@)
}

/// What one call to the transcription service is made of: a multipart POST
/// to a fixed endpoint, with a bearer credential, a model field and the
/// audio as a file part.
#[derive(Debug, Clone, PartialEq, Eq)]
pub struct TranscriptionRequest {
    /// Address of the endpoint.
    pub url: String,
    /// Value of the `Authorization` header.
    pub authorization: String,
    /// Value of the `model` field.
    pub model: String,
    /// File name of the `file` part.
    pub file_name: String,
    /// Media type of the `file` part.
    pub mime_type: String,
    /// Content of the `file` part.
    pub audio: Vec<u8>,
}

/// Mathematical model of a [`TranscriptionRequest`].
pub ghost struct RequestModel {
    pub url: Seq<char>,
    pub authorization: Seq<char>,
    pub model: Seq<char>,
    pub file_name: Seq<char>,
    pub mime_type: Seq<char>,
    pub audio: Seq<u8>,
}

impl View for TranscriptionRequest {
    type V = RequestModel;

    open spec fn view(&self) -> RequestModel {
        RequestModel {
            url: self.url@,
            authorization: self.authorization@,
            model: self.model@,
            file_name: self.file_name@,
            mime_type: self.mime_type@,
            audio: self.audio@,
        }
    }
}

/// The request that carries `audio` under `file_name`.
pub open spec fn request_spec(
    api_key: Seq<char>,
    file_name: Seq<char>,
    audio: Seq<u8>,
) -> RequestModel {
    RequestModel {
        url: "https://api.openai.com/v1/audio/transcriptions"@,
        authorization: "Bearer "@ + api_key,
        model: "whisper-1"@,
        file_name,
        mime_type: "audio/mpeg"@,
        audio,
    }
}

/// The file name under which the chunk with this index is sent.
pub open spec fn chunk_file_name(index: nat) -> Seq<char> {
    "audio_chunk_"@ + decimal(index) + ".mp3"@
}

fn build_request(api_key: &str, file_name: String, audio: Vec<u8>) -> (request:
    TranscriptionRequest)
    ensures
        request@ == request_spec(api_key@, file_name@, audio@),
{
    let mut authorization: Vec<char> = Vec::new();
    push_text(&mut authorization, "Bearer ");
    push_text(&mut authorization, api_key);
    assert(authorization@ =~= "Bearer "@ + api_key@);
    TranscriptionRequest {
        url: "https://api.openai.com/v1/audio/transcriptions".to_owned(),
        authorization: string_of(&authorization),
        model: "whisper-1".to_owned(),
        file_name,
        mime_type: "audio/mpeg".to_owned(),
        audio,
    }
}

/// The request for a recording that is sent whole.
pub fn single_request(api_key: &str, audio: Vec<u8>) -> (request: TranscriptionRequest)
    ensures
        request@ == request_spec(api_key@, "audio.mp3"@, audio@),
{
    build_request(api_key, "audio.mp3".to_owned(), audio)
}

/// The request for one chunk of a recording.
pub fn chunk_request(api_key: &str, chunk: AudioChunk) -> (request: TranscriptionRequest)
    ensures
        request@ == request_spec(api_key@, chunk_file_name(chunk.index as nat), chunk.data@),
{
    let mut name: Vec<char> = Vec::new();
    push_text(&mut name, "audio_chunk_");
    push_decimal(&mut name, chunk.index as u128);
    push_text(&mut name, ".mp3");
    assert(name@ =~= chunk_file_name(chunk.index as nat));
    build_request(api_key, string_of(&name), chunk.data)
}

/// The text that `reqwest::StatusCode` displays for the status with this
/// code: the code, a space and the reason phrase that belongs to it.
pub uninterp spec fn status_text(code: u16) -> Seq<char>;

/// Whether the status with this code reports success.
///
/// Calls `reqwest::StatusCode::is_success` on the status made from `code`;
/// the contract states what its source shows: the code lies in 200..=299.
#[verifier::external_body]
fn status_is_success(code: u16) -> (r: bool)
    requires
        100 <= code <= 999,
    ensures
        r == (200 <= code <= 299),
{
    reqwest::StatusCode::from_u16(code).unwrap().is_success()
}

/// The displayed form of the status with this code.
///
/// Calls the `Display` of `reqwest::StatusCode` on the status made from
/// `code`; the contract only names the result, which depends on nothing but
/// the code.
#[verifier::external_body]
fn status_display(code: u16) -> (r: String)
    requires
        100 <= code <= 999,
    ensures
        r@ == status_text(code),
{
    reqwest::StatusCode::from_u16(code).unwrap().to_string()
}

/// The status of a response of the transcription service.
#[derive(Debug, Clone, Copy, PartialEq, Eq)]
pub struct HttpStatus {
    code: u16,
}

impl HttpStatus {
    #[verifier::type_invariant]
    spec fn in_range(self) -> bool {
        100 <= self.code <= 999
    }

    /// The numeric code.
    pub closed spec fn code_spec(self) -> u16 {
        self.code
    }

    /// The status with this code, if there is one: codes run from 100 to 999.
    pub fn from_code(code: u16) -> (status: Option<HttpStatus>)
        ensures
            status is Some <==> 100 <= code <= 999,
            status is Some ==> status->Some_0.code_spec() == code,
    {
        if 100 <= code && code <= 999 {
            Some(HttpStatus { code })
        } else {
            None
        }
    }

    /// The numeric code.
    pub fn code(&self) -> (code: u16)
        ensures
            code == self.code_spec(),
            100 <= code <= 999,
    {
        proof {
            use_type_invariant(self);
        }
        self.code
    }

    /// Whether the status reports success: a code from 200 to 299.
    pub fn is_success(&self) -> (r: bool)
        ensures
            r == (200 <= self.code_spec() <= 299),
    {
        proof {
            use_type_invariant(self);
        }
        status_is_success(self.code)
    }

    /// The status as it is shown in a diagnostic.
    pub fn text(&self) -> (r: String)
        ensures
            r@ == status_text(self.code_spec()),
    {
        proof {
            use_type_invariant(self);
        }
        status_display(self.code)
    }
}

/// The diagnostic for a response that does not report success: the status
/// and the body as they came.
pub open spec fn api_error_text(code: u16, body: Seq<char>) -> Seq<char> {
    "OpenAI API error ("@ + status_text(code) + "): "@ + body
}

/// The body of a response, or why the response is a failure.
pub open spec fn checked_body(code: u16, body: Option<Seq<char>>) -> Result<Seq<char>, Seq<char>> {
    if 200 <= code <= 299 {
        match body {
            Some(text) => Ok(text),
            None => Err("Failed to get response text"@),
        }
    } else {
        match body {
            Some(text) => Err(api_error_text(code, text)),
            None => Err(api_error_text(code, "Unknown error"@)),
        }
    }
}

/// The model of a body that may be missing.
pub open spec fn body_model(body: Option<String>) -> Option<Seq<char>> {
    match body {
        Some(text) => Some(text@),
        None => None,
    }
}

/// Decides what a response of the transcription service amounts to.
///
/// `body` is `None` when the body could not be read. A response that
/// reports success yields its body; any other yields an error that carries
/// the status and the body verbatim.
pub fn check_response(status: HttpStatus, body: Option<String>) -> (r: Result<
    String,
    PipelineError,
>)
    ensures
        match checked_body(status.code_spec(), body_model(body)) {
            Ok(text) => r matches Ok(payload) && payload@ == text,
            Err(message) => r matches Err(PipelineError::Transcription(detail)) && detail@
                == message,
        },
{
    if status.is_success() {
        match body {
            Some(text) => Ok(text),
            None => Err(
                PipelineError::Transcription("Failed to get response text".to_owned()),
            ),
        }
    } else {
        let label = status.text();
        let mut message: Vec<char> = Vec::new();
        push_text(&mut message, "OpenAI API error (");
        push_text(&mut message, label.as_str());
        push_text(&mut message, "): ");
        match body {
            Some(text) => {
                push_text(&mut message, text.as_str());
                assert(message@ =~= api_error_text(status.code_spec(), text@));
            },
            None => {
                push_text(&mut message, "Unknown error");
                assert(message@ =~= api_error_text(status.code_spec(), "Unknown error"@));
            },
        }
        Err(PipelineError::Transcription(string_of(&message)))
    }
}

/// The transcript of a response whose body was decoded, or the failure to
/// decode it.
pub fn decoded_transcript(decoded: Option<String>) -> (r: Result<String, PipelineError>)
    ensures
        match decoded {
            Some(text) => r matches Ok(transcript) && transcript@ == text@,
            None => r matches Err(PipelineError::Transcription(detail)) && detail@
                == "Failed to parse OpenAI API response"@,
        },
{
    match decoded {
        Some(text) => Ok(text),
        None => Err(
            PipelineError::Transcription("Failed to parse OpenAI API response".to_owned()),
        ),
    }
}

impl ChunkTranscription {
    /// The transcription of a chunk whose request returned `text`.
    pub fn for_chunk(index: usize, has_leading_overlap: bool, text: String) -> (r: Self)
        ensures
            r@ == (TranscriptModel { index: index as nat, text: text@, has_leading_overlap }),
    {
        ChunkTranscription { index, text, has_leading_overlap }
    }
}

} // verus!
