//! Turning speech into text, and text into speech.

use crate::client::exchange;
use crate::client::exchange::{BytesOutcome, TextOutcome, Wording};
use crate::error;
use crate::error::Error;
use crate::generative;
use crate::generative::{Target, KEY_SPEECH_TO_TEXT, KEY_TEXT_TO_SPEECH};
use crate::json;
use crate::json::JsonValue;
use crate::protocol::manifest::ProtocolManifest;
use crate::text;
use crate::transport::http::Environment;
use crate::types::generative as shapes;
use crate::types::generative::{
    SpeechToTextRequest, SpeechToTextResult, TextToSpeechRequest, TextToSpeechResult,
};
use base64::Engine;
use vstd::prelude::*;

verus! {

broadcast use vstd::string::group_string_axioms;

/// The digits of base64, by value.
pub open spec fn base64_digit(n: int) -> char {
    "ABCDEFGHIJKLMNOPQRSTUVWXYZabcdefghijklmnopqrstuvwxyz0123456789+/"@[n]
}

/// The bytes in base64: three bytes in four digits, the end filled up with `=`.
pub open spec fn base64_text(b: Seq<u8>) -> Seq<char>
    decreases b.len(),
{
    if b.len() == 0 {
        Seq::empty()
    } else if b.len() == 1 {
        seq![base64_digit(b[0] as int / 4), base64_digit(b[0] as int % 4 * 16), '=', '=']
    } else if b.len() == 2 {
        seq![
            base64_digit(b[0] as int / 4),
            base64_digit(b[0] as int % 4 * 16 + b[1] as int / 16),
            base64_digit(b[1] as int % 16 * 4),
            '=',
        ]
    } else {
        seq![
            base64_digit(b[0] as int / 4),
            base64_digit(b[0] as int % 4 * 16 + b[1] as int / 16),
            base64_digit(b[1] as int % 16 * 4 + b[2] as int / 64),
            base64_digit(b[2] as int % 64),
        ] + base64_text(b.subrange(3, b.len() as int))
    }
}

/// The bytes in base64 are no longer than a string can be.
pub open spec fn fits_base64(n: nat) -> bool {
    (n + 2) / 3 * 4 <= isize::MAX
}

/// `Engine::encode` of `base64::engine::general_purpose::STANDARD`: the bytes
/// in the standard alphabet of base64, with padding.
#[verifier::external_body]
fn encode_base64(bytes: &Vec<u8>) -> (r: String)
    requires
        fits_base64(bytes@.len()),
    ensures
        r@ == base64_text(bytes@),
{
    base64::engine::general_purpose::STANDARD.encode(bytes)
}

/// Turns speech into text. The HTTP exchange itself is the caller's.
pub struct SpeechToTextClient {
    pub target: Target,
}

/// A form that is sent with a recording.
#[derive(Debug)]
pub struct SpeechForm {
    /// The name that the recording is sent under.
    pub file_name: String,
    /// The other fields, in order.
    pub fields: Vec<(String, String)>,
}

/// The fields of a form.
pub open spec fn field_views(v: Seq<(String, String)>) -> Seq<(Seq<char>, Seq<char>)> {
    Seq::new(v.len(), |i: int| (v[i].0@, v[i].1@))
}

/// The fields that a request is sent with.
pub open spec fn form_fields(model: Seq<char>, q: SpeechToTextRequest) -> Seq<
    (Seq<char>, Seq<char>),
> {
    let f = seq![("model"@, model)];
    let f = match q.language {
        Some(l) => f.push(("language"@, l@)),
        None => f,
    };
    match q.prompt {
        Some(p) => f.push(("prompt"@, p@)),
        None => f,
    }
}

/// What is said of a recording that cannot be read.
pub open spec fn unreadable(source: Seq<char>, e: Seq<char>) -> error::ErrorView {
    error::ErrorView::Configuration("failed to read audio_source `"@ + source + "`: "@ + e)
}

/// The words of the speech-to-text client.
pub open spec fn stt_words() -> exchange::Words {
    exchange::Words {
        send: "speech_to_text request failed: "@,
        read: "Failed to read speech_to_text response: "@,
        api: "speech_to_text API error ("@,
        source: "generative.stt"@,
    }
}

/// The text that a response gives, empty where it gives none.
pub open spec fn transcript_in(model: Seq<char>, v: json::Json) -> shapes::TranscriptView {
    shapes::TranscriptView {
        model,
        text: match json::text_in(v.field("text"@)) {
            Some(t) => t,
            None => ""@,
        },
    }
}

/// The text that an answer gives, or what went wrong.
pub open spec fn transcript_of(model: Seq<char>, o: TextOutcome) -> Result<
    shapes::TranscriptView,
    error::ErrorView,
> {
    match exchange::answer_json(stt_words(), o) {
        Ok(v) => Ok(transcript_in(model, v)),
        Err(e) => Err(e),
    }
}

/// The text that a response gives.
pub fn read_transcript(model: &str, v: &JsonValue) -> (r: SpeechToTextResult)
    ensures
        r@ == transcript_in(model@, v@),
{
    let text = match json::text_of(v.get("text")) {
        Some(t) => t,
        None => "".to_string(),
    };
    SpeechToTextResult { model: model.to_string(), text }
}

impl SpeechToTextClient {
    /// A client at the endpoint that the manifest declares, of the OpenAI shape.
    pub fn from_manifest(manifest: &ProtocolManifest, model: &str, env: &Environment) -> (r: Result<
        Self,
        Error,
    >)
        ensures
            generative::target_agrees(
                match r {
                    Ok(c) => Ok(c.target),
                    Err(e) => Err(e),
                },
                *manifest,
                model@,
                "speech_to_text"@,
                true,
                *env,
            ),
    {
        match generative::find_target(manifest, model, KEY_SPEECH_TO_TEXT, true, env) {
            Ok(target) => Ok(SpeechToTextClient { target }),
            Err(e) => Err(e),
        }
    }

    /// The path of the endpoint.
    pub fn endpoint_path(&self) -> (r: &str)
        ensures
            r@ == self.target.endpoint_path@,
    {
        self.target.endpoint_path.as_str()
    }

    /// Whose shape the endpoint takes.
    pub fn adapter(&self) -> (r: &str)
        ensures
            r@ == self.target.adapter@,
    {
        self.target.adapter.as_str()
    }

    /// The form that is sent with a recording. `recording` is the last part of
    /// the recording's path, where it has one, or why it could not be read; the
    /// model is looked at before that.
    pub fn transcribe_request(
        &self,
        request: &SpeechToTextRequest,
        recording: Result<Option<String>, String>,
    ) -> (r: Result<SpeechForm, Error>)
        ensures
            match r {
                Ok(f) => {
                    &&& request.model@ == self.target.model@
                    &&& recording is Ok
                    &&& f.file_name@ == (match recording->Ok_0 {
                        Some(n) => n@,
                        None => "audio.wav"@,
                    })
                    &&& field_views(f.fields@) == form_fields(self.target.model@, *request)
                },
                Err(e) => if request.model@ != self.target.model@ {
                    e@ == generative::other_model(request.model@, self.target.model@)
                } else {
                    &&& recording is Err
                    &&& e@ == unreadable(request.audio_source@, recording->Err_0@)
                },
            },
    {
        if let Err(e) = generative::check_model(
            request.model.as_str(),
            self.target.model.as_str(),
        ) {
            return Err(e);
        }
        let file_name = match recording {
            Ok(Some(n)) => n,
            Ok(None) => "audio.wav".to_string(),
            Err(e) => {
                let mut m = text::cat(
                    "failed to read audio_source `",
                    request.audio_source.as_str(),
                );
                m.append("`: ");
                m.append(e.as_str());
                return Err(Error::Configuration(m));
            },
        };
        let mut fields: Vec<(String, String)> = Vec::new();
        fields.push(("model".to_string(), self.target.model.clone()));
        assert(field_views(fields@) =~= seq![("model"@, self.target.model@)]);
        if let Some(l) = &request.language {
            let ghost before = field_views(fields@);
            fields.push(("language".to_string(), l.clone()));
            assert(field_views(fields@) =~= before.push(("language"@, l@)));
        }
        if let Some(p) = &request.prompt {
            let ghost before = field_views(fields@);
            fields.push(("prompt".to_string(), p.clone()));
            assert(field_views(fields@) =~= before.push(("prompt"@, p@)));
        }
        Ok(SpeechForm { file_name, fields })
    }

    /// The text that an answer gives, or what went wrong.
    pub fn transcribe_response(&self, outcome: TextOutcome) -> (r: Result<
        SpeechToTextResult,
        Error,
    >)
        ensures
            error::agrees(r, transcript_of(self.target.model@, outcome)),
    {
        let w = Wording {
            send: "speech_to_text request failed: ",
            read: "Failed to read speech_to_text response: ",
            api: "speech_to_text API error (",
            source: "generative.stt",
        };
        assert(w@ == stt_words());
        match exchange::read_json(&w, outcome) {
            Ok(v) => Ok(read_transcript(self.target.model.as_str(), &v)),
            Err(e) => Err(e),
        }
    }
}

/// Turns text into speech. The HTTP exchange itself is the caller's.
pub struct TextToSpeechClient {
    pub target: Target,
}

/// The body of a request.
pub open spec fn speech_json(q: TextToSpeechRequest) -> json::Json {
    let m = Map::<Seq<char>, json::Json>::empty().insert(
        "model"@,
        json::Json::Str(q.model@),
    ).insert("input"@, json::Json::Str(q.input@));
    let m = match q.voice {
        Some(v) => m.insert("voice"@, json::Json::Str(v@)),
        None => m,
    };
    match q.response_format {
        Some(f) => json::Json::Object(m.insert("response_format"@, json::Json::Str(f@))),
        None => json::Json::Object(m),
    }
}

/// The words of the text-to-speech client.
pub open spec fn speech_words() -> exchange::Words {
    exchange::Words {
        send: "text_to_speech request failed: "@,
        read: "Failed to read text_to_speech response: "@,
        api: "text_to_speech API error ("@,
        source: "generative.tts"@,
    }
}

/// The media type that an answer states.
pub open spec fn stated_type(o: BytesOutcome) -> Option<Seq<char>> {
    match o {
        BytesOutcome::Answered { success: _, status: _, content_type, body: _ } => text::opt_text(
            content_type,
        ),
        _ => None,
    }
}

/// The audio of an answer is short enough to be written in base64.
pub open spec fn audio_fits(o: BytesOutcome) -> bool {
    match o {
        BytesOutcome::Answered { success: _, status: _, content_type: _, body } => fits_base64(
            body@.len(),
        ),
        _ => true,
    }
}

/// The speech that an answer gives, or what went wrong.
pub open spec fn speech_of(model: Seq<char>, o: BytesOutcome) -> Result<
    shapes::SpeechView,
    error::ErrorView,
> {
    match exchange::answer_bytes(speech_words(), o) {
        Ok(b) => Ok(
            shapes::SpeechView {
                model,
                audio_base64: Some(base64_text(b)),
                content_type: stated_type(o),
            },
        ),
        Err(e) => Err(e),
    }
}

impl TextToSpeechClient {
    /// A client at the endpoint that the manifest declares, of the OpenAI shape.
    pub fn from_manifest(manifest: &ProtocolManifest, model: &str, env: &Environment) -> (r: Result<
        Self,
        Error,
    >)
        ensures
            generative::target_agrees(
                match r {
                    Ok(c) => Ok(c.target),
                    Err(e) => Err(e),
                },
                *manifest,
                model@,
                "text_to_speech"@,
                true,
                *env,
            ),
    {
        match generative::find_target(manifest, model, KEY_TEXT_TO_SPEECH, true, env) {
            Ok(target) => Ok(TextToSpeechClient { target }),
            Err(e) => Err(e),
        }
    }

    /// The path of the endpoint.
    pub fn endpoint_path(&self) -> (r: &str)
        ensures
            r@ == self.target.endpoint_path@,
    {
        self.target.endpoint_path.as_str()
    }

    /// Whose shape the endpoint takes.
    pub fn adapter(&self) -> (r: &str)
        ensures
            r@ == self.target.adapter@,
    {
        self.target.adapter.as_str()
    }

    /// The body of a request.
    pub fn synthesize_request(&self, request: &TextToSpeechRequest) -> (r: Result<JsonValue, Error>)
        ensures
            match r {
                Ok(b) => request.model@ == self.target.model@ && b@ == speech_json(*request),
                Err(e) => request.model@ != self.target.model@ && e@ == generative::other_model(
                    request.model@,
                    self.target.model@,
                ),
            },
    {
        if let Err(e) = generative::check_model(
            request.model.as_str(),
            self.target.model.as_str(),
        ) {
            return Err(e);
        }
        let mut body = JsonValue::object().with(
            "model",
            JsonValue::string(request.model.as_str()),
        ).with("input", JsonValue::string(request.input.as_str()));
        if let Some(voice) = &request.voice {
            body = body.with("voice", JsonValue::string(voice.as_str()));
        }
        if let Some(format) = &request.response_format {
            body = body.with("response_format", JsonValue::string(format.as_str()));
        }
        Ok(body)
    }

    /// The speech that an answer gives, or what went wrong.
    pub fn synthesize_response(&self, outcome: BytesOutcome) -> (r: Result<
        TextToSpeechResult,
        Error,
    >)
        requires
            audio_fits(outcome),
        ensures
            error::agrees(r, speech_of(self.target.model@, outcome)),
    {
        let w = Wording {
            send: "text_to_speech request failed: ",
            read: "Failed to read text_to_speech response: ",
            api: "text_to_speech API error (",
            source: "generative.tts",
        };
        assert(w@ == speech_words());
        let content_type = match &outcome {
            BytesOutcome::Answered { success: _, status: _, content_type, body: _ } =>
                crate::types::message::copy_opt(content_type),
            _ => None,
        };
        match exchange::read_bytes(&w, outcome) {
            Ok(bytes) => Ok(
                TextToSpeechResult {
                    model: self.target.model.clone(),
                    audio_base64: Some(encode_base64(&bytes)),
                    content_type,
                },
            ),
            Err(e) => Err(e),
        }
    }
}

/// A recording is sent with the model, and with language and prompt where they
/// are set.
pub proof fn forms_hold_what_is_set(model: Seq<char>, q: SpeechToTextRequest)
    ensures
        ({
            let f = form_fields(model, q);
            &&& f[0] == ("model"@, model)
            &&& q.language matches Some(l) ==> f.len() > 1 && f[1] == ("language"@, l@)
            &&& q.prompt matches Some(p) ==> f.last() == ("prompt"@, p@) && f.len() > 1
            &&& f.len() == 1 + (if q.language is Some {
                1int
            } else {
                0
            }) + (if q.prompt is Some {
                1int
            } else {
                0
            })
        }),
{
}

/// The transcript is the text that a response gives, and empty where it gives
/// none; every answer that is no success is an error.
pub proof fn transcripts_are_read(model: Seq<char>, o: TextOutcome)
    ensures
        o matches TextOutcome::Answered { success, status, body } ==> {
            &&& success ==> match json::json_parsed(vstd::utf8::encode_utf8(body@)) {
                Ok(v) => transcript_of(model, o) matches Ok(t) && t.model == model && t.text == (
                match v.field("text"@) {
                    Some(json::Json::Str(s)) => s,
                    _ => Seq::empty(),
                }),
                Err(_) => transcript_of(model, o) is Err,
            }
            &&& !success ==> transcript_of(model, o) is Err
        },
        !(o is Answered) ==> transcript_of(model, o) is Err,
{
    reveal_strlit("");
    assert(""@ =~= Seq::empty());
}

/// A request for speech holds the model and the text; voice and format are said
/// only where they are set.
pub proof fn speech_requests_hold_the_text(q: TextToSpeechRequest)
    ensures
        ({
            let r = speech_json(q);
            &&& r.field("model"@) == Some(json::Json::Str(q.model@))
            &&& r.field("input"@) == Some(json::Json::Str(q.input@))
            &&& r.field("voice"@) == (match q.voice {
                Some(v) => Some(json::Json::Str(v@)),
                None => None,
            })
            &&& r.field("response_format"@) == (match q.response_format {
                Some(f) => Some(json::Json::Str(f@)),
                None => None,
            })
        }),
{
    reveal_strlit("model");
    reveal_strlit("input");
    reveal_strlit("voice");
    reveal_strlit("response_format");
    assert("model"@.len() == 5 && "input"@.len() == 5 && "voice"@.len() == 5);
    assert("response_format"@.len() == 15);
    assert("model"@[0] == 'm' && "input"@[0] == 'i' && "voice"@[0] == 'v');
}

/// The speech of a good answer is its bytes in base64, with the media type that
/// it states; every other answer is an error.
pub proof fn speech_is_handed_on_in_base64(model: Seq<char>, o: BytesOutcome)
    ensures
        o matches BytesOutcome::Answered { success, status, content_type, body } ==> {
            &&& success ==> (speech_of(model, o) matches Ok(r) && r.model == model
                && r.audio_base64 == Some(base64_text(body@)) && r.content_type == (
            match content_type {
                Some(t) => Some(t@),
                None => None,
            }))
            &&& !success ==> speech_of(model, o) is Err
        },
        !(o is Answered) ==> speech_of(model, o) is Err,
{
}

/// Base64 takes four digits for every three bytes begun, and the digits of the
/// first three bytes come first.
pub proof fn base64_takes_four_digits_for_three_bytes(b: Seq<u8>)
    ensures
        base64_text(b).len() == (b.len() + 2) / 3 * 4,
    decreases b.len(),
{
    if b.len() >= 3 {
        base64_takes_four_digits_for_three_bytes(b.subrange(3, b.len() as int));
    }
}

/// A recording goes under its own name, else under the usual one; it is refused
/// for another model, or where it cannot be read.
pub proof fn recordings_go_under_their_name(
    c: &SpeechToTextClient,
    request: &SpeechToTextRequest,
    recording: Result<Option<String>, String>,
    r: Result<SpeechForm, Error>,
)
    requires
        call_ensures(SpeechToTextClient::transcribe_request, (c, request, recording), r),
    ensures
        r is Ok <==> request.model@ == c.target.model@ && recording is Ok,
        r matches Ok(f) ==> {
            &&& recording matches Ok(Some(n)) ==> f.file_name@ == n@
            &&& recording matches Ok(None) ==> f.file_name@ == "audio.wav"@
            &&& field_views(f.fields@) == form_fields(c.target.model@, *request)
        },
{
}

/// A request for speech is refused for another model.
pub proof fn speech_is_refused_for_other_models(
    c: &TextToSpeechClient,
    request: &TextToSpeechRequest,
    r: Result<JsonValue, Error>,
)
    requires
        call_ensures(TextToSpeechClient::synthesize_request, (c, request), r),
    ensures
        r is Ok <==> request.model@ == c.target.model@,
        r matches Ok(b) ==> b@ == speech_json(*request),
{
}

} // verus!
