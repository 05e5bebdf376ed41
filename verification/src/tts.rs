//! Turning text into speech.

use crate::client::exchange;
use crate::client::exchange::{BytesOutcome, Wording};
use crate::credentials;
use crate::error;
use crate::error::Error;
use crate::json;
use crate::json::{JsonNumber, JsonValue};
use crate::protocol::manifest::ProtocolManifest;
use crate::text;
use crate::transport::ancillary;
use crate::transport::http;
use crate::transport::http::{Environment, HttpTransport};
use vstd::prelude::*;

verus! {

broadcast use vstd::string::group_string_axioms;

/// The format of audio.
#[derive(Clone, Copy, PartialEq, Eq, Structural, Debug)]
pub enum AudioFormat {
    Mp3,
    Opus,
    Aac,
    Flac,
    Wav,
    Pcm,
}

/// The media type of a format.
pub open spec fn mime_of(f: AudioFormat) -> Seq<char> {
    match f {
        AudioFormat::Mp3 => "audio/mpeg"@,
        AudioFormat::Opus => "audio/opus"@,
        AudioFormat::Aac => "audio/aac"@,
        AudioFormat::Flac => "audio/flac"@,
        AudioFormat::Wav => "audio/wav"@,
        AudioFormat::Pcm => "audio/pcm"@,
    }
}

/// The format of the given name in lower case; MP3 for any other name.
pub open spec fn format_called(name: Seq<char>) -> AudioFormat {
    if name == "opus"@ {
        AudioFormat::Opus
    } else if name == "aac"@ {
        AudioFormat::Aac
    } else if name == "flac"@ {
        AudioFormat::Flac
    } else if name == "wav"@ {
        AudioFormat::Wav
    } else if name == "pcm"@ {
        AudioFormat::Pcm
    } else {
        AudioFormat::Mp3
    }
}

impl AudioFormat {
    /// The media type of the format.
    pub fn mime_type(&self) -> (r: &'static str)
        ensures
            r@ == mime_of(*self),
    {
        match self {
            AudioFormat::Mp3 => "audio/mpeg",
            AudioFormat::Opus => "audio/opus",
            AudioFormat::Aac => "audio/aac",
            AudioFormat::Flac => "audio/flac",
            AudioFormat::Wav => "audio/wav",
            AudioFormat::Pcm => "audio/pcm",
        }
    }

    /// The format of the given name in lower case.
    pub fn from_lower_case(name: &str) -> (r: Self)
        ensures
            r == format_called(name@),
    {
        if text::text_eq(name, "opus") {
            AudioFormat::Opus
        } else if text::text_eq(name, "aac") {
            AudioFormat::Aac
        } else if text::text_eq(name, "flac") {
            AudioFormat::Flac
        } else if text::text_eq(name, "wav") {
            AudioFormat::Wav
        } else if text::text_eq(name, "pcm") {
            AudioFormat::Pcm
        } else {
            AudioFormat::Mp3
        }
    }

    /// The format of the given name, in any case. It never fails.
    pub fn from_str(s: &str) -> (r: Result<Self, String>)
        ensures
            r == Ok::<AudioFormat, String>(format_called(text::lowercase_text(s@))),
    {
        Ok(AudioFormat::from_lower_case(text::to_lowercase(s).as_str()))
    }
}

/// Audio that was made.
#[derive(Debug, Clone)]
pub struct AudioOutput {
    pub data: Vec<u8>,
    pub format: AudioFormat,
}

/// How speech is to sound.
#[derive(Debug, Clone)]
pub struct TtsOptions {
    pub voice: Option<String>,
    pub speed: Option<JsonNumber>,
    pub response_format: Option<String>,
}

impl Default for TtsOptions {
    fn default() -> (r: Self)
        ensures
            r.voice is None,
            r.speed is None,
            r.response_format is None,
    {
        TtsOptions { voice: None, speed: None, response_format: None }
    }
}

/// Turns text into speech. The HTTP exchange itself is the caller's.
pub struct TtsClient {
    pub transport: HttpTransport,
    pub model: String,
    pub endpoint_path: String,
}

/// The body of a request.
pub open spec fn tts_json(model: Seq<char>, input: Seq<char>, options: TtsOptions) -> json::Json {
    let m = Map::<Seq<char>, json::Json>::empty().insert("model"@, json::Json::Str(model)).insert(
        "input"@,
        json::Json::Str(input),
    );
    let m = match options.voice {
        Some(v) => m.insert("voice"@, json::Json::Str(v@)),
        None => m,
    };
    let m = match options.speed {
        Some(s) => m.insert("speed"@, json::Json::Number(s)),
        None => m,
    };
    match options.response_format {
        Some(f) => json::Json::Object(m.insert("response_format"@, json::Json::Str(f@))),
        None => json::Json::Object(m),
    }
}

/// The format that audio comes in: the one that was asked for, else MP3.
pub open spec fn asked_format(options: TtsOptions) -> AudioFormat {
    match options.response_format {
        Some(f) => format_called(text::lowercase_text(f@)),
        None => AudioFormat::Mp3,
    }
}

/// The words of this client.
pub open spec fn tts_words() -> exchange::Words {
    exchange::Words {
        send: "TTS request failed: "@,
        read: "TTS request failed: "@,
        api: "TTS API error ("@,
        source: "tts"@,
    }
}

/// The audio of an answer, or what went wrong. An answer that could not be read
/// counts as a request that did not get through.
pub open spec fn speech_answer(o: BytesOutcome) -> Result<Seq<u8>, error::ErrorView> {
    match o {
        BytesOutcome::ReadFailed(e) => Err(exchange::send_error(tts_words(), e@)),
        _ => exchange::answer_bytes(tts_words(), o),
    }
}

impl TtsClient {
    /// Sets up a client.
    pub fn builder() -> (r: TtsClientBuilder)
        ensures
            is_fresh(r),
    {
        TtsClientBuilder::new()
    }

    /// The body of a request.
    pub fn synthesize_request(&self, text: &str, options: &TtsOptions) -> (r: JsonValue)
        ensures
            r@ == tts_json(self.model@, text@, *options),
    {
        let mut body = JsonValue::object().with(
            "model",
            JsonValue::string(self.model.as_str()),
        ).with("input", JsonValue::string(text));
        if let Some(voice) = &options.voice {
            body = body.with("voice", JsonValue::string(voice.as_str()));
        }
        if let Some(speed) = &options.speed {
            body = body.with("speed", JsonValue::Number(speed.copy()));
        }
        if let Some(format) = &options.response_format {
            body = body.with("response_format", JsonValue::string(format.as_str()));
        }
        body
    }

    /// The audio that an answer gives, or what went wrong.
    pub fn synthesize_response(&self, options: &TtsOptions, outcome: BytesOutcome) -> (r: Result<
        AudioOutput,
        Error,
    >)
        ensures
            match (r, speech_answer(outcome)) {
                (Ok(a), Ok(b)) => a.data@ == b && a.format == asked_format(*options),
                (Err(e), Err(f)) => e@ == f,
                _ => false,
            },
    {
        let w = Wording {
            send: "TTS request failed: ",
            read: "TTS request failed: ",
            api: "TTS API error (",
            source: "tts",
        };
        assert(w@ == tts_words());
        let settled = match outcome {
            BytesOutcome::ReadFailed(e) => BytesOutcome::SendFailed(e),
            other => other,
        };
        let data = match exchange::read_bytes(&w, settled) {
            Ok(b) => b,
            Err(e) => {
                return Err(e);
            },
        };
        let format = match &options.response_format {
            Some(f) => match AudioFormat::from_str(f.as_str()) {
                Ok(f) => f,
                Err(_) => AudioFormat::Mp3,
            },
            None => AudioFormat::Mp3,
        };
        Ok(AudioOutput { data, format })
    }

    /// The model.
    pub fn model(&self) -> (r: &str)
        ensures
            r@ == self.model@,
    {
        self.model.as_str()
    }
}

/// Sets up a `TtsClient`.
pub struct TtsClientBuilder {
    pub model: Option<String>,
    pub api_key: Option<String>,
    pub base_url: Option<String>,
    pub endpoint_path: Option<String>,
    pub timeout_secs: u64,
    pub manifest: Option<ProtocolManifest>,
}

/// Nothing was set yet.
pub open spec fn is_fresh(b: TtsClientBuilder) -> bool {
    b.model is None && b.api_key is None && b.base_url is None && b.endpoint_path is None
        && b.timeout_secs == 60 && b.manifest is None
}

/// The key that counts: the one that was set, else that of the environment.
pub open spec fn key_for(b: TtsClientBuilder, env: Environment) -> Option<Seq<char>> {
    match b.api_key {
        Some(k) => Some(k@),
        None => credentials::variable(env.vars@, "OPENAI_API_KEY"@),
    }
}

/// The base URL that counts.
pub open spec fn base_for(b: TtsClientBuilder) -> Seq<char> {
    match b.base_url {
        Some(u) => u@,
        None => "https://api.openai.com"@,
    }
}

/// The transport is one for the manifest, where there is one, else for the base
/// URL alone.
pub open spec fn transport_suits(
    t: HttpTransport,
    manifest: Option<ProtocolManifest>,
    base_url: Seq<char>,
    model: Seq<char>,
    key: Seq<char>,
    env: Environment,
) -> bool {
    match manifest {
        Some(m) => http::is_transport_for(t, m, model, Some(base_url), Some(key), env),
        None => exists|m: ProtocolManifest|
            ancillary::is_synthetic(m, base_url) && #[trigger] http::is_transport_for(
                t,
                m,
                model,
                Some(base_url),
                Some(key),
                env,
            ),
    }
}

impl TtsClientBuilder {
    /// Nothing set yet.
    pub fn new() -> (r: Self)
        ensures
            is_fresh(r),
    {
        TtsClientBuilder {
            model: None,
            api_key: None,
            base_url: None,
            endpoint_path: None,
            timeout_secs: 60,
            manifest: None,
        }
    }

    /// Sets the model.
    pub fn model(self, model: &str) -> (r: Self)
        ensures
            text::opt_text(r.model) == Some(model@),
            r == (TtsClientBuilder { model: r.model, ..self }),
    {
        TtsClientBuilder { model: Some(model.to_string()), ..self }
    }

    /// Sets the key.
    pub fn api_key(self, api_key: &str) -> (r: Self)
        ensures
            text::opt_text(r.api_key) == Some(api_key@),
            r == (TtsClientBuilder { api_key: r.api_key, ..self }),
    {
        TtsClientBuilder { api_key: Some(api_key.to_string()), ..self }
    }

    /// Sets the base URL.
    pub fn base_url(self, url: &str) -> (r: Self)
        ensures
            text::opt_text(r.base_url) == Some(url@),
            r == (TtsClientBuilder { base_url: r.base_url, ..self }),
    {
        TtsClientBuilder { base_url: Some(url.to_string()), ..self }
    }

    /// Sets the path below the base URL.
    pub fn endpoint_path(self, path: &str) -> (r: Self)
        ensures
            text::opt_text(r.endpoint_path) == Some(path@),
            r == (TtsClientBuilder { endpoint_path: r.endpoint_path, ..self }),
    {
        TtsClientBuilder { endpoint_path: Some(path.to_string()), ..self }
    }

    /// The client.
    pub fn build(self, env: &Environment) -> (r: Result<TtsClient, Error>)
        ensures
            match r {
                Ok(c) => {
                    &&& self.model == Some(c.model)
                    &&& c.endpoint_path@ == ancillary::slashed(
                        match self.endpoint_path {
                            Some(p) => p@,
                            None => "/v1/audio/speech"@,
                        },
                    )
                    &&& key_for(self, *env) is Some
                    &&& transport_suits(
                        c.transport,
                        self.manifest,
                        base_for(self),
                        c.model@,
                        key_for(self, *env)->0,
                        *env,
                    )
                },
                Err(e) => if self.model is None {
                    e@ == error::ErrorView::Configuration("Model must be specified"@)
                } else {
                    &&& key_for(self, *env) is None
                    &&& e@ == error::ErrorView::Configuration("API key required"@)
                },
            },
    {
        let ghost this = self;
        let model = match self.model {
            Some(m) => m,
            None => {
                return Err(Error::configuration("Model must be specified"));
            },
        };
        let api_key = match self.api_key {
            Some(k) => k,
            None => match env.vars.get("OPENAI_API_KEY") {
                Some(k) => k.clone(),
                None => {
                    return Err(Error::configuration("API key required"));
                },
            },
        };
        let base_url = match self.base_url {
            Some(u) => u,
            None => "https://api.openai.com".to_string(),
        };
        let path = match self.endpoint_path {
            Some(p) => p,
            None => "/v1/audio/speech".to_string(),
        };
        let manifest = match &self.manifest {
            Some(m) => Some(m),
            None => None,
        };
        let transport = ancillary::build_ancillary_transport(
            manifest,
            base_url.as_str(),
            model.as_str(),
            api_key.as_str(),
            env,
        );
        assert(key_for(this, *env) == Some(api_key@));
        Ok(
            TtsClient {
                transport,
                model,
                endpoint_path: ancillary::normalize_endpoint_path(path),
            },
        )
    }
}

impl Default for TtsClientBuilder {
    fn default() -> (r: Self)
        ensures
            is_fresh(r),
    {
        TtsClientBuilder::new()
    }
}

proof fn reveal_request_keys()
    ensures
        "model"@.len() == 5,
        "input"@.len() == 5,
        "voice"@.len() == 5,
        "speed"@.len() == 5,
        "model"@ != "input"@,
        "model"@ != "voice"@,
        "model"@ != "speed"@,
        "input"@ != "voice"@,
        "input"@ != "speed"@,
        "voice"@ != "speed"@,
        "response_format"@.len() == 15,
{
    reveal_strlit("model");
    reveal_strlit("input");
    reveal_strlit("voice");
    reveal_strlit("speed");
    reveal_strlit("response_format");
    assert("model"@[0] == 'm' && "input"@[0] == 'i' && "voice"@[0] == 'v' && "speed"@[0] == 's');
}

/// A request names the model and holds the text to be spoken; voice, speed and
/// format are said only where they are set.
pub proof fn requests_hold_the_text(model: Seq<char>, input: Seq<char>, options: TtsOptions)
    ensures
        ({
            let r = tts_json(model, input, options);
            &&& r.field("model"@) == Some(json::Json::Str(model))
            &&& r.field("input"@) == Some(json::Json::Str(input))
            &&& r.field("voice"@) == (match options.voice {
                Some(v) => Some(json::Json::Str(v@)),
                None => None,
            })
            &&& r.field("speed"@) == (match options.speed {
                Some(s) => Some(json::Json::Number(s)),
                None => None,
            })
            &&& r.field("response_format"@) == (match options.response_format {
                Some(f) => Some(json::Json::Str(f@)),
                None => None,
            })
        }),
{
    reveal_request_keys();
}

/// The formats go by their names; every other name is MP3.
pub proof fn formats_go_by_name(name: Seq<char>)
    ensures
        format_called(name) == AudioFormat::Opus <==> name == "opus"@,
        format_called(name) == AudioFormat::Aac <==> name == "aac"@,
        format_called(name) == AudioFormat::Flac <==> name == "flac"@,
        format_called(name) == AudioFormat::Wav <==> name == "wav"@,
        format_called(name) == AudioFormat::Pcm <==> name == "pcm"@,
{
    reveal_strlit("opus");
    reveal_strlit("aac");
    reveal_strlit("flac");
    reveal_strlit("wav");
    reveal_strlit("pcm");
    assert("opus"@.len() == 4 && "flac"@.len() == 4 && "opus"@[0] != "flac"@[0]);
    assert("aac"@.len() == 3 && "wav"@.len() == 3 && "pcm"@.len() == 3);
    assert("aac"@[0] == 'a' && "wav"@[0] == 'w' && "pcm"@[0] == 'p');
}

/// Audio comes in the format that was asked for, and as MP3 where none was.
pub proof fn audio_comes_in_the_asked_format(options: TtsOptions)
    ensures
        options.response_format is None ==> asked_format(options) == AudioFormat::Mp3,
        options.response_format matches Some(f) ==> asked_format(options) == format_called(
            text::lowercase_text(f@),
        ),
{
}

/// Each format has a media type of its own.
pub proof fn media_types_differ(a: AudioFormat, b: AudioFormat)
    requires
        mime_of(a) == mime_of(b),
    ensures
        a == b,
{
    reveal_strlit("audio/mpeg");
    reveal_strlit("audio/opus");
    reveal_strlit("audio/aac");
    reveal_strlit("audio/flac");
    reveal_strlit("audio/wav");
    reveal_strlit("audio/pcm");
    assert("audio/mpeg"@.len() == 10 && "audio/opus"@.len() == 10 && "audio/flac"@.len() == 10);
    assert("audio/aac"@.len() == 9 && "audio/wav"@.len() == 9 && "audio/pcm"@.len() == 9);
    assert("audio/mpeg"@[6] == 'm' && "audio/opus"@[6] == 'o' && "audio/flac"@[6] == 'f');
    assert("audio/aac"@[6] == 'a' && "audio/wav"@[6] == 'w' && "audio/pcm"@[6] == 'p');
}

/// The bytes of a good answer are the audio; every other answer is an error.
pub proof fn good_answers_give_audio(o: BytesOutcome)
    ensures
        o matches BytesOutcome::Answered { success, status, content_type, body } ==> {
            &&& success ==> speech_answer(o) == Ok::<Seq<u8>, error::ErrorView>(body@)
            &&& !success ==> speech_answer(o) matches Err(error::ErrorView::Api(_))
        },
        !(o is Answered) ==> speech_answer(o) matches Err(error::ErrorView::Network { .. }),
{
}

/// The key that was set counts before that of the environment, and the base URL
/// that was set before OpenAI's.
pub proof fn set_values_count_first(b: TtsClientBuilder, env: Environment)
    ensures
        b.api_key matches Some(k) ==> key_for(b, env) == Some(k@),
        b.api_key is None && env.vars@.dom().contains("OPENAI_API_KEY"@) ==> key_for(b, env) == Some(
            env.vars@["OPENAI_API_KEY"@]@,
        ),
        b.api_key is None && !env.vars@.dom().contains("OPENAI_API_KEY"@) ==> key_for(
            b,
            env,
        ) is None,
        b.base_url matches Some(u) ==> base_for(b) == u@,
        b.base_url is None ==> base_for(b) == "https://api.openai.com"@,
{
}

/// The transport goes to the base URL with the given key, by the manifest's auth
/// block where there is a manifest.
pub proof fn transports_go_to_the_base_url(
    t: HttpTransport,
    manifest: Option<ProtocolManifest>,
    base_url: Seq<char>,
    model: Seq<char>,
    key: Seq<char>,
    env: Environment,
)
    requires
        transport_suits(t, manifest, base_url, model, key, env),
        text::trimmed(key).len() > 0,
    ensures
        t.base_url@ == base_url,
        t.model@ == model,
        t.credential@.secret == Some(text::trimmed(key)),
        manifest matches Some(m) ==> (m.endpoint.auth matches Some(a) ==> (t.auth matches Some(b)
            && b@ == a@)),
{
}

/// A client has the model that was set, the key that counts and the usual path
/// unless another was set; without a model or a key it is refused.
pub proof fn clients_have_what_was_set(
    b: TtsClientBuilder,
    env: &Environment,
    r: Result<TtsClient, Error>,
)
    requires
        call_ensures(TtsClientBuilder::build, (b, env), r),
    ensures
        r is Ok <==> b.model is Some && key_for(b, *env) is Some,
        r matches Ok(c) ==> {
            &&& b.model == Some(c.model)
            &&& b.endpoint_path matches Some(p) ==> c.endpoint_path@ == ancillary::slashed(p@)
            &&& b.endpoint_path is None ==> c.endpoint_path@ == "/v1/audio/speech"@
            &&& transport_suits(
                c.transport,
                b.manifest,
                base_for(b),
                c.model@,
                key_for(b, *env)->0,
                *env,
            )
        },
{
    reveal_strlit("/v1/audio/speech");
    ancillary::paths_begin_with_a_slash("/v1/audio/speech"@);
}

/// Speech is the answer's bytes in the format that was asked for.
pub proof fn speech_is_the_answer(
    c: &TtsClient,
    options: &TtsOptions,
    outcome: BytesOutcome,
    r: Result<AudioOutput, Error>,
)
    requires
        call_ensures(TtsClient::synthesize_response, (c, options, outcome), r),
    ensures
        r is Ok <==> (outcome matches BytesOutcome::Answered { success, .. } && success),
        r matches Ok(a) ==> (outcome matches BytesOutcome::Answered { body, .. } && a.data@ == body@
            && a.format == asked_format(*options)),
{
    good_answers_give_audio(outcome);
}

} // verus!
