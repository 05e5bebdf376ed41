//! Requests and results for images and speech.

use crate::text;
use vstd::prelude::*;

verus! {

broadcast use vstd::string::group_string_axioms;

/// Asks for an image.
#[derive(Debug, Clone, PartialEq, Eq)]
pub struct ImageGenerationRequest {
    pub model: String,
    pub prompt: String,
    pub size: Option<String>,
    pub n: Option<u32>,
    pub response_format: Option<String>,
}

impl ImageGenerationRequest {
    /// A request that leaves the rest to the provider.
    pub fn new(model: &str, prompt: &str) -> (r: Self)
        ensures
            r.model@ == model@,
            r.prompt@ == prompt@,
            r.size is None,
            r.n is None,
            r.response_format is None,
    {
        ImageGenerationRequest {
            model: model.to_string(),
            prompt: prompt.to_string(),
            size: None,
            n: None,
            response_format: None,
        }
    }

    /// The request with a size.
    pub fn with_size(self, size: &str) -> (r: Self)
        ensures
            text::opt_text(r.size) == Some(size@),
            r.model == self.model,
            r.prompt == self.prompt,
            r.n == self.n,
            r.response_format == self.response_format,
    {
        ImageGenerationRequest {
            model: self.model,
            prompt: self.prompt,
            size: Some(size.to_string()),
            n: self.n,
            response_format: self.response_format,
        }
    }
}

/// One image, by its URL or its bytes in base64.
#[derive(Debug, Clone, PartialEq, Eq)]
pub struct GeneratedImage {
    pub url: Option<String>,
    pub b64_json: Option<String>,
}

/// What an image is.
pub struct ImageView {
    pub url: Option<Seq<char>>,
    pub b64_json: Option<Seq<char>>,
}

impl View for GeneratedImage {
    type V = ImageView;

    open spec fn view(&self) -> ImageView {
        ImageView { url: text::opt_text(self.url), b64_json: text::opt_text(self.b64_json) }
    }
}

/// The views of images, in order.
pub open spec fn image_views(v: Seq<GeneratedImage>) -> Seq<ImageView> {
    Seq::new(v.len(), |i: int| v[i]@)
}

/// The images that a model made.
#[derive(Debug, Clone, PartialEq, Eq)]
pub struct ImageGenerationResult {
    pub model: String,
    pub images: Vec<GeneratedImage>,
}

/// What a result is.
pub struct ImageResultView {
    pub model: Seq<char>,
    pub images: Seq<ImageView>,
}

impl View for ImageGenerationResult {
    type V = ImageResultView;

    open spec fn view(&self) -> ImageResultView {
        ImageResultView { model: self.model@, images: image_views(self.images@) }
    }
}

/// Asks for the text of a recording.
#[derive(Debug, Clone, PartialEq, Eq)]
pub struct SpeechToTextRequest {
    pub model: String,
    /// A local path or a URI.
    pub audio_source: String,
    pub language: Option<String>,
    pub prompt: Option<String>,
}

impl SpeechToTextRequest {
    /// A request that leaves the rest to the provider.
    pub fn new(model: &str, audio_source: &str) -> (r: Self)
        ensures
            r.model@ == model@,
            r.audio_source@ == audio_source@,
            r.language is None,
            r.prompt is None,
    {
        SpeechToTextRequest {
            model: model.to_string(),
            audio_source: audio_source.to_string(),
            language: None,
            prompt: None,
        }
    }
}

/// The text of a recording.
#[derive(Debug, Clone, PartialEq, Eq)]
pub struct SpeechToTextResult {
    pub model: String,
    pub text: String,
}

/// What a transcript is.
pub struct TranscriptView {
    pub model: Seq<char>,
    pub text: Seq<char>,
}

impl View for SpeechToTextResult {
    type V = TranscriptView;

    open spec fn view(&self) -> TranscriptView {
        TranscriptView { model: self.model@, text: self.text@ }
    }
}

/// Asks for speech.
#[derive(Debug, Clone, PartialEq, Eq)]
pub struct TextToSpeechRequest {
    pub model: String,
    pub input: String,
    pub voice: Option<String>,
    pub response_format: Option<String>,
}

impl TextToSpeechRequest {
    /// A request that leaves the rest to the provider.
    pub fn new(model: &str, input: &str) -> (r: Self)
        ensures
            r.model@ == model@,
            r.input@ == input@,
            r.voice is None,
            r.response_format is None,
    {
        TextToSpeechRequest {
            model: model.to_string(),
            input: input.to_string(),
            voice: None,
            response_format: None,
        }
    }

    /// The request with a voice.
    pub fn with_voice(self, voice: &str) -> (r: Self)
        ensures
            text::opt_text(r.voice) == Some(voice@),
            r.model == self.model,
            r.input == self.input,
            r.response_format == self.response_format,
    {
        TextToSpeechRequest {
            model: self.model,
            input: self.input,
            voice: Some(voice.to_string()),
            response_format: self.response_format,
        }
    }
}

/// Speech that a model made.
#[derive(Debug, Clone, PartialEq, Eq)]
pub struct TextToSpeechResult {
    pub model: String,
    /// The audio in base64.
    pub audio_base64: Option<String>,
    pub content_type: Option<String>,
}

/// What made speech is.
pub struct SpeechView {
    pub model: Seq<char>,
    pub audio_base64: Option<Seq<char>>,
    pub content_type: Option<Seq<char>>,
}

impl View for TextToSpeechResult {
    type V = SpeechView;

    open spec fn view(&self) -> SpeechView {
        SpeechView {
            model: self.model@,
            audio_base64: text::opt_text(self.audio_base64),
            content_type: text::opt_text(self.content_type),
        }
    }
}

} // verus!
