//! Making images.

use crate::client::exchange;
use crate::client::exchange::{TextOutcome, Wording};
use crate::error;
use crate::error::Error;
use crate::generative;
use crate::generative::{Target, KEY_IMAGE_GENERATION};
use crate::json;
use crate::json::{JsonNumber, JsonValue};
use crate::protocol::manifest::ProtocolManifest;
use crate::text;
use crate::transport::http::Environment;
use crate::types::generative as shapes;
use crate::types::generative::{GeneratedImage, ImageGenerationRequest, ImageGenerationResult};
use vstd::prelude::*;

verus! {

broadcast use vstd::string::group_string_axioms;

/// Makes images. The HTTP exchange itself is the caller's.
pub struct ImageGenerationClient {
    pub target: Target,
}

/// The body of a request in the OpenAI shape.
pub open spec fn openai_image_json(q: ImageGenerationRequest) -> json::Json {
    let m = Map::<Seq<char>, json::Json>::empty().insert(
        "model"@,
        json::Json::Str(q.model@),
    ).insert("prompt"@, json::Json::Str(q.prompt@));
    let m = match q.size {
        Some(s) => m.insert("size"@, json::Json::Str(s@)),
        None => m,
    };
    let m = match q.n {
        Some(n) => m.insert("n"@, json::Json::Number(JsonNumber::Unsigned(n as u64))),
        None => m,
    };
    match q.response_format {
        Some(f) => json::Json::Object(m.insert("response_format"@, json::Json::Str(f@))),
        None => json::Json::Object(m),
    }
}

/// A JSON object with one entry.
pub open spec fn single(key: Seq<char>, value: json::Json) -> json::Json {
    json::Json::Object(Map::<Seq<char>, json::Json>::empty().insert(key, value))
}

/// The body of a request in the DashScope shape.
pub open spec fn dashscope_image_json(q: ImageGenerationRequest) -> json::Json {
    let content = json::Json::Array(seq![single("text"@, json::Json::Str(q.prompt@))]);
    let message = json::Json::Object(
        Map::<Seq<char>, json::Json>::empty().insert("role"@, json::Json::Str("user"@)).insert(
            "content"@,
            content,
        ),
    );
    json::Json::Object(
        Map::<Seq<char>, json::Json>::empty().insert("model"@, json::Json::Str(q.model@)).insert(
            "input"@,
            single("messages"@, json::Json::Array(seq![message])),
        ),
    )
}

/// The images in a response of the OpenAI shape.
pub open spec fn openai_images(v: json::Json) -> Seq<shapes::ImageView> {
    match v.field("data"@) {
        Some(json::Json::Array(s)) => Seq::new(
            s.len(),
            |i: int|
                shapes::ImageView {
                    url: json::text_in(s[i].field("url"@)),
                    b64_json: json::text_in(s[i].field("b64_json"@)),
                },
        ),
        _ => Seq::empty(),
    }
}

/// The URL at `/output/choices/0/message/content/0/image`, else that at
/// `/output/results/0/url`.
pub open spec fn dashscope_url(v: json::Json) -> Option<Seq<char>> {
    let output = v.field("output"@);
    let message = json::field_in(json::head_in(json::field_in(output, "choices"@)), "message"@);
    let image = json::field_in(json::head_in(json::field_in(message, "content"@)), "image"@);
    match json::text_in(image) {
        Some(t) => Some(t),
        None => json::text_in(
            json::field_in(json::head_in(json::field_in(output, "results"@)), "url"@),
        ),
    }
}

/// The images in a response of the DashScope shape: one, or none.
pub open spec fn dashscope_images(v: json::Json) -> Seq<shapes::ImageView> {
    match dashscope_url(v) {
        Some(u) => seq![shapes::ImageView { url: Some(u), b64_json: None }],
        None => Seq::empty(),
    }
}

/// The body of a request in the OpenAI shape.
pub fn openai_image_body(req: &ImageGenerationRequest) -> (r: JsonValue)
    ensures
        r@ == openai_image_json(*req),
{
    let mut body = JsonValue::object().with("model", JsonValue::string(req.model.as_str())).with(
        "prompt",
        JsonValue::string(req.prompt.as_str()),
    );
    if let Some(size) = &req.size {
        body = body.with("size", JsonValue::string(size.as_str()));
    }
    if let Some(n) = req.n {
        body = body.with("n", JsonValue::number(n as u64));
    }
    if let Some(format) = &req.response_format {
        body = body.with("response_format", JsonValue::string(format.as_str()));
    }
    body
}

fn list_of(v: JsonValue) -> (r: JsonValue)
    ensures
        r@ == json::Json::Array(seq![v@]),
{
    let ghost x = v@;
    let list = vec![v];
    proof {
        json::lemma_array_view(list@);
        assert(json::array_view(list@) =~= seq![x]);
    }
    JsonValue::Array(list)
}

/// The body of a request in the DashScope shape.
pub fn dashscope_image_body(req: &ImageGenerationRequest) -> (r: JsonValue)
    ensures
        r@ == dashscope_image_json(*req),
{
    let content = list_of(
        JsonValue::object().with("text", JsonValue::string(req.prompt.as_str())),
    );
    let message = JsonValue::object().with("role", JsonValue::string("user")).with(
        "content",
        content,
    );
    let input = JsonValue::object().with("messages", list_of(message));
    JsonValue::object().with("model", JsonValue::string(req.model.as_str())).with("input", input)
}

/// The images in a response of the OpenAI shape.
pub fn parse_openai_image(model: &str, v: &JsonValue) -> (r: ImageGenerationResult)
    ensures
        r@ == (shapes::ImageResultView { model: model@, images: openai_images(v@) }),
{
    let mut images: Vec<GeneratedImage> = Vec::new();
    let list = match v.get("data") {
        Some(x) => x.as_array(),
        None => None,
    };
    let ghost want = openai_images(v@);
    if let Some(items) = list {
        let ghost views = json::array_view(items@);
        proof {
            json::lemma_array_view(items@);
        }
        let mut i: usize = 0;
        while i < items.len()
            invariant
                i <= items@.len(),
                want.len() == items@.len(),
                views.len() == items@.len(),
                forall|k: int| 0 <= k < items@.len() ==> #[trigger] views[k] == items@[k]@,
                forall|k: int|
                    0 <= k < items@.len() ==> #[trigger] want[k] == (shapes::ImageView {
                        url: json::text_in(views[k].field("url"@)),
                        b64_json: json::text_in(views[k].field("b64_json"@)),
                    }),
                images@.len() == i,
                forall|k: int| 0 <= k < i ==> #[trigger] images@[k]@ == want[k],
            decreases items@.len() - i,
        {
            assert(views[i as int] == items@[i as int]@);
            images.push(
                GeneratedImage {
                    url: json::text_of(items[i].get("url")),
                    b64_json: json::text_of(items[i].get("b64_json")),
                },
            );
            i += 1;
        }
    }
    assert(shapes::image_views(images@) =~= want);
    ImageGenerationResult { model: model.to_string(), images }
}

/// The images in a response of the DashScope shape.
pub fn parse_dashscope_image(model: &str, v: &JsonValue) -> (r: ImageGenerationResult)
    ensures
        r@ == (shapes::ImageResultView { model: model@, images: dashscope_images(v@) }),
{
    let output = v.get("output");
    let message = json::field_of(json::head_of(json::field_of(output, "choices")), "message");
    let image = json::field_of(json::head_of(json::field_of(message, "content")), "image");
    let url = match json::text_of(image) {
        Some(t) => Some(t),
        None => json::text_of(
            json::field_of(json::head_of(json::field_of(output, "results")), "url"),
        ),
    };
    let mut images: Vec<GeneratedImage> = Vec::new();
    assert(shapes::image_views(images@) =~= Seq::empty());
    if let Some(u) = url {
        let image = GeneratedImage { url: Some(u), b64_json: None };
        let ghost iv = image@;
        images.push(image);
        assert(shapes::image_views(images@) =~= seq![iv]);
    }
    ImageGenerationResult { model: model.to_string(), images }
}

/// The words of this client.
pub open spec fn image_words() -> exchange::Words {
    exchange::Words {
        send: "image_generation request failed: "@,
        read: "Failed to read image_generation response: "@,
        api: "image_generation API error ("@,
        source: "generative.image"@,
    }
}

/// The images that an answer gives, or what went wrong.
pub open spec fn images_of(
    adapter: Seq<char>,
    model: Seq<char>,
    o: TextOutcome,
) -> Result<shapes::ImageResultView, error::ErrorView> {
    match exchange::answer_json(image_words(), o) {
        Err(e) => Err(e),
        Ok(v) => Ok(
            shapes::ImageResultView {
                model,
                images: if adapter == "dashscope"@ {
                    dashscope_images(v)
                } else {
                    openai_images(v)
                },
            },
        ),
    }
}

impl ImageGenerationClient {
    /// A client at the endpoint that the manifest declares.
    pub fn from_manifest(manifest: &ProtocolManifest, model: &str, env: &Environment) -> (r: Result<
        Self,
        Error,
    >)
        ensures
            generative::target_agrees(
                match r {
                    Ok(c) => Ok(c.target),
                    Err(e) => Err(e),
                },
                *manifest,
                model@,
                "image_generation"@,
                false,
                *env,
            ),
    {
        match generative::find_target(manifest, model, KEY_IMAGE_GENERATION, false, env) {
            Ok(target) => Ok(ImageGenerationClient { target }),
            Err(e) => Err(e),
        }
    }

    /// The path of the endpoint.
    pub fn endpoint_path(&self) -> (r: &str)
        ensures
            r@ == self.target.endpoint_path@,
    {
        self.target.endpoint_path.as_str()
    }

    /// Whose shape the endpoint takes.
    pub fn adapter(&self) -> (r: &str)
        ensures
            r@ == self.target.adapter@,
    {
        self.target.adapter.as_str()
    }

    /// The body of a request, in the endpoint's shape.
    pub fn generate_request(&self, request: &ImageGenerationRequest) -> (r: Result<JsonValue, Error>)
        ensures
            match r {
                Ok(b) => {
                    &&& request.model@ == self.target.model@
                    &&& b@ == (if self.target.adapter@ == "dashscope"@ {
                        dashscope_image_json(*request)
                    } else {
                        openai_image_json(*request)
                    })
                },
                Err(e) => request.model@ != self.target.model@ && e@ == generative::other_model(
                    request.model@,
                    self.target.model@,
                ),
            },
    {
        match generative::check_model(request.model.as_str(), self.target.model.as_str()) {
            Err(e) => Err(e),
            Ok(_) => if text::text_eq(self.target.adapter.as_str(), "dashscope") {
                Ok(dashscope_image_body(request))
            } else {
                Ok(openai_image_body(request))
            },
        }
    }

    /// The images that an answer gives, or what went wrong.
    pub fn generate_response(&self, outcome: TextOutcome) -> (r: Result<
        ImageGenerationResult,
        Error,
    >)
        ensures
            error::agrees(r, images_of(self.target.adapter@, self.target.model@, outcome)),
    {
        let w = Wording {
            send: "image_generation request failed: ",
            read: "Failed to read image_generation response: ",
            api: "image_generation API error (",
            source: "generative.image",
        };
        assert(w@ == image_words());
        match exchange::read_json(&w, outcome) {
            Err(e) => Err(e),
            Ok(v) => if text::text_eq(self.target.adapter.as_str(), "dashscope") {
                Ok(parse_dashscope_image(self.target.model.as_str(), &v))
            } else {
                Ok(parse_openai_image(self.target.model.as_str(), &v))
            },
        }
    }
}

proof fn reveal_image_keys()
    ensures
        "model"@.len() == 5,
        "prompt"@.len() == 6,
        "size"@.len() == 4,
        "n"@.len() == 1,
        "response_format"@.len() == 15,
        "input"@.len() == 5,
        "model"@ != "input"@,
        "role"@.len() == 4,
        "content"@.len() == 7,
{
    reveal_strlit("model");
    reveal_strlit("prompt");
    reveal_strlit("size");
    reveal_strlit("n");
    reveal_strlit("response_format");
    reveal_strlit("input");
    reveal_strlit("role");
    reveal_strlit("content");
    assert("model"@[0] != "input"@[0]);
}

/// A request of the OpenAI shape holds the model and the prompt; size, number
/// and format are said only where they are set.
pub proof fn openai_requests_hold_the_prompt(q: ImageGenerationRequest)
    ensures
        ({
            let r = openai_image_json(q);
            &&& r.field("model"@) == Some(json::Json::Str(q.model@))
            &&& r.field("prompt"@) == Some(json::Json::Str(q.prompt@))
            &&& r.field("size"@) == (match q.size {
                Some(s) => Some(json::Json::Str(s@)),
                None => None,
            })
            &&& r.field("n"@) == (match q.n {
                Some(n) => Some(json::Json::Number(JsonNumber::Unsigned(n as u64))),
                None => None,
            })
            &&& r.field("response_format"@) == (match q.response_format {
                Some(f) => Some(json::Json::Str(f@)),
                None => None,
            })
        }),
{
    reveal_image_keys();
}

/// A request of the DashScope shape holds the model, and the prompt as the text
/// of one message of the user's.
pub proof fn dashscope_requests_hold_the_prompt(q: ImageGenerationRequest)
    ensures
        ({
            let r = dashscope_image_json(q);
            let message = json::item_in(json::field_in(r.field("input"@), "messages"@), 0);
            &&& r.field("model"@) == Some(json::Json::Str(q.model@))
            &&& json::field_in(message, "role"@) == Some(json::Json::Str("user"@))
            &&& json::field_in(json::item_in(json::field_in(message, "content"@), 0), "text"@)
                == Some(json::Json::Str(q.prompt@))
        }),
{
    reveal_image_keys();
}

/// Every image of a response of the OpenAI shape is kept, in order, with its URL
/// and its bytes.
pub proof fn openai_images_are_kept_in_order(v: json::Json, data: Seq<json::Json>, k: int)
    requires
        v.field("data"@) == Some(json::Json::Array(data)),
        0 <= k < data.len(),
    ensures
        openai_images(v).len() == data.len(),
        openai_images(v)[k].url == (match data[k].field("url"@) {
            Some(json::Json::Str(t)) => Some(t),
            _ => None,
        }),
        openai_images(v)[k].b64_json == (match data[k].field("b64_json"@) {
            Some(json::Json::Str(t)) => Some(t),
            _ => None,
        }),
{
}

/// The image of a response of the DashScope shape is that of the first choice,
/// else of the first result.
pub proof fn dashscope_images_are_found(v: json::Json, url: Seq<char>)
    ensures
        ({
            let choices = json::field_in(v.field("output"@), "choices"@);
            let content = json::field_in(
                json::field_in(json::item_in(choices, 0), "message"@),
                "content"@,
            );
            let image = json::field_in(json::item_in(content, 0), "image"@);
            let results = json::field_in(v.field("output"@), "results"@);
            let other = json::field_in(json::item_in(results, 0), "url"@);
            &&& image == Some(json::Json::Str(url)) ==> dashscope_images(v).len() == 1
                && dashscope_images(v)[0].url == Some(url) && dashscope_images(v)[0].b64_json is None
            &&& choices is None && other == Some(json::Json::Str(url)) ==> dashscope_images(v).len()
                == 1 && dashscope_images(v)[0].url == Some(url)
            &&& choices is None && results is None ==> dashscope_images(v).len() == 0
        }),
{
}

/// Images are read in the shape of the endpoint, and every answer that is no
/// success is an error.
pub proof fn good_answers_give_images(adapter: Seq<char>, model: Seq<char>, o: TextOutcome)
    ensures
        o matches TextOutcome::Answered { success, status, body } ==> {
            &&& success ==> match json::json_parsed(vstd::utf8::encode_utf8(body@)) {
                Ok(v) => images_of(adapter, model, o) matches Ok(r) && r.model == model && (adapter
                    == "dashscope"@ ==> r.images == dashscope_images(v)) && (adapter
                    != "dashscope"@ ==> r.images == openai_images(v)),
                Err(_) => images_of(adapter, model, o) is Err,
            }
            &&& !success ==> images_of(adapter, model, o) is Err
        },
        !(o is Answered) ==> images_of(adapter, model, o) is Err,
{
}

/// A request is written in the endpoint's shape, and refused for another model.
pub proof fn requests_take_the_endpoints_shape(
    c: &ImageGenerationClient,
    request: &ImageGenerationRequest,
    r: Result<JsonValue, Error>,
)
    requires
        call_ensures(ImageGenerationClient::generate_request, (c, request), r),
    ensures
        r is Ok <==> request.model@ == c.target.model@,
        r matches Ok(b) ==> {
            &&& c.target.adapter@ == "dashscope"@ ==> b@ == dashscope_image_json(*request)
            &&& c.target.adapter@ != "dashscope"@ ==> b@ == openai_image_json(*request)
        },
{
}

} // verus!
