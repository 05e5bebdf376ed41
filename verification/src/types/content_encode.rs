//! Message blocks in the shapes of the Anthropic and Gemini APIs.

use crate::error;
use crate::error::Error;
use crate::json;
use crate::json::JsonValue;
use crate::text;
use crate::types::message;
use crate::types::message::{ContentBlock, DocumentSource, ImageSource};
use vstd::prelude::*;

verus! {

broadcast use vstd::string::group_string_axioms;

/// A validation error.
pub open spec fn invalid(msg: Seq<char>) -> error::ErrorView {
    error::ErrorView::Protocol(error::ProtocolErrorView::ValidationError(msg))
}

/// An object without entries.
pub open spec fn no_fields() -> Map<Seq<char>, json::Json> {
    Map::empty()
}

/// A base64 source in the Anthropic shape.
pub open spec fn anthropic_base64(media_type: Seq<char>, data: Seq<char>) -> json::Json {
    json::Json::Object(
        no_fields().insert("type"@, json::Json::Str("base64"@)).insert(
            "media_type"@,
            json::Json::Str(media_type),
        ).insert("data"@, json::Json::Str(data)),
    )
}

/// A URL source in the Anthropic shape.
pub open spec fn anthropic_url(url: Seq<char>) -> json::Json {
    json::Json::Object(
        no_fields().insert("type"@, json::Json::Str("url"@)).insert(
            "url"@,
            json::Json::Str(url),
        ),
    )
}

/// A block with a source in the Anthropic shape.
pub open spec fn anthropic_block(kind: Seq<char>, source: json::Json) -> json::Json {
    json::Json::Object(
        no_fields().insert("type"@, json::Json::Str(kind)).insert("source"@, source),
    )
}

/// An image source in the Anthropic shape.
pub open spec fn anthropic_image(s: message::MediaView) -> Result<json::Json, error::ErrorView> {
    if s.source_type == "base64"@ {
        match s.media_type {
            Some(t) => Ok(anthropic_base64(t, s.data)),
            None => Err(invalid("image base64 block requires media_type"@)),
        }
    } else if s.source_type == "url"@ {
        Ok(anthropic_url(s.data))
    } else {
        Err(invalid("unsupported image source type: "@ + s.source_type))
    }
}

/// The type of a document, PDF where nothing else is said.
pub open spec fn document_type(s: message::DocumentView) -> Seq<char> {
    match s.mime_type {
        Some(t) => t,
        None => "application/pdf"@,
    }
}

/// A document source in the Anthropic shape.
pub open spec fn anthropic_document(s: message::DocumentView) -> Result<
    json::Json,
    error::ErrorView,
> {
    if s.source_type == "base64"@ {
        Ok(anthropic_base64(document_type(s), s.data))
    } else if s.source_type == "url"@ {
        Ok(anthropic_url(s.data))
    } else if s.source_type == "ref"@ {
        Err(
            invalid(
                "document ref must be resolved to base64 or url before sending to Anthropic"@,
            ),
        )
    } else {
        Err(invalid("unsupported document source type: "@ + s.source_type))
    }
}

/// A block in the Anthropic shape.
pub open spec fn for_anthropic(b: message::BlockView) -> Result<json::Json, error::ErrorView> {
    match b {
        message::BlockView::Text { text } => Ok(
            json::Json::Object(
                no_fields().insert("type"@, json::Json::Str("text"@)).insert(
                    "text"@,
                    json::Json::Str(text),
                ),
            ),
        ),
        message::BlockView::Image { source } => match anthropic_image(source) {
            Ok(s) => Ok(anthropic_block("image"@, s)),
            Err(e) => Err(e),
        },
        message::BlockView::Document { source } => match anthropic_document(source) {
            Ok(s) => Ok(anthropic_block("document"@, s)),
            Err(e) => Err(e),
        },
        message::BlockView::Audio { .. } => Err(
            invalid("Anthropic Messages driver does not encode audio content blocks yet"@),
        ),
        _ => Err(
            invalid("tool blocks must be encoded via Anthropic tool_use/tool_result paths"@),
        ),
    }
}

/// Inline data in the Gemini shape.
pub open spec fn gemini_inline(mime: Seq<char>, data: Seq<char>) -> json::Json {
    json::Json::Object(
        no_fields().insert(
            "inlineData"@,
            json::Json::Object(
                no_fields().insert("mimeType"@, json::Json::Str(mime)).insert(
                    "data"@,
                    json::Json::Str(data),
                ),
            ),
        ),
    )
}

/// A block in the Gemini shape.
pub open spec fn for_gemini(b: message::BlockView) -> Result<json::Json, error::ErrorView> {
    match b {
        message::BlockView::Text { text } => Ok(
            json::Json::Object(no_fields().insert("text"@, json::Json::Str(text))),
        ),
        message::BlockView::Image { source } => if source.source_type != "base64"@ {
            Err(
                invalid(
                    "Gemini image blocks require base64 inline data (got "@ + source.source_type
                        + ")"@,
                ),
            )
        } else {
            match source.media_type {
                Some(t) => Ok(gemini_inline(t, source.data)),
                None => Err(invalid("image base64 block requires media_type"@)),
            }
        },
        message::BlockView::Document { source } => if source.source_type != "base64"@ {
            Err(
                invalid(
                    "Gemini document blocks require base64 inline data; resolve ref before send"@,
                ),
            )
        } else {
            Ok(gemini_inline(document_type(source), source.data))
        },
        message::BlockView::Audio { .. } => Err(
            invalid("Gemini generateContent driver does not encode audio content blocks yet"@),
        ),
        _ => Err(
            invalid(
                "tool blocks must be encoded via Gemini functionCall/functionResponse paths"@,
            ),
        ),
    }
}

/// The first `n` blocks in a shape, or the first error among them.
pub open spec fn all_encoded(
    blocks: Seq<message::BlockView>,
    encode: spec_fn(message::BlockView) -> Result<json::Json, error::ErrorView>,
    n: int,
) -> Result<Seq<json::Json>, error::ErrorView>
    decreases n,
{
    if n <= 0 {
        Ok(Seq::empty())
    } else {
        match all_encoded(blocks, encode, n - 1) {
            Err(e) => Err(e),
            Ok(rest) => match encode(blocks[n - 1]) {
                Ok(j) => Ok(rest.push(j)),
                Err(e) => Err(e),
            },
        }
    }
}

/// A result says what `want` says.
pub open spec fn says(r: Result<JsonValue, Error>, want: Result<json::Json, error::ErrorView>) -> bool {
    match (r, want) {
        (Ok(v), Ok(j)) => v@ == j,
        (Err(e), Err(f)) => e@ == f,
        _ => false,
    }
}

fn base64_source(media_type: &str, data: &str) -> (r: JsonValue)
    ensures
        r@ == anthropic_base64(media_type@, data@),
{
    JsonValue::object().with("type", JsonValue::string("base64")).with(
        "media_type",
        JsonValue::string(media_type),
    ).with("data", JsonValue::string(data))
}

fn url_source(url: &str) -> (r: JsonValue)
    ensures
        r@ == anthropic_url(url@),
{
    JsonValue::object().with("type", JsonValue::string("url")).with("url", JsonValue::string(url))
}

fn encode_anthropic_media_source(source: &ImageSource) -> (r: Result<JsonValue, Error>)
    ensures
        says(r, anthropic_image(source@)),
{
    if text::text_eq(source.source_type.as_str(), "base64") {
        match &source.media_type {
            Some(t) => Ok(base64_source(t.as_str(), source.data.as_str())),
            None => Err(Error::validation("image base64 block requires media_type")),
        }
    } else if text::text_eq(source.source_type.as_str(), "url") {
        Ok(url_source(source.data.as_str()))
    } else {
        Err(
            Error::validation(
                text::cat(
                    "unsupported image source type: ",
                    source.source_type.as_str(),
                ).as_str(),
            ),
        )
    }
}

fn mime_or_pdf(source: &DocumentSource) -> (r: &str)
    ensures
        r@ == document_type(source@),
{
    match &source.mime_type {
        Some(t) => t.as_str(),
        None => "application/pdf",
    }
}

fn encode_anthropic_document_source(source: &DocumentSource) -> (r: Result<JsonValue, Error>)
    ensures
        says(r, anthropic_document(source@)),
{
    let kind = source.source_type.as_str();
    if text::text_eq(kind, "base64") {
        Ok(base64_source(mime_or_pdf(source), source.data.as_str()))
    } else if text::text_eq(kind, "url") {
        Ok(url_source(source.data.as_str()))
    } else if text::text_eq(kind, "ref") {
        Err(
            Error::validation(
                "document ref must be resolved to base64 or url before sending to Anthropic",
            ),
        )
    } else {
        Err(
            Error::validation(text::cat("unsupported document source type: ", kind).as_str()),
        )
    }
}

fn encode_block_for_anthropic(block: &ContentBlock) -> (r: Result<JsonValue, Error>)
    ensures
        says(r, for_anthropic(block@)),
{
    match block {
        ContentBlock::Text { text } => Ok(
            JsonValue::object().with("type", JsonValue::string("text")).with(
                "text",
                JsonValue::string(text.as_str()),
            ),
        ),
        ContentBlock::Image { source } => match encode_anthropic_media_source(source) {
            Ok(s) => Ok(
                JsonValue::object().with("type", JsonValue::string("image")).with("source", s),
            ),
            Err(e) => Err(e),
        },
        ContentBlock::Document { source } => match encode_anthropic_document_source(source) {
            Ok(s) => Ok(
                JsonValue::object().with("type", JsonValue::string("document")).with("source", s),
            ),
            Err(e) => Err(e),
        },
        ContentBlock::Audio { .. } => Err(
            Error::validation(
                "Anthropic Messages driver does not encode audio content blocks yet",
            ),
        ),
        _ => Err(
            Error::validation(
                "tool blocks must be encoded via Anthropic tool_use/tool_result paths",
            ),
        ),
    }
}

fn inline_data(mime: &str, data: &str) -> (r: JsonValue)
    ensures
        r@ == gemini_inline(mime@, data@),
{
    let inner = JsonValue::object().with("mimeType", JsonValue::string(mime)).with(
        "data",
        JsonValue::string(data),
    );
    JsonValue::object().with("inlineData", inner)
}

fn encode_block_for_gemini(block: &ContentBlock) -> (r: Result<JsonValue, Error>)
    ensures
        says(r, for_gemini(block@)),
{
    match block {
        ContentBlock::Text { text } => Ok(
            JsonValue::object().with("text", JsonValue::string(text.as_str())),
        ),
        ContentBlock::Image { source } => {
            if !text::text_eq(source.source_type.as_str(), "base64") {
                let mut msg = text::cat(
                    "Gemini image blocks require base64 inline data (got ",
                    source.source_type.as_str(),
                );
                msg.append(")");
                return Err(Error::validation(msg.as_str()));
            }
            match &source.media_type {
                Some(t) => Ok(inline_data(t.as_str(), source.data.as_str())),
                None => Err(Error::validation("image base64 block requires media_type")),
            }
        },
        ContentBlock::Document { source } => {
            if !text::text_eq(source.source_type.as_str(), "base64") {
                return Err(
                    Error::validation(
                        "Gemini document blocks require base64 inline data; resolve ref before send",
                    ),
                );
            }
            Ok(inline_data(mime_or_pdf(source), source.data.as_str()))
        },
        ContentBlock::Audio { .. } => Err(
            Error::validation(
                "Gemini generateContent driver does not encode audio content blocks yet",
            ),
        ),
        _ => Err(
            Error::validation(
                "tool blocks must be encoded via Gemini functionCall/functionResponse paths",
            ),
        ),
    }
}

proof fn lemma_encoding_fails(
    blocks: Seq<message::BlockView>,
    encode: spec_fn(message::BlockView) -> Result<json::Json, error::ErrorView>,
    i: int,
    n: int,
)
    requires
        0 <= i <= n,
        all_encoded(blocks, encode, i) is Err,
    ensures
        all_encoded(blocks, encode, n) == all_encoded(blocks, encode, i),
    decreases n - i,
{
    if i < n {
        lemma_encoding_fails(blocks, encode, i, n - 1);
    }
}

/// Blocks as the items of an Anthropic `content` array.
pub fn encode_blocks_for_anthropic(blocks: &Vec<ContentBlock>) -> (r: Result<
    Vec<JsonValue>,
    Error,
>)
    ensures
        match (
            r,
            all_encoded(
                message::block_views(blocks@),
                |b: message::BlockView| for_anthropic(b),
                blocks@.len() as int,
            ),
        ) {
            (Ok(v), Ok(s)) => json::array_view(v@) == s,
            (Err(e), Err(f)) => e@ == f,
            _ => false,
        },
{
    let ghost views = message::block_views(blocks@);
    let ghost enc = |b: message::BlockView| for_anthropic(b);
    let mut out: Vec<JsonValue> = Vec::new();
    let mut i: usize = 0;
    assert(json::array_view(out@) =~= Seq::empty());
    while i < blocks.len()
        invariant
            i <= blocks@.len(),
            views == message::block_views(blocks@),
            enc == (|b: message::BlockView| for_anthropic(b)),
            all_encoded(views, enc, i as int) == Ok::<Seq<json::Json>, error::ErrorView>(
                json::array_view(out@),
            ),
        decreases blocks@.len() - i,
    {
        assert(views[i as int] == blocks@[i as int]@);
        match encode_block_for_anthropic(&blocks[i]) {
            Ok(v) => {
                let ghost o0 = out@;
                out.push(v);
                proof {
                    json::lemma_array_view(o0);
                    json::lemma_array_view(out@);
                    assert(json::array_view(out@) =~= json::array_view(o0).push(v@));
                }
            },
            Err(e) => {
                proof {
                    lemma_encoding_fails(views, enc, i + 1, blocks@.len() as int);
                }
                return Err(e);
            },
        }
        i += 1;
    }
    Ok(out)
}

/// Blocks as a Gemini `parts` array.
pub fn encode_blocks_for_gemini(blocks: &Vec<ContentBlock>) -> (r: Result<JsonValue, Error>)
    ensures
        match (
            r,
            all_encoded(
                message::block_views(blocks@),
                |b: message::BlockView| for_gemini(b),
                blocks@.len() as int,
            ),
        ) {
            (Ok(v), Ok(s)) => v@ == json::Json::Array(s),
            (Err(e), Err(f)) => e@ == f,
            _ => false,
        },
{
    let ghost views = message::block_views(blocks@);
    let ghost enc = |b: message::BlockView| for_gemini(b);
    let mut out: Vec<JsonValue> = Vec::new();
    let mut i: usize = 0;
    assert(json::array_view(out@) =~= Seq::empty());
    while i < blocks.len()
        invariant
            i <= blocks@.len(),
            views == message::block_views(blocks@),
            enc == (|b: message::BlockView| for_gemini(b)),
            all_encoded(views, enc, i as int) == Ok::<Seq<json::Json>, error::ErrorView>(
                json::array_view(out@),
            ),
        decreases blocks@.len() - i,
    {
        assert(views[i as int] == blocks@[i as int]@);
        match encode_block_for_gemini(&blocks[i]) {
            Ok(v) => {
                let ghost o0 = out@;
                out.push(v);
                proof {
                    json::lemma_array_view(o0);
                    json::lemma_array_view(out@);
                    assert(json::array_view(out@) =~= json::array_view(o0).push(v@));
                }
            },
            Err(e) => {
                proof {
                    lemma_encoding_fails(views, enc, i + 1, blocks@.len() as int);
                }
                return Err(e);
            },
        }
        i += 1;
    }
    Ok(JsonValue::Array(out))
}

/// A document reference is never sent: neither shape has one.
pub proof fn document_refs_are_rejected(s: message::DocumentView)
    requires
        s.source_type == "ref"@,
    ensures
        for_anthropic(message::BlockView::Document { source: s }) is Err,
        for_gemini(message::BlockView::Document { source: s }) is Err,
{
    reveal_strlit("ref");
    reveal_strlit("base64");
    reveal_strlit("url");
    assert("ref"@.len() != "base64"@.len());
    assert("ref"@[0] != "url"@[0]);
}

proof fn reveal_source_keys()
    ensures
        "type"@.len() == 4,
        "media_type"@.len() == 10,
        "data"@.len() == 4,
        "type"@ != "data"@,
        "url"@.len() == 3,
        "text"@.len() == 4,
        "type"@ != "text"@,
        "source"@.len() == 6,
        "mimeType"@.len() == 8,
        "base64"@.len() == 6,
        "ref"@.len() == 3,
        "url"@ != "ref"@,
{
    reveal_strlit("type");
    reveal_strlit("media_type");
    reveal_strlit("data");
    reveal_strlit("url");
    reveal_strlit("text");
    reveal_strlit("source");
    reveal_strlit("mimeType");
    reveal_strlit("base64");
    reveal_strlit("ref");
    assert("type"@[0] != "data"@[0]);
    assert("type"@[1] != "text"@[1]);
    assert("url"@[0] != "ref"@[0]);
}

/// The JSON is a block of the kind whose source gives data in base64.
pub open spec fn gives_base64(
    j: json::Json,
    kind: Seq<char>,
    media_type: Seq<char>,
    data: Seq<char>,
) -> bool {
    &&& j.field("type"@) == Some(json::Json::Str(kind))
    &&& json::field_in(j.field("source"@), "type"@) == Some(json::Json::Str("base64"@))
    &&& json::field_in(j.field("source"@), "media_type"@) == Some(json::Json::Str(media_type))
    &&& json::field_in(j.field("source"@), "data"@) == Some(json::Json::Str(data))
}

/// The JSON is a block of the kind whose source gives a URL.
pub open spec fn gives_url(j: json::Json, kind: Seq<char>, url: Seq<char>) -> bool {
    &&& j.field("type"@) == Some(json::Json::Str(kind))
    &&& json::field_in(j.field("source"@), "type"@) == Some(json::Json::Str("url"@))
    &&& json::field_in(j.field("source"@), "url"@) == Some(json::Json::Str(url))
}

/// An Anthropic block carries the text, or the image or document with its data
/// and its type; what cannot be sent that way is refused.
pub proof fn anthropic_blocks_carry_their_data(b: ContentBlock)
    ensures
        match b {
            ContentBlock::Text { text } => for_anthropic(b@) matches Ok(j) && j.field("type"@)
                == Some(json::Json::Str("text"@)) && j.field("text"@) == Some(
                json::Json::Str(text@),
            ),
            ContentBlock::Image { source } => {
                &&& source.source_type@ == "base64"@ && source.media_type is Some ==> (for_anthropic(
                    b@,
                ) matches Ok(j) && gives_base64(j, "image"@, source.media_type->0@, source.data@))
                &&& source.source_type@ == "url"@ ==> (for_anthropic(b@) matches Ok(j) && gives_url(
                    j,
                    "image"@,
                    source.data@,
                ))
                &&& for_anthropic(b@) is Ok <==> source.source_type@ == "url"@ || (
                source.source_type@ == "base64"@ && source.media_type is Some)
            },
            ContentBlock::Document { source } => {
                &&& source.source_type@ == "base64"@ ==> (for_anthropic(b@) matches Ok(j)
                    && gives_base64(
                    j,
                    "document"@,
                    match source.mime_type {
                        Some(t) => t@,
                        None => "application/pdf"@,
                    },
                    source.data@,
                ))
                &&& source.source_type@ == "url"@ ==> (for_anthropic(b@) matches Ok(j) && gives_url(
                    j,
                    "document"@,
                    source.data@,
                ))
                &&& for_anthropic(b@) is Ok <==> source.source_type@ == "url"@
                    || source.source_type@ == "base64"@
            },
            _ => for_anthropic(b@) is Err,
        },
{
    reveal_source_keys();
}

/// The JSON gives data inline, of the MIME type.
pub open spec fn gives_inline(j: json::Json, mime: Seq<char>, data: Seq<char>) -> bool {
    &&& json::field_in(j.field("inlineData"@), "mimeType"@) == Some(json::Json::Str(mime))
    &&& json::field_in(j.field("inlineData"@), "data"@) == Some(json::Json::Str(data))
}

/// A Gemini part carries the text, or the data of an image or document inline;
/// what is not given in base64 is refused.
pub proof fn gemini_parts_carry_their_data(b: ContentBlock)
    ensures
        match b {
            ContentBlock::Text { text } => for_gemini(b@) matches Ok(j) && j.field("text"@) == Some(
                json::Json::Str(text@),
            ),
            ContentBlock::Image { source } => if source.source_type@ == "base64"@
                && source.media_type is Some {
                for_gemini(b@) matches Ok(j) && gives_inline(
                    j,
                    source.media_type->0@,
                    source.data@,
                )
            } else {
                for_gemini(b@) is Err
            },
            ContentBlock::Document { source } => if source.source_type@ == "base64"@ {
                for_gemini(b@) matches Ok(j) && gives_inline(
                    j,
                    match source.mime_type {
                        Some(t) => t@,
                        None => "application/pdf"@,
                    },
                    source.data@,
                )
            } else {
                for_gemini(b@) is Err
            },
            _ => for_gemini(b@) is Err,
        },
{
    reveal_source_keys();
}

/// Blocks are encoded one for one and in order where every one can be, and the
/// first that cannot is the one that is reported.
pub proof fn blocks_are_encoded_in_order(
    blocks: Seq<message::BlockView>,
    encode: spec_fn(message::BlockView) -> Result<json::Json, error::ErrorView>,
    n: int,
    k: int,
)
    requires
        0 <= k < n <= blocks.len(),
        forall|i: int| 0 <= i < k ==> encode(#[trigger] blocks[i]) is Ok,
    ensures
        encode(blocks[k]) matches Err(e) ==> all_encoded(blocks, encode, n) == Err::<
            Seq<json::Json>,
            error::ErrorView,
        >(e),
        (forall|i: int| 0 <= i < n ==> encode(#[trigger] blocks[i]) is Ok) ==> (all_encoded(
            blocks,
            encode,
            n,
        ) matches Ok(s) && s.len() == n && encode(blocks[k]) == Ok::<json::Json, error::ErrorView>(
            s[k],
        )),
    decreases n,
{
    if forall|i: int| 0 <= i < n ==> encode(#[trigger] blocks[i]) is Ok {
        assert(encode(blocks[n - 1]) is Ok);
    }
    if n > 1 {
        blocks_are_encoded_in_order(blocks, encode, n - 1, if k < n - 1 { k } else { k - 1 });
    } else {
        assert(all_encoded(blocks, encode, 0) == Ok::<Seq<json::Json>, error::ErrorView>(
            Seq::empty(),
        ));
    }
    if k == n - 1 && k > 0 {
        assert(encode(blocks[k - 1]) is Ok);
        assert(forall|i: int| 0 <= i < n - 1 ==> encode(#[trigger] blocks[i]) is Ok);
    }
}

/// Blocks are encoded for Anthropic one for one and in order, and refused where
/// one of them cannot be sent.
pub proof fn anthropic_blocks_come_in_order(
    blocks: &Vec<ContentBlock>,
    r: Result<Vec<JsonValue>, Error>,
    k: int,
)
    requires
        call_ensures(encode_blocks_for_anthropic, (blocks,), r),
        0 <= k < blocks@.len(),
    ensures
        r matches Ok(v) ==> v@.len() == blocks@.len() && for_anthropic(blocks@[k]@) == Ok::<
            json::Json,
            error::ErrorView,
        >(v@[k]@),
        for_anthropic(blocks@[k]@) is Err ==> r is Err,
        (forall|i: int| 0 <= i < blocks@.len() ==> for_anthropic((#[trigger] blocks@[i])@) is Ok)
            ==> r is Ok,
{
    let views = message::block_views(blocks@);
    let encode = |b: message::BlockView| for_anthropic(b);
    let n = blocks@.len() as int;
    lemma_encoded(views, encode, n, k);
    if let Ok(v) = r {
        json::lemma_array_view(v@);
    }
    if forall|i: int| 0 <= i < blocks@.len() ==> for_anthropic((#[trigger] blocks@[i])@) is Ok {
        assert forall|i: int| 0 <= i < n implies encode(#[trigger] views[i]) is Ok by {
            assert(for_anthropic(blocks@[i]@) is Ok);
        }
        lemma_encoded(views, encode, n, k);
    }
}

/// Blocks are encoded for Gemini one for one and in order, and refused where one
/// of them cannot be sent.
pub proof fn gemini_parts_come_in_order(
    blocks: &Vec<ContentBlock>,
    r: Result<JsonValue, Error>,
    k: int,
)
    requires
        call_ensures(encode_blocks_for_gemini, (blocks,), r),
        0 <= k < blocks@.len(),
    ensures
        r matches Ok(v) ==> (v@ matches json::Json::Array(s) && s.len() == blocks@.len()
            && for_gemini(blocks@[k]@) == Ok::<json::Json, error::ErrorView>(s[k])),
        for_gemini(blocks@[k]@) is Err ==> r is Err,
        (forall|i: int| 0 <= i < blocks@.len() ==> for_gemini((#[trigger] blocks@[i])@) is Ok)
            ==> r is Ok,
{
    let views = message::block_views(blocks@);
    let encode = |b: message::BlockView| for_gemini(b);
    let n = blocks@.len() as int;
    lemma_encoded(views, encode, n, k);
    if forall|i: int| 0 <= i < blocks@.len() ==> for_gemini((#[trigger] blocks@[i])@) is Ok {
        assert forall|i: int| 0 <= i < n implies encode(#[trigger] views[i]) is Ok by {
            assert(for_gemini(blocks@[i]@) is Ok);
        }
        lemma_encoded(views, encode, n, k);
    }
}

proof fn lemma_encoded(
    blocks: Seq<message::BlockView>,
    encode: spec_fn(message::BlockView) -> Result<json::Json, error::ErrorView>,
    n: int,
    k: int,
)
    requires
        0 <= k < n <= blocks.len(),
    ensures
        all_encoded(blocks, encode, n) matches Ok(s) ==> s.len() == n && encode(blocks[k]) == Ok::<
            json::Json,
            error::ErrorView,
        >(s[k]),
        (forall|i: int| 0 <= i < n ==> encode(#[trigger] blocks[i]) is Ok) ==> all_encoded(
            blocks,
            encode,
            n,
        ) is Ok,
    decreases n,
{
    if n > 1 {
        lemma_encoded(blocks, encode, n - 1, if k < n - 1 { k } else { 0 });
    } else {
        assert(all_encoded(blocks, encode, 0) == Ok::<Seq<json::Json>, error::ErrorView>(
            Seq::empty(),
        ));
    }
    if forall|i: int| 0 <= i < n ==> encode(#[trigger] blocks[i]) is Ok {
        assert(encode(blocks[n - 1]) is Ok);
    }
}

} // verus!
