//! Chat messages and the blocks they are made of.

use crate::json;
use crate::json::JsonValue;
use vstd::prelude::*;

verus! {

broadcast use vstd::string::group_string_axioms;

/// Who a message is from.
#[derive(Debug, Clone, Copy, PartialEq, Eq, Structural)]
pub enum MessageRole {
    System,
    User,
    Assistant,
    Tool,
}

/// The name of a role on the wire.
pub open spec fn role_name(r: MessageRole) -> Seq<char> {
    match r {
        MessageRole::System => "system"@,
        MessageRole::User => "user"@,
        MessageRole::Assistant => "assistant"@,
        MessageRole::Tool => "tool"@,
    }
}

impl MessageRole {
    /// The name of the role on the wire.
    pub fn as_str(self) -> (r: &'static str)
        ensures
            r@ == role_name(self),
    {
        match self {
            MessageRole::System => "system",
            MessageRole::User => "user",
            MessageRole::Assistant => "assistant",
            MessageRole::Tool => "tool",
        }
    }
}

/// Where the data of an image or a recording comes from: `base64` or `url`.
#[derive(Debug, Clone)]
pub struct ImageSource {
    pub source_type: String,
    pub media_type: Option<String>,
    pub data: String,
}

/// Where the data of a document comes from: `base64`, `url` or `ref`.
#[derive(Debug, Clone)]
pub struct DocumentSource {
    pub source_type: String,
    pub data: String,
    pub mime_type: Option<String>,
    pub filename: Option<String>,
}

/// What a media source is.
pub struct MediaView {
    pub source_type: Seq<char>,
    pub media_type: Option<Seq<char>>,
    pub data: Seq<char>,
}

/// What a document source is.
pub struct DocumentView {
    pub source_type: Seq<char>,
    pub data: Seq<char>,
    pub mime_type: Option<Seq<char>>,
    pub filename: Option<Seq<char>>,
}

impl View for ImageSource {
    type V = MediaView;

    open spec fn view(&self) -> MediaView {
        MediaView {
            source_type: self.source_type@,
            media_type: crate::text::opt_text(self.media_type),
            data: self.data@,
        }
    }
}

impl View for DocumentSource {
    type V = DocumentView;

    open spec fn view(&self) -> DocumentView {
        DocumentView {
            source_type: self.source_type@,
            data: self.data@,
            mime_type: crate::text::opt_text(self.mime_type),
            filename: crate::text::opt_text(self.filename),
        }
    }
}

/// One part of a message.
#[allow(inconsistent_fields)]
#[derive(Debug, Clone)]
pub enum ContentBlock {
    Text { text: String },
    Image { source: ImageSource },
    Audio { source: ImageSource },
    Document { source: DocumentSource },
    ToolUse { id: String, name: String, input: JsonValue },
    ToolResult { tool_use_id: String, content: JsonValue },
}

/// What a block is.
#[allow(inconsistent_fields)]
pub enum BlockView {
    Text { text: Seq<char> },
    Image { source: MediaView },
    Audio { source: MediaView },
    Document { source: DocumentView },
    ToolUse { id: Seq<char>, name: Seq<char>, input: json::Json },
    ToolResult { tool_use_id: Seq<char>, content: json::Json },
}

impl View for ContentBlock {
    type V = BlockView;

    open spec fn view(&self) -> BlockView {
        match self {
            ContentBlock::Text { text } => BlockView::Text { text: text@ },
            ContentBlock::Image { source } => BlockView::Image { source: source@ },
            ContentBlock::Audio { source } => BlockView::Audio { source: source@ },
            ContentBlock::Document { source } => BlockView::Document { source: source@ },
            ContentBlock::ToolUse { id, name, input } => BlockView::ToolUse {
                id: id@,
                name: name@,
                input: input@,
            },
            ContentBlock::ToolResult { tool_use_id, content } => BlockView::ToolResult {
                tool_use_id: tool_use_id@,
                content: content@,
            },
        }
    }
}

/// The views of blocks, in order.
pub open spec fn block_views(v: Seq<ContentBlock>) -> Seq<BlockView> {
    Seq::new(v.len(), |i: int| v[i]@)
}

/// What a message says: plain text, or blocks.
#[derive(Debug, Clone)]
pub enum MessageContent {
    Text(String),
    Blocks(Vec<ContentBlock>),
}

/// What a message's content is.
pub enum ContentView {
    Text(Seq<char>),
    Blocks(Seq<BlockView>),
}

impl View for MessageContent {
    type V = ContentView;

    open spec fn view(&self) -> ContentView {
        match self {
            MessageContent::Text(t) => ContentView::Text(t@),
            MessageContent::Blocks(b) => ContentView::Blocks(block_views(b@)),
        }
    }
}

/// A chat message.
#[derive(Debug, Clone)]
pub struct Message {
    pub role: MessageRole,
    pub content: MessageContent,
    pub tool_call_id: Option<String>,
}

/// What a message is.
pub struct MessageView {
    pub role: MessageRole,
    pub content: ContentView,
    pub tool_call_id: Option<Seq<char>>,
}

impl View for Message {
    type V = MessageView;

    open spec fn view(&self) -> MessageView {
        MessageView {
            role: self.role,
            content: self.content@,
            tool_call_id: crate::text::opt_text(self.tool_call_id),
        }
    }
}

/// The views of messages, in order.
pub open spec fn message_views(v: Seq<Message>) -> Seq<MessageView> {
    Seq::new(v.len(), |i: int| v[i]@)
}

/// A message with plain text.
pub open spec fn text_message(role: MessageRole, text: Seq<char>) -> MessageView {
    MessageView { role, content: ContentView::Text(text), tool_call_id: None }
}

impl Message {
    /// A message with the given content.
    pub fn with_content(role: MessageRole, content: MessageContent) -> (r: Self)
        ensures
            r@ == (MessageView { role, content: content@, tool_call_id: None }),
    {
        Message { role, content, tool_call_id: None }
    }

    /// A system message.
    pub fn system(text: &str) -> (r: Self)
        ensures
            r@ == text_message(MessageRole::System, text@),
    {
        Self::with_content(MessageRole::System, MessageContent::Text(text.to_string()))
    }

    /// A user's message.
    pub fn user(text: &str) -> (r: Self)
        ensures
            r@ == text_message(MessageRole::User, text@),
    {
        Self::with_content(MessageRole::User, MessageContent::Text(text.to_string()))
    }

    /// An assistant's message.
    pub fn assistant(text: &str) -> (r: Self)
        ensures
            r@ == text_message(MessageRole::Assistant, text@),
    {
        Self::with_content(MessageRole::Assistant, MessageContent::Text(text.to_string()))
    }

    /// What a tool gave back for a call.
    pub fn tool(call_id: &str, text: &str) -> (r: Self)
        ensures
            r@ == (MessageView {
                tool_call_id: Some(call_id@),
                ..text_message(MessageRole::Tool, text@)
            }),
    {
        Message {
            role: MessageRole::Tool,
            content: MessageContent::Text(text.to_string()),
            tool_call_id: Some(call_id.to_string()),
        }
    }

    /// The same message again.
    pub fn copy(&self) -> (r: Self)
        ensures
            r@ == self@,
    {
        Message {
            role: self.role,
            content: self.content.copy(),
            tool_call_id: copy_opt(&self.tool_call_id),
        }
    }
}

/// The same optional text again.
pub fn copy_opt(s: &Option<String>) -> (r: Option<String>)
    ensures
        r == *s,
{
    match s {
        Some(t) => Some(t.clone()),
        None => None,
    }
}

impl MessageContent {
    /// Content made of blocks.
    pub fn blocks(blocks: Vec<ContentBlock>) -> (r: Self)
        ensures
            r@ == ContentView::Blocks(block_views(blocks@)),
    {
        MessageContent::Blocks(blocks)
    }

    /// The same content again.
    pub fn copy(&self) -> (r: Self)
        ensures
            r@ == self@,
    {
        match self {
            MessageContent::Text(t) => MessageContent::Text(t.clone()),
            MessageContent::Blocks(b) => {
                let mut out: Vec<ContentBlock> = Vec::new();
                let mut i: usize = 0;
                while i < b.len()
                    invariant
                        i <= b@.len(),
                        out@.len() == i,
                        forall|k: int| 0 <= k < i ==> #[trigger] out@[k]@ == b@[k]@,
                    decreases b@.len() - i,
                {
                    out.push(b[i].copy());
                    i += 1;
                }
                assert(block_views(out@) =~= block_views(b@));
                MessageContent::Blocks(out)
            },
        }
    }
}

impl ImageSource {
    /// The same source again.
    pub fn copy(&self) -> (r: Self)
        ensures
            r == *self,
    {
        ImageSource {
            source_type: self.source_type.clone(),
            media_type: copy_opt(&self.media_type),
            data: self.data.clone(),
        }
    }
}

impl DocumentSource {
    /// The same source again.
    pub fn copy(&self) -> (r: Self)
        ensures
            r == *self,
    {
        DocumentSource {
            source_type: self.source_type.clone(),
            data: self.data.clone(),
            mime_type: copy_opt(&self.mime_type),
            filename: copy_opt(&self.filename),
        }
    }
}

impl ContentBlock {
    /// A text block.
    pub fn text(text: &str) -> (r: Self)
        ensures
            r@ == (BlockView::Text { text: text@ }),
    {
        ContentBlock::Text { text: text.to_string() }
    }

    /// A document given by its bytes in base64.
    pub fn document_base64(
        data: String,
        mime_type: Option<String>,
        filename: Option<String>,
    ) -> (r: Self)
        ensures
            r@ == (BlockView::Document {
                source: DocumentView {
                    source_type: "base64"@,
                    data: data@,
                    mime_type: crate::text::opt_text(mime_type),
                    filename: crate::text::opt_text(filename),
                },
            }),
    {
        ContentBlock::Document {
            source: DocumentSource { source_type: "base64".to_string(), data, mime_type, filename },
        }
    }

    /// A document given by a reference that is resolved before sending.
    pub fn document_ref(
        data: String,
        mime_type: Option<String>,
        filename: Option<String>,
    ) -> (r: Self)
        ensures
            r@ == (BlockView::Document {
                source: DocumentView {
                    source_type: "ref"@,
                    data: data@,
                    mime_type: crate::text::opt_text(mime_type),
                    filename: crate::text::opt_text(filename),
                },
            }),
    {
        ContentBlock::Document {
            source: DocumentSource { source_type: "ref".to_string(), data, mime_type, filename },
        }
    }

    /// The same block again.
    pub fn copy(&self) -> (r: Self)
        ensures
            r@ == self@,
    {
        match self {
            ContentBlock::Text { text } => ContentBlock::Text { text: text.clone() },
            ContentBlock::Image { source } => ContentBlock::Image { source: source.copy() },
            ContentBlock::Audio { source } => ContentBlock::Audio { source: source.copy() },
            ContentBlock::Document { source } => ContentBlock::Document { source: source.copy() },
            ContentBlock::ToolUse { id, name, input } => ContentBlock::ToolUse {
                id: id.clone(),
                name: name.clone(),
                input: input.copy(),
            },
            ContentBlock::ToolResult { tool_use_id, content } => ContentBlock::ToolResult {
                tool_use_id: tool_use_id.clone(),
                content: content.copy(),
            },
        }
    }
}

/// An object with `value` under `key` where there is a value.
pub open spec fn with_opt(m: Map<Seq<char>, json::Json>, key: Seq<char>, value: Option<Seq<char>>) -> Map<
    Seq<char>,
    json::Json,
> {
    match value {
        Some(s) => m.insert(key, json::Json::Str(s)),
        None => m,
    }
}

/// The JSON of a media source.
pub open spec fn media_json(s: MediaView) -> json::Json {
    let m = Map::<Seq<char>, json::Json>::empty().insert("type"@, json::Json::Str(s.source_type));
    json::Json::Object(
        with_opt(m, "media_type"@, s.media_type).insert("data"@, json::Json::Str(s.data)),
    )
}

/// The JSON of a document source.
pub open spec fn document_json(s: DocumentView) -> json::Json {
    let m = Map::<Seq<char>, json::Json>::empty().insert(
        "type"@,
        json::Json::Str(s.source_type),
    ).insert("data"@, json::Json::Str(s.data));
    json::Json::Object(
        with_opt(with_opt(m, "mime_type"@, s.mime_type), "filename"@, s.filename),
    )
}

/// The JSON of a block.
pub open spec fn block_json(b: BlockView) -> json::Json {
    let m = Map::<Seq<char>, json::Json>::empty();
    match b {
        BlockView::Text { text } => json::Json::Object(
            m.insert("type"@, json::Json::Str("text"@)).insert("text"@, json::Json::Str(text)),
        ),
        BlockView::Image { source } => json::Json::Object(
            m.insert("type"@, json::Json::Str("image"@)).insert("source"@, media_json(source)),
        ),
        BlockView::Audio { source } => json::Json::Object(
            m.insert("type"@, json::Json::Str("audio"@)).insert("source"@, media_json(source)),
        ),
        BlockView::Document { source } => json::Json::Object(
            m.insert("type"@, json::Json::Str("document"@)).insert(
                "source"@,
                document_json(source),
            ),
        ),
        BlockView::ToolUse { id, name, input } => json::Json::Object(
            m.insert("type"@, json::Json::Str("tool_use"@)).insert(
                "id"@,
                json::Json::Str(id),
            ).insert("name"@, json::Json::Str(name)).insert("input"@, input),
        ),
        BlockView::ToolResult { tool_use_id, content } => json::Json::Object(
            m.insert("type"@, json::Json::Str("tool_result"@)).insert(
                "tool_use_id"@,
                json::Json::Str(tool_use_id),
            ).insert("content"@, content),
        ),
    }
}

/// The JSON of a message's content: a string, or an array of blocks.
pub open spec fn content_json(c: ContentView) -> json::Json {
    match c {
        ContentView::Text(t) => json::Json::Str(t),
        ContentView::Blocks(b) => json::Json::Array(
            Seq::new(b.len(), |i: int| block_json(b[i])),
        ),
    }
}

fn add_opt(v: JsonValue, key: &str, value: &Option<String>) -> (r: JsonValue)
    requires
        v@ is Object,
    ensures
        r@ == json::Json::Object(with_opt(v@->Object_0, key@, crate::text::opt_text(*value))),
{
    match value {
        Some(s) => v.with(key, JsonValue::string(s.as_str())),
        None => v,
    }
}

impl ContentBlock {
    /// The JSON of the block.
    pub fn to_json(&self) -> (r: JsonValue)
        ensures
            r@ == block_json(self@),
    {
        match self {
            ContentBlock::Text { text } => JsonValue::object().with(
                "type",
                JsonValue::string("text"),
            ).with("text", JsonValue::string(text.as_str())),
            ContentBlock::Image { source } => JsonValue::object().with(
                "type",
                JsonValue::string("image"),
            ).with("source", source.to_json()),
            ContentBlock::Audio { source } => JsonValue::object().with(
                "type",
                JsonValue::string("audio"),
            ).with("source", source.to_json()),
            ContentBlock::Document { source } => JsonValue::object().with(
                "type",
                JsonValue::string("document"),
            ).with("source", source.to_json()),
            ContentBlock::ToolUse { id, name, input } => JsonValue::object().with(
                "type",
                JsonValue::string("tool_use"),
            ).with("id", JsonValue::string(id.as_str())).with(
                "name",
                JsonValue::string(name.as_str()),
            ).with("input", input.copy()),
            ContentBlock::ToolResult { tool_use_id, content } => JsonValue::object().with(
                "type",
                JsonValue::string("tool_result"),
            ).with("tool_use_id", JsonValue::string(tool_use_id.as_str())).with(
                "content",
                content.copy(),
            ),
        }
    }
}

impl ImageSource {
    /// The JSON of the source.
    pub fn to_json(&self) -> (r: JsonValue)
        ensures
            r@ == media_json(self@),
    {
        let v = JsonValue::object().with("type", JsonValue::string(self.source_type.as_str()));
        add_opt(v, "media_type", &self.media_type).with(
            "data",
            JsonValue::string(self.data.as_str()),
        )
    }
}

impl DocumentSource {
    /// The JSON of the source.
    pub fn to_json(&self) -> (r: JsonValue)
        ensures
            r@ == document_json(self@),
    {
        let v = JsonValue::object().with(
            "type",
            JsonValue::string(self.source_type.as_str()),
        ).with("data", JsonValue::string(self.data.as_str()));
        let v = add_opt(v, "mime_type", &self.mime_type);
        add_opt(v, "filename", &self.filename)
    }
}

impl MessageContent {
    /// The JSON of the content.
    pub fn to_json(&self) -> (r: JsonValue)
        ensures
            r@ == content_json(self@),
    {
        match self {
            MessageContent::Text(t) => JsonValue::string(t.as_str()),
            MessageContent::Blocks(b) => {
                let mut out: Vec<JsonValue> = Vec::new();
                let mut i: usize = 0;
                while i < b.len()
                    invariant
                        i <= b@.len(),
                        out@.len() == i,
                        forall|k: int| 0 <= k < i ==> #[trigger] out@[k]@ == block_json(b@[k]@),
                    decreases b@.len() - i,
                {
                    out.push(b[i].to_json());
                    i += 1;
                }
                proof {
                    json::lemma_array_view(out@);
                    assert(json::array_view(out@) =~= Seq::new(
                        b@.len(),
                        |i: int| block_json(block_views(b@)[i]),
                    ));
                }
                JsonValue::Array(out)
            },
        }
    }
}

/// What is written of a block tells its kind, and carries its text, its tool's
/// name and input, or its result, unchanged.
pub proof fn blocks_keep_what_they_hold(b: ContentBlock)
    ensures
        block_json(b@).field("type"@) == Some(
            json::Json::Str(
                match b {
                    ContentBlock::Text { .. } => "text"@,
                    ContentBlock::Image { .. } => "image"@,
                    ContentBlock::Audio { .. } => "audio"@,
                    ContentBlock::Document { .. } => "document"@,
                    ContentBlock::ToolUse { .. } => "tool_use"@,
                    ContentBlock::ToolResult { .. } => "tool_result"@,
                },
            ),
        ),
        b matches ContentBlock::Text { text } ==> block_json(b@).field("text"@) == Some(
            json::Json::Str(text@),
        ),
        b matches ContentBlock::Image { source } ==> (block_json(b@).field("source"@) matches Some(j)
            && keeps_media(j, source)),
        b matches ContentBlock::Audio { source } ==> (block_json(b@).field("source"@) matches Some(j)
            && keeps_media(j, source)),
        b matches ContentBlock::Document { source } ==> (block_json(b@).field("source"@) matches Some(
            j,
        ) && keeps_document(j, source)),
        b matches ContentBlock::ToolUse { id, name, input } ==> {
            &&& block_json(b@).field("id"@) == Some(json::Json::Str(id@))
            &&& block_json(b@).field("name"@) == Some(json::Json::Str(name@))
            &&& block_json(b@).field("input"@) == Some(input@)
        },
        b matches ContentBlock::ToolResult { tool_use_id, content } ==> {
            &&& block_json(b@).field("tool_use_id"@) == Some(json::Json::Str(tool_use_id@))
            &&& block_json(b@).field("content"@) == Some(content@)
        },
{
    reveal_block_keys();
}

/// The JSON holds the type, the media type where there is one, and the data of
/// a media source.
pub open spec fn keeps_media(j: json::Json, s: ImageSource) -> bool {
    &&& j.field("type"@) == Some(json::Json::Str(s.source_type@))
    &&& j.field("data"@) == Some(json::Json::Str(s.data@))
    &&& json::text_in(j.field("media_type"@)) == (match s.media_type {
        Some(t) => Some(t@),
        None => None,
    })
    &&& j.field("media_type"@) is Some == s.media_type is Some
}

/// The JSON holds the type, the data, and the MIME type and the file name
/// where there are any, of a document source.
pub open spec fn keeps_document(j: json::Json, s: DocumentSource) -> bool {
    &&& j.field("type"@) == Some(json::Json::Str(s.source_type@))
    &&& j.field("data"@) == Some(json::Json::Str(s.data@))
    &&& json::text_in(j.field("mime_type"@)) == (match s.mime_type {
        Some(t) => Some(t@),
        None => None,
    })
    &&& json::text_in(j.field("filename"@)) == (match s.filename {
        Some(t) => Some(t@),
        None => None,
    })
    &&& j.field("mime_type"@) is Some == s.mime_type is Some
    &&& j.field("filename"@) is Some == s.filename is Some
}

proof fn reveal_block_keys()
    ensures
        "type"@ != "text"@,
        "type"@ != "source"@,
        "type"@ != "id"@,
        "type"@ != "name"@,
        "type"@ != "input"@,
        "type"@ != "tool_use_id"@,
        "type"@ != "content"@,
        "type"@ != "media_type"@,
        "type"@ != "data"@,
        "type"@ != "mime_type"@,
        "type"@ != "filename"@,
        "id"@ != "name"@,
        "id"@ != "input"@,
        "name"@ != "input"@,
        "tool_use_id"@ != "content"@,
        "media_type"@ != "data"@,
        "mime_type"@ != "data"@,
        "filename"@ != "data"@,
        "filename"@ != "mime_type"@,
{
    reveal_strlit("type");
    reveal_strlit("text");
    reveal_strlit("source");
    reveal_strlit("id");
    reveal_strlit("name");
    reveal_strlit("input");
    reveal_strlit("tool_use_id");
    reveal_strlit("content");
    reveal_strlit("media_type");
    reveal_strlit("data");
    reveal_strlit("mime_type");
    reveal_strlit("filename");
    assert("id"@.len() == 2 && "input"@.len() == 5);
    assert("tool_use_id"@.len() == 11 && "content"@.len() == 7);
    assert("filename"@.len() == 8 && "mime_type"@.len() == 9);
    assert("type"@[1] != "text"@[1]);
    assert("type"@[0] != "name"@[0]);
    assert("type"@[0] != "data"@[0]);
}

/// Content of plain text is written as that text; content of blocks as an
/// array with each block in its place.
pub proof fn content_is_written_in_order(c: MessageContent)
    ensures
        c matches MessageContent::Text(t) ==> content_json(c@) == json::Json::Str(t@),
        c matches MessageContent::Blocks(b) ==> {
            &&& content_json(c@) matches json::Json::Array(list) && list.len() == b@.len()
            &&& forall|i: int|
                0 <= i < b@.len() ==> content_json(c@).item(i) == Some(
                    block_json((#[trigger] b@[i])@),
                )
        },
{
}

/// Messages are made with the role that they are named after and the text that
/// is given; what a tool gave back also names its call.
pub proof fn messages_are_made_as_named(
    text: &str,
    call: &str,
    s: Message,
    u: Message,
    a: Message,
    t: Message,
)
    requires
        call_ensures(Message::system, (text,), s),
        call_ensures(Message::user, (text,), u),
        call_ensures(Message::assistant, (text,), a),
        call_ensures(Message::tool, (call, text), t),
    ensures
        s.role == MessageRole::System && s@.content == ContentView::Text(text@)
            && s.tool_call_id is None,
        u.role == MessageRole::User && u@.content == ContentView::Text(text@)
            && u.tool_call_id is None,
        a.role == MessageRole::Assistant && a@.content == ContentView::Text(text@)
            && a.tool_call_id is None,
        t.role == MessageRole::Tool && t@.content == ContentView::Text(text@)
            && crate::text::opt_text(t.tool_call_id) == Some(call@),
{
    assert(s@.tool_call_id is None && u@.tool_call_id is None && a@.tool_call_id is None);
}

/// A copy says what the message says.
pub proof fn copies_say_the_same(m: &Message, r: Message)
    requires
        call_ensures(Message::copy, (m,), r),
    ensures
        r.role == m.role,
        r.content@ == m.content@,
        crate::text::opt_text(r.tool_call_id) == crate::text::opt_text(m.tool_call_id),
{
    assert(r@.role == m@.role && r@.content == m@.content);
}

} // verus!
