//! What a manifest says of single models. What it does not say is unknown,
//! never false.

use crate::json;
use crate::json::JsonValue;
use crate::protocol::manifest;
use crate::table::Table;
use crate::text;
use vstd::prelude::*;

verus! {

/// Whether something is supported, as far as that is known.
#[derive(Clone, Copy, PartialEq, Eq, Structural, Debug)]
pub enum CapabilityKnown {
    Yes,
    No,
    Unknown,
}

/// What a declared or undeclared truth value says.
pub open spec fn known(v: Option<bool>) -> CapabilityKnown {
    match v {
        Some(true) => CapabilityKnown::Yes,
        Some(false) => CapabilityKnown::No,
        None => CapabilityKnown::Unknown,
    }
}

impl CapabilityKnown {
    /// What a declared or undeclared truth value says.
    pub fn from_option(v: Option<bool>) -> (r: Self)
        ensures
            r == known(v),
    {
        match v {
            Some(true) => CapabilityKnown::Yes,
            Some(false) => CapabilityKnown::No,
            None => CapabilityKnown::Unknown,
        }
    }

    /// What is known of the model, else what the provider allows.
    pub fn or_provider(self, provider_allows: bool) -> (r: bool)
        ensures
            r == (match self {
                CapabilityKnown::Yes => true,
                CapabilityKnown::No => false,
                CapabilityKnown::Unknown => provider_allows,
            }),
    {
        match self {
            CapabilityKnown::Yes => true,
            CapabilityKnown::No => false,
            CapabilityKnown::Unknown => provider_allows,
        }
    }
}

/// What a model can do; `None` is unknown.
#[derive(Debug, Clone, PartialEq, Eq)]
pub struct ModelCapabilityFacts {
    pub tool_call: Option<bool>,
    pub structured_output: Option<bool>,
    pub reasoning: Option<bool>,
    pub attachment: Option<bool>,
}

/// What a model takes and gives.
#[derive(Debug, Clone, PartialEq, Eq)]
pub struct ModelModalities {
    pub input: Option<Vec<String>>,
    pub output: Option<Vec<String>>,
}

/// The entry of a model.
#[derive(Debug, Clone, PartialEq, Eq)]
pub struct MetadataModelEntry {
    pub model_capabilities: Option<ModelCapabilityFacts>,
    pub modalities: Option<ModelModalities>,
}

impl Default for ModelCapabilityFacts {
    fn default() -> (r: Self)
        ensures
            r == (ModelCapabilityFacts {
                tool_call: None,
                structured_output: None,
                reasoning: None,
                attachment: None,
            }),
    {
        ModelCapabilityFacts {
            tool_call: None,
            structured_output: None,
            reasoning: None,
            attachment: None,
        }
    }
}

impl Default for ModelModalities {
    fn default() -> (r: Self)
        ensures
            r.input is None,
            r.output is None,
    {
        ModelModalities { input: None, output: None }
    }
}

impl Default for MetadataModelEntry {
    fn default() -> (r: Self)
        ensures
            r.model_capabilities is None,
            r.modalities is None,
    {
        MetadataModelEntry { model_capabilities: None, modalities: None }
    }
}

/// What an entry's modalities are.
pub struct ModalitiesView {
    pub input: Option<Seq<Seq<char>>>,
    pub output: Option<Seq<Seq<char>>>,
}

/// What an entry is.
pub struct EntryView {
    pub model_capabilities: Option<ModelCapabilityFacts>,
    pub modalities: Option<ModalitiesView>,
}

/// The view of an optional list of texts.
pub open spec fn opt_texts(v: Option<Vec<String>>) -> Option<Seq<Seq<char>>> {
    match v {
        Some(x) => Some(text::texts(x@)),
        None => None,
    }
}

impl View for ModelModalities {
    type V = ModalitiesView;

    open spec fn view(&self) -> ModalitiesView {
        ModalitiesView { input: opt_texts(self.input), output: opt_texts(self.output) }
    }
}

impl View for MetadataModelEntry {
    type V = EntryView;

    open spec fn view(&self) -> EntryView {
        EntryView {
            model_capabilities: self.model_capabilities,
            modalities: match self.modalities {
                Some(m) => Some(m@),
                None => None,
            },
        }
    }
}

/// A record of `n` fields can be read from the value: an object, or an array
/// with no more than `n` elements.
pub open spec fn is_record(j: json::Json, n: nat) -> bool {
    match j {
        json::Json::Object(_) => true,
        json::Json::Array(s) => s.len() <= n,
        _ => false,
    }
}

/// The field of a record: by name in an object, by place in an array.
pub open spec fn record_field(j: json::Json, key: Seq<char>, place: int) -> Option<json::Json> {
    match j {
        json::Json::Array(_) => j.item(place),
        _ => j.field(key),
    }
}

/// An optional truth value; `Err` where something else stands there.
pub open spec fn read_flag(v: Option<json::Json>) -> Result<Option<bool>, ()> {
    match v {
        None => Ok(None),
        Some(json::Json::Null) => Ok(None),
        Some(json::Json::Bool(b)) => Ok(Some(b)),
        _ => Err(()),
    }
}

/// The texts of a list of values; `None` where one of the first `n` is no text.
pub open spec fn read_texts(s: Seq<json::Json>, n: int) -> Option<Seq<Seq<char>>>
    decreases n,
{
    if n <= 0 {
        Some(Seq::empty())
    } else {
        match (read_texts(s, n - 1), s[n - 1].text()) {
            (Some(rest), Some(t)) => Some(rest.push(t)),
            _ => None,
        }
    }
}

/// An optional list of texts; `Err` where something else stands there.
pub open spec fn read_text_list(v: Option<json::Json>) -> Result<Option<Seq<Seq<char>>>, ()> {
    match v {
        None => Ok(None),
        Some(json::Json::Null) => Ok(None),
        Some(json::Json::Array(s)) => match read_texts(s, s.len() as int) {
            Some(t) => Ok(Some(t)),
            None => Err(()),
        },
        _ => Err(()),
    }
}

/// The facts that a value states.
pub open spec fn read_facts(j: json::Json) -> Result<ModelCapabilityFacts, ()> {
    if !is_record(j, 4) {
        Err(())
    } else {
        match (
            read_flag(record_field(j, "tool_call"@, 0)),
            read_flag(record_field(j, "structured_output"@, 1)),
            read_flag(record_field(j, "reasoning"@, 2)),
            read_flag(record_field(j, "attachment"@, 3)),
        ) {
            (Ok(tool_call), Ok(structured_output), Ok(reasoning), Ok(attachment)) => Ok(
                ModelCapabilityFacts { tool_call, structured_output, reasoning, attachment },
            ),
            _ => Err(()),
        }
    }
}

/// The modalities that a value states.
pub open spec fn read_modalities(j: json::Json) -> Result<ModalitiesView, ()> {
    if !is_record(j, 2) {
        Err(())
    } else {
        match (
            read_text_list(record_field(j, "input"@, 0)),
            read_text_list(record_field(j, "output"@, 1)),
        ) {
            (Ok(input), Ok(output)) => Ok(ModalitiesView { input, output }),
            _ => Err(()),
        }
    }
}

/// The optional facts of an entry.
pub open spec fn read_opt_facts(v: Option<json::Json>) -> Result<Option<ModelCapabilityFacts>, ()> {
    match v {
        None => Ok(None),
        Some(json::Json::Null) => Ok(None),
        Some(j) => match read_facts(j) {
            Ok(f) => Ok(Some(f)),
            Err(_) => Err(()),
        },
    }
}

/// The optional modalities of an entry.
pub open spec fn read_opt_modalities(v: Option<json::Json>) -> Result<Option<ModalitiesView>, ()> {
    match v {
        None => Ok(None),
        Some(json::Json::Null) => Ok(None),
        Some(j) => match read_modalities(j) {
            Ok(m) => Ok(Some(m)),
            Err(_) => Err(()),
        },
    }
}

/// The entry that a value states. Fields that are not known are passed over.
pub open spec fn read_entry(j: json::Json) -> Option<EntryView> {
    if !is_record(j, 2) {
        None
    } else {
        match (
            read_opt_facts(record_field(j, "model_capabilities"@, 0)),
            read_opt_modalities(record_field(j, "modalities"@, 1)),
        ) {
            (Ok(model_capabilities), Ok(modalities)) => Some(
                EntryView { model_capabilities, modalities },
            ),
            _ => None,
        }
    }
}

fn has_record(v: &JsonValue, n: usize) -> (r: bool)
    ensures
        r == is_record(v@, n as nat),
{
    match v {
        JsonValue::Object(_) => true,
        JsonValue::Array(items) => {
            proof {
                json::lemma_array_view(items@);
            }
            items.len() <= n
        },
        _ => false,
    }
}

fn find_field<'a>(v: &'a JsonValue, key: &str, place: usize) -> (r: Option<&'a JsonValue>)
    ensures
        json::opt_ref(r) == record_field(v@, key@, place as int),
{
    match v {
        JsonValue::Array(_) => v.at(place),
        _ => v.get(key),
    }
}

fn decode_flag(v: Option<&JsonValue>) -> (r: Result<Option<bool>, ()>)
    ensures
        r == read_flag(json::opt_ref(v)),
{
    match v {
        None => Ok(None),
        Some(JsonValue::Null) => Ok(None),
        Some(JsonValue::Bool(b)) => Ok(Some(*b)),
        _ => Err(()),
    }
}

fn decode_text_list(v: Option<&JsonValue>) -> (r: Result<Option<Vec<String>>, ()>)
    ensures
        match (r, read_text_list(json::opt_ref(v))) {
            (Ok(a), Ok(b)) => opt_texts(a) == b,
            (Err(_), Err(_)) => true,
            _ => false,
        },
{
    match v {
        None => Ok(None),
        Some(JsonValue::Null) => Ok(None),
        Some(JsonValue::Array(items)) => {
            let ghost views = json::array_view(items@);
            proof {
                json::lemma_array_view(items@);
            }
            let mut out: Vec<String> = Vec::new();
            let mut i: usize = 0;
            assert(text::texts(out@) =~= Seq::empty());
            while i < items.len()
                invariant
                    i <= items@.len(),
                    views == json::array_view(items@),
                    views.len() == items@.len(),
                    json::opt_ref(v) == Some(json::Json::Array(views)),
                    read_texts(views, i as int) == Some(text::texts(out@)),
                decreases items@.len() - i,
            {
                proof {
                    json::lemma_array_view(items@);
                }
                assert(views[i as int] == items@[i as int]@);
                match items[i].as_str() {
                    Some(s) => {
                        let ghost o0 = text::texts(out@);
                        out.push(s.to_string());
                        assert(text::texts(out@) =~= o0.push(s@));
                    },
                    None => {
                        proof {
                            lemma_read_texts_fails(views, i + 1, views.len() as int);
                        }
                        return Err(());
                    },
                }
                i += 1;
            }
            Ok(Some(out))
        },
        _ => Err(()),
    }
}

proof fn lemma_read_texts_fails(s: Seq<json::Json>, i: int, n: int)
    requires
        0 < i <= n <= s.len(),
        read_texts(s, i) is None,
    ensures
        read_texts(s, n) is None,
    decreases n - i,
{
    if i < n {
        lemma_read_texts_fails(s, i, n - 1);
    }
}

fn decode_facts(v: &JsonValue) -> (r: Result<ModelCapabilityFacts, ()>)
    ensures
        r == read_facts(v@),
{
    if !has_record(v, 4) {
        return Err(());
    }
    match (
        decode_flag(find_field(v, "tool_call", 0)),
        decode_flag(find_field(v, "structured_output", 1)),
        decode_flag(find_field(v, "reasoning", 2)),
        decode_flag(find_field(v, "attachment", 3)),
    ) {
        (Ok(tool_call), Ok(structured_output), Ok(reasoning), Ok(attachment)) => Ok(
            ModelCapabilityFacts { tool_call, structured_output, reasoning, attachment },
        ),
        _ => Err(()),
    }
}

fn decode_modalities(v: &JsonValue) -> (r: Result<ModelModalities, ()>)
    ensures
        match (r, read_modalities(v@)) {
            (Ok(a), Ok(b)) => a@ == b,
            (Err(_), Err(_)) => true,
            _ => false,
        },
{
    if !has_record(v, 2) {
        return Err(());
    }
    match (
        decode_text_list(find_field(v, "input", 0)),
        decode_text_list(find_field(v, "output", 1)),
    ) {
        (Ok(input), Ok(output)) => Ok(ModelModalities { input, output }),
        _ => Err(()),
    }
}

/// One of the texts agrees with `s` but for ASCII case.
pub open spec fn lists_ignoring_case(list: Seq<Seq<char>>, s: Seq<char>) -> bool {
    exists|i: int|
        0 <= i < list.len() && text::ascii_lowered(#[trigger] list[i]) == text::ascii_lowered(s)
}

/// Whether a model takes an input modality: what its input modalities say,
/// else for anything but text what is known of attachments.
pub open spec fn input_support(e: EntryView, modality: Seq<char>) -> CapabilityKnown {
    if e.modalities is Some && (e.modalities->0).input is Some {
        if lists_ignoring_case((e.modalities->0).input->0, modality) {
            CapabilityKnown::Yes
        } else {
            CapabilityKnown::No
        }
    } else if text::ascii_lowered(modality) == text::ascii_lowered("text"@) {
        CapabilityKnown::Unknown
    } else {
        match e.model_capabilities {
            Some(c) => known(c.attachment),
            None => CapabilityKnown::Unknown,
        }
    }
}

impl MetadataModelEntry {
    /// The entry that a value states; `None` where it states none.
    pub fn from_value(value: &JsonValue) -> (r: Option<Self>)
        ensures
            match (r, read_entry(value@)) {
                (Some(a), Some(b)) => a@ == b,
                (None, None) => true,
                _ => false,
            },
    {
        if !has_record(value, 2) {
            return None;
        }
        let facts = match find_field(value, "model_capabilities", 0) {
            None => None,
            Some(JsonValue::Null) => None,
            Some(v) => match decode_facts(v) {
                Ok(f) => Some(f),
                Err(_) => {
                    return None;
                },
            },
        };
        let modalities = match find_field(value, "modalities", 1) {
            None => None,
            Some(JsonValue::Null) => None,
            Some(v) => match decode_modalities(v) {
                Ok(m) => Some(m),
                Err(_) => {
                    return None;
                },
            },
        };
        Some(MetadataModelEntry { model_capabilities: facts, modalities })
    }

    /// Whether the model takes the input modality.
    pub fn supports_input_modality(&self, modality: &str) -> (r: CapabilityKnown)
        ensures
            r == input_support(self@, modality@),
    {
        if let Some(m) = &self.modalities {
            if let Some(input) = &m.input {
                let ghost list = text::texts(input@);
                let mut i: usize = 0;
                while i < input.len()
                    invariant
                        i <= input@.len(),
                        list == text::texts(input@),
                        self@.modalities is Some,
                        (self@.modalities->0).input == Some(list),
                        forall|k: int|
                            0 <= k < i ==> text::ascii_lowered(#[trigger] list[k])
                                != text::ascii_lowered(modality@),
                    decreases input@.len() - i,
                {
                    assert(list[i as int] == input@[i as int]@);
                    if text::eq_ignore_ascii_case(input[i].as_str(), modality) {
                        assert(lists_ignoring_case(list, modality@));
                        return CapabilityKnown::Yes;
                    }
                    i += 1;
                }
                return CapabilityKnown::No;
            }
        }
        if text::eq_ignore_ascii_case(modality, "text") {
            return CapabilityKnown::Unknown;
        }
        match &self.model_capabilities {
            Some(c) => CapabilityKnown::from_option(c.attachment),
            None => CapabilityKnown::Unknown,
        }
    }
}

/// The entry of a model in a manifest's extra fields.
pub fn model_entry_from_extra(extra: &Table<JsonValue>, model_id: &str) -> (r: Option<
    MetadataModelEntry,
>)
    ensures
        match (
            r,
            match manifest::model_metadata(extra@, model_id@) {
                Some(j) => read_entry(j),
                None => None,
            },
        ) {
            (Some(a), Some(b)) => a@ == b,
            (None, None) => true,
            _ => false,
        },
{
    match manifest::find_model_metadata(extra, model_id) {
        Some(entry) => MetadataModelEntry::from_value(entry),
        None => None,
    }
}

/// Nothing declared means nothing known: an object without the two fields says
/// neither yes nor no of any modality.
pub proof fn undeclared_is_unknown(m: Map<Seq<char>, json::Json>, modality: Seq<char>)
    requires
        !m.dom().contains("model_capabilities"@),
        !m.dom().contains("modalities"@),
    ensures
        read_entry(json::Json::Object(m)) matches Some(e) && input_support(e, modality)
            == CapabilityKnown::Unknown,
{
}

/// Declared flags are read as they stand, each from its own field; where one is
/// missing or null nothing is known of it.
pub proof fn flags_are_read_as_declared(j: json::Json, f: ModelCapabilityFacts)
    requires
        j is Object,
        read_facts(j) == Ok::<ModelCapabilityFacts, ()>(f),
    ensures
        says_flag(j.field("tool_call"@), f.tool_call),
        says_flag(j.field("structured_output"@), f.structured_output),
        says_flag(j.field("reasoning"@), f.reasoning),
        says_flag(j.field("attachment"@), f.attachment),
{
}

/// The field declares the flag: the truth value itself, or nothing.
pub open spec fn says_flag(v: Option<json::Json>, flag: Option<bool>) -> bool {
    match flag {
        Some(b) => v == Some(json::Json::Bool(b)),
        None => v is None || v == Some(json::Json::Null),
    }
}

/// An object is read unless one of the four flags is neither a truth value nor
/// null.
pub proof fn wrong_flags_are_refused(j: json::Json)
    requires
        j is Object,
    ensures
        read_facts(j) is Ok <==> is_flag(j.field("tool_call"@)) && is_flag(
            j.field("structured_output"@),
        ) && is_flag(j.field("reasoning"@)) && is_flag(j.field("attachment"@)),
{
}

/// The field may hold a flag.
pub open spec fn is_flag(v: Option<json::Json>) -> bool {
    v is None || v == Some(json::Json::Null) || v == Some(json::Json::Bool(true)) || v == Some(
        json::Json::Bool(false),
    )
}

/// Lists of modalities are read text by text, in order.
pub proof fn modalities_are_read_in_order(s: Seq<json::Json>, n: int, k: int)
    requires
        0 <= k < n <= s.len(),
    ensures
        read_texts(s, n) matches Some(t) ==> t.len() == n && s[k] == json::Json::Str(t[k]),
        (forall|i: int| 0 <= i < n ==> (#[trigger] s[i]) is Str) ==> read_texts(s, n) is Some,
        !(s[k] is Str) ==> read_texts(s, n) is None,
    decreases n,
{
    if n > 1 {
        modalities_are_read_in_order(s, n - 1, if k < n - 1 { k } else { 0 });
    } else {
        assert(read_texts(s, 0) == Some(Seq::<Seq<char>>::empty()));
    }
    if forall|i: int| 0 <= i < n ==> (#[trigger] s[i]) is Str {
        assert(s[n - 1] is Str);
    }
}

/// The parts of an entry are read each from its own field.
pub proof fn entries_are_read_by_field(j: json::Json, e: EntryView)
    requires
        j is Object,
        read_entry(j) == Some(e),
    ensures
        match j.field("model_capabilities"@) {
            Some(v) if !(v is Null) => e.model_capabilities matches Some(f) && read_facts(v) == Ok::<
                ModelCapabilityFacts,
                (),
            >(f),
            _ => e.model_capabilities is None,
        },
        match j.field("modalities"@) {
            Some(v) if !(v is Null) => e.modalities matches Some(m) && (v is Object ==> {
                &&& says_list(v.field("input"@), m.input)
                &&& says_list(v.field("output"@), m.output)
            }),
            _ => e.modalities is None,
        },
{
}

/// The field declares the list: the texts themselves, or nothing.
pub open spec fn says_list(v: Option<json::Json>, list: Option<Seq<Seq<char>>>) -> bool {
    match list {
        Some(t) => v matches Some(json::Json::Array(s)) && read_texts(s, s.len() as int) == Some(t),
        None => v is None || v == Some(json::Json::Null),
    }
}

/// Where input modalities are declared they decide; otherwise text is unknown,
/// and other modalities go by what is known of attachments.
pub proof fn declared_modalities_decide(e: EntryView, modality: Seq<char>)
    ensures
        e.modalities matches Some(m) && m.input is Some ==> {
            let list = (e.modalities->0).input->0;
            &&& input_support(e, modality) != CapabilityKnown::Unknown
            &&& input_support(e, modality) == CapabilityKnown::Yes <==> exists|i: int|
                0 <= i < list.len() && text::ascii_lowered(#[trigger] list[i])
                    == text::ascii_lowered(modality)
        },
        !(e.modalities matches Some(m) && m.input is Some) ==> {
            &&& text::ascii_lowered(modality) == text::ascii_lowered("text"@) ==> input_support(
                e,
                modality,
            ) == CapabilityKnown::Unknown
            &&& text::ascii_lowered(modality) != text::ascii_lowered("text"@) ==> match e.model_capabilities {
                Some(f) => match f.attachment {
                    Some(b) => input_support(e, modality) == (if b {
                        CapabilityKnown::Yes
                    } else {
                        CapabilityKnown::No
                    }),
                    None => input_support(e, modality) == CapabilityKnown::Unknown,
                },
                None => input_support(e, modality) == CapabilityKnown::Unknown,
            }
        },
{
}

/// What is known of a model counts, and what is not known is left to the
/// provider.
pub proof fn unknown_is_left_to_the_provider(c: CapabilityKnown, allows: bool, r: bool)
    requires
        call_ensures(CapabilityKnown::or_provider, (c, allows), r),
    ensures
        c == CapabilityKnown::Yes ==> r,
        c == CapabilityKnown::No ==> !r,
        c == CapabilityKnown::Unknown ==> r == allows,
{
}

/// A declared flag says yes or no, and a missing one neither.
pub proof fn missing_flags_say_nothing(v: Option<bool>)
    ensures
        known(Some(true)) == CapabilityKnown::Yes,
        known(Some(false)) == CapabilityKnown::No,
        known(None) == CapabilityKnown::Unknown,
{
}

} // verus!
