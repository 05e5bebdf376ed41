//! The state of the module in a form that can be written down, moved to
//! another instance and read back.

use crate::record;
use crate::text;
use vstd::prelude::*;

verus! {

broadcast use vstd::string::group_string_axioms;

/// The version of the snapshot format.
pub const SNAPSHOT_FORMAT_VERSION: u32 = 1;

/// A loaded manifest as the text that it was loaded from.
#[derive(Debug, Clone, PartialEq, Eq)]
pub struct ManifestEntry {
    pub id: String,
    pub raw_yaml: String,
    /// Seconds since the epoch, 0 where unknown.
    pub loaded_at: u64,
}

/// What a manifest entry is.
pub struct EntryView {
    pub id: Seq<char>,
    pub raw_yaml: Seq<char>,
    pub loaded_at: u64,
}

impl View for ManifestEntry {
    type V = EntryView;

    open spec fn view(&self) -> EntryView {
        EntryView { id: self.id@, raw_yaml: self.raw_yaml@, loaded_at: self.loaded_at }
    }
}

/// The views of entries, in order.
pub open spec fn entry_views(v: Seq<ManifestEntry>) -> Seq<EntryView> {
    Seq::new(v.len(), |i: int| v[i]@)
}

/// Counters that survive an upgrade.
#[derive(Clone, Copy, PartialEq, Eq, Structural, Debug)]
pub struct WasmMetrics {
    pub total_calls: u64,
    pub total_errors: u64,
    pub total_tokens_in: u64,
    pub total_tokens_out: u64,
}

/// All counters at zero.
pub open spec fn no_metrics() -> WasmMetrics {
    WasmMetrics { total_calls: 0, total_errors: 0, total_tokens_in: 0, total_tokens_out: 0 }
}

impl Default for WasmMetrics {
    fn default() -> (r: Self)
        ensures
            r == no_metrics(),
    {
        WasmMetrics { total_calls: 0, total_errors: 0, total_tokens_in: 0, total_tokens_out: 0 }
    }
}

/// A stream that was under way. Streams live in the host, so the module itself
/// never has one.
#[derive(Debug, Clone, PartialEq, Eq)]
pub struct StreamState {
    pub stream_id: String,
    pub provider_id: String,
    pub model: String,
    pub accumulated_content: String,
    pub accumulated_thinking: String,
    pub tokens_so_far: u64,
    pub last_event_index: u32,
    /// The host must ask the provider again.
    pub needs_replay: bool,
    pub started_at: u64,
}

/// What a stream state is.
pub struct StreamView {
    pub stream_id: Seq<char>,
    pub provider_id: Seq<char>,
    pub model: Seq<char>,
    pub accumulated_content: Seq<char>,
    pub accumulated_thinking: Seq<char>,
    pub tokens_so_far: u64,
    pub last_event_index: u32,
    pub needs_replay: bool,
    pub started_at: u64,
}

impl View for StreamState {
    type V = StreamView;

    open spec fn view(&self) -> StreamView {
        StreamView {
            stream_id: self.stream_id@,
            provider_id: self.provider_id@,
            model: self.model@,
            accumulated_content: self.accumulated_content@,
            accumulated_thinking: self.accumulated_thinking@,
            tokens_so_far: self.tokens_so_far,
            last_event_index: self.last_event_index,
            needs_replay: self.needs_replay,
            started_at: self.started_at,
        }
    }
}

impl Default for StreamState {
    fn default() -> (r: Self)
        ensures
            r@ == (StreamView {
                stream_id: Seq::empty(),
                provider_id: Seq::empty(),
                model: Seq::empty(),
                accumulated_content: Seq::empty(),
                accumulated_thinking: Seq::empty(),
                tokens_so_far: 0,
                last_event_index: 0,
                needs_replay: false,
                started_at: 0,
            }),
    {
        let r = StreamState {
            stream_id: String::new(),
            provider_id: String::new(),
            model: String::new(),
            accumulated_content: String::new(),
            accumulated_thinking: String::new(),
            tokens_so_far: 0,
            last_event_index: 0,
            needs_replay: false,
            started_at: 0,
        };
        assert(r.stream_id@ =~= Seq::empty());
        r
    }
}

/// The views of streams, in order.
pub open spec fn stream_views(v: Seq<StreamState>) -> Seq<StreamView> {
    Seq::new(v.len(), |i: int| v[i]@)
}

/// The whole state of a module.
#[derive(Debug, Clone, PartialEq, Eq)]
pub struct WasmStateSnapshot {
    /// The version of the format.
    pub version: u32,
    /// The interface version of the module that wrote it.
    pub abi_version: u32,
    pub manifests: Vec<ManifestEntry>,
    pub active_streams: Vec<StreamState>,
    pub metrics: WasmMetrics,
}

/// What a snapshot is.
pub struct SnapshotView {
    pub version: u32,
    pub abi_version: u32,
    pub manifests: Seq<EntryView>,
    pub active_streams: Seq<StreamView>,
    pub metrics: WasmMetrics,
}

impl View for WasmStateSnapshot {
    type V = SnapshotView;

    open spec fn view(&self) -> SnapshotView {
        SnapshotView {
            version: self.version,
            abi_version: self.abi_version,
            manifests: entry_views(self.manifests@),
            active_streams: stream_views(self.active_streams@),
            metrics: self.metrics,
        }
    }
}

impl Default for WasmStateSnapshot {
    fn default() -> (r: Self)
        ensures
            r@ == (SnapshotView {
                version: 0,
                abi_version: 0,
                manifests: Seq::empty(),
                active_streams: Seq::empty(),
                metrics: no_metrics(),
            }),
    {
        let r = WasmStateSnapshot {
            version: 0,
            abi_version: 0,
            manifests: Vec::new(),
            active_streams: Vec::new(),
            metrics: WasmMetrics::default(),
        };
        assert(r@.manifests =~= Seq::empty());
        assert(r@.active_streams =~= Seq::empty());
        r
    }
}

impl WasmStateSnapshot {
    /// A snapshot of nothing.
    pub fn new(abi_version: u32) -> (r: Self)
        ensures
            r@ == (SnapshotView {
                version: SNAPSHOT_FORMAT_VERSION,
                abi_version,
                manifests: Seq::empty(),
                active_streams: Seq::empty(),
                metrics: no_metrics(),
            }),
    {
        let r = WasmStateSnapshot {
            version: SNAPSHOT_FORMAT_VERSION,
            abi_version,
            manifests: Vec::new(),
            active_streams: Vec::new(),
            metrics: WasmMetrics::default(),
        };
        assert(r@.manifests =~= Seq::empty());
        assert(r@.active_streams =~= Seq::empty());
        r
    }
}

/// A number as a field's value.
pub open spec fn number_text(n: u64) -> Seq<char> {
    text::decimal(n as nat)
}

/// The JSON text of a manifest entry.
pub open spec fn entry_text(e: EntryView) -> Seq<char> {
    record::record_text(
        seq![
            record::field_text("id"@, record::string_text(e.id)),
            record::field_text("raw_yaml"@, record::string_text(e.raw_yaml)),
            record::field_text("loaded_at"@, number_text(e.loaded_at)),
        ],
    )
}

/// The JSON text of a stream state.
pub open spec fn stream_text(s: StreamView) -> Seq<char> {
    record::record_text(
        seq![
            record::field_text("stream_id"@, record::string_text(s.stream_id)),
            record::field_text("provider_id"@, record::string_text(s.provider_id)),
            record::field_text("model"@, record::string_text(s.model)),
            record::field_text(
                "accumulated_content"@,
                record::string_text(s.accumulated_content),
            ),
            record::field_text(
                "accumulated_thinking"@,
                record::string_text(s.accumulated_thinking),
            ),
            record::field_text("tokens_so_far"@, number_text(s.tokens_so_far)),
            record::field_text("last_event_index"@, number_text(s.last_event_index as u64)),
            record::field_text("needs_replay"@, record::bool_text(s.needs_replay)),
            record::field_text("started_at"@, number_text(s.started_at)),
        ],
    )
}

/// The JSON text of the counters.
pub open spec fn metrics_text(m: WasmMetrics) -> Seq<char> {
    record::record_text(
        seq![
            record::field_text("total_calls"@, number_text(m.total_calls)),
            record::field_text("total_errors"@, number_text(m.total_errors)),
            record::field_text("total_tokens_in"@, number_text(m.total_tokens_in)),
            record::field_text("total_tokens_out"@, number_text(m.total_tokens_out)),
        ],
    )
}

/// The JSON text of a snapshot.
pub open spec fn snapshot_text(s: SnapshotView) -> Seq<char> {
    record::record_text(
        seq![
            record::field_text("version"@, number_text(s.version as u64)),
            record::field_text("abi_version"@, number_text(s.abi_version as u64)),
            record::field_text(
                "manifests"@,
                record::list_text(Seq::new(s.manifests.len(), |i: int| entry_text(s.manifests[i]))),
            ),
            record::field_text(
                "active_streams"@,
                record::list_text(
                    Seq::new(s.active_streams.len(), |i: int| stream_text(s.active_streams[i])),
                ),
            ),
            record::field_text("metrics"@, metrics_text(s.metrics)),
        ],
    )
}

fn write_entry(e: &ManifestEntry) -> (r: String)
    ensures
        r@ == entry_text(e@),
{
    let fields = vec![
        record::write_field("id", record::write_string(e.id.as_str())),
        record::write_field("raw_yaml", record::write_string(e.raw_yaml.as_str())),
        record::write_field("loaded_at", text::decimal_text(e.loaded_at)),
    ];
    assert(text::texts(fields@) =~= seq![
        record::field_text("id"@, record::string_text(e@.id)),
        record::field_text("raw_yaml"@, record::string_text(e@.raw_yaml)),
        record::field_text("loaded_at"@, number_text(e@.loaded_at)),
    ]);
    record::write_record(&fields)
}

fn write_stream(s: &StreamState) -> (r: String)
    ensures
        r@ == stream_text(s@),
{
    let fields = vec![
        record::write_field("stream_id", record::write_string(s.stream_id.as_str())),
        record::write_field("provider_id", record::write_string(s.provider_id.as_str())),
        record::write_field("model", record::write_string(s.model.as_str())),
        record::write_field(
            "accumulated_content",
            record::write_string(s.accumulated_content.as_str()),
        ),
        record::write_field(
            "accumulated_thinking",
            record::write_string(s.accumulated_thinking.as_str()),
        ),
        record::write_field("tokens_so_far", text::decimal_text(s.tokens_so_far)),
        record::write_field("last_event_index", text::decimal_text(s.last_event_index as u64)),
        record::write_field("needs_replay", record::write_bool(s.needs_replay)),
        record::write_field("started_at", text::decimal_text(s.started_at)),
    ];
    assert(text::texts(fields@) =~= seq![
        record::field_text("stream_id"@, record::string_text(s@.stream_id)),
        record::field_text("provider_id"@, record::string_text(s@.provider_id)),
        record::field_text("model"@, record::string_text(s@.model)),
        record::field_text("accumulated_content"@, record::string_text(s@.accumulated_content)),
        record::field_text("accumulated_thinking"@, record::string_text(s@.accumulated_thinking)),
        record::field_text("tokens_so_far"@, number_text(s@.tokens_so_far)),
        record::field_text("last_event_index"@, number_text(s@.last_event_index as u64)),
        record::field_text("needs_replay"@, record::bool_text(s@.needs_replay)),
        record::field_text("started_at"@, number_text(s@.started_at)),
    ]);
    record::write_record(&fields)
}

/// The JSON text of the counters.
pub fn write_metrics(m: &WasmMetrics) -> (r: String)
    ensures
        r@ == metrics_text(*m),
{
    let fields = vec![
        record::write_field("total_calls", text::decimal_text(m.total_calls)),
        record::write_field("total_errors", text::decimal_text(m.total_errors)),
        record::write_field("total_tokens_in", text::decimal_text(m.total_tokens_in)),
        record::write_field("total_tokens_out", text::decimal_text(m.total_tokens_out)),
    ];
    assert(text::texts(fields@) =~= seq![
        record::field_text("total_calls"@, number_text(m.total_calls)),
        record::field_text("total_errors"@, number_text(m.total_errors)),
        record::field_text("total_tokens_in"@, number_text(m.total_tokens_in)),
        record::field_text("total_tokens_out"@, number_text(m.total_tokens_out)),
    ]);
    record::write_record(&fields)
}

/// The JSON text of a snapshot.
pub fn write_snapshot(s: &WasmStateSnapshot) -> (r: String)
    ensures
        r@ == snapshot_text(s@),
{
    let mut entries: Vec<String> = Vec::new();
    let mut i: usize = 0;
    while i < s.manifests.len()
        invariant
            i <= s.manifests@.len(),
            entries@.len() == i,
            forall|k: int| 0 <= k < i ==> #[trigger] entries@[k]@ == entry_text(s.manifests@[k]@),
        decreases s.manifests@.len() - i,
    {
        entries.push(write_entry(&s.manifests[i]));
        i += 1;
    }
    let mut streams: Vec<String> = Vec::new();
    let mut j: usize = 0;
    while j < s.active_streams.len()
        invariant
            j <= s.active_streams@.len(),
            streams@.len() == j,
            forall|k: int|
                0 <= k < j ==> #[trigger] streams@[k]@ == stream_text(s.active_streams@[k]@),
        decreases s.active_streams@.len() - j,
    {
        streams.push(write_stream(&s.active_streams[j]));
        j += 1;
    }
    assert(text::texts(entries@) =~= Seq::new(
        s@.manifests.len(),
        |i: int| entry_text(s@.manifests[i]),
    ));
    assert(text::texts(streams@) =~= Seq::new(
        s@.active_streams.len(),
        |i: int| stream_text(s@.active_streams[i]),
    ));
    let fields = vec![
        record::write_field("version", text::decimal_text(s.version as u64)),
        record::write_field("abi_version", text::decimal_text(s.abi_version as u64)),
        record::write_field("manifests", record::write_list(&entries)),
        record::write_field("active_streams", record::write_list(&streams)),
        record::write_field("metrics", write_metrics(&s.metrics)),
    ];
    assert(text::texts(fields@) =~= seq![
        record::field_text("version"@, number_text(s@.version as u64)),
        record::field_text("abi_version"@, number_text(s@.abi_version as u64)),
        record::field_text(
            "manifests"@,
            record::list_text(Seq::new(s@.manifests.len(), |i: int| entry_text(s@.manifests[i]))),
        ),
        record::field_text(
            "active_streams"@,
            record::list_text(
                Seq::new(s@.active_streams.len(), |i: int| stream_text(s@.active_streams[i])),
            ),
        ),
        record::field_text("metrics"@, metrics_text(s@.metrics)),
    ]);
    record::write_record(&fields)
}

/// The counters are written each under its own name.
pub proof fn counters_are_written_whole(m: WasmMetrics)
    ensures
        metrics_text(m) == record::record_text(
            seq![
                record::field_text("total_calls"@, text::decimal(m.total_calls as nat)),
                record::field_text("total_errors"@, text::decimal(m.total_errors as nat)),
                record::field_text("total_tokens_in"@, text::decimal(m.total_tokens_in as nat)),
                record::field_text("total_tokens_out"@, text::decimal(m.total_tokens_out as nat)),
            ],
        ),
{
}

/// A manifest is written with its id, its text and when it was loaded.
pub proof fn entries_are_written_whole(e: EntryView)
    ensures
        entry_text(e) == record::record_text(
            seq![
                record::field_text("id"@, record::string_text(e.id)),
                record::field_text("raw_yaml"@, record::string_text(e.raw_yaml)),
                record::field_text("loaded_at"@, text::decimal(e.loaded_at as nat)),
            ],
        ),
{
}

/// A snapshot is written with its versions, every manifest and every stream in
/// order, and the counters.
pub proof fn snapshots_are_written_whole(s: SnapshotView, manifests: Seq<Seq<char>>, streams: Seq<Seq<char>>)
    requires
        manifests.len() == s.manifests.len(),
        forall|i: int|
            0 <= i < manifests.len() ==> #[trigger] manifests[i] == entry_text(s.manifests[i]),
        streams.len() == s.active_streams.len(),
        forall|i: int|
            0 <= i < streams.len() ==> #[trigger] streams[i] == stream_text(s.active_streams[i]),
    ensures
        snapshot_text(s) == record::record_text(
            seq![
                record::field_text("version"@, text::decimal(s.version as nat)),
                record::field_text("abi_version"@, text::decimal(s.abi_version as nat)),
                record::field_text("manifests"@, record::list_text(manifests)),
                record::field_text("active_streams"@, record::list_text(streams)),
                record::field_text("metrics"@, metrics_text(s.metrics)),
            ],
        ),
{
    assert(manifests =~= Seq::new(s.manifests.len(), |i: int| entry_text(s.manifests[i])));
    assert(streams =~= Seq::new(s.active_streams.len(), |i: int| stream_text(s.active_streams[i])));
}

/// A stream is written with everything that it holds.
pub proof fn streams_are_written_whole(s: StreamView)
    ensures
        stream_text(s) == record::record_text(
            seq![
                record::field_text("stream_id"@, record::string_text(s.stream_id)),
                record::field_text("provider_id"@, record::string_text(s.provider_id)),
                record::field_text("model"@, record::string_text(s.model)),
                record::field_text(
                    "accumulated_content"@,
                    record::string_text(s.accumulated_content),
                ),
                record::field_text(
                    "accumulated_thinking"@,
                    record::string_text(s.accumulated_thinking),
                ),
                record::field_text("tokens_so_far"@, text::decimal(s.tokens_so_far as nat)),
                record::field_text("last_event_index"@, text::decimal(s.last_event_index as nat)),
                record::field_text(
                    "needs_replay"@,
                    if s.needs_replay {
                        "true"@
                    } else {
                        "false"@
                    },
                ),
                record::field_text("started_at"@, text::decimal(s.started_at as nat)),
            ],
        ),
{
}

} // verus!
