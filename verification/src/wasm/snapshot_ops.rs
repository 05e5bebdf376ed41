//! Writing the state down, and taking it over from another instance: all of it
//! or nothing.

use crate::json;
use crate::json::JsonValue;
use crate::text;
use crate::wasm::abi;
use crate::wasm::buffers;
use crate::wasm::buffers::{LoadedManifest, WasmState};
use crate::wasm::state;
use crate::wasm::state::{ManifestEntry, StreamState, WasmStateSnapshot, SNAPSHOT_FORMAT_VERSION};
use crate::wasm::v1;
use crate::wasm::v1::Loaded;
use crate::wasm::AILIB_ABI_VERSION;
use vstd::prelude::*;

verus! {

broadcast use vstd::string::group_string_axioms;

/// A loaded manifest as it is written down.
pub open spec fn entry_of(l: LoadedManifest) -> state::EntryView {
    state::EntryView {
        id: l.manifest.id@,
        raw_yaml: text::lossy_text(l.raw@),
        loaded_at: 0,
    }
}

/// The manifests in the slots that hold one, in order.
pub open spec fn present(slots: Seq<Option<LoadedManifest>>) -> Seq<LoadedManifest>
    decreases slots.len(),
{
    if slots.len() == 0 {
        Seq::empty()
    } else {
        match slots.last() {
            Some(l) => present(slots.drop_last()).push(l),
            None => present(slots.drop_last()),
        }
    }
}

/// What a snapshot of the state is.
pub open spec fn snapshot_of(s: WasmState) -> state::SnapshotView {
    state::SnapshotView {
        version: SNAPSHOT_FORMAT_VERSION,
        abi_version: AILIB_ABI_VERSION,
        manifests: Seq::new(
            present(s.manifests@).len(),
            |i: int| entry_of(present(s.manifests@)[i]),
        ),
        active_streams: Seq::empty(),
        metrics: s.metrics,
    }
}

/// A snapshot of the state.
pub fn snapshot_state_build(s: &WasmState) -> (r: WasmStateSnapshot)
    ensures
        r@ == snapshot_of(*s),
{
    let mut manifests: Vec<ManifestEntry> = Vec::new();
    let mut i: usize = 0;
    let ghost slots = s.manifests@;
    assert(slots.take(0) =~= Seq::empty());
    while i < s.manifests.len()
        invariant
            i <= s.manifests@.len(),
            slots == s.manifests@,
            manifests@.len() == present(slots.take(i as int)).len(),
            forall|k: int|
                0 <= k < manifests@.len() ==> #[trigger] manifests@[k]@ == entry_of(
                    present(slots.take(i as int))[k],
                ),
        decreases s.manifests@.len() - i,
    {
        assert(slots.take(i + 1).drop_last() =~= slots.take(i as int));
        assert(slots.take(i + 1).last() == slots[i as int]);
        if let Some(l) = &s.manifests[i] {
            manifests.push(
                ManifestEntry {
                    id: l.manifest.id.clone(),
                    raw_yaml: text::from_utf8_lossy(&l.raw),
                    loaded_at: 0,
                },
            );
        }
        i += 1;
    }
    assert(slots.take(slots.len() as int) =~= slots);
    let r = WasmStateSnapshot {
        version: SNAPSHOT_FORMAT_VERSION,
        abi_version: AILIB_ABI_VERSION,
        manifests,
        active_streams: Vec::new(),
        metrics: s.metrics,
    };
    assert(r@.manifests =~= snapshot_of(*s).manifests);
    assert(r@.active_streams =~= Seq::empty());
    r
}

/// The answer to a request for a snapshot.
pub open spec fn snapshot_reply(s: WasmState) -> buffers::Reply {
    buffers::Reply::Out(vstd::utf8::encode_utf8(state::snapshot_text(snapshot_of(s))))
}

/// Writes a snapshot of the state.
pub fn ailib_snapshot_state(s: &mut WasmState) -> (r: i32)
    ensures
        buffers::answered(*old(s), *final(s), r, snapshot_reply(*old(s))),
        buffers::same_state(*old(s), *final(s)),
{
    s.clear_err();
    let snap = snapshot_state_build(s);
    assert(snapshot_of(*s) == snapshot_of(*old(s)));
    let t = state::write_snapshot(&snap);
    s.succeed(t.as_str())
}

/// The first of the manifests, from the `k`th on, that was found not to be
/// valid, and why.
pub open spec fn first_bad(
    entries: Seq<state::EntryView>,
    loaded: Seq<Loaded>,
    k: int,
) -> Option<Seq<char>>
    decreases loaded.len() - k,
{
    if 0 <= k < loaded.len() {
        match loaded[k] {
            Ok(_) => first_bad(entries, loaded, k + 1),
            Err(e) => Some("restore manifest '"@ + entries[k].id + "': "@ + e@),
        }
    } else {
        None
    }
}

/// Why a snapshot cannot be restored. A newer writer is refused, an older one
/// understood.
pub open spec fn restore_error(
    input: Seq<u8>,
    snapshot: Result<state::SnapshotView, Seq<char>>,
    loaded: Seq<Loaded>,
) -> Option<Seq<char>> {
    if input.len() == 0 {
        Some(buffers::no_input())
    } else {
        match snapshot {
            Err(e) => Some("snapshot parse: "@ + e),
            Ok(s) => if s.abi_version > AILIB_ABI_VERSION {
                Some(
                    "snapshot abi_version "@ + text::decimal(s.abi_version as nat)
                        + " newer than this WASM ("@ + text::decimal(AILIB_ABI_VERSION as nat)
                        + ")"@,
                )
            } else if s.version > SNAPSHOT_FORMAT_VERSION {
                Some(
                    "snapshot format version "@ + text::decimal(s.version as nat)
                        + " newer than supported ("@ + text::decimal(
                        SNAPSHOT_FORMAT_VERSION as nat,
                    ) + ")"@,
                )
            } else {
                first_bad(s.manifests, loaded, 0)
            },
        }
    }
}

/// How many of the first `n` streams the host must ask for again.
pub open spec fn replays(streams: Seq<state::StreamView>, n: int) -> nat
    decreases n,
{
    if n <= 0 {
        0
    } else {
        replays(streams, n - 1) + (if streams[n - 1].needs_replay {
            1nat
        } else {
            0nat
        })
    }
}

/// What a restore answers: how many manifests, and how many streams to ask for
/// again.
pub open spec fn restore_json(s: state::SnapshotView) -> json::Json {
    json::Json::Object(
        abi::no_entries().insert(
            "restored_manifests"@,
            abi::number_json(s.manifests.len() as u64),
        ).insert(
            "needs_replay_streams"@,
            abi::number_json(
                replays(s.active_streams, s.active_streams.len() as int) as u64,
            ),
        ),
    )
}

/// The slots hold the manifests of a snapshot.
pub open spec fn slots_hold(
    slots: Seq<Option<LoadedManifest>>,
    entries: Seq<state::EntryView>,
    loaded: Seq<Loaded>,
) -> bool {
    &&& slots.len() == entries.len()
    &&& forall|i: int|
        0 <= i < entries.len() ==> v1::holds_loaded(
            #[trigger] slots[i],
            loaded[i]->Ok_0,
            vstd::utf8::encode_utf8(entries[i].raw_yaml),
        )
}

/// The snapshot was restored, or the error says why not and nothing changed.
pub open spec fn restored(
    before: WasmState,
    after: WasmState,
    code: i32,
    input: Seq<u8>,
    snapshot: Result<state::SnapshotView, Seq<char>>,
    loaded: Seq<Loaded>,
) -> bool {
    match restore_error(input, snapshot, loaded) {
        Some(t) => buffers::answered(before, after, code, buffers::Reply::Fail(t))
            && buffers::same_state(before, after),
        None => {
            let s = snapshot->Ok_0;
            &&& buffers::answered(
                before,
                after,
                code,
                buffers::Reply::Out(vstd::utf8::encode_utf8(json::json_text(restore_json(s)))),
            )
            &&& slots_hold(after.manifests@, s.manifests, loaded)
            &&& after.metrics == s.metrics
        },
    }
}

/// Every manifest of the snapshot was looked at.
pub open spec fn all_looked_at(
    snapshot: Result<WasmStateSnapshot, String>,
    loaded: Seq<Loaded>,
) -> bool {
    match snapshot {
        Ok(s) => loaded.len() == s.manifests@.len(),
        Err(_) => true,
    }
}

fn count_replays(streams: &Vec<StreamState>) -> (r: u64)
    ensures
        r == replays(state::stream_views(streams@), streams@.len() as int) as u64,
{
    let ghost views = state::stream_views(streams@);
    let mut n: usize = 0;
    let mut i: usize = 0;
    while i < streams.len()
        invariant
            i <= streams@.len(),
            views == state::stream_views(streams@),
            n <= i,
            n == replays(views, i as int),
        decreases streams@.len() - i,
    {
        assert(views[i as int] == streams@[i as int]@);
        if streams[i].needs_replay {
            n += 1;
        }
        i += 1;
    }
    n as u64
}

fn newer_text(what: &str, found: u32, than: &str, known: u32) -> (r: String)
    ensures
        r@ == what@ + text::decimal(found as nat) + than@ + text::decimal(known as nat) + ")"@,
{
    let mut s = text::cat(what, text::decimal_text(found as u64).as_str());
    s.append(than);
    s.append(text::decimal_text(known as u64).as_str());
    s.append(")");
    s
}

/// Takes over the state of a snapshot. `snapshot` is what the input was read
/// as, and `loaded` what the text of each of its manifests was found to be.
/// Where anything is wrong, nothing changes but the error.
pub fn ailib_restore_state(
    s: &mut WasmState,
    input: &Vec<u8>,
    snapshot: Result<WasmStateSnapshot, String>,
    loaded: Vec<Loaded>,
) -> (r: i32)
    requires
        all_looked_at(snapshot, loaded@),
    ensures
        restored(*old(s), *final(s), r, input@, buffers::outcome(snapshot), loaded@),
{
    s.clear_err();
    if input.len() == 0 {
        return s.fail("null or empty input");
    }
    let snap = match snapshot {
        Ok(x) => x,
        Err(e) => {
            return s.fail(text::cat("snapshot parse: ", e.as_str()).as_str());
        },
    };
    if snap.abi_version > AILIB_ABI_VERSION {
        let t = newer_text(
            "snapshot abi_version ",
            snap.abi_version,
            " newer than this WASM (",
            AILIB_ABI_VERSION,
        );
        return s.fail(t.as_str());
    }
    if snap.version > SNAPSHOT_FORMAT_VERSION {
        let t = newer_text(
            "snapshot format version ",
            snap.version,
            " newer than supported (",
            SNAPSHOT_FORMAT_VERSION,
        );
        return s.fail(t.as_str());
    }
    match restore_manifests(&snap.manifests, loaded) {
        Err(t) => s.fail(t.as_str()),
        Ok(slots) => {
            let out = JsonValue::object().with(
                "restored_manifests",
                JsonValue::number(snap.manifests.len() as u64),
            ).with(
                "needs_replay_streams",
                JsonValue::number(count_replays(&snap.active_streams)),
            );
            s.manifests = slots;
            s.metrics = snap.metrics;
            let t = json::render(&out);
            s.succeed(t.as_str())
        },
    }
}

/// The slots for the manifests of a snapshot, or what is wrong with the first
/// that is not valid.
fn restore_manifests(entries: &Vec<ManifestEntry>, loaded: Vec<Loaded>) -> (r: Result<
    Vec<Option<LoadedManifest>>,
    String,
>)
    requires
        loaded@.len() == entries@.len(),
    ensures
        match (r, first_bad(state::entry_views(entries@), loaded@, 0)) {
            (Ok(slots), None) => slots_hold(slots@, state::entry_views(entries@), loaded@),
            (Err(e), Some(t)) => e@ == t,
            _ => false,
        },
{
    let ghost views = state::entry_views(entries@);
    let ghost all = loaded@;
    let mut rest = loaded;
    let mut back: Vec<Loaded> = Vec::new();
    // Turned round, so that the first can be taken off the end.
    while rest.len() > 0
        invariant
            rest@.len() + back@.len() == all.len(),
            forall|k: int| 0 <= k < rest@.len() ==> #[trigger] rest@[k] == all[k],
            forall|k: int|
                0 <= k < back@.len() ==> #[trigger] back@[k] == all[all.len() - 1 - k],
        decreases rest@.len(),
    {
        if let Some(x) = rest.pop() {
            back.push(x);
        }
    }
    let mut slots: Vec<Option<LoadedManifest>> = Vec::new();
    let mut i: usize = 0;
    while i < entries.len()
        invariant
            i <= entries@.len(),
            views == state::entry_views(entries@),
            all == loaded@,
            all.len() == entries@.len(),
            slots@.len() == i,
            back@.len() == all.len() - i,
            forall|k: int|
                0 <= k < back@.len() ==> #[trigger] back@[k] == all[all.len() - 1 - k],
            first_bad(views, all, 0) == first_bad(views, all, i as int),
            forall|k: int|
                0 <= k < i ==> v1::holds_loaded(
                    #[trigger] slots@[k],
                    all[k]->Ok_0,
                    vstd::utf8::encode_utf8(views[k].raw_yaml),
                ),
        decreases entries@.len() - i,
    {
        assert(views[i as int] == entries@[i as int]@);
        assert(back@[back@.len() - 1] == all[i as int]);
        match back.pop() {
            Some(Ok((manifest, style))) => {
                slots.push(
                    Some(
                        LoadedManifest {
                            manifest,
                            raw: text::bytes_of(entries[i].raw_yaml.as_str()),
                            style,
                        },
                    ),
                );
            },
            Some(Err(e)) => {
                let mut t = text::cat("restore manifest '", entries[i].id.as_str());
                t.append("': ");
                t.append(e.as_str());
                return Err(t);
            },
            None => {},
        }
        i += 1;
    }
    Ok(slots)
}

/// A restore that fails leaves the manifests and the counters as they were.
pub proof fn failed_restore_changes_nothing(
    before: WasmState,
    after: WasmState,
    code: i32,
    input: Seq<u8>,
    snapshot: Result<state::SnapshotView, Seq<char>>,
    loaded: Seq<Loaded>,
)
    requires
        restored(before, after, code, input, snapshot, loaded),
        code != 0,
    ensures
        after.manifests@ == before.manifests@,
        after.metrics == before.metrics,
        after.last_out@ == before.last_out@,
{
}

/// A snapshot of a newer writer is refused, whatever it holds.
pub proof fn newer_snapshot_is_refused(
    before: WasmState,
    after: WasmState,
    code: i32,
    input: Seq<u8>,
    s: state::SnapshotView,
    loaded: Seq<Loaded>,
)
    requires
        restored(before, after, code, input, Ok(s), loaded),
        s.abi_version > AILIB_ABI_VERSION || s.version > SNAPSHOT_FORMAT_VERSION,
    ensures
        code == -1,
        buffers::same_state(before, after),
{
}

proof fn lemma_all_good(entries: Seq<state::EntryView>, loaded: Seq<Loaded>, k: int)
    requires
        0 <= k <= loaded.len(),
        forall|i: int| 0 <= i < loaded.len() ==> (#[trigger] loaded[i]) is Ok,
    ensures
        first_bad(entries, loaded, k) is None,
    decreases loaded.len() - k,
{
    if k < loaded.len() {
        lemma_all_good(entries, loaded, k + 1);
    }
}

proof fn lemma_present(slots: Seq<Option<LoadedManifest>>)
    requires
        forall|i: int| 0 <= i < slots.len() ==> (#[trigger] slots[i]) is Some,
    ensures
        present(slots).len() == slots.len(),
        forall|i: int| 0 <= i < slots.len() ==> #[trigger] present(slots)[i] == slots[i]->0,
    decreases slots.len(),
{
    if slots.len() > 0 {
        assert(slots[slots.len() - 1] is Some);
        let head = slots.drop_last();
        assert forall|i: int| 0 <= i < head.len() implies (#[trigger] head[i]) is Some by {
            assert(slots[i] is Some);
        }
        lemma_present(head);
    }
}

/// The manifest was loaded from text and is found valid again, and the same.
pub open spec fn loads_alike(l: LoadedManifest, again: Loaded) -> bool {
    vstd::utf8::valid_utf8(l.raw@) && again == Ok::<
        (crate::protocol::manifest::ProtocolManifest, crate::protocol::manifest::ApiStyle),
        String,
    >((l.manifest, l.style))
}

/// The slot holds the manifest, the API style and the bytes of another.
pub open spec fn holds_again(slot: Option<LoadedManifest>, l: LoadedManifest) -> bool {
    v1::holds_loaded(slot, (l.manifest, l.style), l.raw@)
}

/// What a snapshot wrote brings every manifest and the counters back, into
/// whatever instance it is restored, and the answer counts the manifests. They
/// come back in their order; where no slot was empty, each handle leads to the
/// same manifest, API style and bytes as it did. The bytes that were written
/// are read as the snapshot, and the manifests in it are read alike again.
pub proof fn snapshot_restores_the_state(
    origin: WasmState,
    written: WasmState,
    written_code: i32,
    before: WasmState,
    after: WasmState,
    code: i32,
    loaded: Seq<Loaded>,
)
    requires
        buffers::answered(origin, written, written_code, snapshot_reply(origin)),
        restored(before, after, code, written.last_out@, Ok(snapshot_of(origin)), loaded),
        loaded.len() == present(origin.manifests@).len(),
        forall|i: int|
            0 <= i < loaded.len() ==> loads_alike(
                present(origin.manifests@)[i],
                #[trigger] loaded[i],
            ),
    ensures
        written_code == 0,
        code == 0,
        after.metrics == origin.metrics,
        after.manifests@.len() == present(origin.manifests@).len(),
        forall|i: int|
            0 <= i < after.manifests@.len() ==> holds_again(
                #[trigger] after.manifests@[i],
                present(origin.manifests@)[i],
            ),
        (forall|i: int|
            0 <= i < origin.manifests@.len() ==> (#[trigger] origin.manifests@[i]) is Some) ==> {
            &&& after.manifests@.len() == origin.manifests@.len()
            &&& forall|i: int|
                0 <= i < after.manifests@.len() ==> holds_again(
                    #[trigger] after.manifests@[i],
                    origin.manifests@[i]->0,
                )
        },
        after.last_out@ == vstd::utf8::encode_utf8(
            json::json_text(
                json::Json::Object(
                    abi::no_entries().insert(
                        "restored_manifests"@,
                        abi::number_json(present(origin.manifests@).len() as u64),
                    ).insert("needs_replay_streams"@, abi::number_json(0)),
                ),
            ),
        ),
{
    let s = snapshot_of(origin);
    let here = present(origin.manifests@);
    lemma_all_good(s.manifests, loaded, 0);
    reveal_strlit("{");
    vstd::utf8::encode_utf8_first_scalar(state::snapshot_text(s));
    assert(written.last_out@.len() > 0);
    assert forall|i: int| 0 <= i < here.len() implies holds_again(
        #[trigger] after.manifests@[i],
        here[i],
    ) by {
        assert(loads_alike(here[i], loaded[i]));
        assert(s.manifests[i] == entry_of(here[i]));
        vstd::utf8::decode_utf8_encode_utf8(here[i].raw@);
    }
    if forall|i: int|
        0 <= i < origin.manifests@.len() ==> (#[trigger] origin.manifests@[i]) is Some {
        lemma_present(origin.manifests@);
        assert forall|i: int| 0 <= i < after.manifests@.len() implies holds_again(
            #[trigger] after.manifests@[i],
            origin.manifests@[i]->0,
        ) by {
            assert(here[i] == origin.manifests@[i]->0);
        }
    }
}

/// The first manifest that is not valid is the one reported, and where all are
/// valid none is.
pub proof fn first_bad_manifest_is_reported(
    entries: Seq<state::EntryView>,
    loaded: Seq<Loaded>,
    from: int,
    k: int,
)
    requires
        0 <= from <= k <= loaded.len(),
        forall|j: int| from <= j < k ==> (#[trigger] loaded[j]) is Ok,
        k < loaded.len() ==> loaded[k] is Err,
    ensures
        k == loaded.len() ==> first_bad(entries, loaded, from) is None,
        k < loaded.len() ==> first_bad(entries, loaded, from) == Some(
            "restore manifest '"@ + entries[k].id + "': "@ + loaded[k]->Err_0@,
        ),
    decreases k - from,
{
    if from < k {
        assert(loaded[from] is Ok);
        first_bad_manifest_is_reported(entries, loaded, from + 1, k);
    }
}

/// The streams that the host must ask for again.
pub open spec fn replay_places(streams: Seq<state::StreamView>, n: int) -> Set<int> {
    Set::new(|i: int| 0 <= i < n && streams[i].needs_replay)
}

/// As many streams are reported for replay as need it.
pub proof fn replays_are_counted(streams: Seq<state::StreamView>, n: int)
    requires
        0 <= n <= streams.len(),
    ensures
        replay_places(streams, n).finite(),
        replays(streams, n) == replay_places(streams, n).len(),
    decreases n,
{
    if n > 0 {
        replays_are_counted(streams, n - 1);
        let rest = replay_places(streams, n - 1);
        if streams[n - 1].needs_replay {
            assert(replay_places(streams, n) =~= rest.insert(n - 1));
        } else {
            assert(replay_places(streams, n) =~= rest);
        }
    } else {
        assert(replay_places(streams, n) =~= Set::empty());
    }
}

/// A snapshot holds every manifest that is loaded, with its id and its text, and
/// the counters, under the versions of this module.
pub proof fn snapshots_hold_everything(s: WasmState, i: int)
    requires
        forall|k: int| 0 <= k < s.manifests@.len() ==> (#[trigger] s.manifests@[k]) is Some,
        0 <= i < s.manifests@.len(),
    ensures
        ({
            let r = snapshot_of(s);
            let l = s.manifests@[i]->0;
            &&& r.manifests.len() == s.manifests@.len()
            &&& r.manifests[i].id == l.manifest.id@
            &&& vstd::utf8::valid_utf8(l.raw@) ==> vstd::utf8::encode_utf8(r.manifests[i].raw_yaml)
                == l.raw@
            &&& r.metrics == s.metrics
            &&& r.version == 1
            &&& r.abi_version == 2
            &&& r.active_streams.len() == 0
        }),
{
    lemma_present(s.manifests@);
    let l = s.manifests@[i]->0;
    if vstd::utf8::valid_utf8(l.raw@) {
        vstd::utf8::decode_utf8_encode_utf8(l.raw@);
    }
}

/// A good snapshot of this or an older writer replaces the whole state.
pub proof fn good_snapshot_replaces_the_state(
    before: WasmState,
    after: WasmState,
    code: i32,
    input: Seq<u8>,
    s: state::SnapshotView,
    loaded: Seq<Loaded>,
    i: int,
)
    requires
        restored(before, after, code, input, Ok(s), loaded),
        input.len() > 0,
        s.abi_version <= 2,
        s.version <= 1,
        loaded.len() == s.manifests.len(),
        forall|k: int| 0 <= k < loaded.len() ==> (#[trigger] loaded[k]) is Ok,
        0 <= i < loaded.len(),
    ensures
        code == 0,
        after.metrics == s.metrics,
        after.manifests@.len() == s.manifests.len(),
        after.manifests@[i] matches Some(l) && (l.manifest, l.style) == loaded[i]->Ok_0 && l.raw@
            == vstd::utf8::encode_utf8(s.manifests[i].raw_yaml),
{
    lemma_all_good(s.manifests, loaded, 0);
    assert(v1::holds_loaded(
        after.manifests@[i],
        loaded[i]->Ok_0,
        vstd::utf8::encode_utf8(s.manifests[i].raw_yaml),
    ));
}

} // verus!
