//! Finding provider manifests and model configurations: where to look, in
//! which order, and what to make of what is found there.

use crate::credentials;
use crate::error;
use crate::error::ProtocolError;
use crate::json;
use crate::json::JsonValue;
use crate::protocol::manifest::ProtocolManifest;
use crate::table::Table;
use crate::text;
use vstd::prelude::*;

verus! {

broadcast use vstd::string::group_string_axioms;

/// How a file is written.
#[derive(Debug, Clone, Copy, PartialEq, Eq, Structural)]
pub enum FileFormat {
    Json,
    Yaml,
}

/// A directory below a root.
#[derive(Debug)]
pub struct Location {
    pub root: String,
    pub parts: Vec<String>,
}

/// What a location is.
pub struct LocationView {
    pub root: Seq<char>,
    pub parts: Seq<Seq<char>>,
}

impl View for Location {
    type V = LocationView;

    open spec fn view(&self) -> LocationView {
        LocationView { root: self.root@, parts: text::texts(self.parts@) }
    }
}

/// One place to look for a manifest.
#[derive(Debug)]
pub enum LoadStep {
    /// A file, taken where it exists.
    Local { dir: Location, file: String, format: FileFormat },
    /// A URL. What a decisive one gives is the result, good or bad; another is
    /// taken only where it gives a manifest.
    Remote { url: String, format: FileFormat, decisive: bool },
}

/// What a step is.
pub enum StepView {
    Local { dir: LocationView, file: Seq<char>, format: FileFormat },
    Remote { url: Seq<char>, format: FileFormat, decisive: bool },
}

impl View for LoadStep {
    type V = StepView;

    open spec fn view(&self) -> StepView {
        match self {
            LoadStep::Local { dir, file, format } => StepView::Local {
                dir: dir@,
                file: file@,
                format: *format,
            },
            LoadStep::Remote { url, format, decisive } => StepView::Remote {
                url: url@,
                format: *format,
                decisive: *decisive,
            },
        }
    }
}

/// The views of steps, in order.
pub open spec fn step_views(v: Seq<LoadStep>) -> Seq<StepView> {
    Seq::new(v.len(), |i: int| v[i]@)
}

/// The text is an HTTP URL.
pub open spec fn is_url(s: Seq<char>) -> bool {
    text::has_prefix(s, "http://"@) || text::has_prefix(s, "https://"@)
}

fn looks_like_url(s: &str) -> (r: bool)
    ensures
        r == is_url(s@),
{
    text::starts_with(s, "http://") || text::starts_with(s, "https://")
}

/// Where the environment says that manifests are: `AI_PROTOCOL_DIR`, else
/// `AI_PROTOCOL_PATH`.
pub open spec fn env_root(vars: Map<Seq<char>, String>) -> Option<Seq<char>> {
    match credentials::variable(vars, "AI_PROTOCOL_DIR"@) {
        Some(d) => Some(d),
        None => credentials::variable(vars, "AI_PROTOCOL_PATH"@),
    }
}

/// Where the environment says that manifests are.
pub fn protocol_root(vars: &Table<String>) -> (r: Option<&str>)
    ensures
        credentials::opt_str(r) == env_root(vars@),
{
    match vars.get("AI_PROTOCOL_DIR") {
        Some(d) => Some(d.as_str()),
        None => match vars.get("AI_PROTOCOL_PATH") {
            Some(d) => Some(d.as_str()),
            None => None,
        },
    }
}

/// The roots looked at where nothing else is said.
pub open spec fn default_roots() -> Seq<Seq<char>> {
    seq!["ai-protocol"@, "../ai-protocol"@, "../../ai-protocol"@, "D:\\ai-protocol"@]
}

fn usual_roots() -> (r: Vec<String>)
    ensures
        text::texts(r@) == default_roots(),
{
    let mut out: Vec<String> = Vec::new();
    out.push("ai-protocol".to_string());
    out.push("../ai-protocol".to_string());
    out.push("../../ai-protocol".to_string());
    out.push("D:\\ai-protocol".to_string());
    assert(text::texts(out@) =~= default_roots());
    out
}

/// The local roots in the order they are looked at: the configured one, the
/// environment's where it is no URL, then the usual ones.
pub open spec fn local_roots(base: Option<Seq<char>>, env: Option<Seq<char>>) -> Seq<Seq<char>> {
    let first = match base {
        Some(b) => seq![b],
        None => Seq::empty(),
    };
    let second = match env {
        Some(e) => if is_url(e) {
            Seq::empty()
        } else {
            seq![e]
        },
        None => Seq::empty(),
    };
    first + second + default_roots()
}

/// The local roots in the order they are looked at.
pub fn search_roots(base: Option<&str>, env: Option<&str>) -> (r: Vec<String>)
    ensures
        text::texts(r@) == local_roots(credentials::opt_str(base), credentials::opt_str(env)),
{
    let mut out: Vec<String> = Vec::new();
    if let Some(b) = base {
        out.push(b.to_string());
    }
    if let Some(e) = env {
        if !looks_like_url(e) {
            out.push(e.to_string());
        }
    }
    let mut rest = usual_roots();
    let ghost given = text::texts(out@);
    let ghost usual = text::texts(rest@);
    out.append(&mut rest);
    assert(text::texts(out@) =~= given + usual);
    assert(text::texts(out@) =~= local_roots(
        credentials::opt_str(base),
        credentials::opt_str(env),
    ));
    out
}

/// The steps for a provider below one root: the newer format first, and of
/// each format the compiled file before its source.
pub open spec fn root_steps(root: Seq<char>, id: Seq<char>) -> Seq<StepView> {
    seq![
        StepView::Local {
            dir: LocationView { root, parts: seq!["dist"@, "v2"@, "providers"@] },
            file: id + ".json"@,
            format: FileFormat::Json,
        },
        StepView::Local {
            dir: LocationView { root, parts: seq!["v2"@, "providers"@] },
            file: id + ".yaml"@,
            format: FileFormat::Yaml,
        },
        StepView::Local {
            dir: LocationView { root, parts: seq!["dist"@, "v1"@, "providers"@] },
            file: id + ".json"@,
            format: FileFormat::Json,
        },
        StepView::Local {
            dir: LocationView { root, parts: seq!["v1"@, "providers"@] },
            file: id + ".yaml"@,
            format: FileFormat::Yaml,
        },
    ]
}

/// The steps for a provider below the first `n` roots.
pub open spec fn roots_steps(roots: Seq<Seq<char>>, id: Seq<char>, n: int) -> Seq<StepView>
    decreases n,
{
    if n <= 0 {
        Seq::empty()
    } else {
        roots_steps(roots, id, n - 1) + root_steps(roots[n - 1], id)
    }
}

/// A root URL with a slash at its end.
pub open spec fn with_slash(root: Seq<char>) -> Seq<char> {
    if text::has_suffix(root, "/"@) {
        root
    } else {
        root + "/"@
    }
}

/// Where the canonical manifests are.
pub const CANONICAL_ROOT: &'static str =
    "https://raw.githubusercontent.com/ailib-official/ai-protocol/main/";

/// Where the canonical identity map is.
pub const CANONICAL_IDENTITY_MAP: &'static str =
    "https://raw.githubusercontent.com/ailib-official/ai-protocol/main/dist/provider-identity.json";

/// The steps for a provider where the environment's root is a URL: it is asked
/// for both formats. What it says against the second one ends the search.
pub open spec fn remote_steps(root: Seq<char>, id: Seq<char>) -> Seq<StepView> {
    seq![
        StepView::Remote {
            url: with_slash(root) + "dist/v1/providers/"@ + id + ".json"@,
            format: FileFormat::Json,
            decisive: false,
        },
        StepView::Remote {
            url: with_slash(root) + "v1/providers/"@ + id + ".yaml"@,
            format: FileFormat::Yaml,
            decisive: true,
        },
    ]
}

/// The last steps for a provider: the canonical manifests.
pub open spec fn canonical_steps(id: Seq<char>) -> Seq<StepView> {
    seq![
        StepView::Remote {
            url: CANONICAL_ROOT@ + "dist/v2/providers/"@ + id + ".json"@,
            format: FileFormat::Json,
            decisive: false,
        },
        StepView::Remote {
            url: CANONICAL_ROOT@ + "dist/v1/providers/"@ + id + ".json"@,
            format: FileFormat::Json,
            decisive: false,
        },
        StepView::Remote {
            url: CANONICAL_ROOT@ + "v1/providers/"@ + id + ".yaml"@,
            format: FileFormat::Yaml,
            decisive: false,
        },
    ]
}

/// The steps for a provider below the configured root.
pub open spec fn base_steps(base: Option<Seq<char>>, id: Seq<char>) -> Seq<StepView> {
    match base {
        Some(b) => root_steps(b, id),
        None => Seq::empty(),
    }
}

/// The steps for a provider where the environment says, a directory or a URL.
pub open spec fn env_steps(env: Option<Seq<char>>, id: Seq<char>) -> Seq<StepView> {
    match env {
        Some(e) => if is_url(e) {
            remote_steps(e, id)
        } else {
            root_steps(e, id)
        },
        None => Seq::empty(),
    }
}

/// All steps for a provider: below the configured root, where the environment
/// says, below the usual roots, and last the canonical manifests.
pub open spec fn provider_steps(
    base: Option<Seq<char>>,
    env: Option<Seq<char>>,
    id: Seq<char>,
) -> Seq<StepView> {
    base_steps(base, id) + env_steps(env, id) + roots_steps(
        default_roots(),
        id,
        default_roots().len() as int,
    ) + canonical_steps(id)
}

fn parts2(a: &str, b: &str) -> (r: Vec<String>)
    ensures
        text::texts(r@) == seq![a@, b@],
{
    let mut out: Vec<String> = Vec::new();
    out.push(a.to_string());
    out.push(b.to_string());
    assert(text::texts(out@) =~= seq![a@, b@]);
    out
}

fn parts3(a: &str, b: &str, c: &str) -> (r: Vec<String>)
    ensures
        text::texts(r@) == seq![a@, b@, c@],
{
    let mut out: Vec<String> = Vec::new();
    out.push(a.to_string());
    out.push(b.to_string());
    out.push(c.to_string());
    assert(text::texts(out@) =~= seq![a@, b@, c@]);
    out
}

fn local_step(root: &str, parts: Vec<String>, id: &str, format: FileFormat) -> (r: LoadStep)
    ensures
        r@ == (StepView::Local {
            dir: LocationView { root: root@, parts: text::texts(parts@) },
            file: id@ + (match format {
                FileFormat::Json => ".json"@,
                FileFormat::Yaml => ".yaml"@,
            }),
            format,
        }),
{
    let ending = match format {
        FileFormat::Json => ".json",
        FileFormat::Yaml => ".yaml",
    };
    LoadStep::Local {
        dir: Location { root: root.to_string(), parts },
        file: text::cat(id, ending),
        format,
    }
}

fn push_root_steps(steps: &mut Vec<LoadStep>, root: &str, id: &str)
    ensures
        step_views(final(steps)@) == step_views(old(steps)@) + root_steps(root@, id@),
{
    let ghost before = step_views(steps@);
    let a = local_step(root, parts3("dist", "v2", "providers"), id, FileFormat::Json);
    let b = local_step(root, parts2("v2", "providers"), id, FileFormat::Yaml);
    let c = local_step(root, parts3("dist", "v1", "providers"), id, FileFormat::Json);
    let d = local_step(root, parts2("v1", "providers"), id, FileFormat::Yaml);
    let ghost new = seq![a@, b@, c@, d@];
    steps.push(a);
    steps.push(b);
    steps.push(c);
    steps.push(d);
    assert(step_views(steps@) =~= before + new);
    assert(new =~= root_steps(root@, id@));
}

fn remote_step(prefix: &str, dir: &str, id: &str, format: FileFormat, decisive: bool) -> (r:
    LoadStep)
    ensures
        r@ == (StepView::Remote {
            url: prefix@ + dir@ + id@ + (match format {
                FileFormat::Json => ".json"@,
                FileFormat::Yaml => ".yaml"@,
            }),
            format,
            decisive,
        }),
{
    let ending = match format {
        FileFormat::Json => ".json",
        FileFormat::Yaml => ".yaml",
    };
    let mut url = text::cat(prefix, dir);
    url.append(id);
    url.append(ending);
    LoadStep::Remote { url, format, decisive }
}

fn push_remote_steps(steps: &mut Vec<LoadStep>, root: &str, id: &str)
    ensures
        step_views(final(steps)@) == step_views(old(steps)@) + remote_steps(root@, id@),
{
    let ghost before = step_views(steps@);
    let slashed = if text::ends_with(root, "/") {
        root.to_string()
    } else {
        text::cat(root, "/")
    };
    let a = remote_step(slashed.as_str(), "dist/v1/providers/", id, FileFormat::Json, false);
    let b = remote_step(slashed.as_str(), "v1/providers/", id, FileFormat::Yaml, true);
    let ghost new = seq![a@, b@];
    steps.push(a);
    steps.push(b);
    assert(step_views(steps@) =~= before + new);
    assert(new =~= remote_steps(root@, id@));
}

/// All steps for a provider, in order.
pub fn plan_provider(base: Option<&str>, env: Option<&str>, id: &str) -> (r: Vec<LoadStep>)
    ensures
        step_views(r@) == provider_steps(
            credentials::opt_str(base),
            credentials::opt_str(env),
            id@,
        ),
{
    let mut steps: Vec<LoadStep> = Vec::new();
    assert(step_views(steps@) =~= Seq::empty());
    if let Some(root) = base {
        push_root_steps(&mut steps, root, id);
    }
    assert(step_views(steps@) =~= base_steps(credentials::opt_str(base), id@));
    let ghost first = step_views(steps@);
    if let Some(root) = env {
        if looks_like_url(root) {
            push_remote_steps(&mut steps, root, id);
        } else {
            push_root_steps(&mut steps, root, id);
        }
    }
    assert(step_views(steps@) =~= first + env_steps(credentials::opt_str(env), id@));
    let ghost given = step_views(steps@);
    let roots = usual_roots();
    let ghost all = text::texts(roots@);
    let mut i: usize = 0;
    assert(given + roots_steps(all, id@, 0) =~= given);
    while i < roots.len()
        invariant
            i <= roots@.len(),
            all == text::texts(roots@),
            step_views(steps@) == given + roots_steps(all, id@, i as int),
        decreases roots@.len() - i,
    {
        assert(all[i as int] == roots@[i as int]@);
        let ghost done = roots_steps(all, id@, i as int);
        push_root_steps(&mut steps, roots[i].as_str(), id);
        i += 1;
        assert((given + done) + root_steps(all[i - 1], id@) =~= given + (done + root_steps(
            all[i - 1],
            id@,
        )));
    }
    let ghost local = step_views(steps@);
    let a = remote_step(CANONICAL_ROOT, "dist/v2/providers/", id, FileFormat::Json, false);
    let b = remote_step(CANONICAL_ROOT, "dist/v1/providers/", id, FileFormat::Json, false);
    let c = remote_step(CANONICAL_ROOT, "v1/providers/", id, FileFormat::Yaml, false);
    let ghost new = seq![a@, b@, c@];
    steps.push(a);
    steps.push(b);
    steps.push(c);
    assert(step_views(steps@) =~= local + new);
    assert(new =~= canonical_steps(id@));
    steps
}

/// What came of a step.
#[derive(Debug)]
pub enum StepOutcome {
    /// There is no such file, here or at the URL.
    Missing,
    Loaded(ProtocolManifest),
    Failed(ProtocolError),
}

/// What a step settles: the result where it ends the search, `None` where the
/// search goes on.
pub open spec fn settled(step: StepView, outcome: StepOutcome) -> Option<
    Result<ProtocolManifest, ProtocolError>,
> {
    match outcome {
        StepOutcome::Missing => None,
        StepOutcome::Loaded(m) => Some(Ok(m)),
        StepOutcome::Failed(e) => match step {
            StepView::Local { .. } => Some(Err(e)),
            StepView::Remote { url: _, format: _, decisive } => if decisive {
                Some(Err(e))
            } else {
                None
            },
        },
    }
}

/// What is said when no step finds the provider.
pub open spec fn provider_file_missing(id: Seq<char>) -> error::ProtocolErrorView {
    error::ProtocolErrorView::NotFound {
        id,
        hint: Some(
            "Check if the provider file '"@ + id + ".json' or '"@ + id
                + ".yaml' exists in your protocol directory"@,
        ),
    }
}

/// The search for one provider's manifest.
#[derive(Debug)]
pub struct ProviderSearch {
    id: String,
    steps: Vec<LoadStep>,
    at: usize,
}

/// What is left of a search.
pub struct SearchView {
    pub id: Seq<char>,
    pub left: Seq<StepView>,
}

impl View for ProviderSearch {
    type V = SearchView;

    closed spec fn view(&self) -> SearchView {
        SearchView {
            id: self.id@,
            left: step_views(self.steps@).skip(self.at as int),
        }
    }
}

impl ProviderSearch {
    /// The place in the search lies within its steps.
    pub closed spec fn well_formed(self) -> bool {
        self.at <= self.steps@.len()
    }

    /// The search for a provider.
    pub fn new(base: Option<&str>, env: Option<&str>, id: &str) -> (r: Self)
        ensures
            r.well_formed(),
            r@ == (SearchView {
                id: id@,
                left: provider_steps(credentials::opt_str(base), credentials::opt_str(env), id@),
            }),
    {
        let steps = plan_provider(base, env, id);
        assert(step_views(steps@).skip(0) =~= step_views(steps@));
        ProviderSearch { id: id.to_string(), steps, at: 0 }
    }

    /// The step to take now.
    pub fn current(&self) -> (r: Option<&LoadStep>)
        requires
            self.well_formed(),
        ensures
            match r {
                Some(s) => self@.left.len() > 0 && s@ == self@.left[0],
                None => self@.left.len() == 0,
            },
    {
        if self.at < self.steps.len() {
            Some(&self.steps[self.at])
        } else {
            None
        }
    }

    /// Takes in what came of the current step; the result where it ends the
    /// search.
    pub fn report(&mut self, outcome: StepOutcome) -> (r: Option<
        Result<ProtocolManifest, ProtocolError>,
    >)
        requires
            old(self).well_formed(),
            old(self)@.left.len() > 0,
        ensures
            final(self).well_formed(),
            final(self)@.id == old(self)@.id,
            final(self)@.left == old(self)@.left.drop_first(),
            match settled(old(self)@.left[0], outcome) {
                Some(result) => r == Some(result),
                None => if old(self)@.left.len() > 1 {
                    r is None
                } else {
                    r matches Some(Err(e)) && e@ == provider_file_missing(old(self)@.id)
                },
            },
    {
        let n: usize = self.steps.len();
        let ends_search = match &self.steps[self.at] {
            LoadStep::Local { .. } => true,
            LoadStep::Remote { url: _, format: _, decisive } => *decisive,
        };
        self.at = self.at + 1;
        assert(self@.left =~= old(self)@.left.drop_first());
        match outcome {
            StepOutcome::Missing => {},
            StepOutcome::Loaded(m) => {
                return Some(Ok(m));
            },
            StepOutcome::Failed(e) => {
                if ends_search {
                    return Some(Err(e));
                }
            },
        }
        if self.at < n {
            None
        } else {
            Some(Err(not_in_directory(self.id.as_str())))
        }
    }
}

fn not_in_directory(id: &str) -> (r: ProtocolError)
    ensures
        r@ == provider_file_missing(id@),
{
    let mut hint = text::cat("Check if the provider file '", id);
    hint.append(".json' or '");
    hint.append(id);
    hint.append(".yaml' exists in your protocol directory");
    ProtocolError::NotFound { id: id.to_string(), hint: Some(hint) }
}

/// What is said when a provider is found neither by its id nor by an alias.
pub open spec fn provider_missing(id: Seq<char>) -> error::ProtocolErrorView {
    error::ProtocolErrorView::NotFound {
        id,
        hint: Some(
            "Check if the provider file '"@ + id + ".json' or '"@ + id
                + ".yaml' exists, or that '"@ + id
                + "' is listed as an alias in dist/provider-identity.json / manifest.aliases"@,
        ),
    }
}

fn not_found_by_alias(id: &str) -> (r: ProtocolError)
    ensures
        r@ == provider_missing(id@),
{
    let mut hint = text::cat("Check if the provider file '", id);
    hint.append(".json' or '");
    hint.append(id);
    hint.append(".yaml' exists, or that '");
    hint.append(id);
    hint.append("' is listed as an alias in dist/provider-identity.json / manifest.aliases");
    ProtocolError::NotFound { id: id.to_string(), hint: Some(hint) }
}

/// What to do after a provider was looked for by its id.
#[derive(Debug)]
pub enum AfterExact {
    /// That is the result.
    Done(Result<ProtocolManifest, ProtocolError>),
    /// Look for an alias.
    ResolveAlias,
}

/// What to do after a provider was looked for by its id. Only a manifest that
/// is missing leads to an alias; other errors are not covered up.
pub fn after_exact(result: Result<ProtocolManifest, ProtocolError>) -> (r: AfterExact)
    ensures
        match result {
            Err(ProtocolError::NotFound { .. }) => r == AfterExact::ResolveAlias,
            other => r == AfterExact::Done(other),
        },
{
    match result {
        Err(ProtocolError::NotFound { id: _, hint: _ }) => AfterExact::ResolveAlias,
        other => AfterExact::Done(other),
    }
}

/// What to do after an alias was looked for.
#[derive(Debug)]
pub enum AfterAlias {
    /// Look for the provider with this id.
    LoadExact(String),
    /// There is no such provider.
    Fail(ProtocolError),
}

/// What to do after an alias was looked for: a canonical id other than the one
/// looked for leads on.
pub fn after_alias(id: &str, canonical: Option<String>) -> (r: AfterAlias)
    ensures
        match canonical {
            Some(c) => if c@ != id@ {
                r matches AfterAlias::LoadExact(x) && x@ == c@
            } else {
                r matches AfterAlias::Fail(e) && e@ == provider_missing(id@)
            },
            None => r matches AfterAlias::Fail(e) && e@ == provider_missing(id@),
        },
{
    if let Some(c) = canonical {
        if !text::text_eq(c.as_str(), id) {
            return AfterAlias::LoadExact(c);
        }
    }
    AfterAlias::Fail(not_found_by_alias(id))
}

/// One of the values is the text.
pub open spec fn lists_text(list: Seq<json::Json>, s: Seq<char>) -> bool {
    exists|i: int| 0 <= i < list.len() && (#[trigger] list[i]).text() == Some(s)
}

/// The canonical id of a family, where the key is that id or an alias of it.
pub open spec fn family_id(family: json::Json, key: Seq<char>) -> Option<Seq<char>> {
    match json::text_in(family.field("canonical_id"@)) {
        None => None,
        Some(canonical) => if key == canonical {
            Some(canonical)
        } else {
            match family.field("aliases"@) {
                Some(json::Json::Array(list)) => if lists_text(list, key) {
                    Some(canonical)
                } else {
                    None
                },
                _ => None,
            }
        },
    }
}

/// The canonical id that the first family from the `k`th on gives for a key.
pub open spec fn families_id(families: Seq<json::Json>, key: Seq<char>, k: int) -> Option<Seq<char>>
    decreases families.len() - k,
{
    if 0 <= k < families.len() {
        match family_id(families[k], key) {
            Some(c) => Some(c),
            None => families_id(families, key, k + 1),
        }
    } else {
        None
    }
}

/// The canonical id that an identity map gives for a key. A map without a list
/// of families is a family itself.
pub open spec fn canonical_id(map: json::Json, key: Seq<char>) -> Option<Seq<char>> {
    match map.field("families"@) {
        Some(json::Json::Array(families)) => families_id(families, key, 0),
        _ => family_id(map, key),
    }
}

fn canonical_from_family(family: &JsonValue, key: &str) -> (r: Option<String>)
    ensures
        text::opt_text(r) == family_id(family@, key@),
{
    let canonical = match family.get("canonical_id") {
        Some(v) => match v.as_str() {
            Some(s) => s,
            None => {
                return None;
            },
        },
        None => {
            return None;
        },
    };
    if text::text_eq(key, canonical) {
        return Some(canonical.to_string());
    }
    match family.get("aliases") {
        Some(v) => match v.as_array() {
            Some(list) => {
                if holds_text(list, key) {
                    Some(canonical.to_string())
                } else {
                    None
                }
            },
            None => None,
        },
        None => None,
    }
}

fn holds_text(list: &Vec<JsonValue>, key: &str) -> (r: bool)
    ensures
        r == lists_text(json::array_view(list@), key@),
{
    let ghost views = json::array_view(list@);
    let mut i: usize = 0;
    while i < list.len()
        invariant
            i <= list@.len(),
            views == json::array_view(list@),
            forall|k: int| 0 <= k < i ==> (#[trigger] views[k]).text() != Some(key@),
        decreases list@.len() - i,
    {
        proof {
            json::lemma_array_view(list@);
        }
        assert(views[i as int] == list@[i as int]@);
        if let Some(s) = list[i].as_str() {
            if text::text_eq(s, key) {
                return true;
            }
        }
        i += 1;
    }
    proof {
        json::lemma_array_view(list@);
    }
    false
}

/// The canonical id that an identity map gives for a key.
pub fn canonical_from_identity_value(value: &JsonValue, key: &str) -> (r: Option<String>)
    ensures
        text::opt_text(r) == canonical_id(value@, key@),
{
    if let Some(v) = value.get("families") {
        if let Some(families) = v.as_array() {
            let ghost views = json::array_view(families@);
            proof {
                json::lemma_array_view(families@);
            }
            let mut k: usize = 0;
            while k < families.len()
                invariant
                    k <= families@.len(),
                    views == json::array_view(families@),
                    views.len() == families@.len(),
                    canonical_id(value@, key@) == families_id(views, key@, k as int),
                decreases families@.len() - k,
            {
                proof {
                    json::lemma_array_view(families@);
                }
                assert(views[k as int] == families@[k as int]@);
                if let Some(c) = canonical_from_family(&families[k], key) {
                    return Some(c);
                }
                k += 1;
            }
            return None;
        }
    }
    canonical_from_family(value, key)
}

/// A canonical id resolves to itself, and an alias to the id of its family.
pub proof fn family_resolves_itself_and_aliases(family: json::Json, key: Seq<char>)
    requires
        json::text_in(family.field("canonical_id"@)) is Some,
        json::text_in(family.field("canonical_id"@)) == Some(key) || (family.field("aliases"@) is Some
            && (family.field("aliases"@)->0 is Array) && lists_text(
            family.field("aliases"@)->0->Array_0,
            key,
        )),
    ensures
        family_id(family, key) == json::text_in(family.field("canonical_id"@)),
{
}

/// The files that may hold an identity map below the first `n` roots.
pub open spec fn identity_files(roots: Seq<Seq<char>>, n: int) -> Seq<LocationView>
    decreases n,
{
    if n <= 0 {
        Seq::empty()
    } else {
        identity_files(roots, n - 1) + seq![
            LocationView {
                root: roots[n - 1],
                parts: seq!["dist"@, "provider-identity.json"@],
            },
            LocationView {
                root: roots[n - 1],
                parts: seq!["v2"@, "provider-identity.fixture.json"@],
            },
        ]
    }
}

/// The views of locations, in order.
pub open spec fn location_views(v: Seq<Location>) -> Seq<LocationView> {
    Seq::new(v.len(), |i: int| v[i]@)
}

/// The files that may hold an identity map, in the order they are looked at.
pub fn identity_map_candidates(base: Option<&str>, env: Option<&str>) -> (r: Vec<Location>)
    ensures
        ({
            let roots = local_roots(credentials::opt_str(base), credentials::opt_str(env));
            location_views(r@) == identity_files(roots, roots.len() as int)
        }),
{
    let roots = search_roots(base, env);
    let ghost all = text::texts(roots@);
    let mut out: Vec<Location> = Vec::new();
    let mut i: usize = 0;
    assert(location_views(out@) =~= Seq::empty());
    while i < roots.len()
        invariant
            i <= roots@.len(),
            all == text::texts(roots@),
            location_views(out@) == identity_files(all, i as int),
        decreases roots@.len() - i,
    {
        assert(all[i as int] == roots@[i as int]@);
        let ghost o0 = location_views(out@);
        let a = Location {
            root: roots[i].clone(),
            parts: parts2("dist", "provider-identity.json"),
        };
        let b = Location {
            root: roots[i].clone(),
            parts: parts2("v2", "provider-identity.fixture.json"),
        };
        let ghost new = seq![a@, b@];
        out.push(a);
        out.push(b);
        assert(location_views(out@) =~= o0 + new);
        i += 1;
    }
    out
}

/// The parts of a model id between slashes.
pub open spec fn id_parts(id: Seq<char>) -> Seq<Seq<char>> {
    text::split_on(id, '/')
}

/// The parts from the `k`th on with slashes between.
pub open spec fn joined_from(parts: Seq<Seq<char>>, k: int) -> Seq<char> {
    text::joined(parts.skip(k), "/"@)
}

fn join_from(parts: &Vec<String>, k: usize) -> (r: String)
    requires
        k <= parts@.len(),
    ensures
        r@ == joined_from(text::texts(parts@), k as int),
{
    let mut rest: Vec<String> = Vec::new();
    let mut i: usize = k;
    while i < parts.len()
        invariant
            k <= i <= parts@.len(),
            rest@.len() == i - k,
            forall|j: int| 0 <= j < rest@.len() ==> #[trigger] rest@[j]@ == parts@[k + j]@,
        decreases parts@.len() - i,
    {
        rest.push(parts[i].clone());
        i += 1;
    }
    assert(text::texts(rest@) =~= text::texts(parts@).skip(k as int));
    text::join(&rest, "/")
}

/// What is said of a model id without a provider.
pub open spec fn not_a_model_id(model: Seq<char>) -> error::ProtocolErrorView {
    error::ProtocolErrorView::NotFound {
        id: model,
        hint: Some("Ensure the model name follows the 'provider/model' format"@),
    }
}

/// The provider in a model id and the rest of the id.
pub fn split_model_id(model: &str) -> (r: Result<(String, String), ProtocolError>)
    ensures
        match r {
            Ok((provider, rest)) => id_parts(model@).len() >= 2 && provider@ == id_parts(model@)[0]
                && rest@ == joined_from(id_parts(model@), 1),
            Err(e) => id_parts(model@).len() < 2 && e@ == not_a_model_id(model@),
        },
{
    let parts = text::split(model, '/');
    let ghost all = text::texts(parts@);
    assert(all.len() == parts@.len());
    if parts.len() < 2 {
        return Err(
            ProtocolError::NotFound {
                id: model.to_string(),
                hint: Some(
                    "Ensure the model name follows the 'provider/model' format".to_string(),
                ),
            },
        );
    }
    assert(all[0] == parts@[0]@);
    Ok((parts[0].clone(), join_from(&parts, 1)))
}

/// What came of looking a model up in the registries.
#[derive(Debug)]
pub enum ConfigLookup {
    /// It is registered, with this provider.
    Found(String),
    NotFound,
    Failed(ProtocolError),
}

/// What to do next to find a model's manifest.
#[derive(Debug)]
pub enum ModelStep {
    /// Look this id up in the registries.
    LookUp(String),
    /// Load the manifest of this provider.
    LoadProvider(String),
    Fail(ProtocolError),
}

/// What to do next, given what came of looking up the whole id, and then the
/// id without its provider: the registered provider wins, then the one that
/// the id begins with.
pub open spec fn says_model_step(
    r: ModelStep,
    provider: Seq<char>,
    rest: Seq<char>,
    by_id: ConfigLookup,
    by_rest: Option<ConfigLookup>,
) -> bool {
    match by_id {
        ConfigLookup::Found(p) => r matches ModelStep::LoadProvider(x) && x@ == p@,
        ConfigLookup::Failed(e) => r == ModelStep::Fail(e),
        ConfigLookup::NotFound => match by_rest {
            None => r matches ModelStep::LookUp(x) && x@ == rest,
            Some(ConfigLookup::Found(p)) => r matches ModelStep::LoadProvider(x) && x@ == p@,
            Some(ConfigLookup::NotFound) => r matches ModelStep::LoadProvider(x) && x@ == provider,
            Some(ConfigLookup::Failed(e)) => r == ModelStep::Fail(e),
        },
    }
}

/// What to do next to find a model's manifest.
pub fn next_model_step(
    provider: &str,
    rest: &str,
    by_id: ConfigLookup,
    by_rest: Option<ConfigLookup>,
) -> (r: ModelStep)
    ensures
        says_model_step(r, provider@, rest@, by_id, by_rest),
{
    match by_id {
        ConfigLookup::Found(p) => ModelStep::LoadProvider(p),
        ConfigLookup::Failed(e) => ModelStep::Fail(e),
        ConfigLookup::NotFound => match by_rest {
            None => ModelStep::LookUp(rest.to_string()),
            Some(ConfigLookup::Found(p)) => ModelStep::LoadProvider(p),
            Some(ConfigLookup::NotFound) => ModelStep::LoadProvider(provider.to_string()),
            Some(ConfigLookup::Failed(e)) => ModelStep::Fail(e),
        },
    }
}

/// A model as a registry has it.
#[derive(Debug, Clone)]
pub struct ModelConfig {
    pub provider: String,
    pub model_id: Option<String>,
    pub context_window: Option<u32>,
    pub capabilities: Vec<String>,
}

/// Models by name.
#[derive(Debug, Clone)]
pub struct ModelRegistry {
    pub models: Table<ModelConfig>,
}

/// A directory of registries and how its files are written.
#[derive(Debug)]
pub struct RegistryDir {
    pub dir: Location,
    pub format: FileFormat,
}

/// What a directory of registries is.
pub struct RegistryDirView {
    pub dir: LocationView,
    pub format: FileFormat,
}

impl View for RegistryDir {
    type V = RegistryDirView;

    open spec fn view(&self) -> RegistryDirView {
        RegistryDirView { dir: self.dir@, format: self.format }
    }
}

/// The views of directories, in order.
pub open spec fn registry_dir_views(v: Seq<RegistryDir>) -> Seq<RegistryDirView> {
    Seq::new(v.len(), |i: int| v[i]@)
}

/// The directories of registries below the first `n` roots.
pub open spec fn registry_dirs(roots: Seq<Seq<char>>, n: int) -> Seq<RegistryDirView>
    decreases n,
{
    if n <= 0 {
        Seq::empty()
    } else {
        registry_dirs(roots, n - 1) + seq![
            RegistryDirView {
                dir: LocationView { root: roots[n - 1], parts: seq!["dist"@, "v1"@, "models"@] },
                format: FileFormat::Json,
            },
            RegistryDirView {
                dir: LocationView { root: roots[n - 1], parts: seq!["v1"@, "models"@] },
                format: FileFormat::Yaml,
            },
        ]
    }
}

/// The directories of registries, in the order they are looked at.
pub fn plan_registries(base: Option<&str>, env: Option<&str>) -> (r: Vec<RegistryDir>)
    ensures
        ({
            let roots = local_roots(credentials::opt_str(base), credentials::opt_str(env));
            registry_dir_views(r@) == registry_dirs(roots, roots.len() as int)
        }),
{
    let roots = search_roots(base, env);
    let ghost all = text::texts(roots@);
    let mut out: Vec<RegistryDir> = Vec::new();
    let mut i: usize = 0;
    assert(registry_dir_views(out@) =~= Seq::empty());
    while i < roots.len()
        invariant
            i <= roots@.len(),
            all == text::texts(roots@),
            registry_dir_views(out@) == registry_dirs(all, i as int),
        decreases roots@.len() - i,
    {
        assert(all[i as int] == roots@[i as int]@);
        let ghost o0 = registry_dir_views(out@);
        let a = RegistryDir {
            dir: Location { root: roots[i].clone(), parts: parts3("dist", "v1", "models") },
            format: FileFormat::Json,
        };
        let b = RegistryDir {
            dir: Location { root: roots[i].clone(), parts: parts2("v1", "models") },
            format: FileFormat::Yaml,
        };
        let ghost new = seq![a@, b@];
        out.push(a);
        out.push(b);
        assert(registry_dir_views(out@) =~= o0 + new);
        i += 1;
    }
    out
}

/// A file with this extension is a registry in the given format.
pub open spec fn has_format(extension: Option<Seq<char>>, format: FileFormat) -> bool {
    match extension {
        None => false,
        Some(e) => {
            let lower = text::ascii_lowered(e);
            match format {
                FileFormat::Json => lower == text::ascii_lowered("json"@),
                FileFormat::Yaml => lower == text::ascii_lowered("yaml"@) || lower
                    == text::ascii_lowered("yml"@),
            }
        },
    }
}

/// Whether a file with this extension is a registry in the given format.
pub fn is_registry_file(extension: Option<&str>, format: FileFormat) -> (r: bool)
    ensures
        r == has_format(credentials::opt_str(extension), format),
{
    match extension {
        None => false,
        Some(e) => match format {
            FileFormat::Json => text::eq_ignore_ascii_case(e, "json"),
            FileFormat::Yaml => text::eq_ignore_ascii_case(e, "yaml")
                || text::eq_ignore_ascii_case(e, "yml"),
        },
    }
}

/// What is said when no registry has the model.
pub open spec fn model_missing(name: Seq<char>) -> error::ProtocolErrorView {
    error::ProtocolErrorView::NotFound {
        id: name,
        hint: Some("Check if the model is registered in the manifests/v1/models/ directory"@),
    }
}

/// The first registry, from the `k`th on, that could be read and has the model.
pub open spec fn registered_at(
    registries: Seq<Option<ModelRegistry>>,
    name: Seq<char>,
    k: int,
) -> Option<int>
    decreases registries.len() - k,
{
    if 0 <= k < registries.len() {
        match registries[k] {
            Some(r) => if r.models@.dom().contains(name) {
                Some(k)
            } else {
                registered_at(registries, name, k + 1)
            },
            None => registered_at(registries, name, k + 1),
        }
    } else {
        None
    }
}

/// The configuration of a model, given the registries in the order they were
/// read; `None` stands for one that could not be read.
pub fn find_model_config<'a>(registries: &'a Vec<Option<ModelRegistry>>, name: &str) -> (r: Result<
    &'a ModelConfig,
    ProtocolError,
>)
    ensures
        match (r, registered_at(registries@, name@, 0)) {
            (Ok(c), Some(k)) => 0 <= k < registries@.len() && (registries@[k] matches Some(reg)
                && reg.models@.dom().contains(name@) && *c == reg.models@[name@]),
            (Err(e), None) => e@ == model_missing(name@),
            _ => false,
        },
{
    let mut k: usize = 0;
    while k < registries.len()
        invariant
            k <= registries@.len(),
            registered_at(registries@, name@, 0) == registered_at(registries@, name@, k as int),
        decreases registries@.len() - k,
    {
        if let Some(reg) = &registries[k] {
            if let Some(c) = reg.models.get(name) {
                return Ok(c);
            }
        }
        k += 1;
    }
    Err(
        ProtocolError::NotFound {
            id: name.to_string(),
            hint: Some(
                "Check if the model is registered in the manifests/v1/models/ directory".to_string(),
            ),
        },
    )
}

/// The parts of an id that hold something.
pub open spec fn filled_parts(id: Seq<char>) -> Seq<Seq<char>> {
    text::nonempty_parts(id_parts(id))
}

fn filled(id: &str) -> (r: Vec<String>)
    ensures
        text::texts(r@) == filled_parts(id@),
{
    let parts = text::split(id, '/');
    let ghost all = text::texts(parts@);
    let mut out: Vec<String> = Vec::new();
    let mut i: usize = 0;
    assert(text::texts(out@) =~= Seq::empty());
    while i < parts.len()
        invariant
            i <= parts@.len(),
            all == text::texts(parts@),
            text::texts(out@) == text::nonempty_parts(all.take(i as int)),
        decreases parts@.len() - i,
    {
        assert(all.take(i + 1).drop_last() =~= all.take(i as int));
        assert(all.take(i + 1).last() == parts@[i as int]@);
        if parts[i].as_str().unicode_len() > 0 {
            let ghost o0 = text::texts(out@);
            out.push(parts[i].clone());
            assert(text::texts(out@) =~= o0.push(parts@[i as int]@));
        }
        i += 1;
    }
    assert(all.take(all.len() as int) =~= all);
    out
}

/// The id without its provider.
pub open spec fn stripped(trimmed: Seq<char>) -> Seq<char> {
    if filled_parts(trimmed).len() >= 2 {
        joined_from(filled_parts(trimmed), 1)
    } else {
        trimmed
    }
}

/// The model's id on the wire where no registry knows it: the id without its
/// provider, but for `nvidia/<name>`, which keeps it.
pub open spec fn wire_fallback(logical: Seq<char>) -> Seq<char> {
    let t = text::trimmed(logical);
    let parts = filled_parts(t);
    if parts.len() < 2 {
        t
    } else if parts.len() == 2 && text::ascii_lowered(parts[0]) == text::ascii_lowered(
        "nvidia"@,
    ) {
        parts[0] + "/"@ + parts[1]
    } else {
        joined_from(parts, 1)
    }
}

/// The ids under which a model is looked up for its id on the wire.
pub open spec fn wire_keys(logical: Seq<char>) -> Seq<Seq<char>> {
    let t = text::trimmed(logical);
    text::nonempty_parts(seq![t, stripped(t)])
}

/// The model's id on the wire, given for each of `keys` from the `k`th on
/// whether a registry has it, and the id that it states: the id that the first
/// registered key states, else that key, else the fallback.
pub open spec fn wire_id(
    logical: Seq<char>,
    keys: Seq<Seq<char>>,
    found: Seq<Option<Option<Seq<char>>>>,
    k: int,
) -> Seq<char>
    decreases keys.len() - k,
{
    if 0 <= k < keys.len() {
        match found[k] {
            Some(id) => match id {
                Some(s) => if text::trimmed(s).len() > 0 {
                    s
                } else {
                    keys[k]
                },
                None => keys[k],
            },
            None => wire_id(logical, keys, found, k + 1),
        }
    } else {
        wire_fallback(logical)
    }
}

/// The view of what registries say of keys.
pub open spec fn found_views(v: Seq<Option<Option<String>>>) -> Seq<Option<Option<Seq<char>>>> {
    Seq::new(
        v.len(),
        |i: int|
            match v[i] {
                Some(s) => Some(text::opt_text(s)),
                None => None,
            },
    )
}

/// The loader's decisions.
#[derive(Debug)]
pub struct ProtocolLoader {
    pub base_path: Option<String>,
    pub hot_reload: bool,
}

impl ProtocolLoader {
    /// A loader that looks in the usual places.
    pub fn new() -> (r: Self)
        ensures
            r.base_path is None,
            !r.hot_reload,
    {
        ProtocolLoader { base_path: None, hot_reload: false }
    }

    /// The loader with a root of its own to look below first.
    pub fn with_base_path(self, path: &str) -> (r: Self)
        ensures
            text::opt_text(r.base_path) == Some(path@),
            r.hot_reload == self.hot_reload,
    {
        ProtocolLoader { base_path: Some(path.to_string()), hot_reload: self.hot_reload }
    }

    /// The loader with hot reload on or off.
    pub fn with_hot_reload(self, enable: bool) -> (r: Self)
        ensures
            r.base_path == self.base_path,
            r.hot_reload == enable,
    {
        ProtocolLoader { base_path: self.base_path, hot_reload: enable }
    }

    /// The model's id on the wire where no registry knows it.
    pub fn wire_model_id_fallback(logical: &str) -> (r: String)
        ensures
            r@ == wire_fallback(logical@),
    {
        let trimmed = text::trim(logical);
        let parts = filled(trimmed.as_str());
        let ghost all = text::texts(parts@);
        assert(all.len() == parts@.len());
        if parts.len() < 2 {
            return trimmed;
        }
        assert(all[0] == parts@[0]@);
        assert(all[1] == parts@[1]@);
        if parts.len() == 2 && text::eq_ignore_ascii_case(parts[0].as_str(), "nvidia") {
            return text::cat(text::cat(parts[0].as_str(), "/").as_str(), parts[1].as_str());
        }
        join_from(&parts, 1)
    }

    /// The ids under which a model is looked up for its id on the wire.
    pub fn wire_lookup_keys(logical: &str) -> (r: Vec<String>)
        ensures
            text::texts(r@) == wire_keys(logical@),
    {
        let trimmed = text::trim(logical);
        let parts = filled(trimmed.as_str());
        let ghost all = text::texts(parts@);
        assert(all.len() == parts@.len());
        let rest = if parts.len() >= 2 {
            join_from(&parts, 1)
        } else {
            trimmed.clone()
        };
        let ghost t = trimmed@;
        let ghost s = rest@;
        let mut out: Vec<String> = Vec::new();
        assert(seq![t, s].drop_last() =~= seq![t]);
        assert(seq![t].drop_last() =~= Seq::<Seq<char>>::empty());
        proof {
            reveal_with_fuel(text::nonempty_parts, 3);
        }
        if trimmed.as_str().unicode_len() > 0 {
            out.push(trimmed);
        }
        if rest.as_str().unicode_len() > 0 {
            out.push(rest);
        }
        assert(text::texts(out@) =~= text::nonempty_parts(seq![t, s]));
        out
    }

    /// The model's id on the wire, given what registries say of each lookup key.
    pub fn resolve_wire_model_id(
        logical: &str,
        keys: &Vec<String>,
        found: &Vec<Option<Option<String>>>,
    ) -> (r: String)
        requires
            found@.len() == keys@.len(),
        ensures
            r@ == wire_id(logical@, text::texts(keys@), found_views(found@), 0),
    {
        let ghost all = text::texts(keys@);
        let ghost views = found_views(found@);
        let mut k: usize = 0;
        while k < keys.len()
            invariant
                k <= keys@.len(),
                found@.len() == keys@.len(),
                all == text::texts(keys@),
                views == found_views(found@),
                wire_id(logical@, all, views, 0) == wire_id(logical@, all, views, k as int),
            decreases keys@.len() - k,
        {
            assert(all[k as int] == keys@[k as int]@);
            if let Some(id) = &found[k] {
                if let Some(s) = id {
                    if !text::is_blank(s.as_str()) {
                        return s.clone();
                    }
                }
                return keys[k].clone();
            }
            k += 1;
        }
        Self::wire_model_id_fallback(logical)
    }
}

impl Default for ProtocolLoader {
    fn default() -> (r: Self)
        ensures
            r.base_path is None,
            !r.hot_reload,
    {
        Self::new()
    }
}

/// The message speaks of the manifest's structure.
pub open spec fn is_structural(msg: Seq<char>) -> bool {
    text::has_part(msg, "missing field"@) || text::has_part(msg, "unknown field"@)
        || text::has_part(msg, "invalid type"@) || text::has_part(msg, "invalid value"@)
        || text::has_part(msg, "expected"@)
}

/// What an error of the YAML reader is: the manifest's structure is wrong, or
/// it is no YAML.
pub open spec fn yaml_error(msg: Seq<char>) -> error::ProtocolErrorView {
    if is_structural(msg) {
        error::ProtocolErrorView::ValidationError("Invalid manifest structure: "@ + msg)
    } else {
        error::ProtocolErrorView::YamlError(msg)
    }
}

/// What an error of the YAML reader is.
pub fn classify_yaml_error(msg: &str) -> (r: ProtocolError)
    ensures
        r@ == yaml_error(msg@),
{
    if text::contains(msg, "missing field") || text::contains(msg, "unknown field")
        || text::contains(msg, "invalid type") || text::contains(msg, "invalid value")
        || text::contains(msg, "expected") {
        ProtocolError::ValidationError(text::cat("Invalid manifest structure: ", msg))
    } else {
        ProtocolError::YamlError(msg.to_string())
    }
}

/// The code units that pairs of bytes write, the low byte first; a last odd
/// byte is passed over.
pub open spec fn code_units(bytes: Seq<u8>) -> Seq<u16> {
    Seq::new(
        bytes.len() / 2,
        |i: int| (bytes[2 * i] as u16 + 256 * (bytes[2 * i + 1] as u16)) as u16,
    )
}

/// What a file's bytes say: UTF-16 after its mark, UTF-8 after its mark, or UTF-8.
pub open spec fn decoded(bytes: Seq<u8>) -> Result<Seq<char>, Seq<char>> {
    if bytes.len() >= 2 && bytes[0] == 0xff && bytes[1] == 0xfe {
        let units = code_units(bytes.skip(2));
        match text::utf16_text(units) {
            Some(t) => Ok(t),
            None => Err("Invalid UTF-16: "@ + text::utf16_error(units)),
        }
    } else if bytes.len() >= 3 && bytes[0] == 0xef && bytes[1] == 0xbb && bytes[2] == 0xbf {
        let rest = bytes.skip(3);
        if vstd::utf8::valid_utf8(rest) {
            Ok(vstd::utf8::decode_utf8(rest))
        } else {
            Err("Invalid UTF-8 (after BOM): "@ + text::utf8_error(rest))
        }
    } else if vstd::utf8::valid_utf8(bytes) {
        Ok(vstd::utf8::decode_utf8(bytes))
    } else {
        Err("Invalid UTF-8: "@ + text::utf8_error(bytes))
    }
}

fn bytes_from(bytes: &Vec<u8>, from: usize) -> (r: Vec<u8>)
    requires
        from <= bytes@.len(),
    ensures
        r@ == bytes@.skip(from as int),
{
    let mut out: Vec<u8> = Vec::new();
    let mut i: usize = from;
    while i < bytes.len()
        invariant
            from <= i <= bytes@.len(),
            out@ == bytes@.subrange(from as int, i as int),
        decreases bytes@.len() - i,
    {
        out.push(bytes[i]);
        i += 1;
        assert(out@ =~= bytes@.subrange(from as int, i as int));
    }
    assert(out@ =~= bytes@.skip(from as int));
    out
}

fn pair_bytes(bytes: &Vec<u8>) -> (r: Vec<u16>)
    ensures
        r@ == code_units(bytes@),
{
    let mut out: Vec<u16> = Vec::new();
    let n: usize = bytes.len();
    let mut i: usize = 0;
    while i < n / 2
        invariant
            i <= n / 2,
            n == bytes@.len(),
            out@ == code_units(bytes@).take(i as int),
        decreases n / 2 - i,
    {
        let unit: u16 = bytes[2 * i] as u16 + 256 * (bytes[2 * i + 1] as u16);
        out.push(unit);
        i += 1;
        assert(out@ =~= code_units(bytes@).take(i as int));
    }
    assert(out@ =~= code_units(bytes@));
    out
}

/// The text in a manifest file, or what is wrong with its encoding.
pub fn decode_manifest_file(bytes: Vec<u8>, path: &str) -> (r: Result<String, ProtocolError>)
    ensures
        match (r, decoded(bytes@)) {
            (Ok(s), Ok(t)) => s@ == t,
            (Err(e), Err(reason)) => e@ == (error::ProtocolErrorView::LoadError {
                path: path@,
                reason,
                hint: None,
            }),
            _ => false,
        },
{
    let result = if bytes.len() >= 2 && bytes[0] == 0xff && bytes[1] == 0xfe {
        let units = pair_bytes(&bytes_from(&bytes, 2));
        match text::from_utf16(&units) {
            Ok(s) => Ok(s),
            Err(e) => Err(text::cat("Invalid UTF-16: ", e.as_str())),
        }
    } else if bytes.len() >= 3 && bytes[0] == 0xef && bytes[1] == 0xbb && bytes[2] == 0xbf {
        match text::from_utf8(bytes_from(&bytes, 3)) {
            Ok(s) => Ok(s),
            Err(e) => Err(text::cat("Invalid UTF-8 (after BOM): ", e.as_str())),
        }
    } else {
        match text::from_utf8(bytes) {
            Ok(s) => Ok(s),
            Err(e) => Err(text::cat("Invalid UTF-8: ", e.as_str())),
        }
    };
    match result {
        Ok(s) => Ok(s),
        Err(reason) => Err(
            ProtocolError::LoadError { path: path.to_string(), reason, hint: None },
        ),
    }
}

/// What came of asking for a manifest over HTTP.
#[derive(Debug)]
pub enum FetchOutcome {
    /// No HTTP client could be had.
    NoClient(String),
    /// The request did not get through.
    SendFailed(String),
    /// The answer is an error.
    Refused { status: String, body: String },
    /// The answer could not be read.
    ReadFailed(String),
    /// The answer was read.
    Fetched,
}

/// What is said of a manifest that could not be fetched. A JSON manifest is a
/// guess that another may follow, so less is said of it.
pub open spec fn fetch_error(
    url: Seq<char>,
    format: FileFormat,
    outcome: FetchOutcome,
) -> Option<error::ProtocolErrorView> {
    let yaml = format == FileFormat::Yaml;
    match outcome {
        FetchOutcome::Fetched => None,
        FetchOutcome::NoClient(e) => Some(
            error::ProtocolErrorView::Internal("Failed to create HTTP client: "@ + e@),
        ),
        FetchOutcome::SendFailed(e) => Some(
            error::ProtocolErrorView::LoadError {
                path: url,
                reason: "HTTP request failed: "@ + e@,
                hint: if yaml {
                    Some("Check your internet connection and verify the URL is accessible."@)
                } else {
                    None
                },
            },
        ),
        FetchOutcome::Refused { status, body } => Some(
            error::ProtocolErrorView::LoadError {
                path: url,
                reason: if yaml {
                    "HTTP "@ + status@ + ": "@ + body@
                } else {
                    "HTTP "@ + status@
                },
                hint: if yaml {
                    Some("Verify the remote registry URL and your API permissions if any."@)
                } else {
                    None
                },
            },
        ),
        FetchOutcome::ReadFailed(e) => Some(
            error::ProtocolErrorView::LoadError {
                path: url,
                reason: if yaml {
                    "Failed to read response: "@ + e@
                } else {
                    "Failed to read bytes: "@ + e@
                },
                hint: None,
            },
        ),
    }
}

/// Whether a manifest was fetched, or what is said of it.
pub fn check_fetch(url: &str, format: FileFormat, outcome: &FetchOutcome) -> (r: Result<
    (),
    ProtocolError,
>)
    ensures
        match (r, fetch_error(url@, format, *outcome)) {
            (Ok(_), None) => true,
            (Err(e), Some(f)) => e@ == f,
            _ => false,
        },
{
    let yaml = match format {
        FileFormat::Yaml => true,
        FileFormat::Json => false,
    };
    let (reason, hint): (String, Option<String>) = match outcome {
        FetchOutcome::Fetched => {
            return Ok(());
        },
        FetchOutcome::NoClient(e) => {
            return Err(
                ProtocolError::Internal(text::cat("Failed to create HTTP client: ", e.as_str())),
            );
        },
        FetchOutcome::SendFailed(e) => (
            text::cat("HTTP request failed: ", e.as_str()),
            if yaml {
                Some(
                    "Check your internet connection and verify the URL is accessible.".to_string(),
                )
            } else {
                None
            },
        ),
        FetchOutcome::Refused { status, body } => {
            let mut reason = text::cat("HTTP ", status.as_str());
            if yaml {
                reason.append(": ");
                reason.append(body.as_str());
                (
                    reason,
                    Some(
                        "Verify the remote registry URL and your API permissions if any.".to_string(),
                    ),
                )
            } else {
                (reason, None)
            }
        },
        FetchOutcome::ReadFailed(e) => (
            if yaml {
                text::cat("Failed to read response: ", e.as_str())
            } else {
                text::cat("Failed to read bytes: ", e.as_str())
            },
            None,
        ),
    };
    Err(ProtocolError::LoadError { path: url.to_string(), reason, hint })
}

/// The server says that there is nothing at the URL.
pub open spec fn not_there(outcome: FetchOutcome) -> bool {
    match outcome {
        FetchOutcome::Refused { status, body: _ } => text::has_prefix(status@, "404"@),
        _ => false,
    }
}

/// What came of a step over HTTP, given how the request ended and what the
/// answer was found to be.
pub fn remote_outcome(
    outcome: &FetchOutcome,
    result: Result<ProtocolManifest, ProtocolError>,
) -> (r: StepOutcome)
    ensures
        r == (if not_there(*outcome) {
            StepOutcome::Missing
        } else {
            match result {
                Ok(m) => StepOutcome::Loaded(m),
                Err(e) => StepOutcome::Failed(e),
            }
        }),
{
    if let FetchOutcome::Refused { status, body: _ } = outcome {
        if text::starts_with(status.as_str(), "404") {
            return StepOutcome::Missing;
        }
    }
    match result {
        Ok(m) => StepOutcome::Loaded(m),
        Err(e) => StepOutcome::Failed(e),
    }
}

/// What is said of a manifest file that cannot be read.
pub fn unreadable_file(path: &str, reason: &str, format: FileFormat) -> (r: ProtocolError)
    ensures
        r@ == (error::ProtocolErrorView::LoadError {
            path: path@,
            reason: reason@,
            hint: Some(
                if format == FileFormat::Json {
                    "Check file permissions."@
                } else {
                    "Check if the file exists and you have read permissions."@
                },
            ),
        }),
{
    let hint = match format {
        FileFormat::Json => "Check file permissions.",
        FileFormat::Yaml => "Check if the file exists and you have read permissions.",
    };
    ProtocolError::LoadError {
        path: path.to_string(),
        reason: reason.to_string(),
        hint: Some(hint.to_string()),
    }
}

/// What a manifest that was read comes to: what is wrong with its text, then
/// what the validator says against it.
pub open spec fn manifest_error(
    format: FileFormat,
    remote: bool,
    parse_error: Option<Seq<char>>,
    validation_error: Option<error::ProtocolErrorView>,
) -> Option<error::ProtocolErrorView> {
    match parse_error {
        Some(e) => Some(
            if format == FileFormat::Yaml {
                yaml_error(e)
            } else if remote {
                error::ProtocolErrorView::ValidationError("Invalid JSON manifest from URL: "@ + e)
            } else {
                error::ProtocolErrorView::ValidationError("Invalid JSON manifest: "@ + e)
            },
        ),
        None => validation_error,
    }
}

/// What a manifest that was read comes to. `parsed` is what the reader made of
/// its text, and `valid` what the validator says of that.
pub fn accept_manifest(
    format: FileFormat,
    remote: bool,
    parsed: Result<ProtocolManifest, String>,
    valid: Result<(), ProtocolError>,
) -> (r: Result<ProtocolManifest, ProtocolError>)
    ensures
        match (
            r,
            manifest_error(
                format,
                remote,
                match parsed {
                    Ok(_) => None,
                    Err(e) => Some(e@),
                },
                match valid {
                    Ok(_) => None,
                    Err(e) => Some(e@),
                },
            ),
        ) {
            (Ok(m), None) => parsed == Ok::<ProtocolManifest, String>(m),
            (Err(e), Some(f)) => e@ == f,
            _ => false,
        },
{
    match parsed {
        Err(e) => Err(
            match format {
                FileFormat::Yaml => classify_yaml_error(e.as_str()),
                FileFormat::Json => if remote {
                    ProtocolError::ValidationError(
                        text::cat("Invalid JSON manifest from URL: ", e.as_str()),
                    )
                } else {
                    ProtocolError::ValidationError(
                        text::cat("Invalid JSON manifest: ", e.as_str()),
                    )
                },
            },
        ),
        Ok(m) => match valid {
            Ok(_) => Ok(m),
            Err(e) => Err(e),
        },
    }
}

/// The canonical id that the text of an identity map gives for a key; none
/// where the text is no JSON.
pub open spec fn canonical_in_text(raw: Seq<char>, key: Seq<char>) -> Option<Seq<char>> {
    match json::json_parsed(vstd::utf8::encode_utf8(raw)) {
        Ok(v) => canonical_id(v, key),
        Err(_) => None,
    }
}

/// The canonical id that the text of an identity map gives for a key.
pub fn canonical_from_identity_text(raw: &str, key: &str) -> (r: Option<String>)
    ensures
        text::opt_text(r) == canonical_in_text(raw@, key@),
{
    match json::parse_text(raw) {
        Ok(v) => canonical_from_identity_value(&v, key),
        Err(_) => None,
    }
}

/// The canonical id that the first identity map with an answer gives, from the
/// `k`th on. A map that could not be read is passed over.
pub open spec fn canonical_from(
    maps: Seq<Option<String>>,
    key: Seq<char>,
    k: int,
) -> Option<Seq<char>>
    decreases maps.len() - k,
{
    if 0 <= k < maps.len() {
        match maps[k] {
            Some(raw) => match canonical_in_text(raw@, key) {
                Some(c) => Some(c),
                None => canonical_from(maps, key, k + 1),
            },
            None => canonical_from(maps, key, k + 1),
        }
    } else {
        None
    }
}

/// The canonical id of a provider by the texts of the identity maps, the first
/// map that knows the provider before all; `None` stands for a map that could
/// not be read.
pub fn resolve_canonical_provider_id(maps: &Vec<Option<String>>, key: &str) -> (r: Option<String>)
    ensures
        text::opt_text(r) == canonical_from(maps@, key@, 0),
{
    let mut i: usize = 0;
    while i < maps.len()
        invariant
            i <= maps@.len(),
            canonical_from(maps@, key@, 0) == canonical_from(maps@, key@, i as int),
        decreases maps@.len() - i,
    {
        if let Some(raw) = &maps[i] {
            if let Some(c) = canonical_from_identity_text(raw.as_str(), key) {
                return Some(c);
            }
        }
        i += 1;
    }
    None
}

/// What a search comes to, given what comes of each step: the first step that
/// settles it decides.
pub open spec fn search_result(
    steps: Seq<StepView>,
    outcomes: Seq<StepOutcome>,
    k: int,
) -> Option<Result<ProtocolManifest, ProtocolError>>
    decreases steps.len() - k,
{
    if 0 <= k < steps.len() {
        match settled(steps[k], outcomes[k]) {
            Some(r) => Some(r),
            None => search_result(steps, outcomes, k + 1),
        }
    } else {
        None
    }
}

/// A local file decides as soon as it exists: neither an error in it nor what
/// later steps would find counts.
pub proof fn first_local_file_decides(
    steps: Seq<StepView>,
    outcomes: Seq<StepOutcome>,
    k: int,
    from: int,
)
    requires
        0 <= from <= k < steps.len(),
        steps[k] is Local,
        !(outcomes[k] is Missing),
        forall|j: int| from <= j < k ==> (#[trigger] outcomes[j]) is Missing,
    ensures
        search_result(steps, outcomes, from) == settled(steps[k], outcomes[k]),
        settled(steps[k], outcomes[k]) is Some,
    decreases k - from,
{
    if from < k {
        assert(outcomes[from] is Missing);
        first_local_file_decides(steps, outcomes, k, from + 1);
    }
}

/// A manifest below the configured root is used whatever the environment says,
/// a directory or a URL: the first of its four files that exists decides.
pub proof fn configured_root_comes_first(
    base: Seq<char>,
    env: Option<Seq<char>>,
    id: Seq<char>,
    outcomes: Seq<StepOutcome>,
    k: int,
)
    requires
        0 <= k < 4,
        !(outcomes[k] is Missing),
        forall|j: int| 0 <= j < k ==> (#[trigger] outcomes[j]) is Missing,
    ensures
        provider_steps(Some(base), env, id).take(4) == root_steps(base, id),
        search_result(provider_steps(Some(base), env, id), outcomes, 0) == (match outcomes[k] {
            StepOutcome::Loaded(m) => Some(Ok::<ProtocolManifest, ProtocolError>(m)),
            StepOutcome::Failed(e) => Some(Err::<ProtocolManifest, ProtocolError>(e)),
            StepOutcome::Missing => None,
        }),
{
    let steps = provider_steps(Some(base), env, id);
    assert(steps.take(4) =~= root_steps(base, id));
    assert(steps[k] == steps.take(4)[k]);
    first_local_file_decides(steps, outcomes, k, 0);
}

/// Manifests by provider, replaced as a whole with each one that is added.
#[derive(Debug)]
pub struct ProtocolRegistry {
    pub manifests: Table<std::sync::Arc<ProtocolManifest>>,
}

impl Default for ProtocolRegistry {
    fn default() -> (r: Self)
        ensures
            r.manifests@ == Map::<Seq<char>, std::sync::Arc<ProtocolManifest>>::empty(),
    {
        Self::new()
    }
}

impl ProtocolRegistry {
    /// No manifests.
    pub fn new() -> (r: Self)
        ensures
            r.manifests@ == Map::<Seq<char>, std::sync::Arc<ProtocolManifest>>::empty(),
    {
        ProtocolRegistry { manifests: Table::new() }
    }

    /// The manifest of a provider, where it was loaded before.
    pub fn get_manifest(&self, provider_id: &str) -> (r: Option<
        &std::sync::Arc<ProtocolManifest>,
    >)
        ensures
            match r {
                Some(m) => self.manifests@.dom().contains(provider_id@) && *m
                    == self.manifests@[provider_id@],
                None => !self.manifests@.dom().contains(provider_id@),
            },
    {
        self.manifests.get(provider_id)
    }

    /// Adds the manifest of a provider; those of other providers stay.
    pub fn store(&mut self, provider_id: &str, manifest: std::sync::Arc<ProtocolManifest>)
        ensures
            final(self).manifests@ == old(self).manifests@.insert(provider_id@, manifest),
    {
        self.manifests.insert(provider_id.to_string(), manifest);
    }
}

/// The place of a provider's file below a root, by rank: the newer format
/// first, and of each the compiled file before its source.
pub open spec fn ranked_file(root: Seq<char>, id: Seq<char>, rank: int) -> StepView {
    let compiled = rank == 0 || rank == 2;
    let version = if rank < 2 {
        "v2"@
    } else {
        "v1"@
    };
    StepView::Local {
        dir: LocationView {
            root,
            parts: if compiled {
                seq!["dist"@, version, "providers"@]
            } else {
                seq![version, "providers"@]
            },
        },
        file: id + (if compiled {
            ".json"@
        } else {
            ".yaml"@
        }),
        format: if compiled {
            FileFormat::Json
        } else {
            FileFormat::Yaml
        },
    }
}

/// A provider is looked for below the configured root, then where the
/// environment says, then below the usual roots, and last at the canonical
/// URLs. Below each root its four files are tried by rank.
pub proof fn places_are_tried_in_order(
    base: Option<Seq<char>>,
    env: Option<Seq<char>>,
    id: Seq<char>,
    r: int,
    f: int,
)
    requires
        0 <= r < 4,
        0 <= f < 4,
    ensures
        ({
            let steps = provider_steps(base, env, id);
            let n = if base is Some {
                4int
            } else {
                0
            };
            let m = match env {
                Some(e) => if is_url(e) {
                    2int
                } else {
                    4
                },
                None => 0,
            };
            let usual = if r == 0 {
                "ai-protocol"@
            } else if r == 1 {
                "../ai-protocol"@
            } else if r == 2 {
                "../../ai-protocol"@
            } else {
                "D:\\ai-protocol"@
            };
            &&& steps.len() == n + m + 16 + 3
            &&& base matches Some(b) ==> steps[f] == ranked_file(b, id, f)
            &&& env matches Some(e) ==> !is_url(e) ==> steps[n + f] == ranked_file(e, id, f)
            &&& steps[n + m + 4 * r + f] == ranked_file(usual, id, f)
            &&& forall|i: int|
                n + m + 16 <= i < steps.len() ==> ((#[trigger] steps[i]) matches StepView::Remote {
                    url,
                    format: _,
                    decisive,
                } && !decisive && text::has_prefix(url, CANONICAL_ROOT@))
        }),
{
    let roots = default_roots();
    reveal_with_fuel(roots_steps, 6);
    let local = roots_steps(roots, id, 4);
    assert(local.len() == 16);
    assert(local[4 * r + f] == root_steps(roots[r], id)[f]);
    let last = canonical_steps(id);
    assert forall|i: int| 0 <= i < 3 implies ((#[trigger] last[i]) matches StepView::Remote {
        url,
        format: _,
        decisive,
    } && !decisive && text::has_prefix(url, CANONICAL_ROOT@)) by {
        let url = last[i]->url;
        assert(url.subrange(0, CANONICAL_ROOT@.len() as int) =~= CANONICAL_ROOT@);
    }
    let steps = provider_steps(base, env, id);
    let n = base_steps(base, id).len() + env_steps(env, id).len();
    assert(steps.len() == n + 16 + 3);
    assert forall|i: int| n + 16 <= i < steps.len() implies ((
    #[trigger] steps[i]) matches StepView::Remote { url, format: _, decisive } && !decisive
        && text::has_prefix(url, CANONICAL_ROOT@)) by {
        assert(steps[i] == last[i - n - 16]);
    }
}

/// Where the environment names a URL, the provider's compiled file is asked for
/// there, then its source; what the source's URL gives is final.
pub proof fn remote_root_is_asked_twice(base: Option<Seq<char>>, env: Seq<char>, id: Seq<char>)
    requires
        is_url(env),
    ensures
        ({
            let steps = provider_steps(base, Some(env), id);
            let n = if base is Some {
                4int
            } else {
                0
            };
            let slashed = if env.last() == '/' {
                env
            } else {
                env + seq!['/']
            };
            &&& steps[n] == (StepView::Remote {
                url: slashed + "dist/v1/providers/"@ + id + ".json"@,
                format: FileFormat::Json,
                decisive: false,
            })
            &&& steps[n + 1] == (StepView::Remote {
                url: slashed + "v1/providers/"@ + id + ".yaml"@,
                format: FileFormat::Yaml,
                decisive: true,
            })
        }),
{
    reveal_strlit("/");
    reveal_strlit("http://");
    reveal_strlit("https://");
    assert("/"@ =~= seq!['/']);
    assert(env.len() > 0);
    let tail = env.subrange(env.len() - 1, env.len() as int);
    assert(tail[0] == env.last());
    assert(text::has_suffix(env, "/"@) == (env.last() == '/')) by {
        if env.last() == '/' {
            assert(tail =~= "/"@);
        }
    }
}

/// A step that finds nothing lets the search go on; a manifest ends it, and so
/// does an error in a file or at a URL that is final, but not one elsewhere.
pub proof fn errors_are_covered_up_only_where_guessing(step: StepView, outcome: StepOutcome)
    ensures
        outcome is Missing ==> settled(step, outcome) is None,
        outcome matches StepOutcome::Loaded(m) ==> settled(step, outcome) == Some(
            Ok::<ProtocolManifest, ProtocolError>(m),
        ),
        outcome matches StepOutcome::Failed(e) ==> {
            &&& step is Local ==> settled(step, outcome) == Some(
                Err::<ProtocolManifest, ProtocolError>(e),
            )
            &&& step matches StepView::Remote { url: _, format: _, decisive } ==> settled(
                step,
                outcome,
            ) == (if decisive {
                Some(Err::<ProtocolManifest, ProtocolError>(e))
            } else {
                None
            })
        },
{
}

/// The first step that settles a search decides it, and where none does it has
/// no result.
pub proof fn first_settled_step_decides(
    steps: Seq<StepView>,
    outcomes: Seq<StepOutcome>,
    from: int,
    k: int,
)
    requires
        0 <= from <= k <= steps.len(),
        forall|j: int| from <= j < k ==> settled(#[trigger] steps[j], outcomes[j]) is None,
        k < steps.len() ==> settled(steps[k], outcomes[k]) is Some,
    ensures
        search_result(steps, outcomes, from) == (if k < steps.len() {
            settled(steps[k], outcomes[k])
        } else {
            None
        }),
    decreases k - from,
{
    if from < k {
        assert(settled(steps[from], outcomes[from]) is None);
        first_settled_step_decides(steps, outcomes, from + 1, k);
    }
}

/// The first family of an identity map that has the key gives the canonical id.
pub proof fn first_family_decides(families: Seq<json::Json>, key: Seq<char>, from: int, k: int)
    requires
        0 <= from <= k <= families.len(),
        forall|j: int| from <= j < k ==> family_id(#[trigger] families[j], key) is None,
        k < families.len() ==> family_id(families[k], key) is Some,
    ensures
        families_id(families, key, from) == (if k < families.len() {
            family_id(families[k], key)
        } else {
            None
        }),
    decreases k - from,
{
    if from < k {
        assert(family_id(families[from], key) is None);
        first_family_decides(families, key, from + 1, k);
    }
}

/// A key that is neither a family's id nor among its aliases is not its own.
pub proof fn strangers_are_not_resolved(family: json::Json, key: Seq<char>)
    requires
        family.field("canonical_id"@) != Some(json::Json::Str(key)),
        family.field("aliases"@) matches Some(json::Json::Array(list)) ==> forall|i: int|
            0 <= i < list.len() ==> #[trigger] list[i] != json::Json::Str(key),
    ensures
        family_id(family, key) is None,
{
    if let Some(json::Json::Array(list)) = family.field("aliases"@) {
        assert forall|i: int| 0 <= i < list.len() implies (#[trigger] list[i]).text() != Some(
            key,
        ) by {
            assert(list[i] != json::Json::Str(key));
        }
    }
}

/// A map with a list of families is searched; another is a family itself.
pub proof fn maps_are_lists_or_families(map: json::Json, key: Seq<char>)
    ensures
        map.field("families"@) matches Some(json::Json::Array(list)) ==> canonical_id(map, key)
            == families_id(list, key, 0),
        map.field("families"@) is None ==> canonical_id(map, key) == family_id(map, key),
{
}

/// The first identity map with an answer gives it; maps that cannot be read are
/// passed over.
pub proof fn first_map_with_an_answer_decides(
    maps: Seq<Option<String>>,
    key: Seq<char>,
    from: int,
    k: int,
)
    requires
        0 <= from <= k <= maps.len(),
        forall|j: int|
            from <= j < k ==> ((#[trigger] maps[j]) matches Some(raw) ==> canonical_in_text(
                raw@,
                key,
            ) is None),
        k < maps.len() ==> (maps[k] matches Some(raw) && canonical_in_text(raw@, key) is Some),
    ensures
        canonical_from(maps, key, from) == (if k < maps.len() {
            canonical_in_text(maps[k]->0@, key)
        } else {
            None
        }),
    decreases k - from,
{
    if from < k {
        assert(maps[from] matches Some(raw) ==> canonical_in_text(raw@, key) is None);
        first_map_with_an_answer_decides(maps, key, from + 1, k);
    }
}

proof fn lemma_parts_of(p: Seq<char>, m: Seq<char>)
    requires
        forall|i: int| 0 <= i < p.len() ==> #[trigger] p[i] != '/',
    ensures
        id_parts(p + seq!['/'] + m) == seq![p] + id_parts(m),
        id_parts(m).len() > 0,
{
    text::splitting_goes_piece_by_piece(p, '/', m);
    text::unsplit_text_is_one_piece(p, '/');
    text::pieces_join_back(m, '/');
}

/// A model id is its provider, a slash and the rest, whatever slashes the rest
/// holds.
pub proof fn model_ids_are_split_at_the_first_slash(provider: Seq<char>, rest: Seq<char>)
    requires
        forall|i: int| 0 <= i < provider.len() ==> #[trigger] provider[i] != '/',
    ensures
        ({
            let id = provider + seq!['/'] + rest;
            &&& id_parts(id).len() >= 2
            &&& id_parts(id)[0] == provider
            &&& joined_from(id_parts(id), 1) == rest
        }),
{
    lemma_parts_of(provider, rest);
    let parts = id_parts(provider + seq!['/'] + rest);
    assert(parts.skip(1) =~= id_parts(rest));
    reveal_strlit("/");
    assert("/"@ =~= seq!['/']);
    text::pieces_join_back(rest, '/');
}

/// An id without a slash has one part.
pub proof fn plain_ids_have_one_part(id: Seq<char>)
    requires
        forall|i: int| 0 <= i < id.len() ==> #[trigger] id[i] != '/',
    ensures
        id_parts(id) == seq![id],
{
    text::unsplit_text_is_one_piece(id, '/');
}

/// The text has something in it, but neither a slash nor white space.
pub open spec fn is_plain_name(s: Seq<char>) -> bool {
    &&& s.len() > 0
    &&& forall|i: int| 0 <= i < s.len() ==> #[trigger] s[i] != '/' && !text::is_white(s[i])
}

/// On the wire a model goes by its name without the provider, but for NVIDIA's
/// models, which keep it.
pub proof fn provider_is_left_off_on_the_wire(provider: Seq<char>, name: Seq<char>)
    requires
        is_plain_name(provider),
        is_plain_name(name),
    ensures
        wire_fallback(name) == name,
        wire_fallback(provider + seq!['/'] + name) == (if text::ascii_lowered(provider)
            == text::ascii_lowered("nvidia"@) {
            provider + seq!['/'] + name
        } else {
            name
        }),
        wire_keys(provider + seq!['/'] + name) == seq![provider + seq!['/'] + name, name],
        wire_keys(name) == seq![name, name],
{
    let id = provider + seq!['/'] + name;
    lemma_parts_of(provider, name);
    text::unsplit_text_is_one_piece(name, '/');
    assert(id_parts(id) =~= seq![provider, name]);
    assert(id_parts(name) =~= seq![name]);
    text::trimming_takes_white_space_alone(name, 0, name.len() as int);
    assert(name.subrange(0, name.len() as int) =~= name);
    assert(id[0] == provider[0]);
    assert(id.last() == name[name.len() - 1]);
    text::trimming_takes_white_space_alone(id, 0, id.len() as int);
    assert(id.subrange(0, id.len() as int) =~= id);
    reveal_strlit("/");
    assert("/"@ =~= seq!['/']);
    lemma_two_parts(provider, name);
    lemma_two_parts(id, name);
    lemma_two_parts(name, name);
    let one = seq![name];
    assert(one.drop_last() =~= Seq::empty());
    assert(text::nonempty_parts(one.drop_last()) =~= Seq::empty());
    assert(text::nonempty_parts(one) =~= one);
    let two = seq![provider, name];
    assert(two.skip(1) =~= one);
    assert(text::joined(one, "/"@) == name);
}

proof fn lemma_two_parts(a: Seq<char>, b: Seq<char>)
    requires
        a.len() > 0,
        b.len() > 0,
    ensures
        text::nonempty_parts(seq![a, b]) == seq![a, b],
{
    let two = seq![a, b];
    assert(two.drop_last() =~= seq![a]);
    assert(seq![a].drop_last() =~= Seq::<Seq<char>>::empty());
    assert(text::nonempty_parts(Seq::<Seq<char>>::empty()) =~= Seq::empty());
    assert(text::nonempty_parts(seq![a]) =~= seq![a]);
    assert(text::nonempty_parts(two) =~= two);
}

/// The first key that a registry has gives the id on the wire: the one that it
/// states, where that is not blank, else the key.
pub proof fn first_registered_key_decides(
    logical: Seq<char>,
    keys: Seq<Seq<char>>,
    found: Seq<Option<Option<Seq<char>>>>,
    from: int,
    k: int,
)
    requires
        0 <= from <= k <= keys.len(),
        found.len() == keys.len(),
        forall|j: int| from <= j < k ==> (#[trigger] found[j]) is None,
        k < keys.len() ==> found[k] is Some,
    ensures
        wire_id(logical, keys, found, from) == (if k == keys.len() {
            wire_fallback(logical)
        } else {
            match found[k]->0 {
                Some(id) if text::trimmed(id).len() > 0 => id,
                _ => keys[k],
            }
        }),
    decreases k - from,
{
    if from < k {
        assert(found[from] is None);
        first_registered_key_decides(logical, keys, found, from + 1, k);
    }
}

/// The first registry that could be read and has the model is the one used.
pub proof fn first_registry_decides(
    registries: Seq<Option<ModelRegistry>>,
    name: Seq<char>,
    from: int,
    k: int,
)
    requires
        0 <= from <= k <= registries.len(),
        forall|j: int|
            from <= j < k ==> ((#[trigger] registries[j]) matches Some(r)
                ==> !r.models@.dom().contains(name)),
        k < registries.len() ==> (registries[k] matches Some(r) && r.models@.dom().contains(name)),
    ensures
        registered_at(registries, name, from) == (if k < registries.len() {
            Some(k)
        } else {
            None
        }),
    decreases k - from,
{
    if from < k {
        assert(registries[from] matches Some(r) ==> !r.models@.dom().contains(name));
        first_registry_decides(registries, name, from + 1, k);
    }
}

/// `AI_PROTOCOL_DIR` counts before `AI_PROTOCOL_PATH`.
pub proof fn directory_counts_before_path(vars: Map<Seq<char>, String>)
    ensures
        vars.dom().contains("AI_PROTOCOL_DIR"@) ==> env_root(vars) == Some(
            vars["AI_PROTOCOL_DIR"@]@,
        ),
        !vars.dom().contains("AI_PROTOCOL_DIR"@) && vars.dom().contains("AI_PROTOCOL_PATH"@)
            ==> env_root(vars) == Some(vars["AI_PROTOCOL_PATH"@]@),
        !vars.dom().contains("AI_PROTOCOL_DIR"@) && !vars.dom().contains("AI_PROTOCOL_PATH"@)
            ==> env_root(vars) is None,
{
}

/// The roots for identity maps and registries are the configured one, the
/// environment's where it is a directory, and the usual ones, in this order.
pub proof fn roots_go_from_configured_to_usual(base: Option<Seq<char>>, env: Option<Seq<char>>)
    ensures
        ({
            let roots = local_roots(base, env);
            let n = if base is Some {
                1int
            } else {
                0
            };
            let m = if env is Some && !is_url(env->0) {
                1int
            } else {
                0
            };
            &&& roots.len() == n + m + 4
            &&& base matches Some(b) ==> roots[0] == b
            &&& m == 1 ==> roots[n] == env->0
            &&& roots[n + m] == "ai-protocol"@
            &&& roots[n + m + 1] == "../ai-protocol"@
            &&& roots[n + m + 2] == "../../ai-protocol"@
            &&& roots[n + m + 3] == "D:\\ai-protocol"@
        }),
{
}

/// Each root has its compiled identity map looked at before its fixture, and
/// its compiled registries before their sources.
pub proof fn each_root_has_two_places(roots: Seq<Seq<char>>, n: int, k: int)
    requires
        0 <= k < n <= roots.len(),
    ensures
        identity_files(roots, n).len() == 2 * n,
        identity_files(roots, n)[2 * k] == (LocationView {
            root: roots[k],
            parts: seq!["dist"@, "provider-identity.json"@],
        }),
        identity_files(roots, n)[2 * k + 1] == (LocationView {
            root: roots[k],
            parts: seq!["v2"@, "provider-identity.fixture.json"@],
        }),
        registry_dirs(roots, n).len() == 2 * n,
        registry_dirs(roots, n)[2 * k] == (RegistryDirView {
            dir: LocationView { root: roots[k], parts: seq!["dist"@, "v1"@, "models"@] },
            format: FileFormat::Json,
        }),
        registry_dirs(roots, n)[2 * k + 1] == (RegistryDirView {
            dir: LocationView { root: roots[k], parts: seq!["v1"@, "models"@] },
            format: FileFormat::Yaml,
        }),
    decreases n,
{
    if n > 1 {
        each_root_has_two_places(roots, n - 1, if k < n - 1 { k } else { 0 });
    } else {
        assert(identity_files(roots, 0).len() == 0);
        assert(registry_dirs(roots, 0).len() == 0);
    }
}

/// Text in UTF-8 is read as it was written, with or without its mark.
pub proof fn written_text_is_read_back(t: Seq<char>)
    ensures
        ({
            let bytes = vstd::utf8::encode_utf8(t);
            &&& decoded(seq![0xefu8, 0xbb, 0xbf] + bytes) == Ok::<Seq<char>, Seq<char>>(t)
            &&& !(bytes.len() >= 2 && bytes[0] == 0xff && bytes[1] == 0xfe) && !(bytes.len() >= 3
                && bytes[0] == 0xef && bytes[1] == 0xbb && bytes[2] == 0xbf) ==> decoded(bytes)
                == Ok::<Seq<char>, Seq<char>>(t)
        }),
{
    let bytes = vstd::utf8::encode_utf8(t);
    vstd::utf8::encode_utf8_valid_utf8(t);
    vstd::utf8::encode_utf8_decode_utf8(t);
    let marked = seq![0xefu8, 0xbb, 0xbf] + bytes;
    assert(marked.skip(3) =~= bytes);
}

/// UTF-16 after its mark is read pair by pair, the low byte first.
pub proof fn code_units_are_read_low_byte_first(bytes: Seq<u8>, i: int)
    requires
        0 <= i < bytes.len() / 2,
    ensures
        code_units(bytes).len() == bytes.len() / 2,
        code_units(bytes)[i] as int == bytes[2 * i] + 256 * bytes[2 * i + 1],
        decoded(seq![0xffu8, 0xfe] + bytes) == (match text::utf16_text(code_units(bytes)) {
            Some(t) => Ok::<Seq<char>, Seq<char>>(t),
            None => Err("Invalid UTF-16: "@ + text::utf16_error(code_units(bytes))),
        }),
{
    let marked = seq![0xffu8, 0xfe] + bytes;
    assert(marked.skip(2) =~= bytes);
}

/// A manifest is good where it can be read and the validator has nothing
/// against it; what the reader says comes before what the validator says.
pub proof fn bad_manifests_are_refused(
    format: FileFormat,
    remote: bool,
    parse_error: Option<Seq<char>>,
    validation_error: Option<error::ProtocolErrorView>,
)
    ensures
        manifest_error(format, remote, parse_error, validation_error) is None <==> parse_error is None
            && validation_error is None,
        parse_error is None ==> manifest_error(format, remote, parse_error, validation_error)
            == validation_error,
        parse_error matches Some(e) && format == FileFormat::Yaml && (text::has_part(
            e,
            "missing field"@,
        ) || text::has_part(e, "unknown field"@) || text::has_part(e, "invalid type"@)
            || text::has_part(e, "invalid value"@) || text::has_part(e, "expected"@))
            ==> (manifest_error(format, remote, parse_error, validation_error) matches Some(x) && (x
            is ValidationError)),
{
}

/// A manifest counts as fetched only where the answer was read.
pub proof fn only_a_read_answer_is_fetched(url: Seq<char>, format: FileFormat, outcome: FetchOutcome)
    ensures
        fetch_error(url, format, outcome) is None <==> outcome is Fetched,
        fetch_error(url, format, outcome) matches Some(
            error::ProtocolErrorView::LoadError { path, .. },
        ) ==> path == url,
        not_there(outcome) <==> (outcome matches FetchOutcome::Refused { status, .. }
            && text::has_prefix(status@, "404"@)),
{
}

/// Only a missing manifest leads to an alias; a manifest, and every other error,
/// is the result.
pub proof fn only_a_missing_manifest_leads_to_an_alias(
    result: Result<ProtocolManifest, ProtocolError>,
    r: AfterExact,
)
    requires
        call_ensures(after_exact, (result,), r),
    ensures
        r is ResolveAlias <==> (result matches Err(e) && (e is NotFound)),
        !(r is ResolveAlias) ==> r == AfterExact::Done(result),
{
}

/// A canonical id other than the id itself is looked for next; without one the
/// provider is not found.
pub proof fn another_canonical_id_leads_on(id: &str, canonical: Option<String>, r: AfterAlias)
    requires
        call_ensures(after_alias, (id, canonical), r),
    ensures
        canonical matches Some(c) && c@ != id@ ==> (r matches AfterAlias::LoadExact(x) && x@
            == canonical->0@),
        !(canonical matches Some(c) && c@ != id@) ==> (r matches AfterAlias::Fail(e) && (e
            is NotFound)),
{
}

/// A model id is split at its first slash, and one without a slash is refused.
pub proof fn model_ids_need_a_slash(
    model: &str,
    provider: Seq<char>,
    rest: Seq<char>,
    r: Result<(String, String), ProtocolError>,
)
    requires
        call_ensures(split_model_id, (model,), r),
        forall|i: int| 0 <= i < provider.len() ==> #[trigger] provider[i] != '/',
    ensures
        model@ == provider + seq!['/'] + rest ==> (r matches Ok((p, m)) && p@ == provider && m@
            == rest),
        model@ == provider ==> r is Err,
{
    model_ids_are_split_at_the_first_slash(provider, rest);
    plain_ids_have_one_part(provider);
}

/// The registered provider of the whole id counts first, then that of the id
/// without its provider, and last the one that the id begins with.
pub proof fn registered_provider_counts_first(
    provider: &str,
    rest: &str,
    by_id: ConfigLookup,
    by_rest: Option<ConfigLookup>,
    r: ModelStep,
)
    requires
        call_ensures(next_model_step, (provider, rest, by_id, by_rest), r),
    ensures
        by_id matches ConfigLookup::Found(p) ==> (r matches ModelStep::LoadProvider(x) && x@ == p@),
        by_id is NotFound && by_rest is None ==> (r matches ModelStep::LookUp(x) && x@ == rest@),
        by_id is NotFound ==> (by_rest matches Some(ConfigLookup::Found(p)) ==> (
        r matches ModelStep::LoadProvider(x) && x@ == p@)),
        by_id is NotFound && by_rest == Some(ConfigLookup::NotFound) ==> (
        r matches ModelStep::LoadProvider(x) && x@ == provider@),
        by_id is Failed ==> r is Fail,
        by_id is NotFound ==> (by_rest matches Some(ConfigLookup::Failed(_)) ==> (r is Fail)),
{
}

/// What a server does not have is missing; another answer is what it was found
/// to be.
pub proof fn missing_answers_are_missing(
    outcome: &FetchOutcome,
    result: Result<ProtocolManifest, ProtocolError>,
    r: StepOutcome,
)
    requires
        call_ensures(remote_outcome, (outcome, result), r),
    ensures
        (*outcome matches FetchOutcome::Refused { status, .. } && text::has_prefix(
            status@,
            "404"@,
        )) ==> r is Missing,
        *outcome is Fetched ==> match result {
            Ok(m) => r == StepOutcome::Loaded(m),
            Err(e) => r == StepOutcome::Failed(e),
        },
{
}

/// A manifest that was read and found valid is handed on as it is; otherwise
/// there is an error.
pub proof fn valid_manifests_are_handed_on(
    format: FileFormat,
    remote: bool,
    parsed: Result<ProtocolManifest, String>,
    valid: Result<(), ProtocolError>,
    r: Result<ProtocolManifest, ProtocolError>,
)
    requires
        call_ensures(accept_manifest, (format, remote, parsed, valid), r),
    ensures
        r is Ok <==> parsed is Ok && valid is Ok,
        r matches Ok(m) ==> parsed == Ok::<ProtocolManifest, String>(m),
        parsed is Ok ==> (valid matches Err(e) ==> (r matches Err(f) && f@ == e@)),
{
}

/// The configuration of a model is the one in the first registry that has it.
pub proof fn model_configs_come_from_the_first_registry(
    registries: &Vec<Option<ModelRegistry>>,
    name: &str,
    k: int,
    r: Result<&ModelConfig, ProtocolError>,
)
    requires
        call_ensures(find_model_config, (registries, name), r),
        0 <= k <= registries@.len(),
        forall|j: int|
            0 <= j < k ==> ((#[trigger] registries@[j]) matches Some(g)
                ==> !g.models@.dom().contains(name@)),
        k < registries@.len() ==> (registries@[k] matches Some(g) && g.models@.dom().contains(
            name@,
        )),
    ensures
        k < registries@.len() ==> (r matches Ok(c) && *c == registries@[k]->0.models@[name@]),
        k == registries@.len() ==> (r matches Err(e) && (e is NotFound)),
{
    first_registry_decides(registries@, name@, 0, k);
}

/// A file is a registry by its extension, in any case.
pub proof fn registries_go_by_extension(extension: Option<&str>, format: FileFormat, r: bool)
    requires
        call_ensures(is_registry_file, (extension, format), r),
    ensures
        extension is None ==> !r,
        extension matches Some(e) ==> {
            let lower = text::ascii_lowered(e@);
            &&& format == FileFormat::Json ==> r == (lower == text::ascii_lowered("json"@))
            &&& format == FileFormat::Yaml ==> r == (lower == text::ascii_lowered("yaml"@) || lower
                == text::ascii_lowered("yml"@))
        },
{
}

/// A longer id loses its provider alone, whoever that is.
pub proof fn longer_ids_lose_the_provider_alone(
    provider: Seq<char>,
    owner: Seq<char>,
    name: Seq<char>,
)
    requires
        is_plain_name(provider),
        is_plain_name(owner),
        is_plain_name(name),
    ensures
        ({
            let rest = owner + seq!['/'] + name;
            wire_fallback(provider + seq!['/'] + rest) == rest
        }),
{
    let rest = owner + seq!['/'] + name;
    let id = provider + seq!['/'] + rest;
    lemma_parts_of(provider, rest);
    lemma_parts_of(owner, name);
    text::unsplit_text_is_one_piece(name, '/');
    assert(id_parts(id) =~= seq![provider, owner, name]);
    assert(id[0] == provider[0]);
    assert(id.last() == name[name.len() - 1]);
    text::trimming_takes_white_space_alone(id, 0, id.len() as int);
    assert(id.subrange(0, id.len() as int) =~= id);
    lemma_two_parts(owner, name);
    text::empty_parts_leave(seq![provider], seq![owner, name], provider);
    assert(seq![provider] + seq![owner, name] =~= seq![provider, owner, name]);
    let parts = filled_parts(id);
    assert(parts =~= seq![provider, owner, name]);
    assert(parts.skip(1) =~= seq![owner, name]);
    reveal_strlit("/");
    assert("/"@ =~= seq!['/']);
    let two = seq![owner, name];
    text::single_part_is_joined_as_it_is(owner, "/"@);
    text::single_part_is_joined_as_it_is(name, "/"@);
    text::joining_goes_part_by_part(seq![owner], seq![name], "/"@);
    assert(two =~= seq![owner] + seq![name]);
    assert(text::joined(two, "/"@) =~= rest);
}

} // verus!
