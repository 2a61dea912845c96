//! The route filter: picks the cluster that serves the model or the tool that a
//! request asks for.
//!
//! A request that carries an MCP call is routed by the tool it names, any other
//! request by the model in a configured header. Among the candidates that offer
//! what is asked for, a fresh one beats a stale one, then a local one beats a
//! remote one, and then the first one wins.
use vstd::prelude::*;
use vstd::string::*;
use vstd::utf8::*;

use super::descriptor::{
    lemma_no_fault, model_header_of, validate_candidates, validate_local_site,
    validate_model_header, validated, views, CandidateConfig, CandidateView, CapabilityKind,
    ConfigView, RouteCandidate,
};
use super::error::{GridError, GridFault};
use super::metadata::{ROUTE_CLUSTER, ROUTE_KIND, ROUTE_LOCAL_SITE, ROUTE_NAME, ROUTE_SITE};
use super::overlay::{
    bounded_read, is_routable, law_overlay_snapshots_are_routable, overlay_snapshot,
    parsed_view, read_overlay_bounded, read_view, DocumentView, OverlayDocument,
    RouteSnapshot, SnapshotView, DEFAULT_DEBOUNCE_MS,
};
use crate::header::{bytes_as_text, header_text, is_visible, is_visible_byte};
use crate::text::{
    blank, byte_len, byte_length, is_blank, is_white_space, law_blank_texts_show_nothing,
    lent_text, optional_text, same_text, shows_something,
};

verus! {

/// Longest capability name that is looked up, in bytes.
pub const MAX_HEADER_VALUE_LEN: usize = 256;

/// What being stale takes off a score.
pub const STALE_PENALTY: i32 = 100;

/// What being local adds to a score.
pub const LOCAL_PREFERENCE: i32 = 10;

/// Deterministic worth of a candidate. Higher is better.
pub open spec fn score(candidate: CandidateView, local_site: Seq<char>) -> int {
    (if candidate.fresh {
        0int
    } else {
        -STALE_PENALTY
    }) + (if candidate.site == local_site {
        LOCAL_PREFERENCE as int
    } else {
        0
    })
}

/// Deterministic worth of a candidate. Higher is better.
pub fn score_candidate(candidate: &RouteCandidate, local_site: &str) -> (r: i32)
    ensures
        r == score(candidate@, local_site@),
{
    let mut worth: i32 = 0;
    if !candidate.fresh {
        worth -= STALE_PENALTY;
    }
    if same_text(candidate.site.as_str(), local_site) {
        worth += LOCAL_PREFERENCE;
    }
    worth
}

/// Whether a candidate offers what is asked for.
pub open spec fn offers(candidate: CandidateView, kind: CapabilityKind, name: Seq<char>) -> bool {
    candidate.kind == kind && candidate.name == name
}

/// Whether the candidate at `i` offers what is asked for, none that does scores
/// higher, and none before it scores the same.
pub open spec fn wins(
    candidates: Seq<CandidateView>,
    kind: CapabilityKind,
    name: Seq<char>,
    local_site: Seq<char>,
    i: int,
) -> bool {
    &&& 0 <= i < candidates.len()
    &&& offers(candidates[i], kind, name)
    &&& forall|j: int|
        0 <= j < candidates.len() && offers(#[trigger] candidates[j], kind, name) ==> score(
            candidates[j],
            local_site,
        ) <= score(candidates[i], local_site)
    &&& forall|j: int|
        0 <= j < i && offers(#[trigger] candidates[j], kind, name) ==> score(
            candidates[j],
            local_site,
        ) < score(candidates[i], local_site)
}

/// Where the candidate stands that a request is routed to.
pub open spec fn winner(
    candidates: Seq<CandidateView>,
    kind: CapabilityKind,
    name: Seq<char>,
    local_site: Seq<char>,
) -> Option<int> {
    if exists|i: int| wins(candidates, kind, name, local_site, i) {
        Some(choose|i: int| wins(candidates, kind, name, local_site, i))
    } else {
        None
    }
}

/// Only one candidate can win.
proof fn lemma_winner_is_unique(
    candidates: Seq<CandidateView>,
    kind: CapabilityKind,
    name: Seq<char>,
    local_site: Seq<char>,
    i: int,
)
    requires
        wins(candidates, kind, name, local_site, i),
    ensures
        winner(candidates, kind, name, local_site) == Some(i),
{
    let w = choose|w: int| wins(candidates, kind, name, local_site, w);
    assert(wins(candidates, kind, name, local_site, w));
    assert(offers(candidates[w], kind, name));
    assert(offers(candidates[i], kind, name));
}

/// The best candidate that offers what is asked for, the first of several that
/// are equally good.
pub fn select_candidate<'a>(
    candidates: &'a [RouteCandidate],
    kind: CapabilityKind,
    name: &str,
    local_site: &str,
) -> (r: Option<&'a RouteCandidate>)
    ensures
        match winner(views(candidates@), kind, name@, local_site@) {
            Some(i) => 0 <= i < candidates@.len() && r == Some(&candidates@[i]),
            None => r is None,
        },
        r is None <==> forall|j: int|
            0 <= j < candidates@.len() ==> !((#[trigger] candidates@[j]).kind == kind
                && candidates@[j].name@ == name@),
        r matches Some(best) ==> exists|i: int|
            {
                &&& 0 <= i < candidates@.len()
                &&& *best == #[trigger] candidates@[i]
                &&& best.kind == kind
                &&& best.name@ == name@
                &&& forall|j: int|
                    0 <= j < candidates@.len() && (#[trigger] candidates@[j]).kind == kind
                        && candidates@[j].name@ == name@ ==> {
                        &&& candidates@[j].fresh ==> best.fresh
                        &&& candidates@[j].fresh == best.fresh && candidates@[j].site@
                            == local_site@ ==> best.site@ == local_site@
                        &&& candidates@[j].fresh == best.fresh && (candidates@[j].site@
                            == local_site@) == (best.site@ == local_site@) ==> i <= j
                    }
            },
{
    proof {
        law_the_best_candidate_is_selected(views(candidates@), kind, name@, local_site@);
        assert forall|j: int| 0 <= j < candidates@.len() implies {
            &&& views(candidates@)[j].kind == (#[trigger] candidates@[j]).kind
            &&& views(candidates@)[j].name == candidates@[j].name@
            &&& views(candidates@)[j].fresh == candidates@[j].fresh
            &&& views(candidates@)[j].site == candidates@[j].site@
        } by {}
    }
    let ghost said = views(candidates@);
    let mut best: Option<(i32, usize)> = None;
    let mut i: usize = 0;
    while i < candidates.len()
        invariant
            said == views(candidates@),
            i <= candidates@.len(),
            match best {
                None => forall|j: int|
                    0 <= j < i ==> !offers(#[trigger] said[j], kind, name@),
                Some((best_score, at)) => {
                    &&& at < i
                    &&& offers(said[at as int], kind, name@)
                    &&& best_score == score(said[at as int], local_site@)
                    &&& forall|j: int|
                        0 <= j < i && offers(#[trigger] said[j], kind, name@) ==> score(
                            said[j],
                            local_site@,
                        ) <= best_score
                    &&& forall|j: int|
                        0 <= j < at && offers(#[trigger] said[j], kind, name@) ==> score(
                            said[j],
                            local_site@,
                        ) < best_score
                },
            },
        decreases candidates@.len() - i,
    {
        let candidate = &candidates[i];
        assert(said[i as int] == candidate@);
        if candidate.kind == kind && same_text(candidate.name.as_str(), name) {
            let worth: i32 = score_candidate(candidate, local_site);
            match best {
                Some((best_score, _)) if worth <= best_score => {},
                _ => {
                    best = Some((worth, i));
                },
            }
        }
        i += 1;
    }
    match best {
        Some((_, at)) => {
            proof {
                lemma_winner_is_unique(said, kind, name@, local_site@, at as int);
            }
            Some(&candidates[at])
        },
        None => {
            assert(winner(said, kind, name@, local_site@) is None) by {
                if winner(said, kind, name@, local_site@) is Some {
                    let w = choose|w: int| wins(said, kind, name@, local_site@, w);
                    assert(wins(said, kind, name@, local_site@, w));
                    assert(offers(said[w], kind, name@));
                }
            }
            None
        },
    }
}

/// What a request asks to be routed to.
#[derive(Debug)]
pub enum Lookup {
    /// A capability.
    Route {
        /// What is asked for.
        kind: CapabilityKind,
        /// Name of the capability.
        name: String,
    },
    /// Nothing; the request goes on as it is.
    Skip,
    /// Something that makes no sense; the request is turned down.
    Invalid,
}

/// What a [`Lookup`] says.
pub ghost enum LookupView {
    /// A capability.
    Route(CapabilityKind, Seq<char>),
    /// Nothing.
    Skip,
    /// Something that makes no sense.
    Invalid,
}

impl View for Lookup {
    type V = LookupView;

    open spec fn view(&self) -> LookupView {
        match self {
            Lookup::Route { kind, name } => LookupView::Route(*kind, name@),
            Lookup::Skip => LookupView::Skip,
            Lookup::Invalid => LookupView::Invalid,
        }
    }
}

/// What the filter reads of a request.
#[derive(Debug, Clone, Copy)]
pub struct RouteRequest<'a> {
    /// Cluster that an earlier filter chose.
    pub cluster: Option<&'a str>,
    /// Method of the MCP call, when the request carries one.
    pub mcp_method: Option<&'a str>,
    /// Tool that the MCP call names.
    pub mcp_name: Option<&'a str>,
    /// Bytes of the model header.
    pub model: Option<&'a [u8]>,
}

/// What a [`RouteRequest`] says.
pub ghost struct RequestView {
    /// Cluster that an earlier filter chose.
    pub cluster: Option<Seq<char>>,
    /// Method of the MCP call, when the request carries one.
    pub mcp_method: Option<Seq<char>>,
    /// Tool that the MCP call names.
    pub mcp_name: Option<Seq<char>>,
    /// Bytes of the model header.
    pub model: Option<Seq<u8>>,
}

impl<'a> View for RouteRequest<'a> {
    type V = RequestView;

    open spec fn view(&self) -> RequestView {
        RequestView {
            cluster: lent_text(self.cluster),
            mcp_method: lent_text(self.mcp_method),
            mcp_name: lent_text(self.mcp_name),
            model: match self.model {
                Some(bytes) => Some(bytes@),
                None => None,
            },
        }
    }
}

/// Whether `name` can be looked up: it shows something and is not too long.
pub open spec fn is_lookup_name(name: Seq<char>) -> bool {
    !is_blank(name) && byte_length(name) <= MAX_HEADER_VALUE_LEN
}

/// What an MCP call asks for. Only tool calls are routed.
pub open spec fn mcp_lookup(method: Seq<char>, name: Option<Seq<char>>) -> LookupView {
    if method != "tools/call"@ {
        LookupView::Skip
    } else {
        match name {
            Some(tool) => if is_lookup_name(tool) {
                LookupView::Route(CapabilityKind::McpTool, tool)
            } else {
                LookupView::Invalid
            },
            None => LookupView::Invalid,
        }
    }
}

/// What the model header asks for.
pub open spec fn model_lookup(model: Option<Seq<u8>>) -> LookupView {
    match model {
        None => LookupView::Skip,
        Some(bytes) => if is_visible(bytes) && is_lookup_name(bytes_as_text(bytes)) {
            LookupView::Route(CapabilityKind::InferenceModel, bytes_as_text(bytes))
        } else {
            LookupView::Invalid
        },
    }
}

/// What a request asks for.
pub open spec fn lookup_of(request: RequestView) -> LookupView {
    match request.mcp_method {
        Some(method) => mcp_lookup(method, request.mcp_name),
        None => model_lookup(request.model),
    }
}

/// Whether `name` can be looked up.
fn is_lookup_text(name: &str) -> (r: bool)
    ensures
        r == is_lookup_name(name@),
{
    !blank(name) && byte_len(name) <= MAX_HEADER_VALUE_LEN
}

/// What an MCP call asks for. Only tool calls are routed; any other method
/// continues, even when there is a model header.
pub fn extract_mcp_lookup(request: &RouteRequest<'_>, method: &str) -> (r: Lookup)
    ensures
        r@ == mcp_lookup(method@, request@.mcp_name),
{
    if !same_text(method, "tools/call") {
        return Lookup::Skip;
    }
    match request.mcp_name {
        Some(name) => {
            if is_lookup_text(name) {
                Lookup::Route { kind: CapabilityKind::McpTool, name: name.to_owned() }
            } else {
                Lookup::Invalid
            }
        },
        None => Lookup::Invalid,
    }
}

/// What the model header asks for.
pub fn extract_model_lookup(request: &RouteRequest<'_>) -> (r: Lookup)
    ensures
        r@ == model_lookup(request@.model),
{
    match request.model {
        None => Lookup::Skip,
        Some(bytes) => match header_text(bytes) {
            None => Lookup::Invalid,
            Some(name) => {
                if is_lookup_text(name.as_str()) {
                    Lookup::Route { kind: CapabilityKind::InferenceModel, name }
                } else {
                    Lookup::Invalid
                }
            },
        },
    }
}

/// What a request asks for. An MCP call goes before the model header.
pub fn extract_lookup(request: &RouteRequest<'_>) -> (r: Lookup)
    ensures
        r@ == lookup_of(request@),
{
    match request.mcp_method {
        Some(method) => extract_mcp_lookup(request, method),
        None => extract_model_lookup(request),
    }
}

/// A note for later filters.
#[derive(Debug)]
pub struct Note {
    /// Name of the note.
    pub key: &'static str,
    /// What it says.
    pub value: String,
}

impl View for Note {
    type V = (Seq<char>, Seq<char>);

    open spec fn view(&self) -> (Seq<char>, Seq<char>) {
        (self.key@, self.value@)
    }
}

/// What the filter does to a request.
#[derive(Debug)]
pub struct RouteOutcome {
    /// Status with which the request is turned down; it goes on without one.
    pub rejection: Option<u16>,
    /// Cluster to send the request to.
    pub cluster: Option<String>,
    /// Notes for later filters.
    pub notes: Vec<Note>,
}

/// What a [`RouteOutcome`] says.
#[verifier::ext_equal]
pub ghost struct OutcomeView {
    /// Status with which the request is turned down; it goes on without one.
    pub rejection: Option<u16>,
    /// Cluster to send the request to.
    pub cluster: Option<Seq<char>>,
    /// Notes for later filters.
    pub notes: Seq<(Seq<char>, Seq<char>)>,
}

impl View for RouteOutcome {
    type V = OutcomeView;

    open spec fn view(&self) -> OutcomeView {
        OutcomeView {
            rejection: self.rejection,
            cluster: optional_text(self.cluster),
            notes: views(self.notes@),
        }
    }
}

/// The notes on a selected candidate.
pub open spec fn route_notes(local_site: Seq<char>, candidate: CandidateView) -> Seq<
    (Seq<char>, Seq<char>),
> {
    seq![
        (ROUTE_KIND@, candidate.kind.text()),
        (ROUTE_NAME@, candidate.name),
        (ROUTE_SITE@, candidate.site),
        (ROUTE_CLUSTER@, candidate.cluster),
        (ROUTE_LOCAL_SITE@, local_site),
    ]
}

/// The request goes on as it is.
pub open spec fn untouched() -> OutcomeView {
    OutcomeView { rejection: None, cluster: None, notes: seq![] }
}

/// The request is turned down.
pub open spec fn rejected(status: u16) -> OutcomeView {
    OutcomeView { rejection: Some(status), cluster: None, notes: seq![] }
}

/// The request goes to a candidate.
pub open spec fn selected(local_site: Seq<char>, candidate: CandidateView) -> OutcomeView {
    OutcomeView {
        rejection: None,
        cluster: Some(candidate.cluster),
        notes: route_notes(local_site, candidate),
    }
}

/// What becomes of a request.
pub open spec fn route_outcome(snapshot: SnapshotView, request: RequestView) -> OutcomeView {
    if request.cluster is Some {
        untouched()
    } else {
        match lookup_of(request) {
            LookupView::Skip => untouched(),
            LookupView::Invalid => rejected(400),
            LookupView::Route(kind, name) => match winner(
                snapshot.candidates,
                kind,
                name,
                snapshot.local_site,
            ) {
                Some(i) => selected(snapshot.local_site, snapshot.candidates[i]),
                None => rejected(404),
            },
        }
    }
}

/// A note.
fn note(key: &'static str, value: &str) -> (r: Note)
    ensures
        r@ == (key@, value@),
{
    Note { key, value: value.to_owned() }
}

/// The notes on a selected candidate.
pub fn record_route_decision(local_site: &str, candidate: &RouteCandidate) -> (r: Vec<Note>)
    ensures
        views(r@) == route_notes(local_site@, candidate@),
{
    let mut notes: Vec<Note> = Vec::new();
    notes.push(note(ROUTE_KIND, candidate.kind.as_str()));
    notes.push(note(ROUTE_NAME, candidate.name.as_str()));
    notes.push(note(ROUTE_SITE, candidate.site.as_str()));
    notes.push(note(ROUTE_CLUSTER, candidate.cluster.as_str()));
    notes.push(note(ROUTE_LOCAL_SITE, local_site));
    assert(views(notes@) =~= route_notes(local_site@, candidate@));
    notes
}

/// The outcome without a cluster and without notes.
fn bare_outcome(rejection: Option<u16>) -> (r: RouteOutcome)
    ensures
        r@ == (OutcomeView { rejection, cluster: None, notes: seq![] }),
{
    let r = RouteOutcome { rejection, cluster: None, notes: Vec::new() };
    assert(views(r.notes@) =~= seq![]);
    r
}

/// Route a request from `snapshot`.
pub fn route_request(snapshot: &RouteSnapshot, request: &RouteRequest<'_>) -> (r: RouteOutcome)
    ensures
        r@ == route_outcome(snapshot@, request@),
{
    if request.cluster.is_some() {
        return bare_outcome(None);
    }
    let (kind, name) = match extract_lookup(request) {
        Lookup::Route { kind, name } => (kind, name),
        Lookup::Skip => {
            return bare_outcome(None);
        },
        Lookup::Invalid => {
            return bare_outcome(Some(400));
        },
    };
    match select_candidate(
        snapshot.candidates.as_slice(),
        kind,
        name.as_str(),
        snapshot.local_site.as_str(),
    ) {
        Some(candidate) => RouteOutcome {
            rejection: None,
            cluster: Some(candidate.cluster.clone()),
            notes: record_route_decision(snapshot.local_site.as_str(), candidate),
        },
        None => bare_outcome(Some(404)),
    }
}

/// When and whether the overlay file is read again.
#[derive(Debug, Clone, Copy, PartialEq, Eq, Structural)]
pub struct ReloadConfig {
    /// Whether the file is watched.
    pub enabled: bool,
    /// Milliseconds to wait after a change before the file is read.
    pub debounce_ms: u64,
}

impl Default for ReloadConfig {
    fn default() -> (r: Self)
        ensures
            r.enabled,
            r.debounce_ms == DEFAULT_DEBOUNCE_MS,
            r.debounce_ms == 500,
    {
        Self { enabled: default_reload_enabled(), debounce_ms: default_debounce_ms() }
    }
}

/// Header that carries the model when none is configured.
pub fn default_model_header() -> (r: String)
    ensures
        r@ == "X-Model"@,
{
    "X-Model".to_owned()
}

/// Whether the overlay file is watched when nothing is configured.
pub fn default_reload_enabled() -> (r: bool)
    ensures
        r,
{
    true
}

/// Milliseconds to wait after a change when nothing is configured.
pub fn default_debounce_ms() -> (r: u64)
    ensures
        r == DEFAULT_DEBOUNCE_MS,
        r == 500,
{
    DEFAULT_DEBOUNCE_MS
}

/// How a [`GridRouteFilter`] is configured.
#[derive(Debug)]
pub struct GridRouteConfig {
    /// Inline candidates, instead of `overlay_file`.
    pub candidates: Option<Vec<CandidateConfig>>,
    /// Name of the local site, with inline candidates.
    pub local_site: Option<String>,
    /// Header that carries the model.
    pub model_header: String,
    /// File with candidates and local site, instead of `candidates`.
    pub overlay_file: Option<String>,
    /// Whether and when the overlay file is read again.
    pub reload: Option<ReloadConfig>,
}

/// What a [`GridRouteConfig`] says.
pub ghost struct RouteConfigView {
    /// Inline candidates.
    pub candidates: Option<Seq<ConfigView>>,
    /// Name of the local site.
    pub local_site: Option<Seq<char>>,
    /// Header that carries the model.
    pub model_header: Seq<char>,
    /// File with candidates and local site.
    pub overlay_file: Option<Seq<char>>,
    /// Whether and when the overlay file is read again.
    pub reload: Option<ReloadConfig>,
}

impl View for GridRouteConfig {
    type V = RouteConfigView;

    open spec fn view(&self) -> RouteConfigView {
        RouteConfigView {
            candidates: match self.candidates {
                Some(list) => Some(views(list@)),
                None => None,
            },
            local_site: optional_text(self.local_site),
            model_header: self.model_header@,
            overlay_file: optional_text(self.overlay_file),
            reload: self.reload,
        }
    }
}

/// A file to watch.
#[derive(Debug)]
pub struct OverlayWatch {
    /// The file.
    pub path: String,
    /// Milliseconds to wait after a change before the file is read.
    pub debounce_ms: u64,
}

impl View for OverlayWatch {
    type V = (Seq<char>, u64);

    open spec fn view(&self) -> (Seq<char>, u64) {
        (self.path@, self.debounce_ms)
    }
}

/// Routes requests to the clusters of a snapshot.
#[derive(Debug)]
pub struct GridRouteFilter {
    /// What requests are routed from.
    pub snapshot: RouteSnapshot,
    /// Header that carries the model, in lower case.
    pub model_header: String,
    /// File to watch for a new snapshot.
    pub watch: Option<OverlayWatch>,
}

/// What a [`GridRouteFilter`] says.
pub ghost struct RouteFilterView {
    /// What requests are routed from.
    pub snapshot: SnapshotView,
    /// Header that carries the model, in lower case.
    pub model_header: Seq<char>,
    /// File to watch for a new snapshot.
    pub watch: Option<(Seq<char>, u64)>,
}

impl View for GridRouteFilter {
    type V = RouteFilterView;

    open spec fn view(&self) -> RouteFilterView {
        RouteFilterView {
            snapshot: self.snapshot@,
            model_header: self.model_header@,
            watch: match self.watch {
                Some(file) => Some(file@),
                None => None,
            },
        }
    }
}

/// The file that has to be read to configure a filter: none when the
/// configuration is wrong without it.
pub open spec fn file_to_read(config: RouteConfigView) -> Option<Seq<char>> {
    if model_header_of(config.model_header) is Ok && config.candidates is None {
        config.overlay_file
    } else {
        None
    }
}

/// The snapshot of an overlay file and whether the file is watched.
pub open spec fn overlay_source(
    path: Seq<char>,
    reload: ReloadConfig,
    read: Result<Seq<u8>, Seq<char>>,
    parsed: Result<DocumentView, Seq<char>>,
) -> Result<(SnapshotView, Option<(Seq<char>, u64)>), GridFault> {
    match bounded_read(read) {
        Err(reason) => Err(GridFault::OverlayUnreadable(path, reason)),
        Ok(content) => match overlay_snapshot(content, parsed) {
            Err(fault) => Err(fault),
            Ok(snapshot) => Ok(
                (
                    snapshot,
                    if reload.enabled {
                        Some((path, reload.debounce_ms))
                    } else {
                        None
                    },
                ),
            ),
        },
    }
}

/// The snapshot of inline candidates.
pub open spec fn static_source(raw: Seq<ConfigView>, local_site: Option<Seq<char>>) -> Result<
    SnapshotView,
    GridFault,
> {
    match local_site {
        None => Err(GridFault::MissingLocalSite),
        Some(site) => if is_blank(site) {
            Err(GridFault::BlankLocalSite)
        } else {
            match validated(raw) {
                Err(fault) => Err(fault),
                Ok(candidates) => Ok(
                    SnapshotView {
                        candidates,
                        content_hash: Seq::new(32, |i: int| 0u8),
                        generated_at: None,
                        local_site: site,
                    },
                ),
            }
        },
    }
}

/// The settings for reading the overlay file again.
pub open spec fn reload_of(config: RouteConfigView) -> ReloadConfig {
    match config.reload {
        Some(reload) => reload,
        None => ReloadConfig { enabled: true, debounce_ms: DEFAULT_DEBOUNCE_MS },
    }
}

/// The filter that a configuration describes.
pub open spec fn configured(
    config: RouteConfigView,
    read: Result<Seq<u8>, Seq<char>>,
    parsed: Result<DocumentView, Seq<char>>,
) -> Result<RouteFilterView, GridFault> {
    match model_header_of(config.model_header) {
        Err(fault) => Err(fault),
        Ok(model_header) => match (config.overlay_file, config.candidates) {
            (Some(_), Some(_)) => Err(GridFault::BothSources),
            (None, None) => Err(GridFault::NoSource),
            (Some(path), None) => match overlay_source(path, reload_of(config), read, parsed) {
                Err(fault) => Err(fault),
                Ok((snapshot, watch)) => Ok(RouteFilterView { snapshot, model_header, watch }),
            },
            (None, Some(raw)) => if config.reload is Some {
                Err(GridFault::ReloadOfCandidates)
            } else {
                match static_source(raw, config.local_site) {
                    Err(fault) => Err(fault),
                    Ok(snapshot) => Ok(RouteFilterView { snapshot, model_header, watch: None }),
                }
            },
        },
    }
}

/// The snapshot of the overlay file `path`, and the file to watch if it is to be
/// read again: `read` is what was read of the file, `parsed` what that says.
pub fn build_overlay_snapshot(
    path: String,
    reload: ReloadConfig,
    read: Result<Vec<u8>, String>,
    parsed: Result<OverlayDocument, String>,
) -> (r: Result<(RouteSnapshot, Option<OverlayWatch>), GridError>)
    ensures
        match overlay_source(path@, reload, read_view(read), parsed_view(parsed)) {
            Err(fault) => r matches Err(e) && e@ == fault,
            Ok((snapshot, watch)) => {
                &&& r is Ok
                &&& r->Ok_0.0@ == snapshot
                &&& match (r->Ok_0.1, watch) {
                    (Some(file), Some(expected)) => file@ == expected,
                    (None, None) => true,
                    _ => false,
                }
            },
        },
{
    let content = match read_overlay_bounded(read) {
        Err(reason) => {
            return Err(GridError::OverlayUnreadable { path, reason });
        },
        Ok(content) => content,
    };
    match RouteSnapshot::from_overlay(content.as_slice(), parsed) {
        Err(e) => Err(e),
        Ok(snapshot) => {
            let watch = if reload.enabled {
                Some(OverlayWatch { path, debounce_ms: reload.debounce_ms })
            } else {
                None
            };
            Ok((snapshot, watch))
        },
    }
}

/// The snapshot of inline candidates.
pub fn build_static_snapshot(raw: Vec<CandidateConfig>, local_site: Option<String>) -> (r: Result<
    RouteSnapshot,
    GridError,
>)
    ensures
        match static_source(views(raw@), optional_text(local_site)) {
            Err(fault) => r matches Err(e) && e@ == fault,
            Ok(snapshot) => r matches Ok(held) && held@ == snapshot,
        },
{
    let site = match local_site {
        None => {
            return Err(GridError::MissingLocalSite);
        },
        Some(site) => site,
    };
    match validate_local_site(site.as_str()) {
        Err(e) => {
            return Err(e);
        },
        Ok(()) => {},
    }
    match validate_candidates(raw) {
        Err(e) => Err(e),
        Ok(candidates) => Ok(RouteSnapshot::from_static(candidates, site)),
    }
}

impl GridRouteConfig {
    /// The file that has to be read before a filter can be made: none when the
    /// configuration is wrong without it, or needs no file.
    pub fn overlay_to_read(&self) -> (r: Option<&str>)
        ensures
            lent_text(r) == file_to_read(self@),
    {
        if self.candidates.is_some() || validate_model_header(self.model_header.as_str()).is_err() {
            return None;
        }
        match &self.overlay_file {
            Some(path) => Some(path.as_str()),
            None => None,
        }
    }
}

impl GridRouteFilter {
    /// The filter that `config` describes: `read` is what was read of its overlay
    /// file and `parsed` what that says. With inline candidates neither matters.
    pub fn from_config(
        config: GridRouteConfig,
        read: Result<Vec<u8>, String>,
        parsed: Result<OverlayDocument, String>,
    ) -> (r: Result<Self, GridError>)
        ensures
            match configured(config@, read_view(read), parsed_view(parsed)) {
                Err(fault) => r matches Err(e) && e@ == fault,
                Ok(filter) => r matches Ok(held) && held@ == filter,
            },
    {
        let model_header = match validate_model_header(config.model_header.as_str()) {
            Err(e) => {
                return Err(e);
            },
            Ok(header) => header,
        };
        match (config.overlay_file, config.candidates) {
            (Some(_), Some(_)) => Err(GridError::BothSources),
            (None, None) => Err(GridError::NoSource),
            (Some(path), None) => {
                let reload = match config.reload {
                    Some(reload) => reload,
                    None => ReloadConfig::default(),
                };
                match build_overlay_snapshot(path, reload, read, parsed) {
                    Err(e) => Err(e),
                    Ok((snapshot, watch)) => Ok(Self { snapshot, model_header, watch }),
                }
            },
            (None, Some(raw)) => {
                if config.reload.is_some() {
                    return Err(GridError::ReloadOfCandidates);
                }
                match build_static_snapshot(raw, config.local_site) {
                    Err(e) => Err(e),
                    Ok(snapshot) => Ok(Self { snapshot, model_header, watch: None }),
                }
            },
        }
    }

    /// Name of the filter.
    pub fn name(&self) -> (r: &'static str)
        ensures
            r@ == "grid_route"@,
    {
        "grid_route"
    }

    /// The filter chooses the cluster of a request.
    pub fn selects_cluster(&self) -> (r: bool)
        ensures
            r,
    {
        true
    }

    /// Route a request.
    pub fn on_request(&self, request: &RouteRequest<'_>) -> (r: RouteOutcome)
        ensures
            r@ == route_outcome(self@.snapshot, request@),
    {
        route_request(&self.snapshot, request)
    }
}

/// A request is routed whenever any candidate offers what it asks for.
pub proof fn law_an_offer_is_never_missed(
    candidates: Seq<CandidateView>,
    kind: CapabilityKind,
    name: Seq<char>,
    local_site: Seq<char>,
)
    ensures
        winner(candidates, kind, name, local_site) is Some <==> exists|i: int|
            0 <= i < candidates.len() && offers(#[trigger] candidates[i], kind, name),
        winner(candidates, kind, name, local_site) matches Some(i) ==> wins(
            candidates,
            kind,
            name,
            local_site,
            i,
        ),
    decreases candidates.len(),
{
    if candidates.len() > 0 {
        let front = candidates.drop_last();
        let last = candidates.len() - 1;
        law_an_offer_is_never_missed(front, kind, name, local_site);
        if winner(front, kind, name, local_site) is Some {
            let i = winner(front, kind, name, local_site)->0;
            assert forall|j: int| 0 <= j < front.len() implies candidates[j] == front[j] by {}
            if offers(candidates[last], kind, name) && score(candidates[last], local_site) > score(
                candidates[i],
                local_site,
            ) {
                assert forall|j: int|
                    0 <= j < last && offers(#[trigger] candidates[j], kind, name) implies score(
                    candidates[j],
                    local_site,
                ) < score(candidates[last], local_site) by {
                    assert(offers(front[j], kind, name));
                }
                assert(wins(candidates, kind, name, local_site, last));
            } else {
                assert forall|j: int|
                    0 <= j < candidates.len() && offers(
                        #[trigger] candidates[j],
                        kind,
                        name,
                    ) implies score(candidates[j], local_site) <= score(
                    candidates[i],
                    local_site,
                ) by {
                    if j < last {
                        assert(offers(front[j], kind, name));
                    }
                }
                assert forall|j: int|
                    0 <= j < i && offers(#[trigger] candidates[j], kind, name) implies score(
                    candidates[j],
                    local_site,
                ) < score(candidates[i], local_site) by {
                    assert(offers(front[j], kind, name));
                }
                assert(wins(candidates, kind, name, local_site, i));
            }
        } else {
            assert forall|j: int| 0 <= j < last implies !offers(
                #[trigger] candidates[j],
                kind,
                name,
            ) by {
                assert(candidates[j] == front[j]);
            }
            if offers(candidates[last], kind, name) {
                assert(wins(candidates, kind, name, local_site, last));
            }
        }
    }
    if exists|i: int| 0 <= i < candidates.len() && offers(#[trigger] candidates[i], kind, name) {
        assert(exists|i: int| wins(candidates, kind, name, local_site, i));
    }
}

/// A stale candidate is chosen only when no fresh one offers the same.
pub proof fn law_fresh_beats_stale(
    candidates: Seq<CandidateView>,
    kind: CapabilityKind,
    name: Seq<char>,
    local_site: Seq<char>,
    j: int,
)
    requires
        winner(candidates, kind, name, local_site) is Some,
        0 <= j < candidates.len(),
        offers(candidates[j], kind, name),
        candidates[j].fresh,
    ensures
        candidates[winner(candidates, kind, name, local_site)->0].fresh,
{
    law_an_offer_is_never_missed(candidates, kind, name, local_site);
}

/// A remote candidate is chosen only when no local one that is as fresh offers
/// the same.
pub proof fn law_local_beats_remote(
    candidates: Seq<CandidateView>,
    kind: CapabilityKind,
    name: Seq<char>,
    local_site: Seq<char>,
    j: int,
)
    requires
        winner(candidates, kind, name, local_site) is Some,
        0 <= j < candidates.len(),
        offers(candidates[j], kind, name),
        candidates[j].site == local_site,
        candidates[j].fresh == candidates[winner(candidates, kind, name, local_site)->0].fresh,
    ensures
        candidates[winner(candidates, kind, name, local_site)->0].site == local_site,
{
    law_an_offer_is_never_missed(candidates, kind, name, local_site);
}

/// Among candidates that are as fresh and as near, the first one is chosen.
pub proof fn law_first_wins_ties(
    candidates: Seq<CandidateView>,
    kind: CapabilityKind,
    name: Seq<char>,
    local_site: Seq<char>,
    j: int,
)
    requires
        winner(candidates, kind, name, local_site) is Some,
        0 <= j < candidates.len(),
        offers(candidates[j], kind, name),
        candidates[j].fresh == candidates[winner(candidates, kind, name, local_site)->0].fresh,
        (candidates[j].site == local_site) == (candidates[winner(
            candidates,
            kind,
            name,
            local_site,
        )->0].site == local_site),
    ensures
        winner(candidates, kind, name, local_site)->0 <= j,
{
    law_an_offer_is_never_missed(candidates, kind, name, local_site);
}

/// A request that carries an MCP call is routed the same whatever its model
/// header says.
pub proof fn law_mcp_goes_before_the_model_header(
    snapshot: SnapshotView,
    request: RequestView,
    model: Option<Seq<u8>>,
)
    requires
        request.mcp_method is Some,
    ensures
        route_outcome(snapshot, request) == route_outcome(
            snapshot,
            RequestView { model, ..request },
        ),
{
}

/// A request is sent only to a candidate of the kind that it asks for: tools for
/// MCP calls, models for anything else.
pub proof fn law_routes_stay_within_their_kind(snapshot: SnapshotView, request: RequestView)
    ensures
        route_outcome(snapshot, request).cluster matches Some(cluster) ==> exists|i: int|
            {
                &&& 0 <= i < snapshot.candidates.len()
                &&& (#[trigger] snapshot.candidates[i]).cluster == cluster
                &&& snapshot.candidates[i].kind == (if request.mcp_method is Some {
                    CapabilityKind::McpTool
                } else {
                    CapabilityKind::InferenceModel
                })
            },
{
    if route_outcome(snapshot, request).cluster is Some {
        match lookup_of(request) {
            LookupView::Route(kind, name) => {
                law_an_offer_is_never_missed(
                    snapshot.candidates,
                    kind,
                    name,
                    snapshot.local_site,
                );
                let i = winner(snapshot.candidates, kind, name, snapshot.local_site)->0;
                assert(snapshot.candidates[i].kind == kind);
            },
            _ => {},
        }
    }
}

/// A cluster that an earlier filter chose stays, and nothing is noted.
pub proof fn law_a_chosen_cluster_stays(snapshot: SnapshotView, request: RequestView)
    requires
        request.cluster is Some,
    ensures
        route_outcome(snapshot, request) == untouched(),
{
}

/// A request that says neither which model nor which tool it is for goes on as it
/// is, and so does any MCP message other than a tool call.
pub proof fn law_nothing_asked_changes_nothing(snapshot: SnapshotView, request: RequestView)
    requires
        match request.mcp_method {
            Some(method) => method != "tools/call"@,
            None => request.model is None,
        },
    ensures
        route_outcome(snapshot, request) == untouched(),
{
}

/// A request for a model whose name shows nothing, is too long or is not visible
/// ASCII is turned down as a bad request, and so is a tool call without a name
/// or with such a name.
pub proof fn law_bad_names_are_bad_requests(snapshot: SnapshotView, request: RequestView)
    requires
        request.cluster is None,
        match request.mcp_method {
            Some(method) => method == "tools/call"@ && (request.mcp_name matches Some(name)
                ==> is_blank(name) || byte_length(name) > MAX_HEADER_VALUE_LEN),
            None => request.model matches Some(bytes) && (!is_visible(bytes) || is_blank(
                bytes_as_text(bytes),
            ) || byte_length(bytes_as_text(bytes)) > MAX_HEADER_VALUE_LEN),
        },
    ensures
        route_outcome(snapshot, request) == rejected(400),
{
}

/// A request for something that can be looked up is sent to the candidate that
/// wins, or turned down as not found when no candidate offers it.
pub proof fn law_lookups_are_answered(
    snapshot: SnapshotView,
    request: RequestView,
    kind: CapabilityKind,
    name: Seq<char>,
)
    requires
        request.cluster is None,
        lookup_of(request) == LookupView::Route(kind, name),
    ensures
        (forall|i: int|
            0 <= i < snapshot.candidates.len() ==> !offers(
                #[trigger] snapshot.candidates[i],
                kind,
                name,
            )) ==> route_outcome(snapshot, request) == rejected(404),
        (exists|i: int|
            0 <= i < snapshot.candidates.len() && offers(
                #[trigger] snapshot.candidates[i],
                kind,
                name,
            )) ==> exists|i: int|
            wins(snapshot.candidates, kind, name, snapshot.local_site, i) && route_outcome(
                snapshot,
                request,
            ) == selected(snapshot.local_site, #[trigger] snapshot.candidates[i]),
{
    law_an_offer_is_never_missed(snapshot.candidates, kind, name, snapshot.local_site);
    match winner(snapshot.candidates, kind, name, snapshot.local_site) {
        Some(i) => {
            assert(route_outcome(snapshot, request) == selected(
                snapshot.local_site,
                snapshot.candidates[i],
            ));
        },
        None => {},
    }
}

/// Notes are left exactly when a cluster is chosen, and a request that is turned
/// down gets neither.
pub proof fn law_notes_go_with_a_cluster(snapshot: SnapshotView, request: RequestView)
    ensures
        route_outcome(snapshot, request).cluster is Some <==> route_outcome(
            snapshot,
            request,
        ).notes.len() > 0,
        route_outcome(snapshot, request).rejection is Some ==> route_outcome(
            snapshot,
            request,
        ).cluster is None,
        route_outcome(snapshot, request).rejection matches Some(status) ==> status == 400 || status
            == 404,
{
}

/// Every filter that can be configured has something to route from.
pub proof fn law_configured_filters_are_routable(
    config: RouteConfigView,
    read: Result<Seq<u8>, Seq<char>>,
    parsed: Result<DocumentView, Seq<char>>,
)
    ensures
        configured(config, read, parsed) matches Ok(filter) ==> is_routable(filter.snapshot),
{
    if configured(config, read, parsed) is Ok {
        match (config.overlay_file, config.candidates) {
            (Some(_), None) => {
                law_overlay_snapshots_are_routable(bounded_read(read)->Ok_0, parsed);
            },
            (None, Some(raw)) => {
                let snapshot = configured(config, read, parsed)->Ok_0.snapshot;
                assert forall|i: int| 0 <= i < snapshot.candidates.len() implies {
                    let candidate = #[trigger] snapshot.candidates[i];
                    !is_blank(candidate.name) && !is_blank(candidate.site) && !is_blank(
                        candidate.cluster,
                    )
                } by {
                    lemma_no_fault(raw, i);
                }
            },
            _ => {},
        }
    }
}

/// A file is watched exactly when the candidates come from it and reading it
/// again was not switched off.
pub proof fn law_only_overlays_are_watched(
    config: RouteConfigView,
    read: Result<Seq<u8>, Seq<char>>,
    parsed: Result<DocumentView, Seq<char>>,
)
    requires
        configured(config, read, parsed) is Ok,
    ensures
        configured(config, read, parsed)->Ok_0.watch == (match config.overlay_file {
            Some(path) => if reload_of(config).enabled {
                Some((path, reload_of(config).debounce_ms))
            } else {
                None
            },
            None => None,
        }),
{
}

/// Reading the overlay file is needed only when the configuration is otherwise
/// right: what was read matters in no other case.
pub proof fn law_no_file_is_read_in_vain(
    config: RouteConfigView,
    read_a: Result<Seq<u8>, Seq<char>>,
    parsed_a: Result<DocumentView, Seq<char>>,
    read_b: Result<Seq<u8>, Seq<char>>,
    parsed_b: Result<DocumentView, Seq<char>>,
)
    requires
        file_to_read(config) is None,
    ensures
        configured(config, read_a, parsed_a) == configured(config, read_b, parsed_b),
{
}

/// The candidate at `i` offers what is asked for, and among all that do it is the
/// best one: fresh unless all are stale, then local unless none as fresh is, then
/// the first. Everything else that is known of a candidate plays no part.
pub open spec fn is_best(
    candidates: Seq<CandidateView>,
    kind: CapabilityKind,
    name: Seq<char>,
    local_site: Seq<char>,
    i: int,
) -> bool {
    &&& 0 <= i < candidates.len()
    &&& candidates[i].kind == kind
    &&& candidates[i].name == name
    &&& forall|j: int|
        0 <= j < candidates.len() && (#[trigger] candidates[j]).kind == kind && candidates[j].name
            == name ==> {
            &&& candidates[j].fresh ==> candidates[i].fresh
            &&& candidates[j].fresh == candidates[i].fresh && candidates[j].site == local_site
                ==> candidates[i].site == local_site
            &&& candidates[j].fresh == candidates[i].fresh && (candidates[j].site == local_site)
                == (candidates[i].site == local_site) ==> i <= j
        }
}

/// What a candidate is worth depends on two things alone: whether it is fresh and
/// whether it is local.
pub proof fn law_worth_is_freshness_then_nearness(candidate: CandidateView, local_site: Seq<char>)
    ensures
        score(candidate, local_site) == (if candidate.fresh {
            if candidate.site == local_site {
                10int
            } else {
                0int
            }
        } else if candidate.site == local_site {
            -90int
        } else {
            -100int
        }),
{
}

/// Whenever a candidate of the kind and the name that are asked for is there, the
/// best of these is selected; otherwise none is.
pub proof fn law_the_best_candidate_is_selected(
    candidates: Seq<CandidateView>,
    kind: CapabilityKind,
    name: Seq<char>,
    local_site: Seq<char>,
)
    ensures
        match winner(candidates, kind, name, local_site) {
            Some(i) => is_best(candidates, kind, name, local_site, i),
            None => forall|j: int|
                0 <= j < candidates.len() ==> !((#[trigger] candidates[j]).kind == kind
                    && candidates[j].name == name),
        },
{
    law_an_offer_is_never_missed(candidates, kind, name, local_site);
    match winner(candidates, kind, name, local_site) {
        Some(i) => {
            assert(wins(candidates, kind, name, local_site, i));
            assert forall|j: int|
                0 <= j < candidates.len() && (#[trigger] candidates[j]).kind == kind
                    && candidates[j].name == name implies {
                &&& candidates[j].fresh ==> candidates[i].fresh
                &&& candidates[j].fresh == candidates[i].fresh && candidates[j].site == local_site
                    ==> candidates[i].site == local_site
                &&& candidates[j].fresh == candidates[i].fresh && (candidates[j].site == local_site)
                    == (candidates[i].site == local_site) ==> i <= j
            } by {
                assert(offers(candidates[j], kind, name));
            }
        },
        None => {
            assert forall|j: int| 0 <= j < candidates.len() implies !((
            #[trigger] candidates[j]).kind == kind && candidates[j].name == name) by {
                assert(!offers(candidates[j], kind, name));
            }
        },
    }
}

/// A name can be looked up exactly when it shows something and takes at most 256
/// bytes.
pub open spec fn can_be_asked_for(name: Seq<char>) -> bool {
    &&& exists|k: int| 0 <= k < name.len() && !is_white_space(#[trigger] name[k])
    &&& encode_utf8(name).len() <= 256
}

/// What is asked for by whom: an MCP tool call asks for the tool that it names and
/// any other MCP message for nothing; without MCP the model header asks for the
/// model that its visible characters name, and without that nothing is asked for.
/// A name that cannot be looked up makes no sense.
pub proof fn law_requests_ask_for_what_they_name(request: RequestView)
    ensures
        request.mcp_method matches Some(method) ==> {
            &&& method != "tools/call"@ ==> lookup_of(request) == LookupView::Skip
            &&& method == "tools/call"@ ==> lookup_of(request) == (match request.mcp_name {
                Some(tool) if can_be_asked_for(tool) => LookupView::Route(
                    CapabilityKind::McpTool,
                    tool,
                ),
                _ => LookupView::Invalid,
            })
        },
        request.mcp_method is None ==> match request.model {
            None => lookup_of(request) == LookupView::Skip,
            Some(bytes) => {
                let name = Seq::new(bytes.len(), |k: int| bytes[k] as char);
                let visible = forall|k: int|
                    0 <= k < bytes.len() ==> 32 <= #[trigger] bytes[k] < 127 || bytes[k] == 9;
                lookup_of(request) == if visible && can_be_asked_for(name) {
                    LookupView::Route(CapabilityKind::InferenceModel, name)
                } else {
                    LookupView::Invalid
                }
            },
        },
{
    if request.mcp_name is Some {
        lemma_can_be_asked_for(request.mcp_name->0);
    }
    if request.model is Some {
        let bytes = request.model->0;
        let name = Seq::new(bytes.len(), |k: int| bytes[k] as char);
        assert(name =~= bytes_as_text(bytes));
        lemma_can_be_asked_for(name);
        let visible = forall|k: int|
            0 <= k < bytes.len() ==> 32 <= #[trigger] bytes[k] < 127 || bytes[k] == 9;
        assert(visible <==> is_visible(bytes)) by {
            if is_visible(bytes) {
                assert forall|k: int| 0 <= k < bytes.len() implies 32 <= #[trigger] bytes[k] < 127
                    || bytes[k] == 9 by {
                    assert(is_visible_byte(bytes[k]));
                }
            }
        }
    }
}

/// What can be asked for is what is looked up.
proof fn lemma_can_be_asked_for(name: Seq<char>)
    ensures
        can_be_asked_for(name) <==> is_lookup_name(name),
{
    if !is_blank(name) {
        let k = choose|k: int| 0 <= k < name.len() && !is_white_space(#[trigger] name[k]);
        assert(!is_white_space(name[k]));
    }
}

/// A request that has no cluster yet and asks for something that can be looked up
/// is sent to the cluster of the best candidate of exactly that kind and name,
/// with notes that say so; it is turned down as not found only where there is no
/// such candidate at all. What makes no sense is a bad request. Any other request,
/// and one that has a cluster already, goes on untouched.
pub proof fn law_requests_go_to_the_best_candidate(snapshot: SnapshotView, request: RequestView)
    ensures
        ({
            let outcome = route_outcome(snapshot, request);
            match (request.cluster, lookup_of(request)) {
                (None, LookupView::Route(kind, name)) => {
                    ||| exists|i: int|
                        {
                            let found = #[trigger] snapshot.candidates[i];
                            &&& is_best(snapshot.candidates, kind, name, snapshot.local_site, i)
                            &&& outcome.rejection is None
                            &&& outcome.cluster == Some(found.cluster)
                            &&& outcome.notes == seq![
                                (
                                    "grid.route.kind"@,
                                    match kind {
                                        CapabilityKind::InferenceModel => "inference_model"@,
                                        CapabilityKind::McpTool => "mcp_tool"@,
                                    },
                                ),
                                ("grid.route.name"@, name),
                                ("grid.route.site"@, found.site),
                                ("grid.route.cluster"@, found.cluster),
                                ("grid.route.local_site"@, snapshot.local_site),
                            ]
                        }
                    ||| {
                        &&& forall|j: int|
                            0 <= j < snapshot.candidates.len() ==> !((
                            #[trigger] snapshot.candidates[j]).kind == kind
                                && snapshot.candidates[j].name == name)
                        &&& outcome.rejection == Some(404u16)
                        &&& outcome.cluster is None
                        &&& outcome.notes.len() == 0
                    }
                },
                (None, LookupView::Invalid) => {
                    &&& outcome.rejection == Some(400u16)
                    &&& outcome.cluster is None
                    &&& outcome.notes.len() == 0
                },
                _ => {
                    &&& outcome.rejection is None
                    &&& outcome.cluster is None
                    &&& outcome.notes.len() == 0
                },
            }
        }),
{
    match (request.cluster, lookup_of(request)) {
        (None, LookupView::Route(kind, name)) => {
            law_the_best_candidate_is_selected(
                snapshot.candidates,
                kind,
                name,
                snapshot.local_site,
            );
            match winner(snapshot.candidates, kind, name, snapshot.local_site) {
                Some(i) => {
                    let found = snapshot.candidates[i];
                    let outcome = route_outcome(snapshot, request);
                    assert(is_best(snapshot.candidates, kind, name, snapshot.local_site, i));
                    assert(outcome.notes =~= seq![
                        (
                            "grid.route.kind"@,
                            match kind {
                                CapabilityKind::InferenceModel => "inference_model"@,
                                CapabilityKind::McpTool => "mcp_tool"@,
                            },
                        ),
                        ("grid.route.name"@, name),
                        ("grid.route.site"@, found.site),
                        ("grid.route.cluster"@, found.cluster),
                        ("grid.route.local_site"@, snapshot.local_site),
                    ]);
                },
                None => {},
            }
        },
        _ => {},
    }
}

/// A configuration is taken as it is written. The header of the model has to be
/// one. The candidates come from exactly one place: inline, with a local site that
/// shows something and without reloading; or from an overlay file that could be
/// read, is at most 2097152 bytes long and becomes a snapshot. Such a file is
/// watched, with a wait of half a second or the configured one, unless that is
/// switched off.
pub proof fn law_configurations_are_taken_as_written(
    config: RouteConfigView,
    read: Result<Seq<u8>, Seq<char>>,
    parsed: Result<DocumentView, Seq<char>>,
)
    ensures
        match model_header_of(config.model_header) {
            Err(fault) => configured(config, read, parsed) == Err::<RouteFilterView, GridFault>(
                fault,
            ),
            Ok(model_header) => match (config.overlay_file, config.candidates) {
                (Some(_), Some(_)) => configured(config, read, parsed) == Err::<
                    RouteFilterView,
                    GridFault,
                >(GridFault::BothSources),
                (None, None) => configured(config, read, parsed) == Err::<
                    RouteFilterView,
                    GridFault,
                >(GridFault::NoSource),
                (None, Some(raw)) => configured(config, read, parsed) == (if config.reload is Some {
                    Err::<RouteFilterView, GridFault>(GridFault::ReloadOfCandidates)
                } else if config.local_site is None {
                    Err(GridFault::MissingLocalSite)
                } else if !shows_something(config.local_site->0) {
                    Err(GridFault::BlankLocalSite)
                } else {
                    match validated(raw) {
                        Err(fault) => Err(fault),
                        Ok(candidates) => Ok(
                            RouteFilterView {
                                snapshot: SnapshotView {
                                    candidates,
                                    content_hash: Seq::new(32, |i: int| 0u8),
                                    generated_at: None,
                                    local_site: config.local_site->0,
                                },
                                model_header,
                                watch: None,
                            },
                        ),
                    }
                }),
                (Some(path), None) => match read {
                    Err(reason) => configured(config, read, parsed) == Err::<
                        RouteFilterView,
                        GridFault,
                    >(GridFault::OverlayUnreadable(path, reason)),
                    Ok(content) => if content.len() > 2097152 {
                        configured(config, read, parsed) matches Err(
                            GridFault::OverlayUnreadable(file, _),
                        ) && file == path
                    } else {
                        configured(config, read, parsed) == (match overlay_snapshot(
                            content,
                            parsed,
                        ) {
                            Err(fault) => Err::<RouteFilterView, GridFault>(fault),
                            Ok(snapshot) => Ok(
                                RouteFilterView {
                                    snapshot,
                                    model_header,
                                    watch: match config.reload {
                                        None => Some((path, 500u64)),
                                        Some(reload) => if reload.enabled {
                                            Some((path, reload.debounce_ms))
                                        } else {
                                            None
                                        },
                                    },
                                },
                            ),
                        })
                    },
                },
            },
        },
{
    if config.local_site is Some {
        law_blank_texts_show_nothing(config.local_site->0);
    }
}

/// The overlay file is read exactly when the header of the model is one and no
/// candidates are given inline.
pub proof fn law_overlay_files_are_read_when_needed(config: RouteConfigView)
    ensures
        file_to_read(config) == (if model_header_of(config.model_header) is Ok
            && config.candidates is None {
            config.overlay_file
        } else {
            None
        }),
{
}

/// A request, what it asks for and what becomes of it are seen as they are.
pub proof fn law_requests_are_seen_as_they_are(
    request: RouteRequest,
    lookup: Lookup,
    note: Note,
    outcome: RouteOutcome,
)
    ensures
        request@.cluster == (match request.cluster {
            Some(text) => Some(text@),
            None => None,
        }),
        request@.mcp_method == (match request.mcp_method {
            Some(text) => Some(text@),
            None => None,
        }),
        request@.mcp_name == (match request.mcp_name {
            Some(text) => Some(text@),
            None => None,
        }),
        request@.model == (match request.model {
            Some(bytes) => Some(bytes@),
            None => None,
        }),
        lookup matches Lookup::Route { kind, name } ==> lookup@ == LookupView::Route(kind, name@),
        lookup is Skip <==> lookup@ is Skip,
        lookup is Invalid <==> lookup@ is Invalid,
        note@.0 == note.key@,
        note@.1 == note.value@,
        outcome@.rejection == outcome.rejection,
        outcome@.cluster == (match outcome.cluster {
            Some(text) => Some(text@),
            None => None,
        }),
        outcome@.notes.len() == outcome.notes@.len(),
        forall|i: int|
            0 <= i < outcome.notes@.len() ==> outcome@.notes[i] == (#[trigger] outcome.notes@[i])@,
{
}

/// A configuration, a filter and the file that it watches are seen as they are.
pub proof fn law_filters_are_seen_as_they_are(
    config: GridRouteConfig,
    watch: OverlayWatch,
    filter: GridRouteFilter,
)
    ensures
        config@.candidates is Some <==> config.candidates is Some,
        config.candidates matches Some(list) ==> {
            &&& config@.candidates->0.len() == list@.len()
            &&& forall|i: int|
                0 <= i < list@.len() ==> config@.candidates->0[i] == (#[trigger] list@[i])@
        },
        config@.local_site == (match config.local_site {
            Some(text) => Some(text@),
            None => None,
        }),
        config@.model_header == config.model_header@,
        config@.overlay_file == (match config.overlay_file {
            Some(text) => Some(text@),
            None => None,
        }),
        config@.reload == config.reload,
        watch@.0 == watch.path@,
        watch@.1 == watch.debounce_ms,
        filter@.snapshot == filter.snapshot@,
        filter@.model_header == filter.model_header@,
        filter@.watch == (match filter.watch {
            Some(file) => Some(file@),
            None => None,
        }),
{
}

} // verus!
