//! The routing overlay: what a file says, the snapshot it becomes, and when the
//! file is read again.
use vstd::prelude::*;
use vstd::string::*;

use super::descriptor::{
    agrees, is_named, law_candidates_are_taken_as_configured,
    law_the_first_unusable_candidate_is_reported, lemma_no_fault, validate_candidates,
    validate_local_site, validated, views, AdmissionState, CandidateConfig, CandidateView, CapabilityKind, ConfigView,
    RouteCandidate,
};
use super::error::{GridError, GridFault};
use crate::hash::{sha256, sha256_of};
use crate::text::{
    decimal, decimal_text, is_blank, law_blank_texts_show_nothing, optional_text, same_bytes,
    shows_something,
};

verus! {

/// Milliseconds to wait after a change before the file is read.
pub const DEFAULT_DEBOUNCE_MS: u64 = 500;

/// Longest overlay file that is accepted, in bytes.
pub const MAX_OVERLAY_SIZE: u64 = 2097152;

/// Milliseconds to wait for the watcher to end.
pub const JOIN_TIMEOUT_MS: u64 = 2000;

/// Milliseconds between two looks at whether the watcher has ended.
pub const JOIN_POLL_MS: u64 = 5;

/// What an overlay file says.
#[derive(Debug)]
pub struct OverlayDocument {
    /// Name of the local site.
    pub local_site: String,
    /// Candidates in the operator's order.
    pub candidates: Vec<OverlayCandidate>,
    /// When the overlay was made.
    pub generated_at: Option<String>,
}

/// One candidate of an overlay file.
#[derive(Debug)]
pub struct OverlayCandidate {
    /// Name of the admission state.
    pub admission_state: Option<String>,
    /// Cluster that serves the capability.
    pub cluster: String,
    /// Whether the candidate was heard of lately.
    pub fresh: bool,
    /// Name of the kind of capability.
    pub kind: String,
    /// Name of the capability.
    pub name: String,
    /// Place in the operator's ranking, lower is better.
    pub rank: Option<u32>,
    /// How near the operator finds the candidate.
    pub selection_tier: Option<String>,
    /// Site that offers the capability.
    pub site: String,
    /// Name of the candidate that stays the same over time.
    pub stable_id: Option<String>,
}

/// Whether a candidate counts as fresh when the overlay does not say.
pub fn default_fresh() -> (r: bool)
    ensures
        r,
{
    true
}

/// What an [`OverlayCandidate`] says.
pub ghost struct OverlayCandidateView {
    /// Name of the admission state.
    pub admission_state: Option<Seq<char>>,
    /// Cluster that serves the capability.
    pub cluster: Seq<char>,
    /// Whether the candidate was heard of lately.
    pub fresh: bool,
    /// Name of the kind of capability.
    pub kind: Seq<char>,
    /// Name of the capability.
    pub name: Seq<char>,
    /// Place in the operator's ranking, lower is better.
    pub rank: Option<u32>,
    /// How near the operator finds the candidate.
    pub selection_tier: Option<Seq<char>>,
    /// Site that offers the capability.
    pub site: Seq<char>,
    /// Name of the candidate that stays the same over time.
    pub stable_id: Option<Seq<char>>,
}

impl View for OverlayCandidate {
    type V = OverlayCandidateView;

    open spec fn view(&self) -> OverlayCandidateView {
        OverlayCandidateView {
            admission_state: optional_text(self.admission_state),
            cluster: self.cluster@,
            fresh: self.fresh,
            kind: self.kind@,
            name: self.name@,
            rank: self.rank,
            selection_tier: optional_text(self.selection_tier),
            site: self.site@,
            stable_id: optional_text(self.stable_id),
        }
    }
}

/// What an [`OverlayDocument`] says.
pub ghost struct DocumentView {
    /// Name of the local site.
    pub local_site: Seq<char>,
    /// Candidates in the operator's order.
    pub candidates: Seq<OverlayCandidateView>,
    /// When the overlay was made.
    pub generated_at: Option<Seq<char>>,
}

impl View for OverlayDocument {
    type V = DocumentView;

    open spec fn view(&self) -> DocumentView {
        DocumentView {
            local_site: self.local_site@,
            candidates: views(self.candidates@),
            generated_at: optional_text(self.generated_at),
        }
    }
}

/// Routing state that requests are answered from.
#[derive(Debug)]
pub struct RouteSnapshot {
    /// Candidates, in order.
    pub candidates: Vec<RouteCandidate>,
    /// Digest of the file that the snapshot was read from, zero for inline
    /// candidates.
    pub content_hash: [u8; 32],
    /// When the overlay was made.
    pub generated_at: Option<String>,
    /// Name of the local site.
    pub local_site: String,
}

/// What a [`RouteSnapshot`] says.
pub ghost struct SnapshotView {
    /// Candidates, in order.
    pub candidates: Seq<CandidateView>,
    /// Digest of the file that the snapshot was read from.
    pub content_hash: Seq<u8>,
    /// When the overlay was made.
    pub generated_at: Option<Seq<char>>,
    /// Name of the local site.
    pub local_site: Seq<char>,
}

impl View for RouteSnapshot {
    type V = SnapshotView;

    open spec fn view(&self) -> SnapshotView {
        SnapshotView {
            candidates: views(self.candidates@),
            content_hash: self.content_hash@,
            generated_at: optional_text(self.generated_at),
            local_site: self.local_site@,
        }
    }
}

/// The candidate that an overlay describes, before the operator's own findings.
pub open spec fn overlay_config(candidate: OverlayCandidateView) -> Result<ConfigView, GridFault> {
    match CapabilityKind::named(candidate.kind) {
        Err(fault) => Err(fault),
        Ok(kind) => Ok(
            ConfigView {
                kind,
                name: candidate.name,
                site: candidate.site,
                cluster: candidate.cluster,
                fresh: candidate.fresh,
            },
        ),
    }
}

/// The candidates that an overlay describes, or what is wrong with the kind of
/// the first of them with which anything is.
pub open spec fn overlay_configs(candidates: Seq<OverlayCandidateView>) -> Result<
    Seq<ConfigView>,
    GridFault,
>
    decreases candidates.len(),
{
    if candidates.len() == 0 {
        Ok(seq![])
    } else {
        match overlay_configs(candidates.drop_last()) {
            Err(fault) => Err(fault),
            Ok(before) => match overlay_config(candidates.last()) {
                Err(fault) => Err(fault),
                Ok(config) => Ok(before.push(config)),
            },
        }
    }
}

/// `candidate` with what the operator found out about it.
pub open spec fn enriched(
    candidate: CandidateView,
    overlay: OverlayCandidateView,
) -> CandidateView {
    CandidateView {
        admission_state: match overlay.admission_state {
            Some(name) => AdmissionState::named(name),
            None => candidate.admission_state,
        },
        rank: overlay.rank,
        selection_tier: match overlay.selection_tier {
            Some(tier) => Some(tier),
            None => candidate.selection_tier,
        },
        stable_id: match overlay.stable_id {
            Some(id) => id,
            None => candidate.stable_id,
        },
        ..candidate
    }
}

/// Each candidate with what the operator found out about the one in its place.
pub open spec fn enriched_all(
    candidates: Seq<CandidateView>,
    overlay: Seq<OverlayCandidateView>,
) -> Seq<CandidateView> {
    Seq::new(
        candidates.len(),
        |i: int|
            if i < overlay.len() {
                enriched(candidates[i], overlay[i])
            } else {
                candidates[i]
            },
    )
}

/// The candidates that `document` gives.
pub open spec fn document_candidates(document: DocumentView) -> Result<
    Seq<CandidateView>,
    GridFault,
> {
    match overlay_configs(document.candidates) {
        Err(fault) => Err(fault),
        Ok(raw) => match validated(raw) {
            Err(fault) => Err(fault),
            Ok(list) => Ok(enriched_all(list, document.candidates)),
        },
    }
}

/// The text of an error, or what was parsed.
pub open spec fn parsed_view(parsed: Result<OverlayDocument, String>) -> Result<
    DocumentView,
    Seq<char>,
> {
    match parsed {
        Ok(document) => Ok(document@),
        Err(reason) => Err(reason@),
    }
}

/// The snapshot that the file `content` becomes, which says `parsed`.
pub open spec fn overlay_snapshot(
    content: Seq<u8>,
    parsed: Result<DocumentView, Seq<char>>,
) -> Result<SnapshotView, GridFault> {
    match parsed {
        Err(reason) => Err(GridFault::OverlayInvalid(reason)),
        Ok(document) => if is_blank(document.local_site) {
            Err(GridFault::BlankLocalSite)
        } else {
            match document_candidates(document) {
                Err(fault) => Err(fault),
                Ok(candidates) => Ok(
                    SnapshotView {
                        candidates,
                        content_hash: sha256_of(content),
                        generated_at: document.generated_at,
                        local_site: document.local_site,
                    },
                ),
            }
        },
    }
}

/// A fault in the front part of an overlay is the fault of the overlay.
proof fn lemma_kind_fault_of_prefix(candidates: Seq<OverlayCandidateView>, n: int)
    requires
        0 <= n <= candidates.len(),
        overlay_configs(candidates.take(n)) is Err,
    ensures
        overlay_configs(candidates) == overlay_configs(candidates.take(n)),
    decreases candidates.len() - n,
{
    if n < candidates.len() {
        assert(candidates.take(n + 1).drop_last() =~= candidates.take(n));
        lemma_kind_fault_of_prefix(candidates, n + 1);
    } else {
        assert(candidates.take(n) =~= candidates);
    }
}

/// The candidates that the overlay describes.
pub fn overlay_to_candidates(document: &OverlayDocument) -> (r: Result<
    Vec<RouteCandidate>,
    GridError,
>)
    ensures
        agrees(r, document_candidates(document@)),
{
    let ghost said = views(document.candidates@);
    let mut raw: Vec<CandidateConfig> = Vec::new();
    assert(views(raw@) =~= seq![]);
    let mut i: usize = 0;
    while i < document.candidates.len()
        invariant
            said == views(document.candidates@),
            i <= document.candidates@.len(),
            overlay_configs(said.take(i as int)) == Ok::<Seq<ConfigView>, GridFault>(views(raw@)),
        decreases document.candidates@.len() - i,
    {
        let candidate = &document.candidates[i];
        assert(said.take(i + 1).drop_last() =~= said.take(i as int));
        assert(said.take(i + 1).last() == candidate@);
        match CapabilityKind::from_overlay_str(candidate.kind.as_str()) {
            Err(e) => {
                proof {
                    lemma_kind_fault_of_prefix(said, i + 1);
                }
                return Err(e);
            },
            Ok(kind) => {
                let config = CandidateConfig {
                    cluster: candidate.cluster.clone(),
                    fresh: candidate.fresh,
                    kind,
                    name: candidate.name.clone(),
                    site: candidate.site.clone(),
                };
                let ghost before = raw@;
                raw.push(config);
                assert(views(raw@) =~= views(before).push(config@));
            },
        }
        i += 1;
    }
    assert(said.take(i as int) =~= said);
    match validate_candidates(raw) {
        Err(e) => Err(e),
        Ok(mut candidates) => {
            enrich_from_overlay(&mut candidates, document.candidates.as_slice());
            Ok(candidates)
        },
    }
}

/// Note on each candidate what the operator found out about the one in its
/// place.
pub fn enrich_from_overlay(candidates: &mut Vec<RouteCandidate>, overlay: &[OverlayCandidate])
    ensures
        views(final(candidates)@) == enriched_all(views(old(candidates)@), views(overlay@)),
{
    let ghost before = views(candidates@);
    let ghost found = views(overlay@);
    let mut i: usize = 0;
    while i < candidates.len() && i < overlay.len()
        invariant
            before == views(old(candidates)@),
            found == views(overlay@),
            i <= candidates@.len() == before.len(),
            i <= overlay@.len(),
            forall|j: int|
                0 <= j < i ==> (#[trigger] candidates@[j])@ == enriched(before[j], found[j]),
            forall|j: int| i <= j < before.len() ==> (#[trigger] candidates@[j])@ == before[j],
        decreases candidates@.len() - i,
    {
        let ghost entry = candidates@[i as int]@;
        let seen = &overlay[i];
        assert(seen@ == found[i as int]);
        let candidate = &mut candidates[i];
        match &seen.admission_state {
            Some(name) => {
                candidate.admission_state = AdmissionState::from_overlay_str(name.as_str());
            },
            None => {},
        }
        candidate.rank = seen.rank;
        match &seen.selection_tier {
            Some(tier) => {
                candidate.selection_tier = Some(tier.clone());
            },
            None => {},
        }
        match &seen.stable_id {
            Some(id) => {
                candidate.stable_id = id.clone();
            },
            None => {},
        }
        assert(candidates@[i as int]@ == enriched(entry, seen@));
        i += 1;
    }
    assert(views(candidates@) =~= enriched_all(before, found));
}

impl RouteSnapshot {
    /// The snapshot that the file `content` becomes, which was parsed into
    /// `parsed`.
    pub fn from_overlay(content: &[u8], parsed: Result<OverlayDocument, String>) -> (r: Result<
        Self,
        GridError,
    >)
        ensures
            match overlay_snapshot(content@, parsed_view(parsed)) {
                Ok(snapshot) => r matches Ok(held) && held@ == snapshot,
                Err(fault) => r matches Err(e) && e@ == fault,
            },
    {
        let content_hash: [u8; 32] = sha256(content);
        let document = match parsed {
            Err(reason) => {
                return Err(GridError::OverlayInvalid(reason));
            },
            Ok(document) => document,
        };
        match validate_local_site(document.local_site.as_str()) {
            Err(e) => {
                return Err(e);
            },
            Ok(()) => {},
        }
        match overlay_to_candidates(&document) {
            Err(e) => Err(e),
            Ok(candidates) => Ok(
                Self {
                    candidates,
                    content_hash,
                    generated_at: document.generated_at,
                    local_site: document.local_site,
                },
            ),
        }
    }

    /// The snapshot of inline candidates, which no file content matches by
    /// intent.
    pub fn from_static(candidates: Vec<RouteCandidate>, local_site: String) -> (r: Self)
        ensures
            r.candidates == candidates,
            r.local_site == local_site,
            r.content_hash@ == Seq::new(32, |i: int| 0u8),
            r.generated_at is None,
    {
        let content_hash: [u8; 32] = [0; 32];
        assert(content_hash@ =~= Seq::new(32, |i: int| 0u8));
        Self { candidates, content_hash, generated_at: None, local_site }
    }
}

/// The text of an error, or what was read.
pub open spec fn read_view(read: Result<Vec<u8>, String>) -> Result<Seq<u8>, Seq<char>> {
    match read {
        Ok(content) => Ok(content@),
        Err(reason) => Err(reason@),
    }
}

/// What reading the overlay file gives when up to one byte more than allowed
/// was read.
pub open spec fn bounded_read(read: Result<Seq<u8>, Seq<char>>) -> Result<Seq<u8>, Seq<char>> {
    match read {
        Err(reason) => Err(reason),
        Ok(content) => if content.len() > MAX_OVERLAY_SIZE {
            Err("overlay file exceeds "@ + decimal_text(MAX_OVERLAY_SIZE as nat) + " byte limit"@)
        } else {
            Ok(content)
        },
    }
}

/// Check what was read of the overlay file against the limit. The file is read
/// up to one byte beyond the limit.
pub fn read_overlay_bounded(read: Result<Vec<u8>, String>) -> (r: Result<Vec<u8>, String>)
    ensures
        read_view(r) == bounded_read(read_view(read)),
{
    match read {
        Err(reason) => Err(reason),
        Ok(content) => {
            if content.len() as u64 > MAX_OVERLAY_SIZE {
                let mut reason = "overlay file exceeds ".to_owned();
                reason.append(decimal(MAX_OVERLAY_SIZE).as_str());
                reason.append(" byte limit");
                Err(reason)
            } else {
                Ok(content)
            }
        },
    }
}

/// What was read of the overlay file, if it can be used.
pub fn read_overlay(read: Result<Vec<u8>, String>) -> (r: Option<Vec<u8>>)
    ensures
        match bounded_read(read_view(read)) {
            Ok(content) => r matches Some(held) && held@ == content,
            Err(_) => r is None,
        },
{
    match read_overlay_bounded(read) {
        Ok(content) => Some(content),
        Err(_) => None,
    }
}

/// Whether the snapshot was read from a file with the same digest as `content`.
pub fn is_unchanged(content: &[u8], current: &RouteSnapshot) -> (r: bool)
    ensures
        r == (sha256_of(content@) == current@.content_hash),
{
    let new_hash: [u8; 32] = sha256(content);
    same_bytes(new_hash.as_slice(), current.content_hash.as_slice())
}

/// What reading the overlay file again came to.
#[derive(Debug)]
pub enum Reload {
    /// The file could not be read; the old snapshot stays.
    Unreadable(String),
    /// The file is the one that the snapshot came from; it stays.
    Unchanged,
    /// The file could not be understood; the old snapshot stays.
    Invalid(GridError),
    /// A new snapshot takes the place of the old one.
    Swapped(RouteSnapshot),
}

/// The snapshot in use after the overlay file was read again.
pub open spec fn next_snapshot(
    current: SnapshotView,
    read: Result<Seq<u8>, Seq<char>>,
    parsed: Result<DocumentView, Seq<char>>,
) -> SnapshotView {
    match bounded_read(read) {
        Err(_) => current,
        Ok(content) => if sha256_of(content) == current.content_hash {
            current
        } else {
            match overlay_snapshot(content, parsed) {
                Ok(snapshot) => snapshot,
                Err(_) => current,
            }
        },
    }
}

/// The snapshot that is in use after `reload`.
pub open spec fn snapshot_after(current: SnapshotView, reload: Reload) -> SnapshotView {
    match reload {
        Reload::Swapped(snapshot) => snapshot@,
        _ => current,
    }
}

/// Turn the file `content` into the new snapshot, or keep the old one.
pub fn apply_overlay(content: &[u8], parsed: Result<OverlayDocument, String>) -> (r: Reload)
    ensures
        match overlay_snapshot(content@, parsed_view(parsed)) {
            Ok(snapshot) => r matches Reload::Swapped(held) && held@ == snapshot,
            Err(fault) => r matches Reload::Invalid(e) && e@ == fault,
        },
{
    match RouteSnapshot::from_overlay(content, parsed) {
        Ok(snapshot) => Reload::Swapped(snapshot),
        Err(e) => Reload::Invalid(e),
    }
}

/// Read the overlay file again: `read` is what was read of it, `parsed` what
/// that says. The old snapshot stays unless the file is readable, within the
/// limit, different from before and valid.
pub fn handle_overlay_reload(
    read: Result<Vec<u8>, String>,
    parsed: Result<OverlayDocument, String>,
    current: &RouteSnapshot,
) -> (r: Reload)
    ensures
        match bounded_read(read_view(read)) {
            Err(reason) => r matches Reload::Unreadable(text) && text@ == reason,
            Ok(content) => if sha256_of(content) == current@.content_hash {
                r is Unchanged
            } else {
                match overlay_snapshot(content, parsed_view(parsed)) {
                    Ok(snapshot) => r matches Reload::Swapped(held) && held@ == snapshot,
                    Err(fault) => r matches Reload::Invalid(e) && e@ == fault,
                }
            },
        },
        snapshot_after(current@, r) == next_snapshot(
            current@,
            read_view(read),
            parsed_view(parsed),
        ),
{
    match read_overlay_bounded(read) {
        Err(reason) => Reload::Unreadable(reason),
        Ok(content) => {
            if is_unchanged(content.as_slice(), current) {
                Reload::Unchanged
            } else {
                apply_overlay(content.as_slice(), parsed)
            }
        },
    }
}

/// Kinds of filesystem events.
#[derive(Debug, Clone, Copy, PartialEq, Eq, Structural)]
pub enum EventKind {
    /// Not known.
    Any,
    /// Something was looked at.
    Access,
    /// Something was made.
    Create,
    /// Something was changed or renamed.
    Modify,
    /// Something was taken away.
    Remove,
    /// Something else.
    Other,
}

/// Whether an event may mean that the overlay changed.
pub fn is_relevant_event(kind: EventKind) -> (r: bool)
    ensures
        r == (kind is Create || kind is Modify || kind is Remove),
{
    match kind {
        EventKind::Create | EventKind::Modify | EventKind::Remove => true,
        _ => false,
    }
}

/// Where the watcher stands.
#[derive(Debug, Clone, Copy, PartialEq, Eq, Structural)]
pub enum WatchState {
    /// The directory is not watched yet.
    Starting,
    /// Nothing has happened since the file was read.
    Idle,
    /// Something happened; more may follow.
    Debouncing,
    /// The watcher has ended.
    Stopped,
}

/// What the watcher learns.
#[derive(Debug, Clone, Copy, PartialEq, Eq, Structural)]
pub enum WatchEvent {
    /// The directory is watched.
    Registered,
    /// The directory cannot be watched.
    RegistrationFailed,
    /// Something relevant happened in the directory.
    Changed,
    /// The wait after a change is over.
    WaitOver,
    /// The watcher is told to end.
    Shutdown,
}

/// What the watcher does next.
#[derive(Debug, Clone, Copy, PartialEq, Eq, Structural)]
pub enum WatchAction {
    /// Nothing.
    Nothing,
    /// Wait for the given number of milliseconds.
    Wait(u64),
    /// Read the file again.
    Reload,
    /// Forget the events that are queued, then read the file again.
    DrainAndReload,
    /// End.
    Exit,
}

/// How the watcher takes an event.
pub open spec fn watch_next(state: WatchState, event: WatchEvent, debounce_ms: u64) -> (
    WatchState,
    WatchAction,
) {
    match (state, event) {
        (WatchState::Starting, WatchEvent::Registered) => (WatchState::Idle, WatchAction::Reload),
        (WatchState::Starting, WatchEvent::RegistrationFailed) => (
            WatchState::Stopped,
            WatchAction::Exit,
        ),
        (WatchState::Idle, WatchEvent::Changed) => (
            WatchState::Debouncing,
            WatchAction::Wait(debounce_ms),
        ),
        (WatchState::Debouncing, WatchEvent::WaitOver) => (
            WatchState::Idle,
            WatchAction::DrainAndReload,
        ),
        (WatchState::Idle, WatchEvent::Shutdown) => (WatchState::Stopped, WatchAction::Exit),
        (WatchState::Debouncing, WatchEvent::Shutdown) => (WatchState::Stopped, WatchAction::Exit),
        _ => (state, WatchAction::Nothing),
    }
}

/// How the watcher takes an event.
pub fn watch_step(state: WatchState, event: WatchEvent, debounce_ms: u64) -> (r: (
    WatchState,
    WatchAction,
))
    ensures
        r == watch_next(state, event, debounce_ms),
{
    match (state, event) {
        (WatchState::Starting, WatchEvent::Registered) => (WatchState::Idle, WatchAction::Reload),
        (WatchState::Starting, WatchEvent::RegistrationFailed) => {
            (WatchState::Stopped, WatchAction::Exit)
        },
        (WatchState::Idle, WatchEvent::Changed) => {
            (WatchState::Debouncing, WatchAction::Wait(debounce_ms))
        },
        (WatchState::Debouncing, WatchEvent::WaitOver) => {
            (WatchState::Idle, WatchAction::DrainAndReload)
        },
        (WatchState::Idle, WatchEvent::Shutdown) => (WatchState::Stopped, WatchAction::Exit),
        (WatchState::Debouncing, WatchEvent::Shutdown) => (WatchState::Stopped, WatchAction::Exit),
        _ => (state, WatchAction::Nothing),
    }
}

/// What to do about a watcher that was told to end.
#[derive(Debug, Clone, Copy, PartialEq, Eq, Structural)]
pub enum JoinStep {
    /// It has ended; collect it.
    Join,
    /// It takes too long; leave it to itself.
    Detach,
    /// Look again after the given number of milliseconds.
    Wait(u64),
}

/// What to do about a watcher that was told to end `elapsed_ms` ago.
pub fn join_step(finished: bool, elapsed_ms: u64) -> (r: JoinStep)
    ensures
        r == (if finished {
            JoinStep::Join
        } else if elapsed_ms >= JOIN_TIMEOUT_MS {
            JoinStep::Detach
        } else {
            JoinStep::Wait(JOIN_POLL_MS)
        }),
        !finished && elapsed_ms < 2000 ==> r == JoinStep::Wait(5),
        !finished && elapsed_ms >= 2000 ==> r == JoinStep::Detach,
{
    if finished {
        JoinStep::Join
    } else if elapsed_ms >= JOIN_TIMEOUT_MS {
        JoinStep::Detach
    } else {
        JoinStep::Wait(JOIN_POLL_MS)
    }
}

/// The states and actions of a watcher that takes `events` one after the other.
pub open spec fn watch_run(
    state: WatchState,
    events: Seq<WatchEvent>,
    debounce_ms: u64,
) -> (WatchState, Seq<WatchAction>)
    decreases events.len(),
{
    if events.len() == 0 {
        (state, seq![])
    } else {
        let (before, actions) = watch_run(state, events.drop_last(), debounce_ms);
        let (next, action) = watch_next(before, events.last(), debounce_ms);
        (next, actions.push(action))
    }
}

/// Once the watcher has ended, nothing makes it read the file again.
pub proof fn law_stopped_watcher_reads_nothing(events: Seq<WatchEvent>, debounce_ms: u64)
    ensures
        watch_run(WatchState::Stopped, events, debounce_ms).0 == WatchState::Stopped,
        watch_run(WatchState::Stopped, events, debounce_ms).1.len() == events.len(),
        forall|i: int|
            0 <= i < events.len() ==> (#[trigger] watch_run(
                WatchState::Stopped,
                events,
                debounce_ms,
            ).1[i]) is Nothing,
    decreases events.len(),
{
    if events.len() > 0 {
        law_stopped_watcher_reads_nothing(events.drop_last(), debounce_ms);
    }
}

/// A running watcher that is told to end does so without reading the file, also
/// while it waits after a change.
pub proof fn law_shutdown_ends_a_running_watcher(state: WatchState, debounce_ms: u64)
    requires
        state is Idle || state is Debouncing,
    ensures
        watch_next(state, WatchEvent::Shutdown, debounce_ms) == (
            WatchState::Stopped,
            WatchAction::Exit,
        ),
{
}

/// The file is read as soon as the directory is watched, so that a change made
/// before that is not missed.
pub proof fn law_registration_reads_the_file(debounce_ms: u64)
    ensures
        watch_next(WatchState::Starting, WatchEvent::Registered, debounce_ms) == (
            WatchState::Idle,
            WatchAction::Reload,
        ),
{
}

/// Changes that come one after the other, however many, make the watcher wait
/// once and then read the file once.
pub proof fn law_changes_are_read_once(more: Seq<WatchEvent>, debounce_ms: u64)
    requires
        forall|i: int| 0 <= i < more.len() ==> (#[trigger] more[i]) is Changed,
    ensures
        ({
            let events = seq![WatchEvent::Changed] + more + seq![WatchEvent::WaitOver];
            let (state, actions) = watch_run(WatchState::Idle, events, debounce_ms);
            &&& state is Idle
            &&& actions.len() == more.len() + 2
            &&& actions[0] == WatchAction::Wait(debounce_ms)
            &&& forall|i: int| 0 < i <= more.len() ==> (#[trigger] actions[i]) is Nothing
            &&& actions.last() is DrainAndReload
        }),
{
    let changes = seq![WatchEvent::Changed] + more;
    let events = changes + seq![WatchEvent::WaitOver];
    lemma_changes_wait(more, debounce_ms);
    assert(events.drop_last() =~= changes);
}

/// A watcher that saw a change and then only changes is still waiting.
proof fn lemma_changes_wait(more: Seq<WatchEvent>, debounce_ms: u64)
    requires
        forall|i: int| 0 <= i < more.len() ==> (#[trigger] more[i]) is Changed,
    ensures
        ({
            let (state, actions) = watch_run(
                WatchState::Idle,
                seq![WatchEvent::Changed] + more,
                debounce_ms,
            );
            &&& state is Debouncing
            &&& actions.len() == more.len() + 1
            &&& actions[0] == WatchAction::Wait(debounce_ms)
            &&& forall|i: int| 0 < i <= more.len() ==> (#[trigger] actions[i]) is Nothing
        }),
    decreases more.len(),
{
    let events = seq![WatchEvent::Changed] + more;
    if more.len() == 0 {
        assert(events.drop_last() =~= seq![]);
        assert(watch_run(WatchState::Idle, seq![], debounce_ms).0 is Idle);
    } else {
        lemma_changes_wait(more.drop_last(), debounce_ms);
        assert(events.drop_last() =~= seq![WatchEvent::Changed] + more.drop_last());
        assert(events.last() == more.last());
    }
}

/// Reading a file that cannot be read, is too long, is unchanged or is not valid
/// keeps the snapshot; any other file replaces it by what the file says.
pub proof fn law_reload_keeps_the_last_good_snapshot(
    current: SnapshotView,
    read: Result<Seq<u8>, Seq<char>>,
    parsed: Result<DocumentView, Seq<char>>,
)
    ensures
        read is Err ==> next_snapshot(current, read, parsed) == current,
        read matches Ok(content) ==> {
            &&& content.len() > MAX_OVERLAY_SIZE ==> next_snapshot(current, read, parsed)
                == current
            &&& sha256_of(content) == current.content_hash ==> next_snapshot(current, read, parsed)
                == current
            &&& overlay_snapshot(content, parsed) is Err ==> next_snapshot(current, read, parsed)
                == current
            &&& content.len() <= MAX_OVERLAY_SIZE && sha256_of(content) != current.content_hash
                ==> (overlay_snapshot(content, parsed) matches Ok(snapshot) ==> next_snapshot(
                current,
                read,
                parsed,
            ) == snapshot)
        },
{
}

/// Reading the same file a second time changes nothing.
pub proof fn law_reload_is_idempotent(
    current: SnapshotView,
    read: Result<Seq<u8>, Seq<char>>,
    parsed: Result<DocumentView, Seq<char>>,
)
    ensures
        next_snapshot(next_snapshot(current, read, parsed), read, parsed) == next_snapshot(
            current,
            read,
            parsed,
        ),
{
}

/// Whether `snapshot` can be routed from: it has a local site and candidates,
/// all of them with visible names.
pub open spec fn is_routable(snapshot: SnapshotView) -> bool {
    &&& !is_blank(snapshot.local_site)
    &&& snapshot.candidates.len() > 0
    &&& forall|i: int|
        0 <= i < snapshot.candidates.len() ==> {
            let candidate = #[trigger] snapshot.candidates[i];
            !is_blank(candidate.name) && !is_blank(candidate.site) && !is_blank(candidate.cluster)
        }
}

/// An overlay whose kinds are all known describes one candidate in each place.
proof fn lemma_overlay_configs(candidates: Seq<OverlayCandidateView>)
    requires
        overlay_configs(candidates) is Ok,
    ensures
        overlay_configs(candidates)->Ok_0.len() == candidates.len(),
        forall|i: int|
            0 <= i < candidates.len() ==> overlay_config(candidates[i]) == Ok::<
                ConfigView,
                GridFault,
            >(#[trigger] overlay_configs(candidates)->Ok_0[i]),
    decreases candidates.len(),
{
    if candidates.len() > 0 {
        lemma_overlay_configs(candidates.drop_last());
    }
}

/// Every snapshot that comes from an overlay can be routed from.
pub proof fn law_overlay_snapshots_are_routable(
    content: Seq<u8>,
    parsed: Result<DocumentView, Seq<char>>,
)
    ensures
        overlay_snapshot(content, parsed) matches Ok(snapshot) ==> is_routable(snapshot),
{
    if overlay_snapshot(content, parsed) is Ok {
        let document = parsed->Ok_0;
        let raw = overlay_configs(document.candidates)->Ok_0;
        let snapshot = overlay_snapshot(content, parsed)->Ok_0;
        assert forall|i: int| 0 <= i < snapshot.candidates.len() implies {
            let candidate = #[trigger] snapshot.candidates[i];
            !is_blank(candidate.name) && !is_blank(candidate.site) && !is_blank(candidate.cluster)
        } by {
            lemma_no_fault(raw, i);
        }
    }
}

/// A snapshot has one candidate for each of the overlay's, in the same order,
/// with the same kind, name, site, cluster, freshness and rank.
pub proof fn law_overlay_order_is_kept(content: Seq<u8>, document: DocumentView, i: int)
    requires
        overlay_snapshot(content, Ok(document)) is Ok,
        0 <= i < document.candidates.len(),
    ensures
        ({
            let snapshot = overlay_snapshot(content, Ok(document))->Ok_0;
            let from = document.candidates[i];
            let to = snapshot.candidates[i];
            &&& snapshot.candidates.len() == document.candidates.len()
            &&& to.kind.text() == from.kind
            &&& to.name == from.name
            &&& to.site == from.site
            &&& to.cluster == from.cluster
            &&& to.fresh == from.fresh
            &&& to.rank == from.rank
        }),
{
    lemma_overlay_configs(document.candidates);
}

/// Where the last slash of `path` stands, -1 when it has none.
pub open spec fn last_slash(path: Seq<char>) -> int
    decreases path.len(),
{
    if path.len() == 0 {
        -1
    } else if path.last() == '/' {
        path.len() - 1
    } else {
        last_slash(path.drop_last())
    }
}

/// Whether every platform takes `path` apart in the same way: there are no
/// backslashes, no leading double slashes, and no colon before the first slash.
pub open spec fn is_portable_path(path: Seq<char>) -> bool {
    &&& !path.contains('\\')
    &&& !path_segments(path)[0].contains(':')
    &&& !"//"@.is_prefix_of(path)
}

/// A component of a path.
pub ghost enum PathStep {
    /// The root of the file system.
    Root,
    /// The current directory, at the beginning of a path.
    Current,
    /// An entry of a directory, which may be its parent.
    Entry(Seq<char>),
}

/// What stands between the slashes of `path`.
pub open spec fn path_segments(path: Seq<char>) -> Seq<Seq<char>>
    decreases path.len(),
{
    if path.len() == 0 {
        seq![path]
    } else {
        let front = path_segments(path.drop_last());
        if path.last() == '/' {
            front.push(Seq::empty())
        } else {
            front.drop_last().push(front.last().push(path.last()))
        }
    }
}

/// The components of a portable path: empty segments do not count, nor do dots
/// other than one at the beginning.
pub open spec fn path_steps(path: Seq<char>) -> Seq<PathStep> {
    let segments = path_segments(path);
    let start = if path.len() > 0 && path[0] == '/' {
        seq![PathStep::Root]
    } else if segments[0] == "."@ {
        seq![PathStep::Current]
    } else {
        Seq::empty()
    };
    start + segments.filter(|segment: Seq<char>| segment.len() > 0 && segment != "."@).map_values(
        |segment: Seq<char>| PathStep::Entry(segment),
    )
}

/// Whether a portable path is a directory, written without a slash or a lone dot
/// at its end, a slash and a name; or a name alone.
pub open spec fn is_plain_path(path: Seq<char>) -> bool {
    let slash = last_slash(path);
    let name = path.skip(slash + 1);
    &&& is_portable_path(path)
    &&& name.len() > 0
    &&& name != "."@
    &&& slash > 0 ==> path[slash - 1] != '/'
    &&& slash > 1 && path[slash - 1] == '.' ==> path[slash - 2] != '/'
}

/// What stands before the last component of a plain path.
pub open spec fn plain_parent(path: Seq<char>) -> Seq<char> {
    let slash = last_slash(path);
    if slash < 0 {
        ""@
    } else if slash == 0 {
        "/"@
    } else {
        path.take(slash)
    }
}

/// `std::path::Path::parent`, with the path as text: the path without its final
/// component, or nothing for an empty path and for a root. Of a plain path that is
/// what stands before the last slash. Of another portable path it is a path of
/// the remaining components; whether it keeps dots and double slashes that stood
/// before the final one is left open. Of paths that platforms read differently it
/// is only said that a shorter beginning of the path comes back, if anything.
#[verifier::external_body]
fn parent_of(path: &str) -> (r: Option<String>)
    ensures
        is_portable_path(path@) ==> (r is None <==> path_steps(path@).len() == 0
            || path_steps(path@).last() is Root),
        is_portable_path(path@) && r is Some ==> path_steps(r->Some_0@) == path_steps(
            path@,
        ).drop_last(),
        is_plain_path(path@) ==> optional_text(r) == Some(plain_parent(path@)),
        r matches Some(parent) ==> parent@.is_prefix_of(path@) && parent@.len() < path@.len(),
{
    std::path::Path::new(path).parent().map(|parent| parent.to_string_lossy().into_owned())
}

/// The directory to watch for a file whose parent is `parent`: the current one
/// when there is none to speak of.
pub fn watch_dir_for_parent(parent: Option<String>) -> (r: String)
    ensures
        r@ == (match parent {
            Some(directory) => if directory@.len() > 0 {
                directory@
            } else {
                "."@
            },
            None => "."@,
        }),
{
    match parent {
        Some(directory) => {
            if directory.as_str().is_empty() {
                ".".to_owned()
            } else {
                directory
            }
        },
        None => ".".to_owned(),
    }
}

/// The directory to watch for the file `path`: the current one when there is at
/// most one component, else the one that the other components lead to.
pub fn watch_dir_for_path(path: &str) -> (r: String)
    ensures
        r@.len() > 0,
        r@ == "."@ || (r@.is_prefix_of(path@) && r@.len() < path@.len()),
        path@ == ""@ || path@ == "/"@ ==> r@ == "."@,
        is_portable_path(path@) ==> if path_steps(path@).len() <= 1 {
            r@ == "."@
        } else {
            path_steps(r@) == path_steps(path@).drop_last()
        },
        is_plain_path(path@) ==> r@ == (if last_slash(path@) < 0 {
            "."@
        } else {
            plain_parent(path@)
        }),
{
    proof {
        reveal_strlit("");
        reveal_strlit(".");
        reveal_strlit("/");
        reveal_strlit("//");
        lemma_last_slash(path@);
        lemma_no_steps(path@);
        if path@ == "/"@ {
            lemma_root_step();
        }
    }
    let parent = parent_of(path);
    proof {
        if parent is Some {
            lemma_no_steps(parent->Some_0@);
        }
    }
    watch_dir_for_parent(parent)
}

/// A path has a segment, which is not empty where the path begins otherwise than
/// with a slash.
proof fn lemma_first_segment(path: Seq<char>)
    ensures
        path_segments(path).len() > 0,
        path.len() > 0 && path[0] != '/' ==> path_segments(path)[0].len() > 0,
    decreases path.len(),
{
    if path.len() > 0 {
        lemma_first_segment(path.drop_last());
    }
}

/// Only the empty path has no components.
proof fn lemma_no_steps(path: Seq<char>)
    ensures
        path_steps(path).len() == 0 <==> path.len() == 0,
{
    reveal_strlit(".");
    reveal_with_fuel(Seq::filter, 2);
    lemma_first_segment(path);
    let segments = path_segments(path);
    let named = |segment: Seq<char>| segment.len() > 0 && segment != "."@;
    if path.len() == 0 {
        assert(segments.drop_last().filter(named).len() == 0);
        assert(segments.filter(named).len() == 0);
    } else if path[0] != '/' && segments[0] != "."@ {
        segments.lemma_filter_contains(named, 0);
    }
}

/// A slash alone is the root.
proof fn lemma_root_step()
    ensures
        is_portable_path("/"@),
        path_steps("/"@).len() == 1,
{
    reveal_strlit("/");
    reveal_strlit("//");
    reveal_with_fuel(path_segments, 2);
    reveal_with_fuel(Seq::filter, 3);
    let segments = path_segments("/"@);
    let named = |segment: Seq<char>| segment.len() > 0 && segment != "."@;
    assert("/"@.drop_last() =~= Seq::empty());
    assert(segments =~= seq![Seq::<char>::empty(), Seq::<char>::empty()]);
    assert(segments.drop_last().drop_last().filter(named).len() == 0);
    assert(segments.drop_last().filter(named).len() == 0);
    assert(segments.filter(named).len() == 0);
}

/// The last slash is a slash, and none follows it.
proof fn lemma_last_slash(path: Seq<char>)
    ensures
        -1 <= last_slash(path) < path.len(),
        last_slash(path) >= 0 ==> path[last_slash(path)] == '/',
        forall|i: int| last_slash(path) < i < path.len() ==> path[i] != '/',
    decreases path.len(),
{
    if path.len() > 0 && path.last() != '/' {
        lemma_last_slash(path.drop_last());
        assert forall|i: int| last_slash(path) < i < path.len() implies path[i] != '/' by {
            if i < path.len() - 1 {
                assert(path[i] == path.drop_last()[i]);
            }
        }
    }
}

/// Whether an overlay's candidate can be used: its kind is known, and its name, its
/// site and its cluster show something.
pub open spec fn is_usable(candidate: OverlayCandidateView) -> bool {
    &&& candidate.kind == "inference_model"@ || candidate.kind == "mcp_tool"@
    &&& shows_something(candidate.name)
    &&& shows_something(candidate.site)
    &&& shows_something(candidate.cluster)
}

/// An overlay becomes a snapshot exactly when its local site shows something and
/// it has candidates, all of which can be used. The snapshot holds the digest of
/// the file, the local site and the time of the overlay, and each candidate in its
/// place with everything that the overlay says of it.
pub proof fn law_overlays_are_taken_as_written(content: Seq<u8>, document: DocumentView)
    ensures
        overlay_snapshot(content, Ok(document)) is Ok <==> {
            &&& shows_something(document.local_site)
            &&& document.candidates.len() > 0
            &&& forall|i: int|
                0 <= i < document.candidates.len() ==> is_usable(#[trigger] document.candidates[i])
        },
        overlay_snapshot(content, Ok(document)) matches Ok(snapshot) ==> {
            &&& snapshot.content_hash == sha256_of(content)
            &&& snapshot.local_site == document.local_site
            &&& snapshot.generated_at == document.generated_at
            &&& snapshot.candidates.len() == document.candidates.len()
            &&& forall|i: int|
                0 <= i < document.candidates.len() ==> {
                    let from = #[trigger] document.candidates[i];
                    snapshot.candidates[i] == (CandidateView {
                        kind: if from.kind == "mcp_tool"@ {
                            CapabilityKind::McpTool
                        } else {
                            CapabilityKind::InferenceModel
                        },
                        name: from.name,
                        site: from.site,
                        cluster: from.cluster,
                        fresh: from.fresh,
                        admission_state: if from.admission_state == Some("existing_only"@) {
                            AdmissionState::ExistingOnly
                        } else if from.admission_state == Some("none"@) {
                            AdmissionState::Excluded
                        } else {
                            AdmissionState::NewAndExisting
                        },
                        rank: from.rank,
                        selection_tier: from.selection_tier,
                        stable_id: match from.stable_id {
                            Some(id) => id,
                            None => from.kind + "/"@ + from.name + "/"@ + from.site + "/"@
                                + from.cluster,
                        },
                    })
                }
        },
{
    let given = document.candidates;
    law_blank_texts_show_nothing(document.local_site);
    lemma_known_kinds(given);
    if overlay_configs(given) is Ok {
        let raw = overlay_configs(given)->Ok_0;
        lemma_overlay_configs(given);
        law_candidates_are_taken_as_configured(raw);
        assert forall|i: int| 0 <= i < given.len() implies overlay_config(
            #[trigger] given[i],
        ) == Ok::<ConfigView, GridFault>(raw[i]) by {
            assert(overlay_configs(given)->Ok_0[i] == raw[i]);
        }
        if validated(raw) is Ok {
            assert forall|i: int| 0 <= i < given.len() implies is_usable(
                #[trigger] given[i],
            ) by {
                assert(is_named(raw[i]));
            }
        }
        if forall|i: int| 0 <= i < given.len() ==> is_usable(#[trigger] given[i]) {
            assert forall|i: int| 0 <= i < raw.len() implies is_named(#[trigger] raw[i]) by {
                assert(is_usable(given[i]));
            }
        }
        if overlay_snapshot(content, Ok(document)) is Ok {
            reveal_strlit("inference_model");
            reveal_strlit("mcp_tool");
            assert("inference_model"@.len() != "mcp_tool"@.len());
        }
    } else {
        let i = choose|i: int| 0 <= i < given.len() && !has_known_kind(#[trigger] given[i]);
        assert(!is_usable(given[i]));
    }
}

/// Whether the kind of a candidate is known.
pub open spec fn has_known_kind(candidate: OverlayCandidateView) -> bool {
    candidate.kind == "inference_model"@ || candidate.kind == "mcp_tool"@
}

/// An overlay describes candidates exactly when all kinds are known.
proof fn lemma_known_kinds(candidates: Seq<OverlayCandidateView>)
    ensures
        overlay_configs(candidates) is Ok <==> forall|i: int|
            0 <= i < candidates.len() ==> has_known_kind(#[trigger] candidates[i]),
    decreases candidates.len(),
{
    if candidates.len() > 0 {
        let front = candidates.drop_last();
        lemma_known_kinds(front);
        assert(candidates[candidates.len() - 1] == candidates.last());
        if overlay_configs(front) is Ok && has_known_kind(candidates.last()) {
            assert forall|i: int| 0 <= i < candidates.len() implies has_known_kind(
                #[trigger] candidates[i],
            ) by {
                if i < front.len() {
                    assert(has_known_kind(front[i]));
                }
            }
        }
        if overlay_configs(front) is Err {
            let i = choose|i: int| 0 <= i < front.len() && !has_known_kind(#[trigger] front[i]);
            assert(!has_known_kind(candidates[i]));
        }
    }
}

/// The first kind that is not known is the one that is reported.
proof fn lemma_first_unknown_kind(candidates: Seq<OverlayCandidateView>, i: int)
    requires
        0 <= i < candidates.len(),
        !has_known_kind(candidates[i]),
        forall|j: int| 0 <= j < i ==> has_known_kind(#[trigger] candidates[j]),
    ensures
        overlay_configs(candidates) == Err::<Seq<ConfigView>, GridFault>(
            GridFault::UnknownKind(candidates[i].kind),
        ),
    decreases candidates.len(),
{
    let front = candidates.drop_last();
    if i < front.len() {
        assert forall|j: int| 0 <= j < i implies has_known_kind(#[trigger] front[j]) by {
            assert(front[j] == candidates[j]);
        }
        lemma_first_unknown_kind(front, i);
    } else {
        assert forall|j: int| 0 <= j < front.len() implies has_known_kind(#[trigger] front[j]) by {
            assert(front[j] == candidates[j]);
        }
        lemma_known_kinds(front);
    }
}

/// What is wrong with a file that does not become a snapshot: that it cannot be
/// parsed, then that its local site shows nothing, then the first kind that is not
/// known, then that there are no candidates, then the first candidate that cannot
/// be used.
pub proof fn law_the_first_fault_of_an_overlay_is_reported(
    content: Seq<u8>,
    reason: Seq<char>,
    document: DocumentView,
    i: int,
)
    ensures
        overlay_snapshot(content, Err(reason)) == Err::<SnapshotView, GridFault>(
            GridFault::OverlayInvalid(reason),
        ),
        !shows_something(document.local_site) ==> overlay_snapshot(content, Ok(document)) == Err::<
            SnapshotView,
            GridFault,
        >(GridFault::BlankLocalSite),
        shows_something(document.local_site) && document.candidates.len() == 0
            ==> overlay_snapshot(content, Ok(document)) == Err::<SnapshotView, GridFault>(
            GridFault::NoCandidates,
        ),
        shows_something(document.local_site) && 0 <= i < document.candidates.len()
            && !has_known_kind(document.candidates[i]) && (forall|j: int|
            0 <= j < i ==> has_known_kind(#[trigger] document.candidates[j])) ==> overlay_snapshot(
            content,
            Ok(document),
        ) == Err::<SnapshotView, GridFault>(GridFault::UnknownKind(document.candidates[i].kind)),
        shows_something(document.local_site) && 0 <= i < document.candidates.len() && !is_usable(
            document.candidates[i],
        ) && (forall|j: int|
            0 <= j < document.candidates.len() ==> has_known_kind(
                #[trigger] document.candidates[j],
            )) && (forall|j: int| 0 <= j < i ==> is_usable(#[trigger] document.candidates[j]))
            ==> overlay_snapshot(content, Ok(document)) == Err::<SnapshotView, GridFault>(
            if !shows_something(document.candidates[i].name) {
                GridFault::BlankName
            } else if !shows_something(document.candidates[i].site) {
                GridFault::BlankSite
            } else {
                GridFault::BlankCluster
            },
        ),
{
    let given = document.candidates;
    law_blank_texts_show_nothing(document.local_site);
    if 0 <= i < given.len() {
        if !has_known_kind(given[i]) && (forall|j: int|
            0 <= j < i ==> has_known_kind(#[trigger] given[j])) {
            lemma_first_unknown_kind(given, i);
        }
        if !is_usable(given[i]) && (forall|j: int|
            0 <= j < given.len() ==> has_known_kind(#[trigger] given[j])) && (forall|j: int|
            0 <= j < i ==> is_usable(#[trigger] given[j])) {
            lemma_known_kinds(given);
            lemma_overlay_configs(given);
            let raw = overlay_configs(given)->Ok_0;
            assert(overlay_config(given[i]) == Ok::<ConfigView, GridFault>(raw[i]));
            assert(has_known_kind(given[i]));
            assert forall|j: int| 0 <= j < i implies is_named(#[trigger] raw[j]) by {
                assert(is_usable(given[j]));
                assert(overlay_config(given[j]) == Ok::<ConfigView, GridFault>(raw[j]));
            }
            law_the_first_unusable_candidate_is_reported(raw, i);
        }
    }
}

/// What is read of the overlay file is taken as it is up to 2097152 bytes, and
/// refused beyond.
pub proof fn law_overlay_files_are_bounded(content: Seq<u8>, reason: Seq<char>)
    ensures
        content.len() <= 2097152 ==> bounded_read(Ok(content)) == Ok::<Seq<u8>, Seq<char>>(content),
        content.len() > 2097152 ==> bounded_read(Ok(content)) == Err::<Seq<u8>, Seq<char>>(
            "overlay file exceeds "@ + decimal_text(2097152) + " byte limit"@,
        ),
        bounded_read(Err(reason)) == Err::<Seq<u8>, Seq<char>>(reason),
{
}

/// A file takes the place of the snapshot exactly when it could be read, is not
/// too long, has another digest than the one the snapshot came from, and becomes a
/// snapshot itself. In every other case the old snapshot stays as it is.
pub proof fn law_snapshots_change_only_for_good_files(
    current: SnapshotView,
    read: Result<Seq<u8>, Seq<char>>,
    parsed: Result<DocumentView, Seq<char>>,
)
    ensures
        next_snapshot(current, read, parsed) == (if read is Ok && read->Ok_0.len() <= 2097152
            && sha256_of(read->Ok_0) != current.content_hash && overlay_snapshot(
            read->Ok_0,
            parsed,
        ) is Ok {
            overlay_snapshot(read->Ok_0, parsed)->Ok_0
        } else {
            current
        }),
{
}

/// All that a watcher ever does. It reads the file when the directory is watched
/// and when the wait after a change is over, waits when a change comes while
/// nothing else is on, ends when it is told to while it runs or cannot begin, and
/// otherwise stays as it is.
pub proof fn law_watchers_do_nothing_else(state: WatchState, event: WatchEvent, debounce_ms: u64)
    ensures
        ({
            let (next, action) = watch_next(state, event, debounce_ms);
            &&& action is Reload <==> state is Starting && event is Registered
            &&& action is DrainAndReload <==> state is Debouncing && event is WaitOver
            &&& action is Wait <==> state is Idle && event is Changed
            &&& action matches WatchAction::Wait(wait_ms) ==> wait_ms == debounce_ms
            &&& action is Exit <==> (state is Starting && event is RegistrationFailed) || ((
            state is Idle || state is Debouncing) && event is Shutdown)
            &&& action is Reload || action is DrainAndReload ==> next is Idle
            &&& action is Wait ==> next is Debouncing
            &&& action is Exit ==> next is Stopped
            &&& action is Nothing ==> next == state
        }),
{
}

/// What the operator says of a candidate goes with it: the admission state, the
/// tier and the identifier where they are given, the rank in any case. What the
/// operator does not say, and what the candidate offers where, stays. Candidates
/// of which nothing is said stay as they are.
pub proof fn law_operators_only_add_their_findings(
    candidates: Seq<CandidateView>,
    overlay: Seq<OverlayCandidateView>,
    i: int,
)
    requires
        0 <= i < candidates.len(),
    ensures
        enriched_all(candidates, overlay).len() == candidates.len(),
        i >= overlay.len() ==> enriched_all(candidates, overlay)[i] == candidates[i],
        i < overlay.len() ==> {
            let before = candidates[i];
            let said = overlay[i];
            let after = enriched_all(candidates, overlay)[i];
            &&& after.kind == before.kind
            &&& after.name == before.name
            &&& after.site == before.site
            &&& after.cluster == before.cluster
            &&& after.fresh == before.fresh
            &&& after.rank == said.rank
            &&& said.selection_tier is Some ==> after.selection_tier == said.selection_tier
            &&& said.selection_tier is None ==> after.selection_tier == before.selection_tier
            &&& said.stable_id matches Some(id) ==> after.stable_id == id
            &&& said.stable_id is None ==> after.stable_id == before.stable_id
            &&& said.admission_state is None ==> after.admission_state == before.admission_state
            &&& said.admission_state matches Some(name) ==> {
                &&& after.admission_state is ExistingOnly <==> name == "existing_only"@
                &&& after.admission_state is Excluded <==> name == "none"@
            }
        },
{
    reveal_strlit("existing_only");
    reveal_strlit("none");
    assert("existing_only"@.len() != "none"@.len());
}

/// An overlay and a snapshot are seen as they are.
pub proof fn law_overlays_are_seen_as_they_are(
    candidate: OverlayCandidate,
    document: OverlayDocument,
    snapshot: RouteSnapshot,
)
    ensures
        candidate@.kind == candidate.kind@,
        candidate@.name == candidate.name@,
        candidate@.site == candidate.site@,
        candidate@.cluster == candidate.cluster@,
        candidate@.fresh == candidate.fresh,
        candidate@.rank == candidate.rank,
        candidate@.admission_state == (match candidate.admission_state {
            Some(state) => Some(state@),
            None => None,
        }),
        candidate@.selection_tier == (match candidate.selection_tier {
            Some(tier) => Some(tier@),
            None => None,
        }),
        candidate@.stable_id == (match candidate.stable_id {
            Some(id) => Some(id@),
            None => None,
        }),
        document@.local_site == document.local_site@,
        document@.candidates.len() == document.candidates@.len(),
        forall|i: int|
            0 <= i < document.candidates@.len() ==> document@.candidates[i] == (
            #[trigger] document.candidates@[i])@,
        document@.generated_at == (match document.generated_at {
            Some(time) => Some(time@),
            None => None,
        }),
        snapshot@.local_site == snapshot.local_site@,
        snapshot@.candidates.len() == snapshot.candidates@.len(),
        forall|i: int|
            0 <= i < snapshot.candidates@.len() ==> snapshot@.candidates[i] == (
            #[trigger] snapshot.candidates@[i])@,
        snapshot@.content_hash == snapshot.content_hash@,
        snapshot@.generated_at == (match snapshot.generated_at {
            Some(time) => Some(time@),
            None => None,
        }),
{
}

/// What was read and what was parsed are seen as they are, and so is what went
/// wrong.
pub proof fn law_readings_are_seen_as_they_are(
    content: Vec<u8>,
    document: OverlayDocument,
    reason: String,
)
    ensures
        read_view(Ok(content)) == Ok::<Seq<u8>, Seq<char>>(content@),
        read_view(Err(reason)) == Err::<Seq<u8>, Seq<char>>(reason@),
        parsed_view(Ok(document)) == Ok::<DocumentView, Seq<char>>(document@),
        parsed_view(Err(reason)) == Err::<DocumentView, Seq<char>>(reason@),
{
}

} // verus!
