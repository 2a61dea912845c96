//! Capabilities and the candidates that offer them.
use vstd::prelude::*;
use vstd::string::*;
use vstd::utf8::*;

use super::error::{GridError, GridFault};
use crate::header::{header_name, is_header_name, is_reserved, is_reserved_name, normal_name};
use crate::text::{
    blank, is_blank, law_blank_texts_show_nothing, optional_text, same_text, shows_something,
};

verus! {

/// What a candidate offers.
#[derive(Debug, Clone, Copy, PartialEq, Eq, Structural)]
pub enum CapabilityKind {
    /// A model that answers inference requests.
    InferenceModel,
    /// A tool that answers MCP calls.
    McpTool,
}

impl CapabilityKind {
    /// The name of the kind.
    pub open spec fn text(self) -> Seq<char> {
        match self {
            CapabilityKind::InferenceModel => "inference_model"@,
            CapabilityKind::McpTool => "mcp_tool"@,
        }
    }

    /// The kind of the given name.
    pub open spec fn named(name: Seq<char>) -> Result<CapabilityKind, GridFault> {
        if name == "inference_model"@ {
            Ok(CapabilityKind::InferenceModel)
        } else if name == "mcp_tool"@ {
            Ok(CapabilityKind::McpTool)
        } else {
            Err(GridFault::UnknownKind(name))
        }
    }

    /// The name of the kind.
    pub fn as_str(&self) -> (r: &'static str)
        ensures
            r@ == self.text(),
    {
        match self {
            CapabilityKind::InferenceModel => "inference_model",
            CapabilityKind::McpTool => "mcp_tool",
        }
    }

    /// The kind of the given name, as overlays write it.
    pub fn from_overlay_str(name: &str) -> (r: Result<CapabilityKind, GridError>)
        ensures
            match CapabilityKind::named(name@) {
                Ok(kind) => r == Ok::<CapabilityKind, GridError>(kind),
                Err(fault) => r matches Err(e) && e@ == fault,
            },
    {
        if same_text(name, "inference_model") {
            Ok(CapabilityKind::InferenceModel)
        } else if same_text(name, "mcp_tool") {
            Ok(CapabilityKind::McpTool)
        } else {
            Err(GridError::UnknownKind(name.to_owned()))
        }
    }
}

/// A kind is found again under its own name.
pub proof fn law_kind_names_round_trip(kind: CapabilityKind)
    ensures
        CapabilityKind::named(kind.text()) == Ok::<CapabilityKind, GridFault>(kind),
{
    reveal_strlit("inference_model");
    reveal_strlit("mcp_tool");
    assert("inference_model"@.len() != "mcp_tool"@.len());
}

/// Which sessions a candidate takes.
#[derive(Debug, Clone, Copy, PartialEq, Eq, Structural)]
pub enum AdmissionState {
    /// New sessions and those it already has.
    NewAndExisting,
    /// Only those it already has.
    ExistingOnly,
    /// None.
    Excluded,
}

impl AdmissionState {
    /// The state of the given name. A name that is not known stands for
    /// [`AdmissionState::NewAndExisting`].
    pub open spec fn named(name: Seq<char>) -> AdmissionState {
        if name == "existing_only"@ {
            AdmissionState::ExistingOnly
        } else if name == "none"@ {
            AdmissionState::Excluded
        } else {
            AdmissionState::NewAndExisting
        }
    }

    /// The state of the given name, as overlays write it.
    pub fn from_overlay_str(name: &str) -> (r: AdmissionState)
        ensures
            r == AdmissionState::named(name@),
    {
        if same_text(name, "existing_only") {
            AdmissionState::ExistingOnly
        } else if same_text(name, "none") {
            AdmissionState::Excluded
        } else {
            AdmissionState::NewAndExisting
        }
    }
}

/// A candidate as it is configured.
#[derive(Debug)]
pub struct CandidateConfig {
    /// Cluster that serves the capability.
    pub cluster: String,
    /// Whether the candidate was heard of lately.
    pub fresh: bool,
    /// What is offered.
    pub kind: CapabilityKind,
    /// Name of the capability.
    pub name: String,
    /// Site that offers it.
    pub site: String,
}

/// What a [`CandidateConfig`] says.
pub ghost struct ConfigView {
    /// What is offered.
    pub kind: CapabilityKind,
    /// Name of the capability.
    pub name: Seq<char>,
    /// Site that offers it.
    pub site: Seq<char>,
    /// Cluster that serves the capability.
    pub cluster: Seq<char>,
    /// Whether the candidate was heard of lately.
    pub fresh: bool,
}

impl View for CandidateConfig {
    type V = ConfigView;

    open spec fn view(&self) -> ConfigView {
        ConfigView {
            kind: self.kind,
            name: self.name@,
            site: self.site@,
            cluster: self.cluster@,
            fresh: self.fresh,
        }
    }
}

/// A candidate that requests can be routed to.
#[derive(Debug)]
pub struct RouteCandidate {
    /// What is offered.
    pub kind: CapabilityKind,
    /// Name of the capability.
    pub name: String,
    /// Site that offers it.
    pub site: String,
    /// Cluster that serves the capability.
    pub cluster: String,
    /// Whether the candidate was heard of lately.
    pub fresh: bool,
    /// Which sessions the candidate takes.
    pub admission_state: AdmissionState,
    /// Place in the operator's ranking, lower is better.
    pub rank: Option<u32>,
    /// How near the operator finds the candidate.
    pub selection_tier: Option<String>,
    /// Name of the candidate that stays the same over time.
    pub stable_id: String,
}

/// What a [`RouteCandidate`] says.
pub ghost struct CandidateView {
    /// What is offered.
    pub kind: CapabilityKind,
    /// Name of the capability.
    pub name: Seq<char>,
    /// Site that offers it.
    pub site: Seq<char>,
    /// Cluster that serves the capability.
    pub cluster: Seq<char>,
    /// Whether the candidate was heard of lately.
    pub fresh: bool,
    /// Which sessions the candidate takes.
    pub admission_state: AdmissionState,
    /// Place in the operator's ranking, lower is better.
    pub rank: Option<u32>,
    /// How near the operator finds the candidate.
    pub selection_tier: Option<Seq<char>>,
    /// Name of the candidate that stays the same over time.
    pub stable_id: Seq<char>,
}

impl View for RouteCandidate {
    type V = CandidateView;

    open spec fn view(&self) -> CandidateView {
        CandidateView {
            kind: self.kind,
            name: self.name@,
            site: self.site@,
            cluster: self.cluster@,
            fresh: self.fresh,
            admission_state: self.admission_state,
            rank: self.rank,
            selection_tier: optional_text(self.selection_tier),
            stable_id: self.stable_id@,
        }
    }
}

/// What each element says.
pub open spec fn views<T: View>(list: Seq<T>) -> Seq<T::V> {
    list.map_values(|element: T| element@)
}

/// The name of a candidate that the operator gave none.
pub open spec fn default_stable_id(config: ConfigView) -> Seq<char> {
    config.kind.text() + "/"@ + config.name + "/"@ + config.site + "/"@ + config.cluster
}

/// The candidate that `config` describes, without anything from the operator.
pub open spec fn plain_candidate(config: ConfigView) -> CandidateView {
    CandidateView {
        kind: config.kind,
        name: config.name,
        site: config.site,
        cluster: config.cluster,
        fresh: config.fresh,
        admission_state: AdmissionState::NewAndExisting,
        rank: None,
        selection_tier: None,
        stable_id: default_stable_id(config),
    }
}

/// The candidates that `raw` describes, without anything from the operator.
pub open spec fn plain_candidates(raw: Seq<ConfigView>) -> Seq<CandidateView> {
    raw.map_values(|config: ConfigView| plain_candidate(config))
}

/// What is wrong with `config`, if anything.
pub open spec fn config_fault(config: ConfigView) -> Option<GridFault> {
    if is_blank(config.name) {
        Some(GridFault::BlankName)
    } else if is_blank(config.site) {
        Some(GridFault::BlankSite)
    } else if is_blank(config.cluster) {
        Some(GridFault::BlankCluster)
    } else {
        None
    }
}

/// What is wrong with the first of `raw` with which anything is.
pub open spec fn first_fault(raw: Seq<ConfigView>) -> Option<GridFault>
    decreases raw.len(),
{
    if raw.len() == 0 {
        None
    } else {
        match first_fault(raw.drop_last()) {
            Some(fault) => Some(fault),
            None => config_fault(raw.last()),
        }
    }
}

/// The candidates that `raw` describes.
pub open spec fn validated(raw: Seq<ConfigView>) -> Result<Seq<CandidateView>, GridFault> {
    if raw.len() == 0 {
        Err(GridFault::NoCandidates)
    } else {
        match first_fault(raw) {
            Some(fault) => Err(fault),
            None => Ok(plain_candidates(raw)),
        }
    }
}

/// Whether `r` is the list of candidates, or the fault, that `expected` says.
pub open spec fn agrees(
    r: Result<Vec<RouteCandidate>, GridError>,
    expected: Result<Seq<CandidateView>, GridFault>,
) -> bool {
    match (r, expected) {
        (Ok(candidates), Ok(list)) => views(candidates@) == list,
        (Err(e), Err(fault)) => e@ == fault,
        _ => false,
    }
}

/// Reject a local site that has no visible name.
pub fn validate_local_site(local_site: &str) -> (r: Result<(), GridError>)
    ensures
        match r {
            Ok(()) => !is_blank(local_site@),
            Err(e) => is_blank(local_site@) && e@ == GridFault::BlankLocalSite,
        },
{
    if blank(local_site) {
        Err(GridError::BlankLocalSite)
    } else {
        Ok(())
    }
}

/// The candidate that `config` describes.
fn plain(config: CandidateConfig) -> (r: Result<RouteCandidate, GridError>)
    ensures
        match config_fault(config@) {
            Some(fault) => r matches Err(e) && e@ == fault,
            None => r matches Ok(candidate) && candidate@ == plain_candidate(config@),
        },
{
    if blank(config.name.as_str()) {
        return Err(GridError::BlankName);
    }
    if blank(config.site.as_str()) {
        return Err(GridError::BlankSite);
    }
    if blank(config.cluster.as_str()) {
        return Err(GridError::BlankCluster);
    }
    let mut stable_id = config.kind.as_str().to_owned();
    stable_id.append("/");
    stable_id.append(config.name.as_str());
    stable_id.append("/");
    stable_id.append(config.site.as_str());
    stable_id.append("/");
    stable_id.append(config.cluster.as_str());
    Ok(
        RouteCandidate {
            kind: config.kind,
            name: config.name,
            site: config.site,
            cluster: config.cluster,
            fresh: config.fresh,
            admission_state: AdmissionState::NewAndExisting,
            rank: None,
            selection_tier: None,
            stable_id,
        },
    )
}

/// A fault in the front part of a list is the fault of the list.
proof fn lemma_fault_of_prefix(raw: Seq<ConfigView>, n: int)
    requires
        0 <= n <= raw.len(),
        first_fault(raw.take(n)) is Some,
    ensures
        first_fault(raw) == first_fault(raw.take(n)),
    decreases raw.len() - n,
{
    if n < raw.len() {
        assert(raw.take(n + 1).drop_last() =~= raw.take(n));
        lemma_fault_of_prefix(raw, n + 1);
    } else {
        assert(raw.take(n) =~= raw);
    }
}

/// A list without a fault has none at any place.
pub proof fn lemma_no_fault(raw: Seq<ConfigView>, i: int)
    requires
        first_fault(raw) is None,
        0 <= i < raw.len(),
    ensures
        config_fault(raw[i]) is None,
    decreases raw.len(),
{
    if i < raw.len() - 1 {
        lemma_no_fault(raw.drop_last(), i);
    }
}

/// The candidates that `raw` describes. Rejects an empty list and names that
/// show nothing.
pub fn validate_candidates(raw: Vec<CandidateConfig>) -> (r: Result<
    Vec<RouteCandidate>,
    GridError,
>)
    ensures
        agrees(r, validated(views(raw@))),
{
    if raw.len() == 0 {
        return Err(GridError::NoCandidates);
    }
    let ghost list = raw@;
    let ghost said = views(raw@);
    let mut candidates: Vec<RouteCandidate> = Vec::new();
    for config in iter: raw
        invariant
            iter.seq() == list,
            said == views(list),
            said.len() > 0,
            views(candidates@) == plain_candidates(said.take(iter.index())),
            first_fault(said.take(iter.index())) is None,
    {
        let ghost n = iter.index();
        assert(said.take(n + 1).drop_last() =~= said.take(n));
        assert(said.take(n + 1).last() == config@);
        match plain(config) {
            Err(e) => {
                proof {
                    lemma_fault_of_prefix(said, n + 1);
                }
                return Err(e);
            },
            Ok(candidate) => {
                let ghost before = candidates@;
                candidates.push(candidate);
                assert(views(candidates@) =~= views(before).push(candidate@));
                assert(plain_candidates(said.take(n + 1)) =~= plain_candidates(said.take(n)).push(
                    candidate@,
                ));
            },
        }
    }
    assert(said.take(said.len() as int) =~= said);
    Ok(candidates)
}

/// The header that `name` stands for.
pub open spec fn model_header_of(name: Seq<char>) -> Result<Seq<char>, GridFault> {
    if is_blank(name) {
        Err(GridFault::BlankModelHeader)
    } else if !is_header_name(name) {
        Err(GridFault::InvalidModelHeader(name))
    } else if is_reserved_name(name) {
        Err(GridFault::ReservedModelHeader(name))
    } else {
        Ok(normal_name(name))
    }
}

/// The header that carries the model, in lower case. Rejects what is no header
/// name and names that belong to the proxy.
pub fn validate_model_header(name: &str) -> (r: Result<String, GridError>)
    ensures
        match model_header_of(name@) {
            Ok(header) => r matches Ok(text) && text@ == header,
            Err(fault) => r matches Err(e) && e@ == fault,
        },
{
    if blank(name) {
        return Err(GridError::BlankModelHeader);
    }
    match header_name(name) {
        None => Err(GridError::InvalidModelHeader(name.to_owned())),
        Some(header) => {
            if is_reserved(name) {
                Err(GridError::ReservedModelHeader(name.to_owned()))
            } else {
                Ok(header)
            }
        },
    }
}

/// There are two kinds, each with one name. Nothing else names a kind.
pub proof fn law_only_two_names_are_kinds(name: Seq<char>)
    ensures
        CapabilityKind::named(name) == (if name == "inference_model"@ {
            Ok::<CapabilityKind, GridFault>(CapabilityKind::InferenceModel)
        } else if name == "mcp_tool"@ {
            Ok(CapabilityKind::McpTool)
        } else {
            Err(GridFault::UnknownKind(name))
        }),
        CapabilityKind::InferenceModel.text() == "inference_model"@,
        CapabilityKind::McpTool.text() == "mcp_tool"@,
{
}

/// Two names keep new sessions away from a candidate. Any other name does not.
pub proof fn law_other_states_take_all_sessions(name: Seq<char>)
    ensures
        AdmissionState::named(name) is ExistingOnly <==> name == "existing_only"@,
        AdmissionState::named(name) is Excluded <==> name == "none"@,
{
    reveal_strlit("existing_only");
    reveal_strlit("none");
    assert("existing_only"@.len() != "none"@.len());
}

/// Whether a candidate can be used: its name, its site and its cluster show
/// something.
pub open spec fn is_named(config: ConfigView) -> bool {
    &&& shows_something(config.name)
    &&& shows_something(config.site)
    &&& shows_something(config.cluster)
}

/// A candidate has no fault exactly when it can be used, and otherwise the fault
/// is that of its name, its site or its cluster, in this order.
proof fn lemma_config_fault(config: ConfigView)
    ensures
        config_fault(config) is None <==> is_named(config),
        !shows_something(config.name) ==> config_fault(config) == Some(GridFault::BlankName),
        shows_something(config.name) && !shows_something(config.site) ==> config_fault(config)
            == Some(GridFault::BlankSite),
        shows_something(config.name) && shows_something(config.site) && !shows_something(
            config.cluster,
        ) ==> config_fault(config) == Some(GridFault::BlankCluster),
{
    law_blank_texts_show_nothing(config.name);
    law_blank_texts_show_nothing(config.site);
    law_blank_texts_show_nothing(config.cluster);
}

/// The first fault of a list is that of the first element that has one.
proof fn lemma_first_fault(raw: Seq<ConfigView>, i: int)
    requires
        0 <= i < raw.len(),
        config_fault(raw[i]) is Some,
        forall|j: int| 0 <= j < i ==> config_fault(#[trigger] raw[j]) is None,
    ensures
        first_fault(raw) == config_fault(raw[i]),
    decreases raw.len(),
{
    let front = raw.drop_last();
    if i < front.len() {
        assert forall|j: int| 0 <= j < i implies config_fault(#[trigger] front[j]) is None by {
            assert(front[j] == raw[j]);
        }
        lemma_first_fault(front, i);
    } else {
        assert forall|j: int| 0 <= j < front.len() implies config_fault(
            #[trigger] front[j],
        ) is None by {
            assert(front[j] == raw[j]);
        }
        lemma_all_without_fault(front);
    }
}

/// A list of which no element has a fault has none.
proof fn lemma_all_without_fault(raw: Seq<ConfigView>)
    requires
        forall|j: int| 0 <= j < raw.len() ==> config_fault(#[trigger] raw[j]) is None,
    ensures
        first_fault(raw) is None,
    decreases raw.len(),
{
    if raw.len() > 0 {
        let front = raw.drop_last();
        assert forall|j: int| 0 <= j < front.len() implies config_fault(
            #[trigger] front[j],
        ) is None by {
            assert(front[j] == raw[j]);
        }
        lemma_all_without_fault(front);
        assert(config_fault(raw[raw.len() - 1]) is None);
    }
}

/// Candidates are accepted exactly when there are some and all can be used, and
/// then each is taken as it is configured, in order: with the same kind, name,
/// site, cluster and freshness, open to all sessions, without rank and tier, and
/// known by these four texts.
pub proof fn law_candidates_are_taken_as_configured(raw: Seq<ConfigView>)
    ensures
        validated(raw) is Ok <==> raw.len() > 0 && forall|i: int|
            0 <= i < raw.len() ==> is_named(#[trigger] raw[i]),
        validated(raw) matches Ok(list) ==> {
            &&& list.len() == raw.len()
            &&& forall|i: int|
                0 <= i < raw.len() ==> {
                    let from = #[trigger] raw[i];
                    list[i] == (CandidateView {
                        kind: from.kind,
                        name: from.name,
                        site: from.site,
                        cluster: from.cluster,
                        fresh: from.fresh,
                        admission_state: AdmissionState::NewAndExisting,
                        rank: None,
                        selection_tier: None,
                        stable_id: (match from.kind {
                            CapabilityKind::InferenceModel => "inference_model"@,
                            CapabilityKind::McpTool => "mcp_tool"@,
                        }) + "/"@ + from.name + "/"@ + from.site + "/"@ + from.cluster,
                    })
                }
        },
{
    if raw.len() > 0 {
        if forall|i: int| 0 <= i < raw.len() ==> is_named(#[trigger] raw[i]) {
            assert forall|j: int| 0 <= j < raw.len() implies config_fault(
                #[trigger] raw[j],
            ) is None by {
                lemma_config_fault(raw[j]);
                assert(is_named(raw[j]));
            }
            lemma_all_without_fault(raw);
        }
        if first_fault(raw) is None {
            assert forall|i: int| 0 <= i < raw.len() implies is_named(#[trigger] raw[i]) by {
                lemma_no_fault(raw, i);
                lemma_config_fault(raw[i]);
            }
        }
    }
}

/// What is wrong with candidates that are not accepted: there are none, or it is
/// what is wrong with the first one that cannot be used, where the name goes
/// before the site and the site before the cluster.
pub proof fn law_the_first_unusable_candidate_is_reported(raw: Seq<ConfigView>, i: int)
    requires
        0 <= i < raw.len(),
        !is_named(raw[i]),
        forall|j: int| 0 <= j < i ==> is_named(#[trigger] raw[j]),
    ensures
        validated(Seq::empty()) == Err::<Seq<CandidateView>, GridFault>(GridFault::NoCandidates),
        validated(raw) == Err::<Seq<CandidateView>, GridFault>(
            if !shows_something(raw[i].name) {
                GridFault::BlankName
            } else if !shows_something(raw[i].site) {
                GridFault::BlankSite
            } else {
                GridFault::BlankCluster
            },
        ),
{
    assert forall|j: int| 0 <= j < i implies config_fault(#[trigger] raw[j]) is None by {
        lemma_config_fault(raw[j]);
        assert(is_named(raw[j]));
    }
    lemma_config_fault(raw[i]);
    lemma_first_fault(raw, i);
}

/// A header name is accepted exactly when it shows something, is a header name and
/// does not belong to the proxy; it is then used in lower case, byte by byte.
pub proof fn law_model_headers_are_header_names(name: Seq<char>)
    ensures
        !shows_something(name) ==> model_header_of(name) == Err::<Seq<char>, GridFault>(
            GridFault::BlankModelHeader,
        ),
        shows_something(name) && !is_header_name(name) ==> model_header_of(name) == Err::<
            Seq<char>,
            GridFault,
        >(GridFault::InvalidModelHeader(name)),
        shows_something(name) && is_header_name(name) && is_reserved_name(name)
            ==> model_header_of(name) == Err::<Seq<char>, GridFault>(
            GridFault::ReservedModelHeader(name),
        ),
        shows_something(name) && is_header_name(name) && !is_reserved_name(name)
            ==> model_header_of(name) == Ok::<Seq<char>, GridFault>(
            Seq::new(
                encode_utf8(name).len(),
                |i: int|
                    {
                        let b = encode_utf8(name)[i];
                        if 0x41 <= b <= 0x5a {
                            (b + 0x20) as u8 as char
                        } else {
                            b as char
                        }
                    },
            ),
        ),
{
    law_blank_texts_show_nothing(name);
    assert(normal_name(name) =~= Seq::new(
        encode_utf8(name).len(),
        |i: int|
            {
                let b = encode_utf8(name)[i];
                if 0x41 <= b <= 0x5a {
                    (b + 0x20) as u8 as char
                } else {
                    b as char
                }
            },
    ));
}

/// A list is seen whole and in its order.
pub proof fn law_lists_are_seen_whole<T: View>(list: Seq<T>, i: int)
    ensures
        views(list).len() == list.len(),
        0 <= i < list.len() ==> views(list)[i] == list[i]@,
{
}

/// Candidates are seen as they are, configured or ready to route to.
pub proof fn law_candidates_are_seen_as_they_are(config: CandidateConfig, candidate: RouteCandidate)
    ensures
        config@.kind == config.kind,
        config@.name == config.name@,
        config@.site == config.site@,
        config@.cluster == config.cluster@,
        config@.fresh == config.fresh,
        candidate@.kind == candidate.kind,
        candidate@.name == candidate.name@,
        candidate@.site == candidate.site@,
        candidate@.cluster == candidate.cluster@,
        candidate@.fresh == candidate.fresh,
        candidate@.admission_state == candidate.admission_state,
        candidate@.rank == candidate.rank,
        candidate@.selection_tier == (match candidate.selection_tier {
            Some(tier) => Some(tier@),
            None => None,
        }),
        candidate@.stable_id == candidate.stable_id@,
{
}

/// Candidates come out where candidates are owed, each as it should be, and the
/// very fault that is owed where one is.
pub proof fn law_answers_agree_on_every_candidate(
    candidates: Vec<RouteCandidate>,
    list: Seq<CandidateView>,
    error: GridError,
    fault: GridFault,
)
    ensures
        agrees(Ok(candidates), Ok(list)) <==> candidates@.len() == list.len() && forall|i: int|
            0 <= i < list.len() ==> (#[trigger] candidates@[i])@ == list[i],
        agrees(Err(error), Err(fault)) <==> error@ == fault,
        !agrees(Ok(candidates), Err(fault)),
        !agrees(Err(error), Ok(list)),
{
    if candidates@.len() == list.len() && forall|i: int|
        0 <= i < list.len() ==> (#[trigger] candidates@[i])@ == list[i] {
        assert(views(candidates@) =~= list);
    }
    if views(candidates@) == list {
        assert forall|i: int| 0 <= i < list.len() implies (#[trigger] candidates@[i])@ == list[i] by {
            assert(views(candidates@)[i] == list[i]);
        }
    }
}

} // verus!
