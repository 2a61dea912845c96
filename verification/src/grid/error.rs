//! Why a grid filter could not be configured.
use vstd::prelude::*;
use vstd::string::*;

use crate::text::joined;

verus! {

/// Why a grid filter could not be configured.
#[derive(Debug)]
pub enum GridError {
    /// The local site has no visible name.
    BlankLocalSite,
    /// There is no candidate to route to.
    NoCandidates,
    /// A candidate names no capability.
    BlankName,
    /// A candidate names no site.
    BlankSite,
    /// A candidate names no cluster.
    BlankCluster,
    /// A candidate offers something unknown.
    UnknownKind(String),
    /// The model header has no visible name.
    BlankModelHeader,
    /// The model header is no header name.
    InvalidModelHeader(String),
    /// The model header belongs to the proxy.
    ReservedModelHeader(String),
    /// Candidates come from two sources.
    BothSources,
    /// Candidates come from nowhere.
    NoSource,
    /// Inline candidates cannot be reloaded.
    ReloadOfCandidates,
    /// Inline candidates need a local site.
    MissingLocalSite,
    /// The overlay file could not be read.
    OverlayUnreadable {
        /// The file.
        path: String,
        /// What went wrong.
        reason: String,
    },
    /// The overlay file could not be understood.
    OverlayInvalid(String),
}

/// What a [`GridError`] says.
pub ghost enum GridFault {
    /// The local site has no visible name.
    BlankLocalSite,
    /// There is no candidate to route to.
    NoCandidates,
    /// A candidate names no capability.
    BlankName,
    /// A candidate names no site.
    BlankSite,
    /// A candidate names no cluster.
    BlankCluster,
    /// A candidate offers something unknown.
    UnknownKind(Seq<char>),
    /// The model header has no visible name.
    BlankModelHeader,
    /// The model header is no header name.
    InvalidModelHeader(Seq<char>),
    /// The model header belongs to the proxy.
    ReservedModelHeader(Seq<char>),
    /// Candidates come from two sources.
    BothSources,
    /// Candidates come from nowhere.
    NoSource,
    /// Inline candidates cannot be reloaded.
    ReloadOfCandidates,
    /// Inline candidates need a local site.
    MissingLocalSite,
    /// The overlay file could not be read.
    OverlayUnreadable(Seq<char>, Seq<char>),
    /// The overlay file could not be understood.
    OverlayInvalid(Seq<char>),
}

impl View for GridError {
    type V = GridFault;

    open spec fn view(&self) -> GridFault {
        match self {
            GridError::BlankLocalSite => GridFault::BlankLocalSite,
            GridError::NoCandidates => GridFault::NoCandidates,
            GridError::BlankName => GridFault::BlankName,
            GridError::BlankSite => GridFault::BlankSite,
            GridError::BlankCluster => GridFault::BlankCluster,
            GridError::UnknownKind(kind) => GridFault::UnknownKind(kind@),
            GridError::BlankModelHeader => GridFault::BlankModelHeader,
            GridError::InvalidModelHeader(name) => GridFault::InvalidModelHeader(name@),
            GridError::ReservedModelHeader(name) => GridFault::ReservedModelHeader(name@),
            GridError::BothSources => GridFault::BothSources,
            GridError::NoSource => GridFault::NoSource,
            GridError::ReloadOfCandidates => GridFault::ReloadOfCandidates,
            GridError::MissingLocalSite => GridFault::MissingLocalSite,
            GridError::OverlayUnreadable { path, reason } => GridFault::OverlayUnreadable(
                path@,
                reason@,
            ),
            GridError::OverlayInvalid(reason) => GridFault::OverlayInvalid(reason@),
        }
    }
}

impl GridFault {
    /// The text of the error.
    pub open spec fn text(self) -> Seq<char> {
        match self {
            GridFault::BlankLocalSite => "grid: local_site must be non-blank"@,
            GridFault::NoCandidates => "grid: candidates must not be empty"@,
            GridFault::BlankName => "grid: candidate name must be non-blank"@,
            GridFault::BlankSite => "grid: candidate site must be non-blank"@,
            GridFault::BlankCluster => "grid: candidate cluster must be non-blank"@,
            GridFault::UnknownKind(kind) => "grid: unknown candidate kind: "@ + kind,
            GridFault::BlankModelHeader => "grid: model_header must be non-blank"@,
            GridFault::InvalidModelHeader(name) => "grid: model_header is invalid: "@ + name,
            GridFault::ReservedModelHeader(name) => "grid: model_header is reserved: "@ + name,
            GridFault::BothSources => "grid: cannot set both overlay_file and candidates"@,
            GridFault::NoSource => "grid: either overlay_file or candidates must be set"@,
            GridFault::ReloadOfCandidates =>
                "grid: reload block is not valid with static candidates"@,
            GridFault::MissingLocalSite =>
                "grid: local_site is required when candidates is set"@,
            GridFault::OverlayUnreadable(path, reason) => "grid: failed to read overlay file "@
                + path + ": "@ + reason,
            GridFault::OverlayInvalid(reason) => "grid: overlay parse error: "@ + reason,
        }
    }
}

impl GridError {
    /// The text of the error.
    pub fn message(&self) -> (r: String)
        ensures
            r@ == self@.text(),
    {
        match self {
            GridError::BlankLocalSite => "grid: local_site must be non-blank".to_owned(),
            GridError::NoCandidates => "grid: candidates must not be empty".to_owned(),
            GridError::BlankName => "grid: candidate name must be non-blank".to_owned(),
            GridError::BlankSite => "grid: candidate site must be non-blank".to_owned(),
            GridError::BlankCluster => "grid: candidate cluster must be non-blank".to_owned(),
            GridError::UnknownKind(kind) => joined("grid: unknown candidate kind: ", kind.as_str()),
            GridError::BlankModelHeader => "grid: model_header must be non-blank".to_owned(),
            GridError::InvalidModelHeader(name) => {
                joined("grid: model_header is invalid: ", name.as_str())
            },
            GridError::ReservedModelHeader(name) => {
                joined("grid: model_header is reserved: ", name.as_str())
            },
            GridError::BothSources => {
                "grid: cannot set both overlay_file and candidates".to_owned()
            },
            GridError::NoSource => "grid: either overlay_file or candidates must be set".to_owned(),
            GridError::ReloadOfCandidates => {
                "grid: reload block is not valid with static candidates".to_owned()
            },
            GridError::MissingLocalSite => {
                "grid: local_site is required when candidates is set".to_owned()
            },
            GridError::OverlayUnreadable { path, reason } => {
                let mut r = joined("grid: failed to read overlay file ", path.as_str());
                r.append(": ");
                r.append(reason.as_str());
                r
            },
            GridError::OverlayInvalid(reason) => {
                joined("grid: overlay parse error: ", reason.as_str())
            },
        }
    }
}

/// The text of a fault repeats what it is about, whole and last.
pub proof fn law_messages_name_what_is_wrong(a: Seq<char>, b: Seq<char>)
    ensures
        GridFault::UnknownKind(a).text() == "grid: unknown candidate kind: "@ + a,
        GridFault::InvalidModelHeader(a).text() == "grid: model_header is invalid: "@ + a,
        GridFault::ReservedModelHeader(a).text() == "grid: model_header is reserved: "@ + a,
        GridFault::OverlayInvalid(a).text() == "grid: overlay parse error: "@ + a,
        GridFault::OverlayUnreadable(a, b).text() == "grid: failed to read overlay file "@ + a
            + ": "@ + b,
        GridFault::BlankLocalSite.text() == "grid: local_site must be non-blank"@,
        GridFault::NoCandidates.text() == "grid: candidates must not be empty"@,
        GridFault::BlankName.text() == "grid: candidate name must be non-blank"@,
        GridFault::BlankSite.text() == "grid: candidate site must be non-blank"@,
        GridFault::BlankCluster.text() == "grid: candidate cluster must be non-blank"@,
        GridFault::BlankModelHeader.text() == "grid: model_header must be non-blank"@,
        GridFault::BothSources.text() == "grid: cannot set both overlay_file and candidates"@,
        GridFault::NoSource.text() == "grid: either overlay_file or candidates must be set"@,
        GridFault::ReloadOfCandidates.text()
            == "grid: reload block is not valid with static candidates"@,
        GridFault::MissingLocalSite.text()
            == "grid: local_site is required when candidates is set"@,
{
}

/// Every error is seen as the fault of its own name, with the texts it holds.
pub proof fn law_errors_are_seen_as_they_are(error: GridError)
    ensures
        error is BlankLocalSite <==> error@ is BlankLocalSite,
        error is NoCandidates <==> error@ is NoCandidates,
        error is BlankName <==> error@ is BlankName,
        error is BlankSite <==> error@ is BlankSite,
        error is BlankCluster <==> error@ is BlankCluster,
        error is BlankModelHeader <==> error@ is BlankModelHeader,
        error is BothSources <==> error@ is BothSources,
        error is NoSource <==> error@ is NoSource,
        error is ReloadOfCandidates <==> error@ is ReloadOfCandidates,
        error is MissingLocalSite <==> error@ is MissingLocalSite,
        error matches GridError::UnknownKind(kind) ==> error@ == GridFault::UnknownKind(kind@),
        error matches GridError::InvalidModelHeader(name) ==> error@
            == GridFault::InvalidModelHeader(name@),
        error matches GridError::ReservedModelHeader(name) ==> error@
            == GridFault::ReservedModelHeader(name@),
        error matches GridError::OverlayUnreadable { path, reason } ==> error@
            == GridFault::OverlayUnreadable(path@, reason@),
        error matches GridError::OverlayInvalid(reason) ==> error@ == GridFault::OverlayInvalid(
            reason@,
        ),
{
}

} // verus!
