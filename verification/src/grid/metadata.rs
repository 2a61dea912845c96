//! Names under which filters leave notes for each other.
use vstd::prelude::*;

verus! {

/// Method of the MCP call that a request carries.
pub const MCP_METHOD: &'static str = "mcp.method";

/// Name of the tool that an MCP call is for.
pub const MCP_NAME: &'static str = "mcp.name";

/// What was routed to.
pub const ROUTE_KIND: &'static str = "grid.route.kind";

/// Name of the capability that was routed to.
pub const ROUTE_NAME: &'static str = "grid.route.name";

/// Site that was routed to.
pub const ROUTE_SITE: &'static str = "grid.route.site";

/// Cluster that was routed to.
pub const ROUTE_CLUSTER: &'static str = "grid.route.cluster";

/// Site that routed.
pub const ROUTE_LOCAL_SITE: &'static str = "grid.route.local_site";

/// How the selected credential is sent.
pub const CREDENTIAL_STRATEGY: &'static str = "grid.credential.strategy";

/// Name of the Secret with the selected credential.
pub const CREDENTIAL_NAME: &'static str = "grid.credential.name";

/// Namespace of the Secret with the selected credential.
pub const CREDENTIAL_NAMESPACE: &'static str = "grid.credential.namespace";

/// Key of the selected credential in its Secret.
pub const CREDENTIAL_KEY: &'static str = "grid.credential.key";

/// The one way to send a credential: as a bearer token.
pub const STRATEGY_BEARER_TOKEN: &'static str = "bearer_token";

} // verus!
