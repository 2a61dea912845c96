//! Gateway-to-gateway routing: the edge route filter and the provider-side
//! credential filter. They belong to the AI proxy because they encode what
//! grids and inference agree on, not generic proxy mechanics.
pub mod credential_inject;
pub mod descriptor;
pub mod error;
pub mod metadata;
pub mod overlay;
pub mod route;

pub use credential_inject::GridCredentialInjectFilter;
pub use route::GridRouteFilter;
