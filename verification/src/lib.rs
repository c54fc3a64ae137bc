//! Route-parameter lookup for a server-side-rendering router.
//!
//! A router records, per request, the ordered history of route matches it has
//! applied; each match carries a string-to-string mapping of path parameters.
//! [`use_params`] hands a consumer the parameters of the most recently matched
//! route as an independently owned mapping, or an empty mapping when no route
//! has matched.

pub mod params;
pub mod router;

pub use params::Params;
pub use router::params_of;
pub use router::use_params;
pub use router::RouteMatch;
pub use router::RouterContext;
