//! Issuing, verifying, rotating and revoking signed access/refresh token
//! pairs, with a revocation store that holds an allow-list of live refresh
//! tokens and a blacklist of revoked tokens.
pub mod claims;
pub mod codec;
pub mod cookies;
pub mod laws;
pub mod models;
pub mod service;
pub mod store;
pub mod text;

pub use claims::{AccessClaims, RefreshClaims, TokenPair};
pub use service::{JwtService, TokenError};
pub use store::{create_redis_store, RedisStore};
