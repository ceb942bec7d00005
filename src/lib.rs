//! A content-addressed object store in the style of a version-control object
//! database: payloads are framed as `blob <len>\0<payload>`, named by the
//! SHA-1 digest of that frame, and stored zlib-compressed under
//! `<objects>/<2 hex>/<38 hex>`.

pub mod codec;
pub mod error;
pub mod digest;
pub mod locator;
pub mod zlib;
pub mod store;
