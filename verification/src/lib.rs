//! A minimal HTTP/1.x server engine: incremental request parsing with bounded
//! resource consumption, a header container, and a response-writer state
//! machine that keeps the wire output well-formed.

pub mod errors;
pub mod http;
pub mod parser;
pub mod response;
pub mod server;
pub mod stream;
pub mod target;
pub mod writer;

pub use http::AcceptField;
pub use http::Header;
pub use http::Headers;
pub use http::HttpProtocolVersion;
pub use http::MediaType;
pub use http::Method;
pub use parser::Request;
