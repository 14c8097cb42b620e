//! The server-side surface of the engine: the request parser, the response
//! writer and its value types, and the error taxonomy. Socket handling —
//! binding, accepting, timeouts and the hand-off queue — is the embedding
//! program's part; it feeds connection bytes in and carries the writer's
//! bytes out.

pub use crate::errors::BindError;
pub use crate::errors::HttpError;
pub use crate::errors::WriterError;
pub use crate::errors::error_status;
pub use crate::parser::Request;
pub use crate::parser::parse_request;
pub use crate::response::Response;
pub use crate::response::ResponseBuilder;
pub use crate::stream::ByteStream;
pub use crate::stream::read_until_limited;
pub use crate::writer::ByteSink;
pub use crate::writer::Responder;
pub use crate::writer::ResponseState;
pub use crate::writer::ResponseWriter;
pub use crate::writer::VecSink;
