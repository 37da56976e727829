//! Connection-level HTTP/1.x server engine: request parsing, request bodies,
//! response serialisation and the per-connection driver.
pub mod text;
pub mod http;
pub mod parser;
pub mod headers;
pub mod buffer;
pub mod response;
pub mod ext;
pub mod request;
pub mod conn;
pub mod routing;
pub mod lossy;

pub use conn::{Action, Connection, Outcome, Phase};
pub use headers::HeaderMap;
pub use http::{Method, StatusCode, Version};
pub use parser::{parse_head, parse_request_line, HeaderParser, ParseError, RequestHead};
pub use request::Request;
pub use response::Response;
pub use routing::{Router, Tokio};
