//! A bare-bones embeddable HTTP/1.x file-server core with dynamic page
//! substitution.
//!
//! The library holds the request-handling logic: request-line parsing, path
//! resolution, marker substitution and response framing, together with the
//! server configuration it works from.  Socket and filesystem access belong
//! to the host program, which feeds what it read — the request bytes, the
//! two metadata facts path resolution asks about, the loaded file — into
//! the functions here and writes the framed bytes back out.

pub mod encoding;
pub mod request;
pub mod resolve;
pub mod server;
pub mod text;

pub use request::parse_request_url;
pub use resolve::get_path;
pub use server::frame_response;
pub use server::Anchor;
pub use server::DynamicPage;
pub use server::HttpStatus;
pub use server::PageCallback;
pub use server::Server;
