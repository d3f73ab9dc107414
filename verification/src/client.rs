//! What a WebDAV client decides: the headers it writes and reads, its
//! credentials, and how it reads the server's answers.
pub mod headers;
pub mod auth;
pub mod transport;
pub mod error;
pub mod resource;
pub mod capabilities;
pub mod response;
pub mod request;
pub mod blocking;

pub use self::auth::Auth;
pub use self::capabilities::Capabilities;
pub use self::error::Error;
pub use self::resource::Resource;
pub use self::response::{HttpResponse, Lock};
pub use self::request::{HttpRequest, RequestContext};
pub use self::blocking::DavClient;
pub use self::transport::{Transport, TransportError, TransportErrorKind};
