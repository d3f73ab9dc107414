//! The live properties of RFC 4918, section 15.
pub mod dates;
pub mod etag;
pub mod length;
pub mod locks;
pub mod resourcetype;

pub use crate::elements::wrapped::{ContentLanguage, DisplayName};
pub use self::dates::{CreationDate, DateTime, LastModified};
pub use self::etag::ETag;
pub use self::length::{ContentLength, ContentType};
pub use self::locks::{LockDiscovery, SupportedLock};
pub use self::resourcetype::ResourceType;
