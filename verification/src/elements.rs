//! The XML elements of RFC 4918, section 14.
pub mod href;
pub mod simple;
pub mod lock;
pub mod depth;
pub mod timeout;
pub mod status;
pub mod error;
pub mod wrapped;
pub mod activelock;
pub mod prop;
pub mod multistatus;
pub mod requests;

pub use self::activelock::{ActiveLock, LockInfo};
pub use self::depth::{Depth, InvalidDepth};
pub use self::error::{Condition, DavError};
pub use self::href::{Href, InvalidHref, UriParts};
pub use self::lock::{LockEntry, LockScope, LockType};
pub use self::multistatus::{Multistatus, Propstat, Response};
pub use self::prop::{Prop, PropBuilder, Remove, SetProp};
pub use self::requests::{Include, PropFind, PropertyUpdate, PropertyUpdateItem};
pub use self::simple::{AllProp, Collection, Exclusive, PropName, Shared, Write};
pub use self::status::{HttpVersion, InvalidStatus, Status};
pub use self::timeout::{InvalidTimeout, Timeout};
pub use self::wrapped::{Location, LockRoot, LockToken, Owner, ResponseDescription};
