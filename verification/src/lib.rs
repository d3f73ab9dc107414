//! Typed reading and writing of the XML bodies of WebDAV (RFC 4918).
pub mod error;
pub mod name;
pub mod text;
pub mod value;
pub mod events;
pub mod quick;
pub mod read;
pub mod element;
pub mod elements;
pub mod write;
pub mod xml;
pub mod client;
pub mod properties;

pub use self::element::Element;
pub use self::error::Error;
pub use self::name::ElementName;
pub use self::value::{Value, ValueMap};
pub use self::xml::{FromXml, IntoXml};
