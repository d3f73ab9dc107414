# dav_xml

Typed reading and writing of the XML bodies of WebDAV (RFC 4918), and a
WebDAV client built on them, verified with Verus.

- `src/` is the verified library.
  - `value.rs`, `name.rs`, `text.rs`: the value tree of an XML document and
    the text helpers, each with its mathematical model.
  - `events.rs`, `read.rs`: a document's events (as `quick-xml` reports them)
    read into a value; `write.rs`: a value written as the operations of a
    document, with namespace declarations collected and sorted.
  - `element.rs`, `xml.rs`: the `Element` trait (an element type reads from
    and writes to a value) and whole-document reading and writing.
  - `elements/`, `properties/`: the elements and live properties of
    RFC 4918, each with a proof that it reads back from the value it is
    written as.
  - `client/`: what a client decides: headers, credentials, requests,
    how answers are read, and the blocking `DavClient` over a `Transport`.
  - `quick.rs`: the calls into `quick-xml`, with what is relied on of them.
- `app/` holds the I/O: transports over `ureq` and `reqwest`, the async
  client, an in-memory transport, and `std::error::Error` types.
- `tests/` runs the library on concrete documents and answers.
