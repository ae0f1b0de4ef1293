use vstd::prelude::*;

verus! {

/// The one failure that ends a parse: the markup itself is not well formed.
/// Every malformed entity is dropped instead, and the parse goes on.
#[derive(Debug)]
pub enum ParseError {
    XmlParseError(xml::reader::Error),
}

} // verus!
