//! JSON documents.
use vstd::prelude::*;

verus! {

/// A JSON document: its bytes as they come from the wire.
#[derive(Debug, Clone, Hash, PartialEq, Eq)]
pub struct Json(pub Vec<u8>);

impl View for Json {
    type V = Seq<u8>;

    open spec fn view(&self) -> Seq<u8> {
        self.0@
    }
}

impl Json {
    /// The document of these bytes.
    pub fn new(data: Vec<u8>) -> (r: Json)
        ensures
            r@ == data@,
    {
        Json(data)
    }
}

} // verus!
