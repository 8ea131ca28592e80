use vstd::prelude::*;

verus! {

/// An opaque payload stored under a key: a single text field, immutable once
/// constructed and copied on read.
#[derive(Debug, Clone)]
pub struct Value {
    pub data: String,
}

impl View for Value {
    type V = Seq<char>;

    open spec fn view(&self) -> Seq<char> {
        self.data@
    }
}

} // verus!
