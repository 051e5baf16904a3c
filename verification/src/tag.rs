//! A rendered label together with its position in the run.

use std::cmp::Ordering;
use vstd::prelude::*;
use vstd::std_specs::cmp::{PartialEqSpecImpl, PartialOrdSpecImpl};

verus! {

/// One label document. Its place in the run, `index`, alone decides how two
/// documents compare: the text takes no part in equality or order.
#[derive(Debug, Clone)]
pub struct TagData {
    index: usize,
    data: String,
}

/// How two positions compare.
pub open spec fn index_order(a: usize, b: usize) -> Ordering {
    if a < b {
        Ordering::Less
    } else if a == b {
        Ordering::Equal
    } else {
        Ordering::Greater
    }
}

impl TagData {
    /// The position of this document in the run, counted from zero.
    pub closed spec fn spec_index(&self) -> usize {
        self.index
    }

    /// The text of this document.
    pub closed spec fn spec_data(&self) -> Seq<char> {
        self.data@
    }

    /// The document at `index` with the text `data`.
    #[must_use]
    pub fn new(index: usize, data: String) -> (tag: Self)
        ensures
            tag.spec_index() == index,
            tag.spec_data() == data@,
    {
        Self { index, data }
    }

    /// The position of this document in the run, counted from zero.
    #[verifier::when_used_as_spec(spec_index)]
    pub fn index(&self) -> (i: usize)
        ensures
            i == self.spec_index(),
    {
        self.index
    }

    /// The text of this document.
    pub fn data(&self) -> (text: &str)
        ensures
            text@ == self.spec_data(),
    {
        self.data.as_str()
    }

    /// Hands out the text of this document.
    pub fn into_data(self) -> (text: String)
        ensures
            text@ == self.spec_data(),
    {
        self.data
    }

    /// Total order of documents by position.
    pub fn cmp(&self, other: &Self) -> (order: Ordering)
        ensures
            order == index_order(self.spec_index(), other.spec_index()),
    {
        if self.index < other.index {
            Ordering::Less
        } else if self.index == other.index {
            Ordering::Equal
        } else {
            Ordering::Greater
        }
    }
}

impl PartialEq for TagData {
    fn eq(&self, other: &Self) -> (equal: bool) {
        self.index == other.index
    }
}

impl PartialEqSpecImpl for TagData {
    open spec fn obeys_eq_spec() -> bool {
        true
    }

    open spec fn eq_spec(&self, other: &Self) -> bool {
        self.spec_index() == other.spec_index()
    }
}

impl Eq for TagData {}

impl PartialOrd for TagData {
    fn partial_cmp(&self, other: &Self) -> (order: Option<Ordering>) {
        if self.index < other.index {
            Some(Ordering::Less)
        } else if self.index == other.index {
            Some(Ordering::Equal)
        } else {
            Some(Ordering::Greater)
        }
    }
}

impl PartialOrdSpecImpl for TagData {
    open spec fn obeys_partial_cmp_spec() -> bool {
        true
    }

    open spec fn partial_cmp_spec(&self, other: &Self) -> Option<Ordering> {
        Some(index_order(self.spec_index(), other.spec_index()))
    }
}

} // verus!
