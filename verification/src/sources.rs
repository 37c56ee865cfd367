//! The configured list of sources, as an earlier configuration layout
//! kept it: a flat list loaded from its own file.

use vstd::prelude::*;

verus! {

/// The kind of service a source lives on.
#[derive(Debug, Clone, Copy, PartialEq, Eq, Structural)]
pub enum SourceType {
    SoundCloud,
    YouTube,
}

/// One configured remote playlist.
#[derive(Debug, Clone)]
pub struct Source {
    pub url: String,
    pub source_type: SourceType,
}

/// The ordered list of configured sources.
#[derive(Debug, Clone)]
pub struct Sources(pub Vec<Source>);

impl Sources {
    /// The sources, in configured order.
    pub fn list(&self) -> (r: &Vec<Source>)
        ensures
            r@ == self.0@,
    {
        &self.0
    }
}

} // verus!
