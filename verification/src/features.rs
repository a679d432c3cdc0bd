//! Descriptions of configuration properties shared with front ends.
use vstd::prelude::*;

verus! {

/// Name and description of a configuration property.
#[derive(Debug, Clone)]
pub struct ConfigMetadata {
    pub name: String,
    pub description: String,
}

/// A configuration property as front ends see it.
#[derive(Debug, Clone)]
pub struct ConfigEntity {}

} // verus!
