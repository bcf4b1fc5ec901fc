//! What the store holds: nodes, and links between them.

use vstd::prelude::*;

verus! {

/// A node of the store.
#[derive(Debug, PartialEq)]
pub struct Node {
    pub id: i64,
    pub name: String,
    pub kind: String,
    pub meta: Option<String>,
    pub data: Vec<u8>,
}

/// A link from one node to another.
#[derive(Debug, PartialEq)]
pub struct Link {
    pub id: i64,
    pub left: i64,
    pub right: i64,
    pub kind: String,
    pub data: Option<Vec<u8>>,
}

} // verus!
