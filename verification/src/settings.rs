//! A concrete configuration structure.
//!
//! `Settings` is a small bindable structure: one `volume` field, read
//! from the `volume` key of a table node. It is the crate's own example
//! of the [`FromDoc`](crate::pipeline::FromDoc) contract and the type the
//! integration tests bind.
use vstd::prelude::*;

use crate::doc::{node_get, DocValue, Node};
use crate::pipeline::FromDoc;

verus! {

/// An audio-style configuration: a single volume level.
#[derive(Clone, Copy, Debug, PartialEq, Eq, Structural)]
pub struct Settings {
    pub volume: u32,
}

impl FromDoc for Settings {
    /// A table whose `volume` key holds an integer in `u32` range maps
    /// to that volume; anything else maps to nothing.
    open spec fn from_node(n: Node) -> Option<Settings> {
        match node_get(n, "volume"@) {
            Some(Node::Int(i)) => if 0 <= i <= u32::MAX {
                Some(Settings { volume: i as u32 })
            } else {
                None
            },
            _ => None,
        }
    }

    fn from_doc(d: &DocValue) -> (r: Option<Settings>)
        ensures
            r == Self::from_node(d@),
    {
        match d.get("volume") {
            Some(v) => match v {
                DocValue::Int(i) => {
                    let value = *i;
                    if 0 <= value && value <= u32::MAX as i64 {
                        Some(Settings { volume: value as u32 })
                    } else {
                        None
                    }
                },
                _ => None,
            },
            None => None,
        }
    }
}

} // verus!
