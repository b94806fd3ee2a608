//! The asset router of a rollup layer, of which only the address is read.

use crate::addresses::{address_checksum, checksum_text};
use crate::primitives::Address;
use crate::text::{line, push_line, repeat_char, spaces};
use vstd::prelude::*;
use vstd::string::StringExecFns;

verus! {

/// The asset router of a rollup layer.
#[derive(Clone, Copy, Debug, PartialEq, Eq)]
pub struct L2AssetRouter {
    pub address: Address,
}

impl L2AssetRouter {
    /// The router at `address`.
    pub fn new(address: Address) -> (router: L2AssetRouter)
        ensures
            router.address == address,
    {
        L2AssetRouter { address }
    }
}

/// The line that describes a rollup-layer asset router, begun by `pad`.
pub open spec fn l2_router_text(router: L2AssetRouter, pad: Seq<char>) -> Seq<char> {
    line(pad, "=== L2 Asset -  "@, checksum_text(router.address@) + "  "@)
}

impl L2AssetRouter {
    /// The line that describes this router, indented by `pad` spaces.
    pub fn detailed_fmt(&self, pad: usize) -> (out: String)
        ensures
            out@ == l2_router_text(*self, spaces(pad as nat)),
    {
        let indent = repeat_char(' ', pad);
        let mut out = String::new();
        let mut address = address_checksum(&self.address);
        address.append("  ");
        push_line(&mut out, indent.as_str(), "=== L2 Asset -  ", address.as_str());
        out
    }
}

} // verus!
