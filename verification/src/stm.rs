//! Chain managers: the contracts that govern a class of chains.

use crate::addresses::{address_checksum, checksum_text};
use crate::primitives::{Address, B256};
use crate::text::{
    format_b256, is_bold_white, line, paint_bold_white, prefixed_hex, push_line, repeat_char,
    spaces,
};
use crate::utils::{get_human_name_for, human_name};
use vstd::prelude::*;

verus! {

/// One chain manager, as read at one point in time. It refers to its
/// registry root by address.
#[derive(Clone, Debug, PartialEq, Eq)]
pub struct ChainTypeManager {
    pub address: Address,
    pub bridgehub: Address,
    pub admin: Address,
    pub owner: Address,
    pub asset_id: B256,
    pub asset_name: String,
}

impl ChainTypeManager {
    /// The manager at `address` with what was read from it and, for its
    /// asset id, from its registry root. The manager is named after its
    /// asset id.
    pub fn new(address: Address, bridgehub: Address, admin: Address, owner: Address, asset_id: B256) -> (manager:
        ChainTypeManager)
        ensures
            manager.address == address,
            manager.bridgehub == bridgehub,
            manager.admin == admin,
            manager.owner == owner,
            manager.asset_id == asset_id,
            manager.asset_name@ == human_name(asset_id@),
    {
        let asset_name = get_human_name_for(asset_id.bytes.as_slice());
        ChainTypeManager { address, bridgehub, admin, owner, asset_id, asset_name }
    }
}

/// The lines that describe a chain manager, each begun by `pad`, with
/// `shown_name` in place of its name.
pub open spec fn manager_text(manager: ChainTypeManager, pad: Seq<char>, shown_name: Seq<char>) -> Seq<
    char,
> {
    line(pad, "=== CTM -     "@, shown_name) + line(
        pad,
        "   Address:   "@,
        checksum_text(manager.address@),
    ) + line(pad, "   Asset id:  "@, prefixed_hex(manager.asset_id@)) + line(
        pad,
        "   Bridgehub: "@,
        checksum_text(manager.bridgehub@),
    ) + line(pad, "   Admin:     "@, checksum_text(manager.admin@)) + line(
        pad,
        "   Owner:     "@,
        checksum_text(manager.owner@),
    )
}

/// Whether `out` describes `manager`, indented by `pad` spaces, with the
/// name in bold white or plain.
pub open spec fn describes_manager(out: Seq<char>, manager: ChainTypeManager, pad: nat) -> bool {
    exists|shown_name: Seq<char>|
        is_bold_white(shown_name, manager.asset_name@) && out == #[trigger] manager_text(
            manager,
            spaces(pad),
            shown_name,
        )
}

impl ChainTypeManager {
    /// The lines that describe this manager, each indented by `pad` spaces,
    /// with `shown_name` in place of its name.
    pub fn layout(&self, pad: usize, shown_name: &str) -> (out: String)
        ensures
            out@ == manager_text(*self, spaces(pad as nat), shown_name@),
    {
        let indent = repeat_char(' ', pad);
        let mut out = String::new();
        push_line(&mut out, indent.as_str(), "=== CTM -     ", shown_name);
        push_line(&mut out, indent.as_str(), "   Address:   ", address_checksum(&self.address).as_str());
        push_line(&mut out, indent.as_str(), "   Asset id:  ", format_b256(&self.asset_id).as_str());
        push_line(
            &mut out,
            indent.as_str(),
            "   Bridgehub: ",
            address_checksum(&self.bridgehub).as_str(),
        );
        push_line(&mut out, indent.as_str(), "   Admin:     ", address_checksum(&self.admin).as_str());
        push_line(&mut out, indent.as_str(), "   Owner:     ", address_checksum(&self.owner).as_str());
        assert(out@ =~= manager_text(*self, spaces(pad as nat), shown_name@));
        out
    }

    /// The lines that describe this manager, each indented by `pad` spaces.
    /// The name is set in bold white where the terminal takes it.
    pub fn detailed_fmt(&self, pad: usize) -> (out: String)
        ensures
            describes_manager(out@, *self, pad as nat),
    {
        let shown = paint_bold_white(self.asset_name.as_str());
        let out = self.layout(pad, shown.as_str());
        assert(out@ == manager_text(*self, spaces(pad as nat), shown@));
        out
    }
}

} // verus!
