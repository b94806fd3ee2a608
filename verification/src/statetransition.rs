//! The state-transition contract of one chain: its batch counters, its
//! protocol version and the summary of its priority queue.

use crate::addresses::{address_checksum, checksum_text, format_address, AddressBook};
use crate::primitives::{zero_bytes, Address, B256, U256};
use crate::priority_transactions::{
    compute_merkle_tree, leaf_span, next_power_of_two, priority_tree_root, PriorityTransaction,
};
use crate::text::{
    decimal_text, decimal_u64, escape_char, format_b256, is_marked, line, paint_red,
    prefixed_hex, push_char, push_line, red_on, repeat_char, same_text, spaces, style_off,
    u256_decimal,
};
use vstd::prelude::*;
use vstd::string::StringExecFns;

verus! {

/// One chain's state-transition contract, as read at one point in time.
#[derive(Clone, Copy, Debug)]
pub struct StateTransition {
    pub verifier: Address,
    pub total_batches_executed: U256,
    pub total_batches_verified: U256,
    pub total_batches_committed: U256,
    pub bootloader_hash: B256,
    pub default_account_hash: B256,
    pub protocol_version: (u32, u32, u32),
    pub system_upgrade_tx_hash: B256,
    pub admin: Address,
    pub chain_id: U256,
    pub settlement_layer: Address,
    pub unprocessed_queue_size: U256,
    pub total_queue_size: U256,
    pub priority_tree_root: B256,
    pub hyperchain: Address,
}

/// The sizes of a priority queue, in decimal.
#[derive(Debug)]
pub struct QueueReport {
    pub unprocessed: String,
    pub total: String,
}

/// A state-transition contract with every value written as text.
#[derive(Debug)]
pub struct StateTransitionReport {
    pub chain_id: String,
    pub hyperchain: String,
    pub verifier: String,
    pub total_batches_executed: String,
    pub total_batches_verified: String,
    pub total_batches_committed: String,
    pub bootloader_hash: String,
    pub default_account_hash: String,
    pub protocol_version: (u32, u32, u32),
    pub system_upgrade_tx_hash: String,
    pub admin: String,
    pub settlement_layer: String,
    pub queue: QueueReport,
    pub priority_tree_root: String,
}

/// A priority tree whose root, rebuilt from the decoded messages, differs
/// from the root the chain reports.
#[derive(Clone, Copy, Debug, PartialEq, Eq)]
pub struct IntegrityMismatch {
    pub on_chain_root: B256,
    pub computed_root: B256,
}

/// The name under which the admin of chain `chain_id` is known.
pub open spec fn admin_name(chain_id: nat) -> Seq<char> {
    seq!['A', 'd', 'm', 'i', 'n', ' '] + decimal_text(chain_id)
}

/// A protocol version as text: its three parts, separated by dots.
pub open spec fn version_text(version: (u32, u32, u32)) -> Seq<char> {
    decimal_text(version.0 as nat).push('.') + decimal_text(version.1 as nat).push('.')
        + decimal_text(version.2 as nat)
}

/// The batch counters as text: committed, verified and executed, separated
/// by spaces.
pub open spec fn batches_text(st: StateTransition) -> Seq<char> {
    decimal_text(st.total_batches_committed.value()).push(' ') + decimal_text(
        st.total_batches_verified.value(),
    ).push(' ') + decimal_text(st.total_batches_executed.value())
}

/// The queue sizes as text: unprocessed and total, separated by a slash.
pub open spec fn queue_text(st: StateTransition) -> Seq<char> {
    decimal_text(st.unprocessed_queue_size.value()) + " / "@ + decimal_text(
        st.total_queue_size.value(),
    )
}

/// The lines that describe a state-transition contract, each begun by
/// `pad`. `upgrade` and `settlement` are the texts shown for the pending
/// system upgrade and for the settlement layer.
pub open spec fn state_transition_text(
    st: StateTransition,
    pad: Seq<char>,
    upgrade: Seq<char>,
    settlement: Seq<char>,
) -> Seq<char> {
    line(pad, "Chain id: "@, decimal_text(st.chain_id.value())) + line(
        pad,
        "  Protocol version: "@,
        version_text(st.protocol_version),
    ) + line(pad, "  Batches (C,V,E):  "@, batches_text(st)) + line(
        pad,
        "  System upgrade:   "@,
        upgrade,
    ) + line(pad, "  AA hash:          "@, prefixed_hex(st.default_account_hash@)) + line(
        pad,
        "  Verifier:         "@,
        checksum_text(st.verifier@),
    ) + line(pad, "  Admin:            "@, checksum_text(st.admin@)) + line(
        pad,
        "  Bootloader hash:  "@,
        prefixed_hex(st.bootloader_hash@),
    ) + line(pad, "  Settlement layer: "@, settlement) + line(
        pad,
        "  Queue unprocessed / total: "@,
        queue_text(st),
    )
}

/// Compares the root a chain reports with the root rebuilt from its
/// messages. They agree exactly when the result is `Ok`; when they differ,
/// the error carries both.
pub fn compare_roots(on_chain_root: B256, computed_root: B256) -> (r: Result<
    (),
    IntegrityMismatch,
>)
    ensures
        r is Ok <==> on_chain_root@ == computed_root@,
        r matches Err(e) ==> e.on_chain_root == on_chain_root && e.computed_root
            == computed_root,
{
    if on_chain_root.same(&computed_root) {
        Ok(())
    } else {
        Err(IntegrityMismatch { on_chain_root, computed_root })
    }
}

/// `value` as it is, when it equals `empty`; otherwise `marked`, which is
/// `value` made to stand out.
pub fn marked_unless_empty(value: &str, empty: &str, marked: String) -> (s: String)
    ensures
        s@ == if value@ == empty@ {
            value@
        } else {
            marked@
        },
{
    if same_text(value, empty) {
        String::from_str(value)
    } else {
        marked
    }
}

/// The text of a value that is expected to be empty: unchanged when it
/// equals `empty`, and in red when it does not. Whether red is applied
/// depends on the terminal; see `paint_red`.
pub fn mark_red_if_not_empty(address: &str, empty: &str) -> (s: String)
    ensures
        address@ == empty@ ==> s@ == address@,
        address@ != empty@ && !address@.contains(escape_char()) ==> s@ == address@ || s@
            == red_on() + address@ + style_off(),
{
    if same_text(address, empty) {
        String::from_str(address)
    } else {
        let marked = paint_red(address);
        marked_unless_empty(address, empty, marked)
    }
}

impl StateTransition {
    /// Whether the chain has moved its settlement elsewhere, which leaves
    /// this entry passive: so it is exactly when the settlement layer is not
    /// the zero address.
    pub fn is_passive(&self) -> (r: bool)
        ensures
            r == (self.settlement_layer@ != zero_bytes(20)),
    {
        !self.settlement_layer.is_zero()
    }

    /// Records the admin of this chain in `book`, as `Admin` and the chain
    /// id in decimal.
    pub fn register_admin_name(&self, book: &mut AddressBook)
        ensures
            final(book).name_of(self.admin@) == Some(admin_name(self.chain_id.value())),
            forall|a: Seq<u8>|
                a != self.admin@ ==> final(book).name_of(a) == old(book).name_of(a),
    {
        let mut name = String::new();
        push_char(&mut name, 'A');
        push_char(&mut name, 'd');
        push_char(&mut name, 'm');
        push_char(&mut name, 'i');
        push_char(&mut name, 'n');
        push_char(&mut name, ' ');
        let digits = u256_decimal(&self.chain_id);
        name.append(digits.as_str());
        assert(name@ =~= admin_name(self.chain_id.value()));
        book.add_address_name(self.admin, name);
    }

    /// The lines that describe this contract, each indented by `pad`
    /// spaces, with `upgrade` and `settlement` shown for the pending system
    /// upgrade and for the settlement layer.
    pub fn layout(&self, pad: usize, upgrade: &str, settlement: &str) -> (out: String)
        ensures
            out@ == state_transition_text(*self, spaces(pad as nat), upgrade@, settlement@),
    {
        let indent = repeat_char(' ', pad);
        let margin = indent.as_str();
        let mut out = String::new();
        let chain_id = u256_decimal(&self.chain_id);
        push_line(&mut out, margin, "Chain id: ", chain_id.as_str());
        let mut version = decimal_u64(self.protocol_version.0 as u64);
        push_char(&mut version, '.');
        version.append(decimal_u64(self.protocol_version.1 as u64).as_str());
        push_char(&mut version, '.');
        version.append(decimal_u64(self.protocol_version.2 as u64).as_str());
        assert(version@ =~= version_text(self.protocol_version));
        push_line(&mut out, margin, "  Protocol version: ", version.as_str());
        let mut batches = u256_decimal(&self.total_batches_committed);
        push_char(&mut batches, ' ');
        batches.append(u256_decimal(&self.total_batches_verified).as_str());
        push_char(&mut batches, ' ');
        batches.append(u256_decimal(&self.total_batches_executed).as_str());
        assert(batches@ =~= batches_text(*self));
        push_line(&mut out, margin, "  Batches (C,V,E):  ", batches.as_str());
        push_line(&mut out, margin, "  System upgrade:   ", upgrade);
        push_line(
            &mut out,
            margin,
            "  AA hash:          ",
            format_b256(&self.default_account_hash).as_str(),
        );
        push_line(&mut out, margin, "  Verifier:         ", address_checksum(&self.verifier).as_str());
        push_line(&mut out, margin, "  Admin:            ", address_checksum(&self.admin).as_str());
        push_line(
            &mut out,
            margin,
            "  Bootloader hash:  ",
            format_b256(&self.bootloader_hash).as_str(),
        );
        push_line(&mut out, margin, "  Settlement layer: ", settlement);
        let mut queue = u256_decimal(&self.unprocessed_queue_size);
        queue.append(" / ");
        queue.append(u256_decimal(&self.total_queue_size).as_str());
        assert(queue@ =~= queue_text(*self));
        push_line(&mut out, margin, "  Queue unprocessed / total: ", queue.as_str());
        assert(out@ =~= state_transition_text(*self, spaces(pad as nat), upgrade@, settlement@));
        out
    }

    /// The lines that describe this contract, each indented by `pad`
    /// spaces. A pending system upgrade and a settlement layer other than
    /// zero are marked red where the terminal takes colour.
    pub fn detailed_fmt(&self, pad: usize) -> (out: String)
        ensures
            exists|upgrade: Seq<char>, settlement: Seq<char>|
                is_marked(
                    upgrade,
                    prefixed_hex(self.system_upgrade_tx_hash@),
                    prefixed_hex(zero_bytes(32)),
                ) && is_marked(
                    settlement,
                    checksum_text(self.settlement_layer@),
                    checksum_text(zero_bytes(20)),
                ) && out@ == #[trigger] state_transition_text(
                    *self,
                    spaces(pad as nat),
                    upgrade,
                    settlement,
                ),
    {
        let hash = format_b256(&self.system_upgrade_tx_hash);
        let no_hash = format_b256(&B256::zero());
        let upgrade = mark_red_if_not_empty(hash.as_str(), no_hash.as_str());
        let layer = address_checksum(&self.settlement_layer);
        let no_layer = address_checksum(&Address::zero());
        let settlement = mark_red_if_not_empty(layer.as_str(), no_layer.as_str());
        let out = self.layout(pad, upgrade.as_str(), settlement.as_str());
        assert(out@ == state_transition_text(*self, spaces(pad as nat), upgrade@, settlement@));
        out
    }

    /// Every value as text: counters and sizes in decimal, addresses and
    /// hashes in lower-case hexadecimal with a `0x` prefix.
    pub fn to_report(&self) -> (report: StateTransitionReport)
        ensures
            report.chain_id@ == decimal_text(self.chain_id.value()),
            report.hyperchain@ == prefixed_hex(self.hyperchain@),
            report.verifier@ == prefixed_hex(self.verifier@),
            report.total_batches_executed@ == decimal_text(self.total_batches_executed.value()),
            report.total_batches_verified@ == decimal_text(self.total_batches_verified.value()),
            report.total_batches_committed@ == decimal_text(
                self.total_batches_committed.value(),
            ),
            report.bootloader_hash@ == prefixed_hex(self.bootloader_hash@),
            report.default_account_hash@ == prefixed_hex(self.default_account_hash@),
            report.protocol_version == self.protocol_version,
            report.system_upgrade_tx_hash@ == prefixed_hex(self.system_upgrade_tx_hash@),
            report.admin@ == prefixed_hex(self.admin@),
            report.settlement_layer@ == prefixed_hex(self.settlement_layer@),
            report.queue.unprocessed@ == decimal_text(self.unprocessed_queue_size.value()),
            report.queue.total@ == decimal_text(self.total_queue_size.value()),
            report.priority_tree_root@ == prefixed_hex(self.priority_tree_root@),
    {
        StateTransitionReport {
            chain_id: u256_decimal(&self.chain_id),
            hyperchain: format_address(&self.hyperchain),
            verifier: format_address(&self.verifier),
            total_batches_executed: u256_decimal(&self.total_batches_executed),
            total_batches_verified: u256_decimal(&self.total_batches_verified),
            total_batches_committed: u256_decimal(&self.total_batches_committed),
            bootloader_hash: format_b256(&self.bootloader_hash),
            default_account_hash: format_b256(&self.default_account_hash),
            protocol_version: self.protocol_version,
            system_upgrade_tx_hash: format_b256(&self.system_upgrade_tx_hash),
            admin: format_address(&self.admin),
            settlement_layer: format_address(&self.settlement_layer),
            queue: QueueReport {
                unprocessed: u256_decimal(&self.unprocessed_queue_size),
                total: u256_decimal(&self.total_queue_size),
            },
            priority_tree_root: format_b256(&self.priority_tree_root),
        }
    }

    /// Checks the priority tree root this chain reports against the root
    /// rebuilt from `txs`, the chain's decoded priority messages. The check
    /// passes exactly when the two are equal; otherwise the error carries the
    /// reported root and the rebuilt one.
    pub fn verify_priority_root_hash(&self, txs: &Vec<PriorityTransaction>) -> (r: Result<
        (),
        IntegrityMismatch,
    >)
        requires
            next_power_of_two(leaf_span(txs@)) <= usize::MAX,
        ensures
            r is Ok <==> self.priority_tree_root@ == priority_tree_root(txs@),
            r matches Err(e) ==> e.on_chain_root == self.priority_tree_root && e.computed_root@
                == priority_tree_root(txs@),
    {
        let computed = compute_merkle_tree(txs);
        compare_roots(self.priority_tree_root, computed)
    }
}

} // verus!
