//! Addresses as text, and the book of names given to known addresses.

use crate::primitives::{zero_bytes, Address, U256};
use crate::text::{center, centered, format_bytes, prefixed_hex, push_char};
use vstd::prelude::*;
use vstd::string::StringExecFns;

verus! {

/// The mixed-case checksummed form of an address: `0x` and forty
/// hexadecimal digits whose letter case encodes a checksum.
///
/// The text is computed by the `alloy` crate; this crate relies only on its
/// being a function of the address, 42 characters long.
pub uninterp spec fn checksum_text(address: Seq<u8>) -> Seq<char>;

/// Formats an address with `alloy`'s `Display` impl for `Address`.
///
/// Trusted: the result is the checksummed form of exactly these 20 bytes,
/// and it is 42 characters long.
#[verifier::external_body]
pub(crate) fn address_checksum(address: &Address) -> (s: String)
    ensures
        s@ == checksum_text(address@),
        s@.len() == 42,
{
    alloy::primitives::Address::from(address.bytes).to_string()
}

/// The address in lower-case hexadecimal with a `0x` prefix.
pub fn format_address(value: &Address) -> (s: String)
    ensures
        s@ == prefixed_hex(value@),
{
    format_bytes(value.bytes.as_slice())
}

/// The address held in the low 20 bytes of a 256-bit integer.
pub fn u256_to_address(input: &U256) -> (a: Address)
    ensures
        a@ == input@.subrange(12, 32),
{
    input.low_address()
}

/// The bytes of an address that is zero but for its last three bytes.
pub open spec fn system_address_bytes(b17: u8, b18: u8, b19: u8) -> Seq<u8> {
    zero_bytes(17).push(b17).push(b18).push(b19)
}

/// An address that is zero but for its last three bytes.
pub fn system_address(b17: u8, b18: u8, b19: u8) -> (a: Address)
    ensures
        a@ == system_address_bytes(b17, b18, b19),
{
    let mut bytes = [0u8; 20];
    bytes[17] = b17;
    bytes[18] = b18;
    bytes[19] = b19;
    let a = Address { bytes };
    assert(a@ =~= system_address_bytes(b17, b18, b19));
    a
}

/// The name the last entry for `address` gives it, if any entry does.
pub open spec fn name_in(entries: Seq<(Address, String)>, address: Seq<u8>) -> Option<Seq<char>>
    decreases entries.len(),
{
    if entries.len() == 0 {
        None
    } else if entries.last().0@ == address {
        Some(entries.last().1@)
    } else {
        name_in(entries.drop_last(), address)
    }
}

/// The short form shown for a named address: the first and the last five
/// characters of its checksummed form, and the name centred in 26 columns.
pub open spec fn short_with_name(checksum: Seq<char>, name: Seq<char>) -> Seq<char> {
    checksum.take(5) + seq!['.', '.', '.'] + checksum.skip(checksum.len() - 5) + seq![' ', '(']
        + centered(name, 26) + seq![')']
}

/// The text shown for an address: its checksummed form, shortened and
/// followed by its name where `name` is given.
pub open spec fn human_text(address: Seq<u8>, name: Option<Seq<char>>) -> Seq<char> {
    match name {
        Some(name) => short_with_name(checksum_text(address), name),
        None => checksum_text(address),
    }
}

/// Names for addresses, for display only. A later name for an address
/// replaces an earlier one.
#[derive(Clone, Debug)]
pub struct AddressBook {
    entries: Vec<(Address, String)>,
}

impl AddressBook {
    /// The name recorded for `address`, if any.
    pub closed spec fn name_of(&self, address: Seq<u8>) -> Option<Seq<char>> {
        name_in(self.entries@, address)
    }

    /// A book without names.
    pub fn empty() -> (book: AddressBook)
        ensures
            forall|a: Seq<u8>| book.name_of(a) is None,
    {
        AddressBook { entries: Vec::new() }
    }

    /// A book holding the names of the three system contracts every rollup
    /// chain has: the deployer at `0x8006`, the registry root at `0x10002`
    /// and the shared bridge at `0x10003`.
    pub fn new() -> (book: AddressBook)
        ensures
            book.name_of(system_address_bytes(0x00, 0x80, 0x06)) == Some("Deployer"@),
            book.name_of(system_address_bytes(0x01, 0x00, 0x02)) == Some("Bridgehub"@),
            book.name_of(system_address_bytes(0x01, 0x00, 0x03)) == Some("Shared Bridge"@),
            forall|a: Seq<u8>|
                a != system_address_bytes(0x00, 0x80, 0x06) && a != system_address_bytes(
                    0x01,
                    0x00,
                    0x02,
                ) && a != system_address_bytes(0x01, 0x00, 0x03) ==> book.name_of(a) is None,
    {
        let mut book = AddressBook::empty();
        let deployer = system_address(0x00, 0x80, 0x06);
        let bridgehub = system_address(0x01, 0x00, 0x02);
        let shared_bridge = system_address(0x01, 0x00, 0x03);
        proof {
            assert(deployer@[17] != bridgehub@[17]);
            assert(deployer@[17] != shared_bridge@[17]);
            assert(bridgehub@[19] != shared_bridge@[19]);
        }
        book.add_address_name(deployer, String::from_str("Deployer"));
        book.add_address_name(bridgehub, String::from_str("Bridgehub"));
        book.add_address_name(shared_bridge, String::from_str("Shared Bridge"));
        book
    }

    /// Records `value` as the name of `key`, replacing any earlier name.
    pub fn add_address_name(&mut self, key: Address, value: String)
        ensures
            final(self).name_of(key@) == Some(value@),
            forall|a: Seq<u8>| a != key@ ==> final(self).name_of(a) == old(self).name_of(a),
    {
        let ghost before = self.entries@;
        self.entries.push((key, value));
        assert(self.entries@.drop_last() =~= before);
    }

    /// The recorded name of `address`, if any.
    pub fn lookup(&self, address: &Address) -> (r: Option<String>)
        ensures
            match r {
                Some(name) => self.name_of(address@) == Some(name@),
                None => self.name_of(address@) is None,
            },
    {
        let mut i: usize = self.entries.len();
        assert(self.entries@.take(i as int) =~= self.entries@);
        while i > 0
            invariant
                i <= self.entries.len(),
                name_in(self.entries@, address@) == name_in(self.entries@.take(i as int), address@),
            decreases i,
        {
            proof {
                assert(self.entries@.take(i as int).drop_last() =~= self.entries@.take(i - 1));
            }
            if self.entries[i - 1].0.same(address) {
                let name = self.entries[i - 1].1.clone();
                return Some(name);
            }
            i -= 1;
        }
        None
    }

    /// The text shown for `address`: its checksummed form, shortened and
    /// followed by its name where the book has one.
    pub fn address_to_human(&self, address: &Address) -> (s: String)
        ensures
            s@ == human_text(address@, self.name_of(address@)),
    {
        let full = address_checksum(address);
        match self.lookup(address) {
            Some(name) => shorten_with_name(full.as_str(), name.as_str()),
            None => full,
        }
    }
}

/// Builds the short form of a named address from its checksummed form.
pub fn shorten_with_name(checksum: &str, name: &str) -> (s: String)
    requires
        checksum@.len() >= 5,
    ensures
        s@ == short_with_name(checksum@, name@),
{
    let len: usize = checksum.unicode_len();
    let mut s = String::from_str(checksum.substring_char(0, 5));
    push_char(&mut s, '.');
    push_char(&mut s, '.');
    push_char(&mut s, '.');
    s.append(checksum.substring_char(len - 5, len));
    push_char(&mut s, ' ');
    push_char(&mut s, '(');
    let middle = center(name, 26);
    s.append(middle.as_str());
    push_char(&mut s, ')');
    assert(checksum@.subrange(0, 5) =~= checksum@.take(5));
    assert(checksum@.subrange(len - 5, len as int) =~= checksum@.skip(len - 5));
    assert(s@ =~= short_with_name(checksum@, name@));
    s
}

} // verus!
