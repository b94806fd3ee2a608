//! Fixed-width values read from a chain: addresses, 32-byte words and
//! 256-bit unsigned integers, each held as big-endian bytes.

use vstd::prelude::*;

verus! {

/// The number a big-endian byte string stands for.
pub open spec fn be_value(bytes: Seq<u8>) -> nat
    decreases bytes.len(),
{
    if bytes.len() == 0 {
        0
    } else {
        be_value(bytes.drop_last()) * 256 + bytes.last() as nat
    }
}

/// A byte string of `n` zero bytes.
pub open spec fn zero_bytes(n: nat) -> Seq<u8> {
    Seq::new(n, |i: int| 0u8)
}

/// A 20-byte account or contract address.
#[derive(Clone, Copy, Debug, PartialEq, Eq, Hash)]
pub struct Address {
    pub bytes: [u8; 20],
}

impl View for Address {
    type V = Seq<u8>;

    open spec fn view(&self) -> Seq<u8> {
        self.bytes@
    }
}

impl Address {
    /// The all-zero address, used as the "unset" sentinel.
    pub fn zero() -> (a: Address)
        ensures
            a@ == zero_bytes(20),
    {
        let a = Address { bytes: [0u8; 20] };
        assert(a@ =~= zero_bytes(20));
        a
    }

    /// Whether two addresses hold the same bytes.
    pub fn same(&self, other: &Address) -> (r: bool)
        ensures
            r == (self@ == other@),
            r == (*self == *other),
    {
        let mut i: usize = 0;
        while i < 20
            invariant
                i <= 20,
                forall|k: int| 0 <= k < i ==> self.bytes@[k] == other.bytes@[k],
            decreases 20 - i,
        {
            if self.bytes[i] != other.bytes[i] {
                return false;
            }
            i += 1;
        }
        assert(self.bytes@ =~= other.bytes@);
        assert(self.bytes =~= other.bytes);
        true
    }

    /// Whether this is the all-zero address.
    pub fn is_zero(&self) -> (r: bool)
        ensures
            r == (self@ == zero_bytes(20)),
    {
        let z = Address::zero();
        self.same(&z)
    }
}

/// The address whose bytes are the low 20 bytes of `word`.
pub open spec fn padded_address(word: B256) -> Address {
    choose|a: Address| a@ == word@.subrange(12, 32)
}

/// A 32-byte word: a hash, an asset id or a log topic.
#[derive(Clone, Copy, Debug, PartialEq, Eq, Hash)]
pub struct B256 {
    pub bytes: [u8; 32],
}

impl View for B256 {
    type V = Seq<u8>;

    open spec fn view(&self) -> Seq<u8> {
        self.bytes@
    }
}

impl B256 {
    /// The all-zero word.
    pub fn zero() -> (w: B256)
        ensures
            w@ == zero_bytes(32),
    {
        let w = B256 { bytes: [0u8; 32] };
        assert(w@ =~= zero_bytes(32));
        w
    }

    /// Whether two words hold the same bytes.
    pub fn same(&self, other: &B256) -> (r: bool)
        ensures
            r == (self@ == other@),
            r == (*self == *other),
    {
        let mut i: usize = 0;
        while i < 32
            invariant
                i <= 32,
                forall|k: int| 0 <= k < i ==> self.bytes@[k] == other.bytes@[k],
            decreases 32 - i,
        {
            if self.bytes[i] != other.bytes[i] {
                return false;
            }
            i += 1;
        }
        assert(self.bytes@ =~= other.bytes@);
        assert(self.bytes =~= other.bytes);
        true
    }

    /// Whether this is the all-zero word.
    pub fn is_zero(&self) -> (r: bool)
        ensures
            r == (self@ == zero_bytes(32)),
    {
        let z = B256::zero();
        self.same(&z)
    }

    /// The address held in the low 20 bytes of a word, if the high 12 bytes
    /// are zero. Log topics carry addresses in this padded form.
    pub fn to_address(&self) -> (r: Option<Address>)
        ensures
            r is Some <==> self@.subrange(0, 12) == zero_bytes(12),
            r matches Some(a) ==> a@ == self@.subrange(12, 32) && a == padded_address(*self),
    {
        let mut i: usize = 0;
        while i < 12
            invariant
                i <= 12,
                forall|k: int| 0 <= k < i ==> self.bytes@[k] == 0,
            decreases 12 - i,
        {
            if self.bytes[i] != 0 {
                assert(self@.subrange(0, 12)[i as int] != zero_bytes(12)[i as int]);
                return None;
            }
            i += 1;
        }
        assert(self@.subrange(0, 12) =~= zero_bytes(12));
        let a = low_address(&self.bytes);
        proof {
            let picked = padded_address(*self);
            assert(picked@ == a@);
            assert(picked.bytes =~= a.bytes);
        }
        Some(a)
    }
}

/// The low 20 bytes of a 32-byte big-endian value, as an address.
fn low_address(bytes: &[u8; 32]) -> (a: Address)
    ensures
        a@ == bytes@.subrange(12, 32),
{
    let mut out = [0u8; 20];
    let mut i: usize = 0;
    while i < 20
        invariant
            i <= 20,
            forall|k: int| 0 <= k < i ==> out@[k] == bytes@[k + 12],
        decreases 20 - i,
    {
        out[i] = bytes[i + 12];
        i += 1;
    }
    assert(out@ =~= bytes@.subrange(12, 32));
    Address { bytes: out }
}

/// A 256-bit unsigned integer, as 32 big-endian bytes.
#[derive(Clone, Copy, Debug, PartialEq, Eq, Hash)]
pub struct U256 {
    pub bytes: [u8; 32],
}

impl View for U256 {
    type V = Seq<u8>;

    open spec fn view(&self) -> Seq<u8> {
        self.bytes@
    }
}

/// Reading more bytes of a big-endian string never gives a smaller number.
pub proof fn lemma_be_value_grows(bytes: Seq<u8>, i: int, j: int)
    requires
        0 <= i <= j <= bytes.len(),
    ensures
        be_value(bytes.take(i)) <= be_value(bytes.take(j)),
    decreases j - i,
{
    if i < j {
        lemma_be_value_grows(bytes, i, j - 1);
        assert(bytes.take(j).drop_last() =~= bytes.take(j - 1));
    }
}

/// A byte string with a non-zero byte stands for a positive number.
pub proof fn lemma_be_value_positive(bytes: Seq<u8>, at: int)
    requires
        0 <= at < bytes.len(),
        bytes[at] != 0,
    ensures
        be_value(bytes) > 0,
    decreases bytes.len(),
{
    if at < bytes.len() - 1 {
        lemma_be_value_positive(bytes.drop_last(), at);
    }
}

/// A string of zero bytes stands for zero.
pub proof fn lemma_be_value_zero(n: nat)
    ensures
        be_value(zero_bytes(n)) == 0,
    decreases n,
{
    if n > 0 {
        lemma_be_value_zero((n - 1) as nat);
        assert(zero_bytes(n).drop_last() =~= zero_bytes((n - 1) as nat));
    }
}

impl U256 {
    /// The number this value stands for.
    pub open spec fn value(&self) -> nat {
        be_value(self@)
    }

    /// Zero.
    pub fn zero() -> (n: U256)
        ensures
            n@ == zero_bytes(32),
            n.value() == 0,
    {
        let n = U256 { bytes: [0u8; 32] };
        assert(n@ =~= zero_bytes(32));
        proof {
            lemma_be_value_zero(32);
        }
        n
    }

    /// Whether the value is zero.
    pub fn is_zero(&self) -> (r: bool)
        ensures
            r == (self.value() == 0),
            r == (self@ == zero_bytes(32)),
    {
        let mut i: usize = 0;
        while i < 32
            invariant
                i <= 32,
                forall|k: int| 0 <= k < i ==> self.bytes@[k] == 0,
            decreases 32 - i,
        {
            if self.bytes[i] != 0 {
                proof {
                    lemma_be_value_positive(self@, i as int);
                    assert(self@[i as int] != zero_bytes(32)[i as int]);
                }
                return false;
            }
            i += 1;
        }
        proof {
            assert(self@ =~= zero_bytes(32));
            lemma_be_value_zero(32);
        }
        true
    }

    /// The value as a `u64`, if it fits.
    pub fn to_u64(&self) -> (r: Option<u64>)
        ensures
            r is Some <==> self.value() <= u64::MAX,
            r matches Some(v) ==> v == self.value(),
    {
        let mut acc: u64 = 0;
        let mut i: usize = 0;
        while i < 32
            invariant
                i <= 32,
                acc == be_value(self@.take(i as int)),
            decreases 32 - i,
        {
            let b = self.bytes[i];
            proof {
                assert(self@.take(i + 1).drop_last() =~= self@.take(i as int));
                assert(self@.take(i + 1).last() == b);
            }
            if acc > (u64::MAX - b as u64) / 256 {
                proof {
                    lemma_be_value_grows(self@, i + 1, 32);
                    assert(self@.take(32) =~= self@);
                }
                return None;
            }
            acc = acc * 256 + b as u64;
            i += 1;
        }
        assert(self@.take(32) =~= self@);
        Some(acc)
    }

    /// The address held in the low 20 bytes; the high 12 bytes are dropped.
    pub fn low_address(&self) -> (a: Address)
        ensures
            a@ == self@.subrange(12, 32),
    {
        low_address(&self.bytes)
    }
}

} // verus!
