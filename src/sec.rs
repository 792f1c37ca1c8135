use vstd::prelude::*;

verus! {

pub const KEY_QUERY_VALUE: u32 = 0x0001;
pub const KEY_SET_VALUE: u32 = 0x0002;
pub const KEY_CREATE_SUB_KEY: u32 = 0x0004;
pub const KEY_ENUMERATE_SUB_KEYS: u32 = 0x0008;
pub const KEY_NOTIFY: u32 = 0x0010;
pub const KEY_CREATE_LINK: u32 = 0x0020;
pub const KEY_WOW64_64KEY: u32 = 0x0100;
pub const KEY_WOW64_32KEY: u32 = 0x0200;
pub const DELETE: u32 = 0x0001_0000;
pub const READ_CONTROL: u32 = 0x0002_0000;
pub const WRITE_DAC: u32 = 0x0004_0000;
pub const WRITE_OWNER: u32 = 0x0008_0000;
pub const KEY_READ: u32 = 0x0002_0019;
pub const KEY_WRITE: u32 = 0x0002_0006;
pub const KEY_ALL_ACCESS: u32 = 0x000F_003F;

/// A set of access rights requested for a key handle.
#[derive(PartialEq, Eq, Structural, Clone, Copy, Debug)]
pub struct Security {
    pub bits: u32,
}

impl Security {
    /// Rights to read a key's values and enumerate it.
    pub fn read() -> (r: Security)
        ensures
            r.bits == KEY_READ,
    {
        Security { bits: KEY_READ }
    }

    /// Rights to write values and create subkeys.
    pub fn write() -> (r: Security)
        ensures
            r.bits == KEY_WRITE,
    {
        Security { bits: KEY_WRITE }
    }

    /// Every right on a key.
    pub fn all_access() -> (r: Security)
        ensures
            r.bits == KEY_ALL_ACCESS,
    {
        Security { bits: KEY_ALL_ACCESS }
    }

    /// The rights given as a raw mask.
    pub fn from_bits(bits: u32) -> (r: Security)
        ensures
            r.bits == bits,
    {
        Security { bits }
    }

    /// The raw mask handed to the store.
    pub fn bits(&self) -> (r: u32)
        ensures
            r == self.bits,
    {
        self.bits
    }

    /// The rights of both sets.
    pub fn union(self, other: Security) -> (r: Security)
        ensures
            r.bits == self.bits | other.bits,
    {
        Security { bits: self.bits | other.bits }
    }

    /// Whether every right of `other` is in this set.
    pub fn contains(&self, other: Security) -> (r: bool)
        ensures
            r == (self.bits & other.bits == other.bits),
    {
        self.bits & other.bits == other.bits
    }
}

/// A union holds the rights of both its parts.
pub proof fn lemma_union_contains(a: Security, b: Security)
    ensures
        (a.bits | b.bits) & a.bits == a.bits,
        (a.bits | b.bits) & b.bits == b.bits,
{
    let x = a.bits;
    let y = b.bits;
    assert((x | y) & x == x && (x | y) & y == y) by (bit_vector);
}

} // verus!
