//! Addresses and prefixes of both families as left-aligned bit strings.
//!
//! An address is held in a 128-bit word with its first bit in the most
//! significant position: an IPv4 address occupies the top 32 bits. A prefix
//! is such a word and a length; it is canonical when every bit past the
//! length is zero.

use vstd::prelude::*;

verus! {

/// Address family.
#[derive(Clone, Copy, Debug, PartialEq, Eq, Structural)]
pub enum Family {
    V4,
    V6,
}

/// A prefix: left-aligned bits and a length.
pub type Prefix = (u128, u8);

/// The word whose first `len` bits are one.
pub open spec fn prefix_mask(len: u8) -> u128 {
    if len == 0 {
        0
    } else if len >= 128 {
        u128::MAX
    } else {
        !(u128::MAX >> len)
    }
}

/// Whether every bit of `bits` past the first `len` is zero.
pub open spec fn is_masked(bits: u128, len: u8) -> bool {
    bits & prefix_mask(len) == bits
}

/// A prefix of family `f`: no longer than the family's width, host bits
/// zero.
pub open spec fn prefix_wf(f: Family, p: Prefix) -> bool {
    p.1 <= f.spec_width() && is_masked(p.0, p.1)
}

/// Whether `p` names a single host of family `f`.
pub open spec fn is_host_prefix(f: Family, p: Prefix) -> bool {
    p.1 == f.spec_width() && is_masked(p.0, p.1)
}

/// Whether the address `bits` lies within the canonical prefix `net`.
pub open spec fn prefix_covers(net: Prefix, bits: u128) -> bool {
    bits & prefix_mask(net.1) == net.0
}

/// The word whose first `len` bits are one.
pub fn mask_of(len: u8) -> (m: u128)
    ensures
        m == prefix_mask(len),
{
    if len == 0 {
        0
    } else if len >= 128 {
        u128::MAX
    } else {
        !(u128::MAX >> len)
    }
}

/// Masking is idempotent, so a masked word is canonical for its length.
pub proof fn lemma_mask_idempotent(bits: u128, len: u8)
    ensures
        is_masked(bits & prefix_mask(len), len),
{
    let m = prefix_mask(len);
    assert((bits & m) & m == bits & m) by (bit_vector);
}

impl Family {
    /// Number of bits of an address of the family.
    pub open spec fn spec_width(self) -> u8 {
        match self {
            Family::V4 => 32,
            Family::V6 => 128,
        }
    }

    /// Number of bits of an address of the family.
    #[verifier::when_used_as_spec(spec_width)]
    pub fn width(self) -> (w: u8)
        ensures
            w == self.spec_width(),
    {
        match self {
            Family::V4 => 32,
            Family::V6 => 128,
        }
    }

    /// The host prefix of the unspecified address.
    pub fn unspecified(self) -> (p: Prefix)
        ensures
            p == (0u128, self.spec_width()),
            is_host_prefix(self, p),
    {
        proof {
            let m = prefix_mask(self.spec_width());
            assert(0u128 & m == 0u128) by (bit_vector);
        }
        (0, self.width())
    }
}

/// The left-aligned word of an IPv4 address.
pub open spec fn v4_bits(addr: u32) -> u128 {
    (addr as u128) << 96
}

/// The IPv4 address held in the top 32 bits of a word.
pub open spec fn v4_addr_of(bits: u128) -> u32 {
    (bits >> 96) as u32
}

/// An IPv4 address keeps its value through the left-aligned form, which is
/// canonical for every length from 32 on.
pub proof fn lemma_v4_bits(addr: u32)
    ensures
        v4_addr_of(v4_bits(addr)) == addr,
        is_masked(v4_bits(addr), 32),
{
    assert((((addr as u128) << 96) >> 96) as u32 == addr) by (bit_vector);
    assert(((addr as u128) << 96) & !(u128::MAX >> 32u8) == (addr as u128) << 96) by (bit_vector);
}

/// An address of either family.
#[derive(Clone, Copy, Debug, PartialEq, Eq, Structural)]
pub struct IpAddress {
    pub family: Family,
    pub bits: u128,
}

impl IpAddress {
    /// Host bits past the family's width are zero.
    pub open spec fn wf(self) -> bool {
        is_masked(self.bits, self.family.spec_width())
    }

    /// The IPv4 address `addr`, given as its 32-bit value.
    pub fn v4(addr: u32) -> (a: IpAddress)
        ensures
            a == (IpAddress { family: Family::V4, bits: v4_bits(addr) }),
            a.wf(),
    {
        proof {
            lemma_v4_bits(addr);
        }
        IpAddress { family: Family::V4, bits: (addr as u128) << 96 }
    }

    /// The IPv6 address `addr`, given as its 128-bit value.
    pub fn v6(addr: u128) -> (a: IpAddress)
        ensures
            a == (IpAddress { family: Family::V6, bits: addr }),
            a.wf(),
    {
        proof {
            assert(addr & u128::MAX == addr) by (bit_vector);
        }
        IpAddress { family: Family::V6, bits: addr }
    }

    /// Whether this is the all-zero address.
    pub fn is_unspecified(&self) -> (r: bool)
        ensures
            r == (self.bits == 0),
    {
        self.bits == 0
    }

    /// The prefix that names this host alone.
    pub fn host_prefix(&self) -> (p: Prefix)
        ensures
            p == (self.bits, self.family.spec_width()),
    {
        (self.bits, self.family.width())
    }
}

/// A network of either family: a canonical prefix with its family.
#[derive(Clone, Copy, Debug, PartialEq, Eq, Structural)]
pub struct IpNetwork {
    pub family: Family,
    pub bits: u128,
    pub len: u8,
}

impl IpNetwork {
    /// The network's prefix.
    pub open spec fn spec_prefix(self) -> Prefix {
        (self.bits, self.len)
    }

    /// The prefix is canonical and fits the family.
    pub open spec fn wf(self) -> bool {
        prefix_wf(self.family, self.spec_prefix())
    }

    /// What `new` builds.
    pub open spec fn new_spec(family: Family, bits: u128, len: u8) -> IpNetwork {
        let l = if len <= family.spec_width() {
            len
        } else {
            family.spec_width()
        };
        IpNetwork { family, bits: bits & prefix_mask(l), len: l }
    }

    /// The network of family `family` with the first `len` bits of `bits`;
    /// a length beyond the family's width is cut to the width.
    pub fn new(family: Family, bits: u128, len: u8) -> (n: IpNetwork)
        ensures
            n == IpNetwork::new_spec(family, bits, len),
            n.wf(),
    {
        let width = family.width();
        let len = if len <= width {
            len
        } else {
            width
        };
        proof {
            lemma_mask_idempotent(bits, len);
        }
        IpNetwork { family, bits: bits & mask_of(len), len }
    }

    /// The IPv4 network `addr/len`, with `addr` given as its 32-bit value.
    pub fn v4(addr: u32, len: u8) -> (n: IpNetwork)
        ensures
            n == IpNetwork::new_spec(Family::V4, v4_bits(addr), len),
            n.wf(),
    {
        IpNetwork::new(Family::V4, (addr as u128) << 96, len)
    }

    /// The IPv6 network `addr/len`, with `addr` given as its 128-bit value.
    pub fn v6(addr: u128, len: u8) -> (n: IpNetwork)
        ensures
            n == IpNetwork::new_spec(Family::V6, addr, len),
            n.wf(),
    {
        IpNetwork::new(Family::V6, addr, len)
    }

    /// The network's prefix.
    pub fn prefix(&self) -> (p: Prefix)
        ensures
            p == self.spec_prefix(),
    {
        (self.bits, self.len)
    }

    /// Whether `addr` is of this network's family and lies within it.
    pub open spec fn spec_contains(self, addr: IpAddress) -> bool {
        self.family == addr.family && prefix_covers(self.spec_prefix(), addr.bits)
    }

    /// Whether `addr` is of this network's family and lies within it.
    pub fn contains(&self, addr: &IpAddress) -> (r: bool)
        ensures
            r == self.spec_contains(*addr),
    {
        match (self.family, addr.family) {
            (Family::V4, Family::V4) | (Family::V6, Family::V6) => {
                addr.bits & mask_of(self.len) == self.bits
            },
            _ => false,
        }
    }
}

} // verus!
