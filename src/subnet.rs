use vstd::prelude::*;

use crate::error::IpError;
use crate::ipv4::{parse_ipv4_spec, Ipv4};
use crate::mask::{is_prefix_mask, prefix_mask, Ipv4Mask};
use crate::text::{parse_u8, parse_u8_spec, split_on, split_str};

verus! {

/// A subnet, seen as the pair of its address and mask values, with its address replaced.
pub open spec fn with_ip_spec(v: (u32, u32), ip: u32) -> (u32, u32) {
    (ip, v.1)
}

/// A subnet, seen as the pair of its address and mask values, with its mask replaced.
pub open spec fn with_mask_spec(v: (u32, u32), mask: u32) -> (u32, u32) {
    (v.0, mask)
}

/// The network address: the host bits cleared.
pub open spec fn base_spec(v: (u32, u32)) -> u32 {
    v.0 & v.1
}

/// The broadcast address: the host bits set.
pub open spec fn broadcast_spec(v: (u32, u32)) -> u32 {
    base_spec(v) | !v.1
}

/// The usable host count: `broadcast - base - 2`, or zero when that difference is below two.
pub open spec fn usable_spec(v: (u32, u32)) -> nat {
    let d = broadcast_spec(v) - base_spec(v);
    if d < 2 {
        0
    } else {
        (d - 2) as nat
    }
}

/// What parsing an `address/prefix` text gives, as address and mask values.
pub open spec fn parse_subnet_spec(s: Seq<char>) -> Result<(u32, u32), IpError> {
    let parts = split_on(s, '/');
    if parts.len() != 2 {
        Err(IpError::ParseSubnetError)
    } else {
        match parse_ipv4_spec(parts[0]) {
            Err(e) => Err(e),
            Ok(a) => match parse_u8_spec(parts[1]) {
                Err(e) => Err(IpError::ParseIpv4Error(e)),
                Ok(c) => if c > 32 {
                    Err(IpError::InvalidCIDRValue)
                } else if a.0 == 0 || prefix_mask(c as u32) == 0 {
                    Err(IpError::ParseSubnetError)
                } else {
                    Ok((a.0, prefix_mask(c as u32)))
                },
            },
        }
    }
}

/// Setting the address and the mask twice keeps only the last value of each, in whichever
/// order the two fields were set.
pub proof fn lemma_builder_last_write_wins(v: (u32, u32), a1: u32, m1: u32, a2: u32, m2: u32)
    ensures
        with_mask_spec(with_ip_spec(with_mask_spec(with_ip_spec(v, a1), m1), a2), m2) == (a2, m2),
        with_ip_spec(with_mask_spec(with_ip_spec(with_mask_spec(v, m1), a1), m2), a2) == (a2, m2),
{
}

/// A host address together with the mask of its network.
#[derive(Clone, Copy, Debug)]
pub struct Subnet {
    ip: Ipv4,
    mask: Ipv4Mask,
}

impl View for Subnet {
    type V = (u32, u32);

    closed spec fn view(&self) -> (u32, u32) {
        (self.ip.0, self.mask@)
    }
}

impl Subnet {
    /// Address 0 with the all-ones mask: a single host.
    pub fn new() -> (r: Subnet)
        ensures
            r@ == (0u32, u32::MAX),
    {
        Subnet { ip: Ipv4(0), mask: Ipv4Mask::host() }
    }

    /// The same subnet with its address replaced.
    pub fn with_ip(self, ip: Ipv4) -> (r: Subnet)
        ensures
            r@ == with_ip_spec(self@, ip.0),
    {
        Subnet { ip, mask: self.mask }
    }

    /// The same subnet with its mask replaced.
    pub fn with_mask(self, mask: Ipv4Mask) -> (r: Subnet)
        ensures
            r@ == with_mask_spec(self@, mask@),
    {
        Subnet { ip: self.ip, mask }
    }

    pub fn ip(&self) -> (r: Ipv4)
        ensures
            r.0 == self@.0,
    {
        self.ip
    }

    pub fn mask(&self) -> (r: Ipv4Mask)
        ensures
            r@ == self@.1,
            is_prefix_mask(r@),
    {
        // `value` carries the mask's invariant into this proof.
        let _ = self.mask.value();
        self.mask
    }

    /// The network address.
    pub fn base(&self) -> (r: Ipv4)
        ensures
            r.0 == base_spec(self@),
    {
        self.ip.bitand_mask(self.mask)
    }

    /// The broadcast address.
    pub fn broadcast(&self) -> (r: Ipv4)
        ensures
            r.0 == broadcast_spec(self@),
    {
        self.base().bitor(self.mask.to_ipv4().not())
    }

    /// How many host addresses the subnet offers by this library's count.
    pub fn usable_ip_count(&self) -> (r: usize)
        ensures
            r as nat == usable_spec(self@),
    {
        let b = self.broadcast().0;
        let n = self.base().0;
        assert(b >= n) by {
            let a = self@.0;
            let m = self@.1;
            assert((a & m) | !m >= a & m) by (bit_vector);
        }
        let d = b - n;
        if d < 2 {
            0
        } else {
            (d - 2) as usize
        }
    }

    /// Parses `address/prefix`: exactly two parts, an address and a prefix length, neither
    /// giving a zero address or a zero mask.
    pub fn parse(s: &str) -> (r: Result<Subnet, IpError>)
        ensures
            match parse_subnet_spec(s@) {
                Ok(v) => r matches Ok(n) && n@ == v,
                Err(e) => r == Err::<Subnet, IpError>(e),
            },
    {
        let parts = split_str(s, '/');
        if parts.len() != 2 {
            return Err(IpError::ParseSubnetError);
        }
        assert(parts@[0]@ == split_on(s@, '/')[0]);
        assert(parts@[1]@ == split_on(s@, '/')[1]);
        let ip = match Ipv4::parse(parts[0]) {
            Ok(ip) => ip,
            Err(e) => return Err(e),
        };
        let cidr = match parse_u8(parts[1]) {
            Ok(c) => c,
            Err(e) => return Err(IpError::ParseIpv4Error(e)),
        };
        let mask = match Ipv4Mask::from_cidr(cidr) {
            Ok(m) => m,
            Err(e) => return Err(e),
        };
        if ip.0 == 0 || mask.value() == 0 {
            return Err(IpError::ParseSubnetError);
        }
        Ok(Subnet { ip, mask })
    }
}

impl core::str::FromStr for Subnet {
    type Err = IpError;

    fn from_str(s: &str) -> Result<Subnet, IpError> {
        Subnet::parse(s)
    }
}

} // verus!
