use vstd::prelude::*;

use crate::error::IpError;
use crate::ipv4::{parse_ipv4_spec, quad_text, Ipv4};

verus! {

/// The mask of prefix length `p`: its top `p` bits set, the rest clear.
pub open spec fn prefix_mask(p: u32) -> u32 {
    if p == 0 {
        0
    } else {
        0xffff_ffffu32 << (32 - p) as u32
    }
}

/// Whether `m` is a run of one bits from the most significant bit followed by zero bits.
pub open spec fn is_prefix_mask(m: u32) -> bool {
    exists|p: u32| p <= 32 && m == #[trigger] prefix_mask(p)
}

/// What parsing `s` as a mask gives.
pub open spec fn parse_mask_spec(s: Seq<char>) -> Result<u32, IpError> {
    match parse_ipv4_spec(s) {
        Err(e) => Err(e),
        Ok(a) => if is_prefix_mask(a.0) {
            Ok(a.0)
        } else {
            Err(IpError::ParseMaskError)
        },
    }
}

/// A subnet mask: a value that is always a contiguous run of leading one bits.
#[derive(Clone, Copy, Debug, PartialEq, Eq, Structural)]
pub struct Ipv4Mask(u32);

impl View for Ipv4Mask {
    type V = u32;

    closed spec fn view(&self) -> u32 {
        self.0
    }
}

/// A prefix mask has its lowest one bit at `32 - q` (none when `q` is 0), so counting its
/// trailing zeros gives back `32 - q`.
proof fn lemma_prefix_mask_lowest_one(q: u32, zeros: u32, v: u32)
    requires
        q <= 32,
        v == prefix_mask(q),
        zeros <= 32,
        forall|j: u32| j < zeros ==> (v >> j) & 1 == 0,
        zeros < 32 ==> (v >> zeros) & 1 == 1,
    ensures
        zeros == 32 - q,
{
    if q == 0 {
        if zeros < 32 {
            assert((0u32 >> zeros) & 1 == 0) by (bit_vector);
        }
    } else {
        let k: u32 = (32 - q) as u32;
        assert(v == 0xffff_ffffu32 << k);
        assert((v >> k) & 1 == 1) by (bit_vector)
            requires
                k < 32,
                v == 0xffff_ffffu32 << k,
        ;
        if zeros < k {
            assert((v >> zeros) & 1 == 0) by (bit_vector)
                requires
                    zeros < k,
                    k < 32,
                    v == 0xffff_ffffu32 << k,
            ;
        }
        if zeros > k {
            assert((v >> k) & 1 == 0);
        }
    }
}

fn prefix_mask_value(p: u32) -> (r: u32)
    requires
        p <= 32,
    ensures
        r == prefix_mask(p),
{
    if p == 0 {
        0
    } else {
        0xffff_ffffu32 << (32 - p)
    }
}

/// The mask of prefix length `cidr`, or an error when `cidr` exceeds 32.
pub fn make_mask_from_cidr(cidr: u8) -> (r: Result<u32, ()>)
    ensures
        cidr <= 32 ==> r == Ok::<u32, ()>(prefix_mask(cidr as u32)),
        cidr > 32 ==> r is Err,
{
    if cidr > 32 {
        return Err(());
    }
    Ok(prefix_mask_value(cidr as u32))
}

impl Ipv4Mask {
    #[verifier::type_invariant]
    spec fn inv(self) -> bool {
        is_prefix_mask(self.0)
    }

    /// The mask of prefix length `cidr`, or `InvalidCIDRValue` when `cidr` exceeds 32.
    pub fn from_cidr(cidr: u8) -> (r: Result<Ipv4Mask, IpError>)
        ensures
            cidr <= 32 ==> (r matches Ok(m) && m@ == prefix_mask(cidr as u32)),
            cidr > 32 ==> r == Err::<Ipv4Mask, IpError>(IpError::InvalidCIDRValue),
    {
        if cidr > 32 {
            return Err(IpError::InvalidCIDRValue);
        }
        let m = prefix_mask_value(cidr as u32);
        assert(is_prefix_mask(m)) by {
            assert(m == prefix_mask(cidr as u32));
        }
        Ok(Ipv4Mask(m))
    }

    /// The all-ones mask of a single host, prefix length 32.
    pub fn host() -> (r: Ipv4Mask)
        ensures
            r@ == u32::MAX,
            r@ == prefix_mask(32),
    {
        let m = prefix_mask_value(32);
        assert(0xffff_ffffu32 << 0u32 == 0xffff_ffffu32) by (bit_vector);
        assert(is_prefix_mask(m));
        Ipv4Mask(m)
    }

    /// Parses a dotted quad and accepts it only when it is a contiguous run of leading one
    /// bits.
    pub fn parse(s: &str) -> (r: Result<Ipv4Mask, IpError>)
        ensures
            match parse_mask_spec(s@) {
                Ok(v) => r matches Ok(m) && m@ == v,
                Err(e) => r == Err::<Ipv4Mask, IpError>(e),
            },
    {
        let a = match Ipv4::parse(s) {
            Ok(a) => a,
            Err(e) => return Err(e),
        };
        let v = a.0;
        // Count the trailing zero bits; the ones above them imply the prefix length.
        let mut zeros: u32 = 0;
        while zeros < 32 && (v >> zeros) & 1 == 0
            invariant
                zeros <= 32,
                forall|j: u32| j < zeros ==> (v >> j) & 1 == 0,
            decreases 32 - zeros,
        {
            zeros = zeros + 1;
        }
        assert(zeros < 32 ==> (v >> zeros) & 1 == 1) by (bit_vector)
            requires
                zeros < 32 ==> (v >> zeros) & 1 != 0,
        ;
        let canonical = prefix_mask_value(32 - zeros);
        if v == canonical {
            assert(is_prefix_mask(v));
            return Ok(Ipv4Mask(v));
        }
        proof {
            if is_prefix_mask(v) {
                let q = choose|q: u32| q <= 32 && v == #[trigger] prefix_mask(q);
                lemma_prefix_mask_lowest_one(q, zeros, v);
            }
        }
        Err(IpError::ParseMaskError)
    }

    /// The mask as a 32-bit value, which is always a contiguous run of leading one bits.
    pub fn value(&self) -> (r: u32)
        ensures
            r == self@,
            is_prefix_mask(r),
    {
        proof {
            use_type_invariant(self);
        }
        self.0
    }

    /// The mask as an address with the same bits.
    pub fn to_ipv4(self) -> (r: Ipv4)
        ensures
            r.0 == self@,
    {
        Ipv4(self.0)
    }

    /// The dotted-quad text of this mask.
    pub fn to_string(&self) -> (r: String)
        ensures
            r@ == quad_text(self@),
    {
        Ipv4(self.0).to_string()
    }
}

impl Ipv4 {
    /// The bitwise AND of an address and a mask.
    pub fn bitand_mask(self, rhs: Ipv4Mask) -> (r: Ipv4)
        ensures
            r.0 == self.0 & rhs@,
    {
        self.bitand(rhs.to_ipv4())
    }

    /// The bitwise OR of an address and a mask.
    pub fn bitor_mask(self, rhs: Ipv4Mask) -> (r: Ipv4)
        ensures
            r.0 == self.0 | rhs@,
    {
        self.bitor(rhs.to_ipv4())
    }
}

impl From<Ipv4Mask> for Ipv4 {
    fn from(mask: Ipv4Mask) -> (r: Ipv4)
        ensures
            r.0 == mask@,
    {
        mask.to_ipv4()
    }
}

impl vstd::std_specs::convert::FromSpecImpl<Ipv4Mask> for Ipv4 {
    open spec fn obeys_from_spec() -> bool {
        true
    }

    open spec fn from_spec(mask: Ipv4Mask) -> Ipv4 {
        Ipv4(mask@)
    }
}

impl core::str::FromStr for Ipv4Mask {
    type Err = IpError;

    fn from_str(s: &str) -> Result<Ipv4Mask, IpError> {
        Ipv4Mask::parse(s)
    }
}

} // verus!
