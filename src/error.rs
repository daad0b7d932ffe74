use vstd::prelude::*;

verus! {

/// Why a decimal octet failed to parse, in the same terms as std's integer parser.
#[derive(Clone, Copy, Debug, PartialEq, Eq, Structural)]
pub enum OctetError {
    /// The text was empty.
    Empty,
    /// A character is not a decimal digit (or the text is a lone sign).
    InvalidDigit,
    /// The value does not fit in a byte.
    PosOverflow,
}

/// Every failure of parsing or validating an address, a mask or a subnet.
#[derive(Clone, Copy, Debug, PartialEq, Eq, Structural)]
pub enum IpError {
    /// A dotted quad that is not a contiguous run of leading one bits.
    ParseMaskError,
    /// An octet (or a prefix length) that is not an unsigned byte.
    ParseIpv4Error(OctetError),
    /// An address that does not split into exactly four octets.
    InvalidOctetCountError,
    /// An `address/prefix` text that lacks one of its two parts, or names a zero subnet.
    ParseSubnetError,
    /// A prefix length above 32.
    InvalidCIDRValue,
}

impl From<OctetError> for IpError {
    fn from(e: OctetError) -> (r: IpError)
        ensures
            r == IpError::ParseIpv4Error(e),
    {
        IpError::ParseIpv4Error(e)
    }
}

impl vstd::std_specs::convert::FromSpecImpl<OctetError> for IpError {
    open spec fn obeys_from_spec() -> bool {
        true
    }

    open spec fn from_spec(e: OctetError) -> IpError {
        IpError::ParseIpv4Error(e)
    }
}

} // verus!
