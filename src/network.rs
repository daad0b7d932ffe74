use vstd::prelude::*;

use crate::error::IpError;
use crate::ipv4::{parse_ipv4_spec, Ipv4};
use crate::mask::{parse_mask_spec, Ipv4Mask};

verus! {

/// A network address, tagged so that it cannot be taken for a broadcast address.
#[derive(Clone, Copy, Debug, PartialEq, Eq)]
pub struct NetworkAddr<T>(pub T);

/// A broadcast address, tagged so that it cannot be taken for a network address.
#[derive(Clone, Copy, Debug, PartialEq, Eq)]
pub struct BroadcastAddr<T>(pub T);

pub type NetworkValues = (NetworkAddr<u32>, BroadcastAddr<u32>);

/// The network and broadcast addresses of `host` under the mask value `mask`.
pub fn calc_network_values(host: &str, mask: u32) -> (r: Result<NetworkValues, IpError>)
    ensures
        match parse_ipv4_spec(host@) {
            Ok(a) => r == Ok::<NetworkValues, IpError>(
                (NetworkAddr(a.0 & mask), BroadcastAddr(a.0 | !mask)),
            ),
            Err(e) => r == Err::<NetworkValues, IpError>(e),
        },
{
    let ip = match Ipv4::parse(host) {
        Ok(ip) => ip,
        Err(e) => return Err(e),
    };
    let mask = Ipv4(mask);
    let net = ip.bitand(mask);
    let bcast = ip.bitor(mask.not());
    Ok((NetworkAddr(net.0), BroadcastAddr(bcast.0)))
}

/// Parses an address and a dotted-quad mask, the address first.
pub fn convert_to_ip_and_mask(a: &str, b: &str) -> (r: Result<(Ipv4, Ipv4Mask), IpError>)
    ensures
        match parse_ipv4_spec(a@) {
            Err(e) => r == Err::<(Ipv4, Ipv4Mask), IpError>(e),
            Ok(ip) => match parse_mask_spec(b@) {
                Err(e) => r == Err::<(Ipv4, Ipv4Mask), IpError>(e),
                Ok(m) => r matches Ok((i, mm)) && i == ip && mm@ == m,
            },
        },
{
    let ip = match Ipv4::parse(a) {
        Ok(ip) => ip,
        Err(e) => return Err(e),
    };
    let mask = match Ipv4Mask::parse(b) {
        Ok(m) => m,
        Err(e) => return Err(e),
    };
    Ok((ip, mask))
}

/// The two likely gateways of a network: the address after the network address and the one
/// before the broadcast address, or `None` where either would leave the 32-bit range.
pub fn gateway_candidates(values: NetworkValues) -> (r: Option<(u32, u32)>)
    ensures
        values.0.0 < u32::MAX && values.1.0 > 0 ==> (r matches Some((first, last)) && first
            == values.0.0 + 1 && last == values.1.0 - 1),
        !(values.0.0 < u32::MAX && values.1.0 > 0) ==> r is None,
{
    let (NetworkAddr(network), BroadcastAddr(broadcast)) = values;
    if network < u32::MAX && broadcast > 0 {
        Some((network + 1, broadcast - 1))
    } else {
        None
    }
}

} // verus!
