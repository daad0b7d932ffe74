pub mod error;
pub mod text;
pub mod ipv4;
pub mod mask;
pub mod subnet;
pub mod network;

pub use error::{IpError, OctetError};
pub use ipv4::{is_valid, make_ip_from_mask, make_mask_from_string, Ipv4};
pub use mask::{make_mask_from_cidr, Ipv4Mask};
pub use subnet::Subnet;
pub use network::{
    calc_network_values, convert_to_ip_and_mask, gateway_candidates, BroadcastAddr, NetworkAddr,
    NetworkValues,
};
