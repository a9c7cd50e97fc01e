//! IP addresses for a relational database engine: parsing of IPv4 and IPv6
//! literals, classification predicates, validity probes, and a collation
//! that orders texts as the addresses they stand for.

pub mod addr;
pub mod collation;
pub mod error;
pub mod ipv4;
pub mod ipv6;
pub mod registry;
pub mod scalar;
pub mod text;
pub mod value;

pub use crate::addr::{Family, IpAddr, Order, Predicate};
pub use crate::collation::{compare, ip_collate, COLLATION_NAME};
pub use crate::error::IpError;
pub use crate::ipv4::Ipv4Addr;
pub use crate::ipv6::Ipv6Addr;
pub use crate::registry::{call, sqlite3_ip_init, Flags, Operation, Output};
pub use crate::scalar::{
    ip_debug, ip_is_ipv4, ip_is_ipv6, ip_is_loopback, ip_is_multicast, ip_is_unspecified,
    ip_valid, ip_version, ipv4_valid, ipv6_valid, Build,
};
pub use crate::value::{value_ipaddr, value_ipv4addr, value_ipv6addr, Value, ValueType};
