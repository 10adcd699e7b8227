//! Tracking of a bridge's multicast forwarding table (MDB) and the
//! membership events that its changes produce.
//!
//! `record` reads the device's reply records, `diff` computes the Join and
//! Leave events between two port lists, `table` holds the mirrored table and
//! applies bootstrap snapshots and live records to it, and `laws` states
//! what holds of every stream of records.

pub mod model;
pub mod record;
pub mod diff;
pub mod table;
pub mod laws;

pub use model::{BridgeMdbEntry, MikrotikBridgeEvent, PortMembership, copy_ports};
pub use record::{DeviceResponse, MalformedRecord, ReplyRecord, parse_vlan_id, split_ports};
pub use diff::{contains_port, diff_events, removal_events_of};
pub use table::BridgeMdb;
