//! Tunnet's decision logic with contracts proved by Verus: the tunnel wire
//! format and segmentation, per-flow scheduling, packet classification and
//! reject replies, route planning, the agent's start-up, DNS, update and
//! actor decisions, direct-mode networks, the control plane's request
//! checks, and what the command-line client sends and prints.

pub mod flow;
pub mod frame;
pub mod ipv4;
pub mod pool;
pub mod qos;
pub mod routes;
pub mod segment;
pub mod packet;
pub mod slicing;
pub mod meta;
pub mod output;
pub mod tun;
pub mod text;
pub mod underlay;
pub mod labels;
pub mod codec;
pub mod service_auth;
pub mod ca_crypto;
pub mod device;
pub mod transmit;
pub mod dataplane;
pub mod relay;
pub mod reject;
pub mod direct;
pub mod policy_cmd;
pub mod posture_cmd;
pub mod send_cmd;
pub mod auto_update;
pub mod dns;
pub mod startup;
pub mod actors;
pub mod api_path;
pub mod admission;
pub mod loops;
