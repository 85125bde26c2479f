//! The work-node runtime: canonical names, the Protobuf codec for hosted components,
//! the pod lifecycle, and the helpers of the container runtime interface.

pub mod codec;
pub mod config;
pub mod containers;
pub mod cri;
pub mod data_plane;
pub mod decode;
pub mod encode;
pub mod error;
pub mod ipam;
pub mod names;
pub mod pods;
pub mod pool;
pub mod schema;
pub mod state;
pub mod value;
pub mod wire;
