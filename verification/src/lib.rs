//! Host-metrics bridge for an ESP display: the text parsing, metric
//! selection and serial framing logic, verified with Verus.

pub mod text;
pub mod number;
pub mod vms;
pub mod docker;
pub mod sensors;
pub mod gpu;
pub mod disks;
pub mod serial_proto;
pub mod host;
pub mod session;
