//! Named, typed access to the registers of a field-bus device.
//!
//! The library plans batched reads of named registers into the fewest
//! contiguous requests, slices the words read back into each register's
//! range, and converts between words and typed values. The transport that
//! carries the requests is the caller's: the library hands out each request
//! and takes each reply.
pub mod batch;
pub mod catalog;
pub mod codec;
pub mod device;
pub mod errors;
pub mod planner;
pub mod register;
pub mod types;
pub mod utils;

pub use batch::{BatchRead, ReadOutcome};
pub use catalog::RegisterMap;
pub use device::{Connection, ModbusDeviceAsync, RawRead, RawWrite};
pub use errors::{DeviceError, ModbusError};
pub use register::{ModBusRegisters, Register};
pub use types::RegisterValue;
