//! Client side of the Seamless Message Protocol (SLMP), by which the PLCs of Mitsubishi Electric
//! are read, written and controlled: binary mode, 4E frames.
//!
//! The library decides and computes. It says which bytes to send, what the bytes of an answer mean
//! and what to do next; the sockets, the clock and the tasks belong to its user.
pub mod address;
pub mod bytes;
pub mod client;
pub mod device;
pub mod error;
pub mod frame;
pub mod manager;
pub mod monitor;
pub mod order;
pub mod props;
pub mod read;
pub mod text;
pub mod unit;
pub mod write;

pub use address::SocketAddr;
pub use client::SLMPClient;
pub use device::{
    AccessType, BlockedDeviceData, DataType, Device, DeviceBlock, DeviceData, DeviceType, TypedData,
    TypedDevice,
};
pub use error::{end_code_name, FramingError, SlmpError, SlmpResult};
pub use manager::{MonitorRequest, MonitoredDevice, PLCData, SLMPConnectionManager};
pub use props::{SLMP4EConnectionProps, CPU};
