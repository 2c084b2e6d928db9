//! A verified core for talking to Logitech HID++ mice over a hidraw node.
pub mod battery;
pub mod button;
pub mod device;
pub mod dialog;
pub mod discovery;
pub mod dpi;
pub mod exchange;
pub mod features;
pub mod frame;
pub mod name;
pub mod profile;
pub mod rate;
pub mod ready;
pub mod text;
