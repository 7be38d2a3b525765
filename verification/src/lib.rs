//! Core logic of the USB device history scanner: parsing of Windows log
//! lines, device categorisation, de-duplication and timestamp matching.

pub mod text;
pub mod timestamps;
pub mod setupapi;
pub mod eventlog;
pub mod vendors;
pub mod device;
pub mod history;
pub mod mounted;
pub mod wmi_query;
