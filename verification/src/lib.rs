//! Firmware release catalog and the rules that decide which release a device
//! may download.
//!
//! A [`Manifest`] is a validated, read-only list of releases. Each release
//! ([`Binary`]) names the firmware version it installs, the range of hardware
//! revisions it runs on and the range of firmware versions it can be installed
//! over. Given the two versions a device reports, the manifest yields every
//! release the device qualifies for and the single most advanced one.
//!
//! Version syntax, version precedence and range satisfaction are those of the
//! `semver` crate; everything built on top of them is verified. The versions
//! of a catalog are compared once, when it is loaded, and kept as ranks; a
//! request is answered from the ranges and the ranks alone.

pub mod artifact;
pub mod device;
pub mod error;
pub mod guarantees;
pub mod manifest;
pub mod release;
pub mod resolver;
pub mod selection;
pub mod version;

pub use device::DeviceState;
pub use error::{CatalogError, RequestError};
pub use manifest::Manifest;
pub use release::{Binary, Descriptor, Offer};
pub use version::{Precedence, Requirement, Version};
