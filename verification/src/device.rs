//! What a device reports of itself when it asks for an update.

use crate::error::RequestError;
use crate::version::{version_syntax, Version};
use vstd::prelude::*;

verus! {

/// The two versions a device reports with a request.
#[derive(Debug)]
pub struct DeviceState {
    /// The revision of the device's hardware.
    pub hardware_version: Version,
    /// The firmware the device runs now.
    pub current_firmware_version: Version,
}

impl DeviceState {
    /// Reads the two versions a device sent. Succeeds exactly when both are
    /// semantic versions; otherwise the request is answered with
    /// `InvalidVersion`.
    pub fn parse(hardware: &str, firmware: &str) -> (r: Result<DeviceState, RequestError>)
        ensures
            r is Ok == (version_syntax(hardware@) && version_syntax(firmware@)),
            r matches Ok(device) ==> device.hardware_version@ == hardware@
                && device.current_firmware_version@ == firmware@,
            r matches Err(error) ==> error == RequestError::InvalidVersion,
    {
        let hardware_version = match Version::parse(hardware) {
            Some(version) => version,
            None => { return Err(RequestError::InvalidVersion); },
        };
        let current_firmware_version = match Version::parse(firmware) {
            Some(version) => version,
            None => { return Err(RequestError::InvalidVersion); },
        };
        Ok(DeviceState { hardware_version, current_firmware_version })
    }
}

} // verus!
