//! Releases: what a catalog entry says, as written and once validated.

use crate::artifact::{is_valid_artifact_id, valid_artifact_id};
use crate::version::{
    outranks, requirement_admits, requirement_syntax, version_syntax, Requirement, Version,
};
use vstd::prelude::*;

verus! {

/// What a catalog entry says: the four texts of a release.
pub struct Release {
    /// The version the release upgrades a device to.
    pub target_version: Seq<char>,
    /// The range of hardware revisions the release runs on.
    pub hardware_constraint: Seq<char>,
    /// The range of firmware versions the release can be installed over.
    pub firmware_constraint: Seq<char>,
    /// The name of the stored binary.
    pub artifact_id: Seq<char>,
}

impl Release {
    /// Every text of the release is of the kind it should be.
    pub open spec fn well_formed(self) -> bool {
        &&& version_syntax(self.target_version)
        &&& requirement_syntax(self.hardware_constraint)
        &&& requirement_syntax(self.firmware_constraint)
        &&& valid_artifact_id(self.artifact_id)
    }

    /// A device with hardware revision `hardware` that runs firmware
    /// `firmware` qualifies for the release: each of the two versions
    /// satisfies its range.
    pub open spec fn admits(self, hardware: Seq<char>, firmware: Seq<char>) -> bool {
        &&& requirement_admits(self.hardware_constraint, hardware)
        &&& requirement_admits(self.firmware_constraint, firmware)
    }

    /// The release installs a strictly later version than `other` does.
    pub open spec fn supersedes(self, other: Release) -> bool {
        outranks(self.target_version, other.target_version)
    }

    /// What a device is told of the release: the ranges stay inside.
    pub open spec fn announcement(self) -> Announcement {
        Announcement { target_version: self.target_version, artifact_id: self.artifact_id }
    }
}

/// What an offer says.
pub struct Announcement {
    /// The version the offered release installs.
    pub target_version: Seq<char>,
    /// The name under which the binary is fetched.
    pub artifact_id: Seq<char>,
}

/// A release as it is offered to a device.
#[derive(Debug, PartialEq, Eq)]
pub struct Offer {
    pub target_version: String,
    pub artifact_id: String,
}

impl View for Offer {
    type V = Announcement;

    open spec fn view(&self) -> Announcement {
        Announcement { target_version: self.target_version@, artifact_id: self.artifact_id@ }
    }
}

/// A catalog entry as it is written in the catalog source, not yet checked.
#[derive(Debug, PartialEq, Eq)]
pub struct Descriptor {
    pub target_version: String,
    pub hardware_constraint: String,
    pub firmware_constraint: String,
    pub artifact_id: String,
}

impl View for Descriptor {
    type V = Release;

    open spec fn view(&self) -> Release {
        Release {
            target_version: self.target_version@,
            hardware_constraint: self.hardware_constraint@,
            firmware_constraint: self.firmware_constraint@,
            artifact_id: self.artifact_id@,
        }
    }
}

impl Clone for Descriptor {
    fn clone(&self) -> (r: Self)
        ensures
            r == *self,
    {
        Descriptor {
            target_version: self.target_version.clone(),
            hardware_constraint: self.hardware_constraint.clone(),
            firmware_constraint: self.firmware_constraint.clone(),
            artifact_id: self.artifact_id.clone(),
        }
    }
}

impl Clone for Offer {
    fn clone(&self) -> (r: Self)
        ensures
            r == *self,
    {
        Offer {
            target_version: self.target_version.clone(),
            artifact_id: self.artifact_id.clone(),
        }
    }
}

/// One installable firmware image and the devices it applies to.
#[derive(Debug)]
pub struct Binary {
    version: Version,
    hardware: Requirement,
    firmware: Requirement,
    file: String,
}

impl View for Binary {
    type V = Release;

    closed spec fn view(&self) -> Release {
        Release {
            target_version: self.version@,
            hardware_constraint: self.hardware@,
            firmware_constraint: self.firmware@,
            artifact_id: self.file@,
        }
    }
}

impl Binary {
    /// A binary is only ever built from a well-formed release.
    #[verifier::type_invariant]
    pub open spec fn well_formed(self) -> bool {
        self@.well_formed()
    }

    /// Checks a catalog entry. Succeeds exactly when the entry is well
    /// formed, and then says what the entry says.
    pub fn from_descriptor(descriptor: &Descriptor) -> (r: Option<Binary>)
        ensures
            r.is_some() == descriptor@.well_formed(),
            r matches Some(binary) ==> binary@ == descriptor@,
    {
        let version = match Version::parse(descriptor.target_version.as_str()) {
            Some(version) => version,
            None => { return None; },
        };
        let hardware = match Requirement::parse(descriptor.hardware_constraint.as_str()) {
            Some(range) => range,
            None => { return None; },
        };
        let firmware = match Requirement::parse(descriptor.firmware_constraint.as_str()) {
            Some(range) => range,
            None => { return None; },
        };
        if !is_valid_artifact_id(descriptor.artifact_id.as_str()) {
            return None;
        }
        Some(Binary { version, hardware, firmware, file: descriptor.artifact_id.clone() })
    }

    /// The version the release upgrades a device to.
    pub fn version(&self) -> (r: &Version)
        ensures
            r@ == self@.target_version,
    {
        &self.version
    }

    /// The range of hardware revisions the release runs on.
    pub fn hardware(&self) -> (r: &Requirement)
        ensures
            r@ == self@.hardware_constraint,
    {
        &self.hardware
    }

    /// The range of firmware versions the release can be installed over.
    pub fn firmware(&self) -> (r: &Requirement)
        ensures
            r@ == self@.firmware_constraint,
    {
        &self.firmware
    }

    /// The name of the stored binary.
    pub fn file(&self) -> (r: &str)
        ensures
            r@ == self@.artifact_id,
            valid_artifact_id(r@),
    {
        proof {
            use_type_invariant(self);
        }
        self.file.as_str()
    }

    /// Whether the binary of this release is stored under `artifact_id`.
    pub fn is_stored_as(&self, artifact_id: &str) -> (r: bool)
        ensures
            r == (self@.artifact_id == artifact_id@),
    {
        let name = artifact_id.to_owned();
        self.file == name
    }

    /// The release as it is offered to a device. The artifact it names is
    /// a valid artifact identifier.
    pub fn offer(&self) -> (r: Offer)
        ensures
            r@ == self@.announcement(),
            valid_artifact_id(r@.artifact_id),
    {
        proof {
            use_type_invariant(self);
        }
        Offer { target_version: self.version.as_str().to_owned(), artifact_id: self.file.clone() }
    }

    /// Whether a device with the given hardware revision and current
    /// firmware qualifies for this release.
    pub fn admits(&self, hardware: &Version, firmware: &Version) -> (r: bool)
        ensures
            r == self@.admits(hardware@, firmware@),
    {
        self.hardware.matches(hardware) && self.firmware.matches(firmware)
    }
}

impl Clone for Binary {
    fn clone(&self) -> (r: Self)
        ensures
            r == *self,
    {
        proof {
            use_type_invariant(self);
        }
        Binary {
            version: self.version.clone(),
            hardware: self.hardware.clone(),
            firmware: self.firmware.clone(),
            file: self.file.clone(),
        }
    }
}

} // verus!
