//! What holds of every catalog and every device, stated over the models that
//! the contracts of [`crate::manifest::Manifest`] use.

use crate::artifact::valid_artifact_id;
use crate::manifest::well_formed_catalog;
use crate::release::Release;
use crate::resolver::{best, best_index, eligible, leads, lemma_eligible_empty};
use crate::version::{requirement_admits, version_order};
use vstd::prelude::*;

verus! {

/// In a well-formed catalog no two entries install the same version: a
/// catalog in which two entries do is not well formed, so loading it fails.
pub proof fn lemma_target_versions_are_unique(catalog: Seq<Release>, i: int, j: int)
    requires
        well_formed_catalog(catalog),
        0 <= i < catalog.len(),
        0 <= j < catalog.len(),
        i != j,
    ensures
        !(version_order(catalog[i].target_version, catalog[j].target_version) is Same),
{
}

/// The eligible releases are releases of the catalog, and each of them has
/// a hardware range that holds the device's hardware revision and a firmware
/// range that holds the device's firmware. Conversely no entry that admits
/// the device is left out.
pub proof fn lemma_eligible_are_the_admitting_entries(
    catalog: Seq<Release>,
    hardware: Seq<char>,
    firmware: Seq<char>,
)
    ensures
        forall|release: Release| #[trigger]
            eligible(catalog, hardware, firmware).contains(release) ==> catalog.contains(release)
                && requirement_admits(release.hardware_constraint, hardware)
                && requirement_admits(release.firmware_constraint, firmware),
        forall|i: int|
            0 <= i < catalog.len() && (#[trigger] catalog[i]).admits(hardware, firmware)
                ==> eligible(catalog, hardware, firmware).contains(catalog[i]),
{
    let admitted = |release: Release| release.admits(hardware, firmware);
    let chosen = catalog.filter(admitted);
    assert forall|release: Release| #[trigger] chosen.contains(release) implies catalog.contains(
        release,
    ) && requirement_admits(release.hardware_constraint, hardware) && requirement_admits(
        release.firmware_constraint,
        firmware,
    ) by {
        catalog.lemma_filter_contains_rev(admitted, release);
        let k = choose|k: int| 0 <= k < chosen.len() && chosen[k] == release;
        catalog.lemma_filter_pred(admitted, k);
    }
    assert forall|i: int|
        0 <= i < catalog.len() && (#[trigger] catalog[i]).admits(
            hardware,
            firmware,
        ) implies chosen.contains(catalog[i]) by {
        catalog.lemma_filter_contains(admitted, i);
    }
}

/// The release to offer, where there is one, is an eligible release, and no
/// other eligible release installs a strictly later version. Where no
/// release is eligible there is none to offer.
pub proof fn lemma_best_is_the_latest_eligible(
    catalog: Seq<Release>,
    hardware: Seq<char>,
    firmware: Seq<char>,
)
    ensures
        eligible(catalog, hardware, firmware).len() == 0 ==> best(catalog, hardware, firmware)
            is None,
        best(catalog, hardware, firmware) matches Some(chosen) ==> eligible(
            catalog,
            hardware,
            firmware,
        ).contains(chosen) && forall|other: Release|
            other != chosen && #[trigger] eligible(catalog, hardware, firmware).contains(other)
                ==> !other.supersedes(chosen),
{
    lemma_eligible_empty(catalog, hardware, firmware);
    if let Some(i) = best_index(catalog, hardware, firmware) {
        let chosen = catalog[i];
        assert(leads(catalog, hardware, firmware, i));
        lemma_eligible_are_the_admitting_entries(catalog, hardware, firmware);
        assert forall|other: Release|
            other != chosen && #[trigger] eligible(catalog, hardware, firmware).contains(
                other,
            ) implies !other.supersedes(chosen) by {
            assert(catalog.contains(other));
            let j = choose|j: int| 0 <= j < catalog.len() && catalog[j] == other;
            assert(catalog[j].admits(hardware, firmware));
        }
    }
}

/// Whatever a well-formed catalog offers a device names its binary by a valid
/// artifact identifier.
pub proof fn lemma_offered_artifacts_are_valid(
    catalog: Seq<Release>,
    hardware: Seq<char>,
    firmware: Seq<char>,
)
    requires
        well_formed_catalog(catalog),
    ensures
        forall|release: Release| #[trigger]
            eligible(catalog, hardware, firmware).contains(release) ==> valid_artifact_id(
                release.artifact_id,
            ),
        best(catalog, hardware, firmware) matches Some(chosen) ==> valid_artifact_id(
            chosen.artifact_id,
        ),
{
    lemma_eligible_are_the_admitting_entries(catalog, hardware, firmware);
    assert forall|release: Release| #[trigger]
        eligible(catalog, hardware, firmware).contains(release) implies valid_artifact_id(
        release.artifact_id,
    ) by {
        let k = choose|k: int| 0 <= k < catalog.len() && catalog[k] == release;
        assert(catalog[k].well_formed());
    }
    if let Some(i) = best_index(catalog, hardware, firmware) {
        assert(leads(catalog, hardware, firmware, i));
        assert(catalog[i].well_formed());
    }
}

/// Of two entries that both admit the device, the one that installs the
/// earlier version is never the one offered.
pub proof fn lemma_best_prefers_the_later_version(
    catalog: Seq<Release>,
    hardware: Seq<char>,
    firmware: Seq<char>,
    earlier: int,
    later: int,
)
    requires
        0 <= earlier < catalog.len(),
        0 <= later < catalog.len(),
        earlier != later,
        catalog[earlier].admits(hardware, firmware),
        catalog[later].admits(hardware, firmware),
        catalog[later].supersedes(catalog[earlier]),
    ensures
        best_index(catalog, hardware, firmware) != Some(earlier),
{
    if best_index(catalog, hardware, firmware) == Some(earlier) {
        assert(leads(catalog, hardware, firmware, earlier));
        assert(!catalog[later].supersedes(catalog[earlier]));
    }
}

} // verus!
