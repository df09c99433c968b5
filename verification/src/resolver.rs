//! The choice of releases for a device.
//!
//! A device reports its hardware revision and the firmware it runs. It
//! qualifies for a release when each of the two satisfies the range that the
//! release sets for it. Of the releases a device qualifies for, the one that
//! installs the latest version is the one to offer, wherever it stands in the
//! catalog.
//!
//! Answering a request asks each release whether it admits the device. The
//! rest is decided on the flags that come back and on the ranks that the
//! catalog keeps.

use crate::artifact::valid_artifact_id;
use crate::device::DeviceState;
use crate::error::RequestError;
use crate::manifest::{ranked, release_views, Manifest};
use crate::release::{Announcement, Binary, Offer, Release};
use crate::selection::{highest, is_highest, lemma_set_positions_step, select, set_positions};
use crate::version::{version_syntax, Version};
use vstd::prelude::*;

verus! {

/// The releases of the catalog that a device qualifies for, in catalog
/// order: those whose hardware range holds the device's hardware revision and
/// whose firmware range holds the device's current firmware.
pub open spec fn eligible(catalog: Seq<Release>, hardware: Seq<char>, firmware: Seq<char>) -> Seq<
    Release,
> {
    catalog.filter(|release: Release| release.admits(hardware, firmware))
}

/// Entry `i` of the catalog is the one to offer: the device qualifies for it,
/// and among the other entries the device qualifies for, it installs a
/// strictly later version than each and none installs a later version than it.
pub open spec fn leads(
    catalog: Seq<Release>,
    hardware: Seq<char>,
    firmware: Seq<char>,
    i: int,
) -> bool {
    &&& 0 <= i < catalog.len()
    &&& catalog[i].admits(hardware, firmware)
    &&& forall|j: int|
        0 <= j < catalog.len() && j != i && (#[trigger] catalog[j]).admits(hardware, firmware)
            ==> catalog[i].supersedes(catalog[j]) && !catalog[j].supersedes(catalog[i])
}

/// The position of the release to offer a device, if there is one.
pub open spec fn best_index(catalog: Seq<Release>, hardware: Seq<char>, firmware: Seq<char>)
    -> Option<int> {
    if exists|i: int| leads(catalog, hardware, firmware, i) {
        Some(choose|i: int| leads(catalog, hardware, firmware, i))
    } else {
        None
    }
}

/// The release to offer a device, if there is one.
pub open spec fn best(catalog: Seq<Release>, hardware: Seq<char>, firmware: Seq<char>) -> Option<
    Release,
> {
    match best_index(catalog, hardware, firmware) {
        Some(i) => Some(catalog[i]),
        None => None,
    }
}

/// What a list of offers says, entry by entry.
pub open spec fn offer_views(offers: Seq<Offer>) -> Seq<Announcement> {
    offers.map_values(|offer: Offer| offer@)
}

/// What a device is told of each of a list of releases.
pub open spec fn announced(releases: Seq<Release>) -> Seq<Announcement> {
    releases.map_values(|release: Release| release.announcement())
}

/// `flags` says of each entry of the catalog whether it admits the device.
pub open spec fn are_admissions(
    catalog: Seq<Release>,
    hardware: Seq<char>,
    firmware: Seq<char>,
    flags: Seq<bool>,
) -> bool {
    &&& flags.len() == catalog.len()
    &&& forall|i: int|
        0 <= i < flags.len() ==> #[trigger] flags[i] == catalog[i].admits(hardware, firmware)
}

/// The entries found at the given positions of the catalog.
pub open spec fn entries_at(catalog: Seq<Release>, positions: Seq<usize>) -> Seq<Release> {
    positions.map_values(|i: usize| catalog[i as int])
}

/// At most one entry leads.
pub proof fn lemma_leader_is_unique(
    catalog: Seq<Release>,
    hardware: Seq<char>,
    firmware: Seq<char>,
    i: int,
    j: int,
)
    requires
        leads(catalog, hardware, firmware, i),
        leads(catalog, hardware, firmware, j),
    ensures
        i == j,
{
    if i != j {
        assert(catalog[j].admits(hardware, firmware));
        assert(catalog[i].supersedes(catalog[j]));
        assert(catalog[i].admits(hardware, firmware));
        assert(!catalog[i].supersedes(catalog[j]));
    }
}

/// A device qualifies for no release exactly when no entry of the catalog
/// admits it.
pub proof fn lemma_eligible_empty(catalog: Seq<Release>, hardware: Seq<char>, firmware: Seq<char>)
    ensures
        eligible(catalog, hardware, firmware).len() == 0 <==> forall|i: int|
            0 <= i < catalog.len() ==> !(#[trigger] catalog[i]).admits(hardware, firmware),
{
    let admitted = |release: Release| release.admits(hardware, firmware);
    if forall|i: int|
        0 <= i < catalog.len() ==> !(#[trigger] catalog[i]).admits(hardware, firmware) {
        assert forall|release: Release| #[trigger]
            catalog.contains(release) implies !admitted(release) by {
            let k = choose|k: int| 0 <= k < catalog.len() && catalog[k] == release;
            assert(!catalog[k].admits(hardware, firmware));
        }
        catalog.lemma_all_neg_filter_empty(admitted);
    } else {
        let k = choose|k: int|
            0 <= k < catalog.len() && (#[trigger] catalog[k]).admits(hardware, firmware);
        catalog.lemma_filter_contains(admitted, k);
    }
}

/// Going one entry further down the catalog adds that entry to the eligible
/// releases if the device qualifies for it, and changes nothing otherwise.
proof fn lemma_eligible_step(
    catalog: Seq<Release>,
    hardware: Seq<char>,
    firmware: Seq<char>,
    i: int,
)
    requires
        0 <= i < catalog.len(),
    ensures
        eligible(catalog.take(i + 1), hardware, firmware) == if catalog[i].admits(
            hardware,
            firmware,
        ) {
            eligible(catalog.take(i), hardware, firmware).push(catalog[i])
        } else {
            eligible(catalog.take(i), hardware, firmware)
        },
{
    reveal(Seq::filter);
    assert(catalog.take(i + 1).drop_last() =~= catalog.take(i));
}

/// The entries at the positions where the admission flag is set are the
/// eligible releases.
pub proof fn lemma_admitted_positions_are_eligible(
    catalog: Seq<Release>,
    hardware: Seq<char>,
    firmware: Seq<char>,
    flags: Seq<bool>,
    n: int,
)
    requires
        are_admissions(catalog, hardware, firmware, flags),
        catalog.len() <= usize::MAX,
        0 <= n <= catalog.len(),
    ensures
        entries_at(catalog, set_positions(flags.take(n))) == eligible(
            catalog.take(n),
            hardware,
            firmware,
        ),
        forall|p: int|
            0 <= p < set_positions(flags.take(n)).len() ==> (#[trigger] set_positions(
                flags.take(n),
            )[p]) < n,
    decreases n,
{
    if n == 0 {
        reveal(Seq::filter);
        assert(flags.take(0) =~= Seq::<bool>::empty());
        assert(catalog.take(0) =~= Seq::<Release>::empty());
        assert(set_positions(flags.take(0)) =~= Seq::<usize>::empty());
        assert(entries_at(catalog, set_positions(flags.take(0))) =~= Seq::<Release>::empty());
    } else {
        lemma_admitted_positions_are_eligible(catalog, hardware, firmware, flags, n - 1);
        lemma_set_positions_step(flags, n - 1);
        lemma_eligible_step(catalog, hardware, firmware, n - 1);
        let before = set_positions(flags.take(n - 1));
        if flags[n - 1] {
            assert(entries_at(catalog, before.push((n - 1) as usize)) =~= entries_at(
                catalog,
                before,
            ).push(catalog[n - 1]));
        }
    }
}

/// The entry that holds the highest rank among those that admit the device
/// is the one to offer.
pub proof fn lemma_highest_ranked_leads(
    catalog: Seq<Release>,
    hardware: Seq<char>,
    firmware: Seq<char>,
    ranks: Seq<usize>,
    candidates: Seq<Option<usize>>,
    i: int,
)
    requires
        ranked(catalog, ranks),
        candidates.len() == catalog.len(),
        forall|j: int|
            0 <= j < catalog.len() ==> #[trigger] candidates[j] == if catalog[j].admits(
                hardware,
                firmware,
            ) {
                Some(ranks[j])
            } else {
                None
            },
        is_highest(candidates, i),
    ensures
        leads(catalog, hardware, firmware, i),
{
    assert forall|j: int|
        0 <= j < catalog.len() && j != i && (#[trigger] catalog[j]).admits(
            hardware,
            firmware,
        ) implies catalog[i].supersedes(catalog[j]) && !catalog[j].supersedes(catalog[i]) by {
        assert(candidates[j] is Some);
        assert(ranks[j] != ranks[i]);
        assert(ranks[i] > ranks[j]);
    }
}

impl Manifest {
    /// Says of each release of the catalog whether the device qualifies for
    /// it.
    pub fn admissions(&self, hwv: &Version, fwv: &Version) -> (r: Vec<bool>)
        ensures
            are_admissions(self@, hwv@, fwv@, r@),
    {
        let binaries = self.releases();
        let ghost catalog = self@;
        let n = binaries.len();
        let mut flags: Vec<bool> = Vec::new();
        let mut i: usize = 0;
        while i < n
            invariant
                catalog == release_views(binaries@),
                n == binaries.len(),
                i <= n,
                flags.len() == i,
                forall|j: int| 0 <= j < i ==> #[trigger] flags[j] == catalog[j].admits(hwv@, fwv@),
            decreases n - i,
        {
            flags.push(binaries[i].admits(hwv, fwv));
            i = i + 1;
        }
        flags
    }

    /// Every release of the catalog that the device qualifies for, in catalog
    /// order.
    pub fn get_available_binaries(&self, hwv: Version, fwv: Version) -> (r: Vec<Binary>)
        ensures
            release_views(r@) == eligible(self@, hwv@, fwv@),
    {
        let binaries = self.releases();
        let ghost catalog = self@;
        let flags = self.admissions(&hwv, &fwv);
        let positions = select(&flags);
        proof {
            assert(catalog.len() == binaries.len());
            lemma_admitted_positions_are_eligible(
                catalog,
                hwv@,
                fwv@,
                flags@,
                catalog.len() as int,
            );
            assert(flags@.take(catalog.len() as int) =~= flags@);
            assert(catalog.take(catalog.len() as int) =~= catalog);
        }
        let mut found: Vec<Binary> = Vec::new();
        let mut p: usize = 0;
        while p < positions.len()
            invariant
                catalog == release_views(binaries@),
                forall|q: int|
                    0 <= q < positions.len() ==> (#[trigger] positions[q]) < binaries.len(),
                p <= positions.len(),
                found.len() == p,
                forall|q: int|
                    0 <= q < p ==> (#[trigger] found[q])@ == catalog[positions[q] as int],
            decreases positions.len() - p,
        {
            found.push(binaries[positions[p]].clone());
            p = p + 1;
        }
        assert(release_views(found@) =~= entries_at(catalog, positions@));
        found
    }

    /// The release to offer the device: among those it qualifies for, the
    /// one that installs the latest version. `None` exactly when the device
    /// qualifies for none.
    pub fn best(&self, hwv: &Version, fwv: &Version) -> (r: Option<Binary>)
        ensures
            r is None <==> eligible(self@, hwv@, fwv@).len() == 0,
            r matches Some(binary) ==> exists|i: int|
                leads(self@, hwv@, fwv@, i) && binary@ == self@[i],
            match r {
                Some(binary) => best(self@, hwv@, fwv@) == Some(binary@),
                None => best(self@, hwv@, fwv@) is None,
            },
    {
        let binaries = self.releases();
        let ranks = self.ranks();
        let ghost catalog = self@;
        let flags = self.admissions(hwv, fwv);
        let n = binaries.len();
        let mut candidates: Vec<Option<usize>> = Vec::new();
        let mut i: usize = 0;
        while i < n
            invariant
                n == flags.len(),
                n == ranks.len(),
                i <= n,
                candidates.len() == i,
                forall|j: int|
                    0 <= j < i ==> #[trigger] candidates[j] == if flags[j] {
                        Some(ranks[j])
                    } else {
                        None
                    },
            decreases n - i,
        {
            candidates.push(if flags[i] { Some(ranks[i]) } else { None });
            i = i + 1;
        }
        proof {
            lemma_eligible_empty(catalog, hwv@, fwv@);
        }
        match highest(&candidates) {
            None => {
                assert forall|i: int| !leads(catalog, hwv@, fwv@, i) by {
                    if 0 <= i < catalog.len() {
                        assert(candidates[i] is None);
                        assert(!catalog[i].admits(hwv@, fwv@));
                    }
                }
                assert forall|i: int|
                    0 <= i < catalog.len() implies !(#[trigger] catalog[i]).admits(hwv@, fwv@) by {
                    assert(candidates[i] is None);
                }
                None
            },
            Some(top) => {
                proof {
                    lemma_highest_ranked_leads(
                        catalog,
                        hwv@,
                        fwv@,
                        ranks@,
                        candidates@,
                        top as int,
                    );
                    let chosen = choose|i: int| leads(catalog, hwv@, fwv@, i);
                    lemma_leader_is_unique(catalog, hwv@, fwv@, chosen, top as int);
                    assert(catalog[top as int].admits(hwv@, fwv@));
                }
                Some(binaries[top].clone())
            },
        }
    }

    /// Answers a request for every release the device qualifies for.
    ///
    /// Fails with `InvalidVersion` exactly when one of the two texts is not a
    /// semantic version; a device that qualifies for nothing gets an empty
    /// list. Every artifact named in the answer is a valid artifact
    /// identifier.
    pub fn offers(&self, hardware: &str, firmware: &str) -> (r: Result<Vec<Offer>, RequestError>)
        ensures
            r is Ok == (version_syntax(hardware@) && version_syntax(firmware@)),
            r matches Ok(list) ==> offer_views(list@) == announced(
                eligible(self@, hardware@, firmware@),
            ),
            r matches Ok(list) ==> forall|i: int|
                0 <= i < list.len() ==> valid_artifact_id((#[trigger] list[i])@.artifact_id),
            r matches Err(error) ==> error == RequestError::InvalidVersion,
    {
        let device = match DeviceState::parse(hardware, firmware) {
            Ok(device) => device,
            Err(error) => { return Err(error); },
        };
        let found = self.get_available_binaries(
            device.hardware_version,
            device.current_firmware_version,
        );
        let ghost releases = release_views(found@);
        let mut list: Vec<Offer> = Vec::new();
        let mut i: usize = 0;
        while i < found.len()
            invariant
                releases == release_views(found@),
                i <= found.len(),
                list.len() == i,
                forall|k: int| 0 <= k < i ==> (#[trigger] list[k])@ == releases[k].announcement(),
                forall|k: int| 0 <= k < i ==> valid_artifact_id((#[trigger] list[k])@.artifact_id),
            decreases found.len() - i,
        {
            list.push(found[i].offer());
            i = i + 1;
        }
        assert(offer_views(list@) =~= announced(releases));
        Ok(list)
    }

    /// Answers a request for the one release to install.
    ///
    /// Fails with `InvalidVersion` exactly when one of the two texts is not a
    /// semantic version. A device that qualifies for nothing is answered with
    /// `None`, which is no error. The artifact named in an offer is a valid
    /// artifact identifier.
    pub fn best_offer(&self, hardware: &str, firmware: &str) -> (r: Result<
        Option<Offer>,
        RequestError,
    >)
        ensures
            r is Ok == (version_syntax(hardware@) && version_syntax(firmware@)),
            r matches Ok(answer) ==> (answer is None <==> eligible(
                self@,
                hardware@,
                firmware@,
            ).len() == 0),
            r matches Ok(answer) ==> match answer {
                Some(offer) => best(self@, hardware@, firmware@) matches Some(release)
                    && offer@ == release.announcement() && valid_artifact_id(
                    offer@.artifact_id,
                ),
                None => best(self@, hardware@, firmware@) is None,
            },
            r matches Err(error) ==> error == RequestError::InvalidVersion,
    {
        let device = match DeviceState::parse(hardware, firmware) {
            Ok(device) => device,
            Err(error) => { return Err(error); },
        };
        match self.best(&device.hardware_version, &device.current_firmware_version) {
            Some(binary) => Ok(Some(binary.offer())),
            None => Ok(None),
        }
    }
}

} // verus!
