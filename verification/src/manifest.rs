//! The catalog of releases: how it is loaded and what it holds.
//!
//! Loading checks every entry, compares the target versions with one
//! another, and keeps the outcome as a rank per entry. Nothing is compared
//! again once the catalog stands.

use crate::artifact::{Payload, CONTENT_TYPE};
use crate::error::{CatalogError, RequestError};
use crate::release::{Binary, Descriptor, Release};
use crate::selection::{is_later, is_placement, place};
use crate::version::{later_passes_through, version_order, Precedence};
use vstd::prelude::*;

verus! {

/// What a list of binaries says, entry by entry.
pub open spec fn release_views(binaries: Seq<Binary>) -> Seq<Release> {
    binaries.map_values(|binary: Binary| binary@)
}

/// What a list of catalog entries says, entry by entry.
pub open spec fn described(source: Seq<Descriptor>) -> Seq<Release> {
    source.map_values(|descriptor: Descriptor| descriptor@)
}

/// No two entries of the catalog install the same version.
pub open spec fn distinct_versions(catalog: Seq<Release>) -> bool {
    forall|i: int, j: int|
        0 <= i < catalog.len() && 0 <= j < catalog.len() && i != j ==> !(version_order(
            #[trigger] catalog[i].target_version,
            #[trigger] catalog[j].target_version,
        ) is Same)
}

/// Every entry of the catalog is well formed, and no two entries install the
/// same version.
pub open spec fn well_formed_catalog(catalog: Seq<Release>) -> bool {
    &&& forall|i: int| 0 <= i < catalog.len() ==> (#[trigger] catalog[i]).well_formed()
    &&& distinct_versions(catalog)
}

/// `ranks` puts the entries of the catalog in the order of their versions:
/// every entry has a rank of its own, below the number of entries, and an
/// entry of higher rank installs a strictly later version.
pub open spec fn ranked(catalog: Seq<Release>, ranks: Seq<usize>) -> bool {
    &&& ranks.len() == catalog.len()
    &&& forall|i: int| 0 <= i < ranks.len() ==> #[trigger] ranks[i] < ranks.len()
    &&& forall|i: int, j: int|
        0 <= i < ranks.len() && 0 <= j < ranks.len() && i != j ==> #[trigger] ranks[i]
            != #[trigger] ranks[j]
    &&& forall|i: int, j: int|
        0 <= i < ranks.len() && 0 <= j < ranks.len() && #[trigger] ranks[i] > #[trigger] ranks[j]
            ==> catalog[i].supersedes(catalog[j]) && !catalog[j].supersedes(catalog[i])
}

/// Some release of the catalog has its binary stored under `artifact_id`.
pub open spec fn lists_artifact(catalog: Seq<Release>, artifact_id: Seq<char>) -> bool {
    exists|i: int| 0 <= i < catalog.len() && (#[trigger] catalog[i]).artifact_id == artifact_id
}

/// The last entry of the catalog has been compared with every entry before
/// it: `later` marks those that install a later version, the others install
/// an earlier one.
pub open spec fn last_is_compared(catalog: Seq<Release>, later: Seq<bool>) -> bool {
    &&& catalog.len() == later.len() + 1
    &&& forall|j: int|
        0 <= j < later.len() ==> if #[trigger] later[j] {
            &&& catalog[j].supersedes(catalog.last())
            &&& !catalog.last().supersedes(catalog[j])
            &&& later_passes_through(catalog[j].target_version, catalog.last().target_version)
        } else {
            &&& catalog.last().supersedes(catalog[j])
            &&& !catalog[j].supersedes(catalog.last())
            &&& later_passes_through(catalog.last().target_version, catalog[j].target_version)
        }
}

/// Placing the last entry of a catalog by how it compares with the entries
/// before it extends a ranking of those entries to a ranking of the whole.
pub proof fn lemma_placement_ranks(
    catalog: Seq<Release>,
    ranks: Seq<usize>,
    later: Seq<bool>,
    placed: Seq<usize>,
)
    requires
        catalog.len() > 0,
        forall|i: int| 0 <= i < catalog.len() ==> (#[trigger] catalog[i]).well_formed(),
        ranked(catalog.drop_last(), ranks),
        last_is_compared(catalog, later),
        is_placement(ranks, later, placed),
    ensures
        ranked(catalog, placed),
{
    let k = ranks.len() as int;
    let before = catalog.drop_last();
    assert forall|j: int| 0 <= j < k implies is_later(later, j) == later[j] by {}
    assert forall|j: int| 0 <= j < k implies before[j] == catalog[j] by {}
    // An entry that comes after the new one ranks above every entry that
    // comes before it.
    assert forall|a: int, b: int|
        0 <= a < k && 0 <= b < k && later[a] && !later[b] implies ranks[a] > ranks[b] by {
        assert(catalog[b].well_formed());
        assert(catalog[a].supersedes(catalog.last()));
        assert(catalog[a].supersedes(catalog[b]));
        if ranks[a] < ranks[b] {
            assert(before[b].supersedes(before[a]) && !before[a].supersedes(before[b]));
        }
    }
    assert forall|i: int| 0 <= i < placed.len() implies #[trigger] placed[i] < placed.len() by {
        if i < k {
            assert(ranks[i] < k);
        }
    }
    assert forall|i: int, j: int|
        0 <= i < placed.len() && 0 <= j < placed.len() && i != j implies #[trigger] placed[i]
        != #[trigger] placed[j] by {
        lemma_placement_orders(catalog, ranks, later, placed, i, j);
        lemma_placement_orders(catalog, ranks, later, placed, j, i);
    }
    assert forall|i: int, j: int|
        0 <= i < placed.len() && 0 <= j < placed.len() && #[trigger] placed[i]
            > #[trigger] placed[j] implies catalog[i].supersedes(catalog[j])
        && !catalog[j].supersedes(catalog[i]) by {
        lemma_placement_orders(catalog, ranks, later, placed, i, j);
        lemma_placement_orders(catalog, ranks, later, placed, j, i);
    }
}

/// Of two entries of a catalog whose last entry has just been placed, the
/// one that installs the later version has the higher rank.
proof fn lemma_placement_orders(
    catalog: Seq<Release>,
    ranks: Seq<usize>,
    later: Seq<bool>,
    placed: Seq<usize>,
    i: int,
    j: int,
)
    requires
        catalog.len() > 0,
        forall|i: int| 0 <= i < catalog.len() ==> (#[trigger] catalog[i]).well_formed(),
        ranked(catalog.drop_last(), ranks),
        last_is_compared(catalog, later),
        is_placement(ranks, later, placed),
        forall|a: int, b: int|
            0 <= a < ranks.len() && 0 <= b < ranks.len() && later[a] && !later[b] ==> ranks[a]
                > ranks[b],
        0 <= i < placed.len(),
        0 <= j < placed.len(),
        i != j,
    ensures
        placed[i] != placed[j],
        placed[i] > placed[j] ==> catalog[i].supersedes(catalog[j]) && !catalog[j].supersedes(
            catalog[i],
        ),
{
    let k = ranks.len() as int;
    let before = catalog.drop_last();
    assert forall|a: int| 0 <= a < k implies is_later(later, a) == later[a] by {}
    if i < k && j < k {
        assert(before[i] == catalog[i] && before[j] == catalog[j]);
        assert(ranks[i] != ranks[j]);
        if ranks[i] > ranks[j] {
            assert(before[i].supersedes(before[j]) && !before[j].supersedes(before[i]));
        } else {
            assert(ranks[j] > ranks[i]);
            assert(before[j].supersedes(before[i]) && !before[i].supersedes(before[j]));
        }
    } else {
        let other = if i < k { i } else { j };
        assert(catalog.last() == catalog[k]);
        if later[other] {
            if !(forall|a: int| 0 <= a < k ==> is_later(later, a)) {
                let e = choose|e: int|
                    {
                        &&& 0 <= e < k
                        &&& !is_later(later, e)
                        &&& placed[k] == #[trigger] ranks[e] + 1
                        &&& forall|a: int|
                            0 <= a < k && !is_later(later, a) ==> #[trigger] ranks[a] <= ranks[e]
                    };
                assert(ranks[other] > ranks[e]);
            }
        } else {
            assert(!is_later(later, other));
        }
    }
}

/// A read-only catalog of releases, in the order in which they were listed.
#[derive(Debug)]
pub struct Manifest {
    path: String,
    binaries: Vec<Binary>,
    ranks: Vec<usize>,
}

impl View for Manifest {
    type V = Seq<Release>;

    /// The releases of the catalog, in order.
    closed spec fn view(&self) -> Seq<Release> {
        release_views(self.binaries@)
    }
}

impl Manifest {
    /// The catalog is well formed and its ranks order it by version.
    #[verifier::type_invariant]
    pub closed spec fn well_formed(self) -> bool {
        &&& well_formed_catalog(self@)
        &&& ranked(self@, self.ranks@)
    }

    /// Where the catalog was loaded from.
    pub closed spec fn source_path(self) -> Seq<char> {
        self.path@
    }

    /// Builds the catalog from the entries read from `path`.
    ///
    /// Succeeds exactly when every entry is well formed and no two entries
    /// install the same version; the catalog then holds the entries as
    /// listed. Anything else is a malformed catalog.
    pub fn new(path: String, source: Vec<Descriptor>) -> (r: Result<Manifest, CatalogError>)
        ensures
            r is Ok == well_formed_catalog(described(source@)),
            r matches Ok(manifest) ==> manifest@ == described(source@) && manifest.source_path()
                == path@,
            r matches Err(error) ==> error == CatalogError::Malformed,
    {
        let ghost listed = described(source@);
        let n = source.len();
        let mut binaries: Vec<Binary> = Vec::new();
        let mut ranks: Vec<usize> = Vec::new();
        let mut k: usize = 0;
        while k < n
            invariant
                listed == described(source@),
                n == source.len(),
                k <= n,
                binaries.len() == k,
                release_views(binaries@) == listed.take(k as int),
                well_formed_catalog(listed.take(k as int)),
                ranked(listed.take(k as int), ranks@),
            decreases n - k,
        {
            let ghost seen = listed.take(k as int);
            let ghost next = listed.take(k + 1);
            let binary = match Binary::from_descriptor(&source[k]) {
                Some(binary) => binary,
                None => {
                    assert(!listed[k as int].well_formed());
                    return Err(CatalogError::Malformed);
                },
            };
            let mut later: Vec<bool> = Vec::new();
            let mut j: usize = 0;
            while j < k
                invariant
                    listed == described(source@),
                    k < n,
                    listed.len() == n,
                    seen == listed.take(k as int),
                    next == listed.take(k + 1),
                    binary@ == listed[k as int],
                    binary@.well_formed(),
                    binaries.len() == k,
                    release_views(binaries@) == seen,
                    well_formed_catalog(seen),
                    j <= k,
                    later.len() == j,
                    last_is_compared(next.take(j as int).push(next[k as int]), later@),
                    forall|a: int|
                        0 <= a < j ==> !(version_order(
                            #[trigger] next[a].target_version,
                            next[k as int].target_version,
                        ) is Same) && !(version_order(
                            next[k as int].target_version,
                            next[a].target_version,
                        ) is Same),
                decreases k - j,
            {
                assert(binaries[j as int]@ == seen[j as int]);
                assert(seen[j as int].well_formed());
                let ghost compared = next.take(j as int).push(next[k as int]);
                let ghost grown = next.take(j + 1).push(next[k as int]);
                let outcome = binary.version().precedence(binaries[j].version());
                match outcome {
                    Precedence::Same => {
                        assert(seen[j as int] == listed[j as int]);
                        assert(0 <= j < listed.len() && 0 <= k < listed.len() && j != k);
                        assert(version_order(
                            listed[k as int].target_version,
                            listed[j as int].target_version,
                        ) is Same);
                        return Err(CatalogError::Malformed);
                    },
                    Precedence::Lower => {
                        later.push(true);
                    },
                    Precedence::Higher => {
                        later.push(false);
                    },
                }
                assert(last_is_compared(grown, later@)) by {
                    assert(grown.last() == next[k as int]);
                    assert(compared.last() == next[k as int]);
                    assert forall|a: int| 0 <= a < later@.len() implies grown[a] == next[a] by {}
                    assert forall|a: int| 0 <= a < j implies compared[a] == next[a] by {}
                }
                j = j + 1;
            }
            assert(next.take(k as int).push(next[k as int]) =~= next);
            assert(next.drop_last() =~= seen);
            assert forall|i: int| 0 <= i < next.len() implies (#[trigger] next[i]).well_formed(
            ) by {
                if i < k {
                    assert(seen[i].well_formed());
                }
            }
            assert(distinct_versions(next)) by {
                assert forall|a: int, b: int|
                    0 <= a < next.len() && 0 <= b < next.len() && a != b implies !(version_order(
                        #[trigger] next[a].target_version,
                        #[trigger] next[b].target_version,
                    ) is Same) by {
                    if a < k && b < k {
                        assert(seen[a] == next[a] && seen[b] == next[b]);
                    }
                }
            }
            let placed = place(&ranks, &later);
            proof {
                lemma_placement_ranks(next, ranks@, later@, placed@);
            }
            ranks = placed;
            binaries.push(binary);
            assert(release_views(binaries@) =~= next);
            k = k + 1;
        }
        assert(listed.take(n as int) =~= listed);
        Ok(Manifest { path, binaries, ranks })
    }

    /// Builds the catalog from what reading `path` gave: `None` where the
    /// source could not be read, else the entries found in it.
    ///
    /// An unread source is reported as `Unreadable`. Entries that were read
    /// are held to the rules of [`Manifest::new`].
    pub fn load(path: String, source: Option<Vec<Descriptor>>) -> (r: Result<
        Manifest,
        CatalogError,
    >)
        ensures
            r is Ok == (source matches Some(entries) && well_formed_catalog(described(entries@))),
            r matches Ok(manifest) ==> manifest@ == described(source->0@)
                && manifest.source_path() == path@,
            r matches Err(error) ==> error == if source is None {
                CatalogError::Unreadable
            } else {
                CatalogError::Malformed
            },
    {
        match source {
            None => Err(CatalogError::Unreadable),
            Some(entries) => Manifest::new(path, entries),
        }
    }

    /// The releases of the catalog, in the order in which they were listed.
    /// They make a well-formed catalog.
    pub fn releases(&self) -> (r: &Vec<Binary>)
        ensures
            release_views(r@) == self@,
            well_formed_catalog(self@),
    {
        proof {
            use_type_invariant(self);
        }
        &self.binaries
    }

    /// The rank of each release: its position in the catalog sorted from the
    /// earliest target version to the latest.
    pub fn ranks(&self) -> (r: &Vec<usize>)
        ensures
            ranked(self@, r@),
    {
        proof {
            use_type_invariant(self);
        }
        &self.ranks
    }

    /// Looks up the release whose binary is stored under `artifact_id`: the
    /// first one in catalog order. A name that no release of the catalog
    /// carries is not found.
    pub fn artifact(&self, artifact_id: &str) -> (r: Result<&Binary, RequestError>)
        ensures
            r is Ok == lists_artifact(self@, artifact_id@),
            r matches Ok(binary) ==> exists|i: int|
                0 <= i < self@.len() && binary@ == #[trigger] self@[i] && self@[i].artifact_id
                    == artifact_id@ && forall|j: int|
                    0 <= j < i ==> (#[trigger] self@[j]).artifact_id != artifact_id@,
            r matches Err(error) ==> error == RequestError::ArtifactNotFound,
    {
        let ghost catalog = self@;
        let n = self.binaries.len();
        let mut i: usize = 0;
        while i < n
            invariant
                catalog == self@,
                n == self.binaries.len(),
                i <= n,
                forall|j: int| 0 <= j < i ==> (#[trigger] catalog[j]).artifact_id != artifact_id@,
            decreases n - i,
        {
            if self.binaries[i].is_stored_as(artifact_id) {
                let binary = &self.binaries[i];
                assert(binary@ == catalog[i as int]);
                return Ok(binary);
            }
            i = i + 1;
        }
        Err(RequestError::ArtifactNotFound)
    }

    /// Answers a request for a binary, given what the store holds under
    /// `artifact_id`: `None` where it holds nothing.
    ///
    /// The binary is delivered whole, under [`CONTENT_TYPE`], when a release
    /// of the catalog carries that name and the store holds it. In every
    /// other case the artifact is not found.
    pub fn deliver(&self, artifact_id: &str, stored: Option<Vec<u8>>) -> (r: Result<
        Payload,
        RequestError,
    >)
        ensures
            r is Ok == (lists_artifact(self@, artifact_id@) && stored is Some),
            r matches Ok(payload) ==> payload.bytes@ == stored->0@ && payload.content_type@
                == CONTENT_TYPE@,
            r matches Err(error) ==> error == RequestError::ArtifactNotFound,
    {
        match self.artifact(artifact_id) {
            Err(error) => Err(error),
            Ok(_) => match stored {
                None => Err(RequestError::ArtifactNotFound),
                Some(bytes) => Ok(Payload { content_type: CONTENT_TYPE.to_owned(), bytes }),
            },
        }
    }

    /// Where the catalog was loaded from.
    pub fn path(&self) -> (r: &str)
        ensures
            r@ == self.source_path(),
    {
        self.path.as_str()
    }
}

impl Clone for Manifest {
    fn clone(&self) -> (r: Self)
        ensures
            r@ == self@,
            r.source_path() == self.source_path(),
    {
        proof {
            use_type_invariant(self);
        }
        let n = self.binaries.len();
        let mut binaries: Vec<Binary> = Vec::new();
        let mut ranks: Vec<usize> = Vec::new();
        let mut i: usize = 0;
        while i < n
            invariant
                n == self.binaries.len(),
                n == self.ranks.len(),
                i <= n,
                binaries.len() == i,
                ranks.len() == i,
                forall|k: int| 0 <= k < i ==> #[trigger] binaries[k] == self.binaries[k],
                forall|k: int| 0 <= k < i ==> #[trigger] ranks[k] == self.ranks[k],
            decreases n - i,
        {
            binaries.push(self.binaries[i].clone());
            ranks.push(self.ranks[i]);
            i = i + 1;
        }
        assert(release_views(binaries@) =~= release_views(self.binaries@));
        assert(ranks@ =~= self.ranks@);
        Manifest { path: self.path.clone(), binaries, ranks }
    }
}

} // verus!
