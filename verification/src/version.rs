//! Semantic versions and version ranges.
//!
//! A [`Version`] or a [`Requirement`] is kept as the text it was written in,
//! and is only ever built from text that `semver` accepts. What `semver`
//! computes on such texts is not restated here: it is given a name, and the
//! contracts of this crate speak of those names.

use std::cmp::Ordering;
use vstd::prelude::*;

verus! {

/// Whether `semver::Version::parse` accepts `text`.
pub uninterp spec fn version_syntax(text: Seq<char>) -> bool;

/// Whether `semver::VersionReq::parse` accepts `text`.
pub uninterp spec fn requirement_syntax(text: Seq<char>) -> bool;

/// How the version written as `a` compares with the version written as `b`
/// in the total order of `semver::Version`. Meaningful when both texts are
/// versions.
pub uninterp spec fn version_order(a: Seq<char>, b: Seq<char>) -> Precedence;

/// Whether the range written as `requirement` is satisfied by the version
/// written as `version`, as `semver::VersionReq::matches` decides it.
/// Meaningful when both texts are well formed.
pub uninterp spec fn requirement_admits(requirement: Seq<char>, version: Seq<char>) -> bool;

/// The outcome of comparing one version with another.
#[derive(Clone, Copy, Debug, PartialEq, Eq, Structural)]
pub enum Precedence {
    Lower,
    Same,
    Higher,
}

impl Precedence {
    /// The outcome seen from the other side.
    pub open spec fn reversed(self) -> Precedence {
        match self {
            Precedence::Lower => Precedence::Higher,
            Precedence::Same => Precedence::Same,
            Precedence::Higher => Precedence::Lower,
        }
    }
}

/// `a` is a strictly later version than `b`.
pub open spec fn outranks(a: Seq<char>, b: Seq<char>) -> bool {
    version_order(a, b) is Higher
}

/// "Later than" passes through the pair `a`, `b`: `a` is later than every
/// version that `b` is later than, and every version that is later than `a`
/// is later than `b`.
pub open spec fn later_passes_through(a: Seq<char>, b: Seq<char>) -> bool {
    &&& forall|w: Seq<char>| version_syntax(w) && #[trigger] outranks(b, w) ==> outranks(a, w)
    &&& forall|w: Seq<char>| version_syntax(w) && #[trigger] outranks(w, a) ==> outranks(w, b)
}

/// Calls `semver::Version::parse` and reports whether it succeeded.
#[verifier::external_body]
fn version_text_is_valid(text: &str) -> (ok: bool)
    ensures
        ok == version_syntax(text@),
{
    semver::Version::parse(text).is_ok()
}

/// Calls `semver::VersionReq::parse` and reports whether it succeeded.
#[verifier::external_body]
fn requirement_text_is_valid(text: &str) -> (ok: bool)
    ensures
        ok == requirement_syntax(text@),
{
    semver::VersionReq::parse(text).is_ok()
}

/// Parses both texts with `semver::Version::parse` and compares the two
/// versions with `Ord::cmp`, which `semver` documents as a total order on
/// `Version`: numbers first, then the pre-release tag, then build metadata.
///
/// The contract names the outcome and claims two things of that order which
/// nothing here proves: that comparing the other way round gives the
/// reversed outcome, and that "later than" is transitive through the pair
/// compared, whichever of the two is the later one.
#[verifier::external_body]
fn compare_version_texts(a: &str, b: &str) -> (r: Precedence)
    requires
        version_syntax(a@),
        version_syntax(b@),
    ensures
        r == version_order(a@, b@),
        version_order(b@, a@) == r.reversed(),
        r is Higher ==> later_passes_through(a@, b@),
        r is Lower ==> later_passes_through(b@, a@),
{
    let x = semver::Version::parse(a).unwrap();
    let y = semver::Version::parse(b).unwrap();
    match x.cmp(&y) {
        Ordering::Less => Precedence::Lower,
        Ordering::Equal => Precedence::Same,
        Ordering::Greater => Precedence::Higher,
    }
}

/// Parses the range with `semver::VersionReq::parse` and the version with
/// `semver::Version::parse`, and asks `semver::VersionReq::matches` whether
/// the version satisfies the range.
#[verifier::external_body]
fn requirement_text_admits(requirement: &str, version: &str) -> (r: bool)
    requires
        requirement_syntax(requirement@),
        version_syntax(version@),
    ensures
        r == requirement_admits(requirement@, version@),
{
    let range = semver::VersionReq::parse(requirement).unwrap();
    let v = semver::Version::parse(version).unwrap();
    range.matches(&v)
}

/// A semantic version, such as `1.4.2` or `2.0.0-rc.1`.
#[derive(Debug)]
pub struct Version {
    text: String,
}

impl View for Version {
    type V = Seq<char>;

    /// The text of the version.
    closed spec fn view(&self) -> Seq<char> {
        self.text@
    }
}

impl Version {
    /// A version is only ever built from text that is a semantic version.
    #[verifier::type_invariant]
    pub open spec fn well_formed(self) -> bool {
        version_syntax(self@)
    }

    /// Reads a version from text. Succeeds exactly on the texts that are
    /// semantic versions, and keeps the text as written.
    pub fn parse(text: &str) -> (r: Option<Version>)
        ensures
            r.is_some() == version_syntax(text@),
            r matches Some(v) ==> v@ == text@,
    {
        if version_text_is_valid(text) {
            Some(Version { text: text.to_owned() })
        } else {
            None
        }
    }

    /// The text of the version.
    pub fn as_str(&self) -> (r: &str)
        ensures
            r@ == self@,
    {
        self.text.as_str()
    }

    /// Compares this version with another.
    ///
    /// Comparing the other way round gives the reversed outcome. The later
    /// of the two is also later than every version that the earlier one is
    /// later than, and whatever is later than the later one is later than
    /// the earlier one.
    pub fn precedence(&self, other: &Version) -> (r: Precedence)
        ensures
            r == version_order(self@, other@),
            version_order(other@, self@) == r.reversed(),
            r is Higher ==> later_passes_through(self@, other@),
            r is Lower ==> later_passes_through(other@, self@),
    {
        proof {
            use_type_invariant(self);
            use_type_invariant(other);
        }
        compare_version_texts(self.text.as_str(), other.text.as_str())
    }
}

impl Clone for Version {
    fn clone(&self) -> (r: Self)
        ensures
            r == *self,
    {
        proof {
            use_type_invariant(self);
        }
        Version { text: self.text.clone() }
    }
}

/// A range of versions, such as `>=1.2.0, <2.0.0`.
#[derive(Debug)]
pub struct Requirement {
    text: String,
}

impl View for Requirement {
    type V = Seq<char>;

    /// The text of the range.
    closed spec fn view(&self) -> Seq<char> {
        self.text@
    }
}

impl Requirement {
    /// A range is only ever built from text that is a version range.
    #[verifier::type_invariant]
    pub open spec fn well_formed(self) -> bool {
        requirement_syntax(self@)
    }

    /// Reads a range from text. Succeeds exactly on the texts that are
    /// version ranges, and keeps the text as written.
    pub fn parse(text: &str) -> (r: Option<Requirement>)
        ensures
            r.is_some() == requirement_syntax(text@),
            r matches Some(range) ==> range@ == text@,
    {
        if requirement_text_is_valid(text) {
            Some(Requirement { text: text.to_owned() })
        } else {
            None
        }
    }

    /// The text of the range.
    pub fn as_str(&self) -> (r: &str)
        ensures
            r@ == self@,
    {
        self.text.as_str()
    }

    /// Whether `version` lies in this range.
    pub fn matches(&self, version: &Version) -> (r: bool)
        ensures
            r == requirement_admits(self@, version@),
    {
        proof {
            use_type_invariant(self);
            use_type_invariant(version);
        }
        requirement_text_admits(self.text.as_str(), version.text.as_str())
    }
}

impl Clone for Requirement {
    fn clone(&self) -> (r: Self)
        ensures
            r == *self,
    {
        proof {
            use_type_invariant(self);
        }
        Requirement { text: self.text.clone() }
    }
}

} // verus!
