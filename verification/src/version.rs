//! Semantic versions as the server core reads them: the three numeric
//! components plus whether a pre-release tag is present. Parsing text is
//! left to the `semver` crate; every decision taken on the parsed value
//! is verified here.

use vstd::prelude::*;
use crate::text::dec_seq;

verus! {

/// What a parsed semantic version looks like: major, minor and patch
/// components, and whether a (non-empty) pre-release tag was present.
/// Build metadata and the pre-release text itself play no part in any
/// decision this server takes, so they are not retained.
#[derive(Clone, Copy, PartialEq, Eq, Structural, Debug)]
pub struct Version {
    /// Major component.
    pub major: u64,
    /// Minor component.
    pub minor: u64,
    /// Patch component.
    pub patch: u64,
    /// Whether the version carries a pre-release tag.
    pub pre: bool,
}

/// The result of `semver::Version::parse` on the given text: `None` when
/// the text is not a valid semantic version, otherwise the major, minor
/// and patch components and whether a pre-release tag is present. The
/// parse depends on the text alone.
pub uninterp spec fn semver_parse(s: Seq<char>) -> Option<(u64, u64, u64, bool)>;

/// Relies on `semver::Version::parse`: its result is a function of the
/// text alone; the numeric components are the `major`, `minor` and
/// `patch` fields of the parsed `semver::Version`, and the flag records
/// whether its `pre` field is non-empty.
#[verifier::external_body]
fn semver_parse_exec(s: &str) -> (r: Option<(u64, u64, u64, bool)>)
    ensures
        r == semver_parse(s@),
{
    match semver::Version::parse(s) {
        Ok(v) => Some((v.major, v.minor, v.patch, !v.pre.is_empty())),
        Err(_) => None,
    }
}

impl Version {
    /// The version made of the given components and flags.
    pub open spec fn spec_from_parts(t: (u64, u64, u64, bool)) -> Version {
        Version { major: t.0, minor: t.1, patch: t.2, pre: t.3 }
    }

    /// Builds a version with no pre-release tag.
    pub fn new(major: u64, minor: u64, patch: u64) -> (r: Version)
        ensures
            r == (Version { major, minor, patch, pre: false }),
    {
        Version { major, minor, patch, pre: false }
    }

    /// Parses `s` as a semantic version; `None` when `s` is malformed.
    pub fn parse(s: &str) -> (r: Option<Version>)
        ensures
            r matches Some(v) ==> semver_parse(s@) matches Some(t) && v
                == Version::spec_from_parts(t),
            r is None <==> semver_parse(s@) is None,
    {
        match semver_parse_exec(s) {
            Some(t) => Some(Version { major: t.0, minor: t.1, patch: t.2, pre: t.3 }),
            None => None,
        }
    }

    /// Semantic-version precedence: `self` comes strictly before `other`
    /// when the numeric components are smaller lexicographically, or they
    /// are equal and only `self` carries a pre-release tag (a pre-release
    /// precedes the release it announces).
    pub open spec fn spec_lt(self, other: Version) -> bool {
        ||| self.major < other.major
        ||| (self.major == other.major && self.minor < other.minor)
        ||| (self.major == other.major && self.minor == other.minor && self.patch < other.patch)
        ||| (self.major == other.major && self.minor == other.minor && self.patch == other.patch
            && self.pre && !other.pre)
    }

    /// Whether `self` strictly precedes `other`.
    pub fn precedes(&self, other: &Version) -> (r: bool)
        ensures
            r == self.spec_lt(*other),
    {
        if self.major != other.major {
            self.major < other.major
        } else if self.minor != other.minor {
            self.minor < other.minor
        } else if self.patch != other.patch {
            self.patch < other.patch
        } else {
            self.pre && !other.pre
        }
    }

    /// The decimal rendering `major.minor.patch` of this version (the
    /// pre-release text is not retained, so it does not appear).
    pub open spec fn spec_render(self) -> Seq<char> {
        dec_seq(self.major as nat) + seq!['.'] + dec_seq(self.minor as nat) + seq!['.']
            + dec_seq(self.patch as nat)
    }

    /// Renders the numeric components as `major.minor.patch`.
    pub fn render(&self) -> (r: String)
        ensures
            r@ == self.spec_render(),
    {
        let mut s = crate::text::u64_to_string(self.major);
        s.append(".");
        let minor = crate::text::u64_to_string(self.minor);
        s.append(minor.as_str());
        s.append(".");
        let patch = crate::text::u64_to_string(self.patch);
        s.append(patch.as_str());
        proof {
            reveal_strlit(".");
            assert(s@ =~= self.spec_render());
        }
        s
    }
}

/// The protocol's compatibility rule, `<= 0.1.0`, as the `semver` crate
/// evaluates that requirement: a version with a pre-release tag never
/// satisfies it, and otherwise the numeric components must be at most
/// `0.1.0` lexicographically.
pub open spec fn spec_client_supported(v: Version) -> bool {
    !v.pre && (v.major == 0 && (v.minor < 1 || (v.minor == 1 && v.patch == 0)))
}

/// Decides whether a client version satisfies the server's compatibility
/// rule `<= 0.1.0`.
pub fn client_supported(v: &Version) -> (r: bool)
    ensures
        r == spec_client_supported(*v),
{
    !v.pre && v.major == 0 && (v.minor < 1 || (v.minor == 1 && v.patch == 0))
}

} // verus!
