//! The bridge from semver comparators to the range sets of the solver.
//!
//! A version is ordered by its key: major, minor and patch number, then
//! its rank, so that a pre-release comes just before the release with the
//! same numbers. Pre-release tags are not told apart beyond that, and build
//! tags take no part. A requirement is the intersection of its comparators;
//! each comparator stands for one interval of keys whose ends are releases,
//! and [`ranges_for`] builds the range set of a requirement. On releases
//! that set holds exactly what the comparators of semver match.

use vstd::prelude::*;
use vstd::string::*;
use pubgrub::Ranges;
use crate::text::{decimal, push_decimal};

verus! {

/// The numbers of a version: major, minor, patch.
pub type Triple = (u64, u64, u64);

/// The key by which versions are ordered: major, minor, patch and rank,
/// compared from left to right.
pub type Key = (u64, u64, u64, u64);

/// The rank of a pre-release.
pub const PRE_RELEASE: u64 = 0;

/// The rank of a release.
pub const RELEASE: u64 = 1;

/// A range set of the solver, opaque to the verifier: see [`range_set`].
#[verifier::external_type_specification]
#[verifier::external_body]
#[verifier::reject_recursive_types(V)]
pub struct ExRanges<V>(Ranges<V>);

/// The versions a range set holds.
pub uninterp spec fn range_set(r: Ranges<Key>) -> Set<Key>;

/// The key of the release with the numbers `t`.
pub open spec fn release(t: Triple) -> Key {
    (t.0, t.1, t.2, RELEASE)
}

/// `a` comes before `b`.
pub open spec fn key_lt(a: Key, b: Key) -> bool {
    a.0 < b.0 || (a.0 == b.0 && (a.1 < b.1 || (a.1 == b.1 && (a.2 < b.2 || (a.2 == b.2 && a.3
        < b.3)))))
}

/// `a` comes before `b` or is `b`.
pub open spec fn key_le(a: Key, b: Key) -> bool {
    a == b || key_lt(a, b)
}

/// `Ranges::empty`: the set that holds no version.
#[verifier::external_body]
fn none() -> (r: Ranges<Key>)
    ensures
        range_set(r) == Set::<Key>::empty(),
{
    Ranges::empty()
}

/// `Ranges::full`: the set of all versions.
#[verifier::external_body]
fn all() -> (r: Ranges<Key>)
    ensures
        range_set(r) == Set::<Key>::full(),
{
    Ranges::full()
}

/// `Ranges::singleton`: the set that holds exactly `v`.
#[verifier::external_body]
fn only(v: Key) -> (r: Ranges<Key>)
    ensures
        range_set(r) == set![v],
{
    Ranges::singleton(v)
}

/// `Ranges::higher_than`: all versions from `v` on, `v` included.
#[verifier::external_body]
fn at_least(v: Key) -> (r: Ranges<Key>)
    ensures
        range_set(r) == Set::new(|x: Key| key_le(v, x)),
{
    Ranges::higher_than(v)
}

/// `Ranges::strictly_higher_than`: all versions after `v`.
#[verifier::external_body]
fn above(v: Key) -> (r: Ranges<Key>)
    ensures
        range_set(r) == Set::new(|x: Key| key_lt(v, x)),
{
    Ranges::strictly_higher_than(v)
}

/// `Ranges::lower_than`: all versions up to `v`, `v` included.
#[verifier::external_body]
fn at_most(v: Key) -> (r: Ranges<Key>)
    ensures
        range_set(r) == Set::new(|x: Key| key_le(x, v)),
{
    Ranges::lower_than(v)
}

/// `Ranges::strictly_lower_than`: all versions before `v`.
#[verifier::external_body]
fn below(v: Key) -> (r: Ranges<Key>)
    ensures
        range_set(r) == Set::new(|x: Key| key_lt(x, v)),
{
    Ranges::strictly_lower_than(v)
}

/// `Ranges::intersection`: the versions that both sets hold.
#[verifier::external_body]
fn both(a: &Ranges<Key>, b: &Ranges<Key>) -> (r: Ranges<Key>)
    ensures
        range_set(r) == range_set(*a).intersect(range_set(*b)),
{
    a.intersection(b)
}

/// `Ranges::contains`: whether the set holds `v`.
#[verifier::external_body]
fn holds(r: &Ranges<Key>, v: Key) -> (yes: bool)
    ensures
        yes == range_set(*r).contains(v),
{
    r.contains(&v)
}

/// What a text reads as under the semver grammar, if it writes a version:
/// its major, minor and patch number, and whether it is without a
/// pre-release tag.
pub uninterp spec fn semver_version(text: Seq<char>) -> Option<(u64, u64, u64, bool)>;

/// Calls `semver::Version::parse` and keeps the three numbers of the
/// version it returns and whether its pre-release tag is empty. The
/// contract only names the result.
#[verifier::external_body]
fn parse_semver(text: &str) -> (v: Option<(u64, u64, u64, bool)>)
    ensures
        v == semver_version(text@),
{
    match semver::Version::parse(text) {
        Ok(v) => Some((v.major, v.minor, v.patch, v.pre.is_empty())),
        Err(_) => None,
    }
}

/// The key of what a text reads as under the semver grammar.
pub open spec fn semver_key(text: Seq<char>) -> Option<Key> {
    match semver_version(text) {
        Some(v) => Some(
            (
                v.0,
                v.1,
                v.2,
                if v.3 {
                    RELEASE
                } else {
                    PRE_RELEASE
                },
            ),
        ),
        None => None,
    }
}

/// The text of the release with the numbers `v`: the numbers in decimal,
/// joined by dots.
pub open spec fn version_text(v: Triple) -> Seq<char> {
    decimal(v.0 as nat) + seq!['.'] + decimal(v.1 as nat) + seq!['.'] + decimal(v.2 as nat)
}

/// A version: major, minor and patch number, and whether it is a
/// pre-release of the release with these numbers.
#[derive(Clone, Copy, Debug, PartialEq, Eq, Hash, Structural)]
pub struct Version {
    pub major: u64,
    pub minor: u64,
    pub patch: u64,
    pub pre: bool,
}

impl Version {
    /// The release `major.minor.patch`.
    pub fn new(major: u64, minor: u64, patch: u64) -> (v: Self)
        ensures
            v == (Version { major, minor, patch, pre: false }),
    {
        Version { major, minor, patch, pre: false }
    }

    /// A pre-release of `major.minor.patch`.
    pub fn pre_release(major: u64, minor: u64, patch: u64) -> (v: Self)
        ensures
            v == (Version { major, minor, patch, pre: true }),
    {
        Version { major, minor, patch, pre: true }
    }

    /// The numbers of the version.
    pub open spec fn numbers(self) -> Triple {
        (self.major, self.minor, self.patch)
    }

    /// The key by which the version is ordered.
    pub open spec fn key(self) -> Key {
        (
            self.major,
            self.minor,
            self.patch,
            if self.pre {
                PRE_RELEASE
            } else {
                RELEASE
            },
        )
    }

    /// The key by which the version is ordered.
    pub fn order_key(&self) -> (k: Key)
        ensures
            k == self.key(),
    {
        (
            self.major,
            self.minor,
            self.patch,
            if self.pre {
                PRE_RELEASE
            } else {
                RELEASE
            },
        )
    }

    /// The version with the key `k`: a release exactly if the rank is that
    /// of a release.
    pub fn from_key(k: Key) -> (v: Self)
        ensures
            v == (Version { major: k.0, minor: k.1, patch: k.2, pre: k.3 != RELEASE }),
            k.3 == RELEASE || k.3 == PRE_RELEASE ==> v.key() == k,
    {
        Version { major: k.0, minor: k.1, patch: k.2, pre: k.3 != RELEASE }
    }

    /// Reads a version under the semver grammar. Of a pre-release tag only
    /// its presence is kept; a build tag is dropped.
    pub fn parse(text: &str) -> (v: Option<Version>)
        ensures
            match v {
                Some(v) => semver_key(text@) == Some(v.key()),
                None => semver_key(text@) is None,
            },
    {
        match parse_semver(text) {
            Some(t) => Some(Version { major: t.0, minor: t.1, patch: t.2, pre: !t.3 }),
            None => None,
        }
    }

    /// The numbers of the version as text: `<major>.<minor>.<patch>`.
    pub fn to_string(&self) -> (text: String)
        ensures
            text@ == version_text(self.numbers()),
    {
        let mut text = String::new();
        push_decimal(&mut text, self.major);
        text.push('.');
        push_decimal(&mut text, self.minor);
        text.push('.');
        push_decimal(&mut text, self.patch);
        proof {
            assert(text@ =~= version_text(self.numbers()));
        }
        text
    }

    /// Whether this version comes before `other`.
    pub fn before(&self, other: &Version) -> (yes: bool)
        ensures
            yes == key_lt(self.key(), other.key()),
    {
        self.major < other.major || (self.major == other.major && (self.minor < other.minor || (
        self.minor == other.minor && (self.patch < other.patch || (self.patch == other.patch
            && self.pre && !other.pre)))))
    }
}

/// A pre-release comes just before the release with the same numbers:
/// before it, and after everything else that comes before it.
pub proof fn lemma_pre_release_ranks_below(t: Triple, other: Key)
    requires
        other.3 == RELEASE || other.3 == PRE_RELEASE,
    ensures
        key_lt((t.0, t.1, t.2, PRE_RELEASE), release(t)),
        key_lt(other, release(t)) ==> key_le(other, (t.0, t.1, t.2, PRE_RELEASE)),
{
}

/// A comparison operator of a requirement.
#[derive(Clone, Copy, Debug, PartialEq, Eq, Hash, Structural)]
pub enum Op {
    Exact,
    Greater,
    GreaterEq,
    Less,
    LessEq,
    Tilde,
    Caret,
    Wildcard,
}

/// An operator and a partial version, such as `>=1.2`.
#[derive(Clone, Copy, Debug, PartialEq, Eq, Hash, Structural)]
pub struct Comparator {
    pub op: Op,
    pub major: u64,
    pub minor: Option<u64>,
    /// A patch number is only allowed beside a minor number.
    pub patch: Option<u64>,
}

/// A requirement: every one of its comparators has to match.
#[derive(Debug, PartialEq, Eq)]
pub struct VersionReq {
    pub comparators: Vec<Comparator>,
}

impl Clone for VersionReq {
    fn clone(&self) -> (copy: Self)
        ensures
            copy.comparators@ == self.comparators@,
    {
        let mut comparators: Vec<Comparator> = Vec::new();
        let mut i: usize = 0;
        while i < self.comparators.len()
            invariant
                i <= self.comparators@.len(),
                comparators@ == self.comparators@.take(i as int),
            decreases self.comparators@.len() - i,
        {
            comparators.push(self.comparators[i]);
            proof {
                assert(comparators@ =~= self.comparators@.take(i + 1));
            }
            i += 1;
        }
        proof {
            assert(self.comparators@.take(i as int) =~= self.comparators@);
        }
        VersionReq { comparators }
    }
}

/// Why a requirement has no range set.
#[derive(Clone, Copy, Debug, PartialEq, Eq, Structural)]
pub enum Error {
    /// A comparator names a patch number without a minor number.
    PatchWithoutMinor,
}

/// Where an interval of keys starts.
pub enum Lower {
    /// Before every key.
    Unbounded,
    /// At the key, which it holds.
    From(Key),
    /// After the key, which it does not hold.
    After(Key),
    /// After every key: the interval is empty.
    Nowhere,
}

/// Where an interval of keys ends.
pub enum Upper {
    /// After every key.
    Unbounded,
    /// At the key, which it holds.
    To(Key),
    /// Before the key, which it does not hold.
    Before(Key),
}

/// Whether `v` lies at or after the start.
pub open spec fn starts(lower: Lower, v: Key) -> bool {
    match lower {
        Lower::Unbounded => true,
        Lower::From(k) => key_le(k, v),
        Lower::After(k) => key_lt(k, v),
        Lower::Nowhere => false,
    }
}

/// Whether `v` lies at or before the end.
pub open spec fn ends(upper: Upper, v: Key) -> bool {
    match upper {
        Upper::Unbounded => true,
        Upper::To(k) => key_le(v, k),
        Upper::Before(k) => key_lt(v, k),
    }
}

/// The end just before the first release of the next major number; no end
/// where there is no next major number.
pub open spec fn next_major(major: u64) -> Upper {
    if major == u64::MAX {
        Upper::Unbounded
    } else {
        Upper::Before(release(((major + 1) as u64, 0, 0)))
    }
}

/// The end just before the first release of the next minor number.
pub open spec fn next_minor(major: u64, minor: u64) -> Upper {
    if minor == u64::MAX {
        next_major(major)
    } else {
        Upper::Before(release((major, (minor + 1) as u64, 0)))
    }
}

/// The start at the first release of the next major number; nowhere where
/// there is no next major number.
pub open spec fn from_next_major(major: u64) -> Lower {
    if major == u64::MAX {
        Lower::Nowhere
    } else {
        Lower::From(release(((major + 1) as u64, 0, 0)))
    }
}

/// The start at the first release of the next minor number.
pub open spec fn from_next_minor(major: u64, minor: u64) -> Lower {
    if minor == u64::MAX {
        from_next_major(major)
    } else {
        Lower::From(release((major, (minor + 1) as u64, 0)))
    }
}

/// The partial version with zeros for the numbers it leaves out, as the
/// key of a release.
pub open spec fn floor(major: u64, minor: Option<u64>, patch: Option<u64>) -> Key {
    release(
        (
            major,
            match minor {
                Some(m) => m,
                None => 0,
            },
            match patch {
                Some(p) => p,
                None => 0,
            },
        ),
    )
}

/// The interval of `=`: the one release `M.m.p`, or the releases of
/// `M.m`, or those of `M`, from the first of them up to the first release
/// of what follows.
pub open spec fn exact_interval(major: u64, minor: Option<u64>, patch: Option<u64>) -> (Lower, Upper) {
    match (minor, patch) {
        (Some(m), Some(p)) => (Lower::From(release((major, m, p))), Upper::To(release((major, m, p)))),
        (Some(m), None) => (Lower::From(release((major, m, 0))), next_minor(major, m)),
        _ => (Lower::From(release((major, 0, 0))), next_major(major)),
    }
}

/// The interval of `>`: everything after the last version that the partial
/// version stands for.
pub open spec fn greater_interval(major: u64, minor: Option<u64>, patch: Option<u64>) -> (
    Lower,
    Upper,
) {
    match (minor, patch) {
        (Some(m), Some(p)) => (Lower::After(release((major, m, p))), Upper::Unbounded),
        (Some(m), None) => (from_next_minor(major, m), Upper::Unbounded),
        _ => (from_next_major(major), Upper::Unbounded),
    }
}

/// The interval of `>=`: everything from the first version that the
/// partial version stands for.
pub open spec fn greater_eq_interval(major: u64, minor: Option<u64>, patch: Option<u64>) -> (
    Lower,
    Upper,
) {
    (Lower::From(floor(major, minor, patch)), Upper::Unbounded)
}

/// The interval of `<`: everything before the first version that the
/// partial version stands for.
pub open spec fn less_interval(major: u64, minor: Option<u64>, patch: Option<u64>) -> (Lower, Upper) {
    (Lower::Unbounded, Upper::Before(floor(major, minor, patch)))
}

/// The interval of `<=`: everything up to the last version that the
/// partial version stands for.
pub open spec fn less_eq_interval(major: u64, minor: Option<u64>, patch: Option<u64>) -> (
    Lower,
    Upper,
) {
    match (minor, patch) {
        (Some(m), Some(p)) => (Lower::Unbounded, Upper::To(release((major, m, p)))),
        (Some(m), None) => (Lower::Unbounded, next_minor(major, m)),
        _ => (Lower::Unbounded, next_major(major)),
    }
}

/// The interval of `~`: from `M.m.p` up to the first release of the next
/// minor number; a partial version without patch number as with `=`.
pub open spec fn tilde_interval(major: u64, minor: Option<u64>, patch: Option<u64>) -> (Lower, Upper) {
    match (minor, patch) {
        (Some(m), Some(p)) => (Lower::From(release((major, m, p))), next_minor(major, m)),
        _ => exact_interval(major, minor, patch),
    }
}

/// The interval of `^`: from the partial version up to the first release
/// that changes its first number that is not zero.
pub open spec fn caret_interval(major: u64, minor: Option<u64>, patch: Option<u64>) -> (Lower, Upper) {
    match (minor, patch) {
        (Some(m), Some(p)) => if major > 0 {
            (Lower::From(release((major, m, p))), next_major(major))
        } else if m > 0 {
            (Lower::From(release((0, m, p))), next_minor(0, m))
        } else {
            exact_interval(0, Some(0), Some(p))
        },
        (Some(m), None) => if major > 0 {
            (Lower::From(release((major, m, 0))), next_major(major))
        } else {
            exact_interval(0, Some(m), None)
        },
        _ => exact_interval(major, None, None),
    }
}

/// The interval of keys that a comparator stands for.
pub open spec fn comparator_interval(c: Comparator) -> (Lower, Upper) {
    match c.op {
        Op::Exact | Op::Wildcard => exact_interval(c.major, c.minor, c.patch),
        Op::Greater => greater_interval(c.major, c.minor, c.patch),
        Op::GreaterEq => greater_eq_interval(c.major, c.minor, c.patch),
        Op::Less => less_interval(c.major, c.minor, c.patch),
        Op::LessEq => less_eq_interval(c.major, c.minor, c.patch),
        Op::Tilde => tilde_interval(c.major, c.minor, c.patch),
        Op::Caret => caret_interval(c.major, c.minor, c.patch),
    }
}

/// Whether `v` lies in an interval.
pub open spec fn within(interval: (Lower, Upper), v: Key) -> bool {
    starts(interval.0, v) && ends(interval.1, v)
}

/// Whether the interval of a comparator holds the key `v`.
pub open spec fn comparator_holds(c: Comparator, v: Key) -> bool {
    within(comparator_interval(c), v)
}

/// Whether the interval of every comparator of a requirement holds the key
/// `v`.
pub open spec fn req_holds(req: Seq<Comparator>, v: Key) -> bool {
    forall|i: int| 0 <= i < req.len() ==> comparator_holds(#[trigger] req[i], v)
}

/// The release with the numbers `v` agrees with every part that the
/// partial version names.
pub open spec fn matches_exact(major: u64, minor: Option<u64>, patch: Option<u64>, v: Triple) -> bool {
    &&& v.0 == major
    &&& minor matches Some(m) ==> v.1 == m
    &&& patch matches Some(p) ==> v.2 == p
}

/// The release with the numbers `v` lies after every version that the
/// partial version stands for.
pub open spec fn matches_greater(
    major: u64,
    minor: Option<u64>,
    patch: Option<u64>,
    v: Triple,
) -> bool {
    ||| v.0 > major
    ||| v.0 == major && (minor matches Some(m) && (v.1 > m || (v.1 == m && (
    patch matches Some(p) && v.2 > p))))
}

/// The release with the numbers `v` lies before every version that the
/// partial version stands for.
pub open spec fn matches_less(major: u64, minor: Option<u64>, patch: Option<u64>, v: Triple) -> bool {
    ||| v.0 < major
    ||| v.0 == major && (minor matches Some(m) && (v.1 < m || (v.1 == m && (
    patch matches Some(p) && v.2 < p))))
}

/// The release with the numbers `v` agrees with the named major and minor
/// number, and its patch number is at least the named one.
pub open spec fn matches_tilde(major: u64, minor: Option<u64>, patch: Option<u64>, v: Triple) -> bool {
    &&& v.0 == major
    &&& minor matches Some(m) ==> v.1 == m
    &&& patch matches Some(p) ==> v.2 >= p
}

/// The release with the numbers `v` is at least the partial version and
/// agrees with it in everything up to and including its first part that
/// is not zero.
pub open spec fn matches_caret(major: u64, minor: Option<u64>, patch: Option<u64>, v: Triple) -> bool {
    &&& v.0 == major
    &&& match (minor, patch) {
        (None, _) => true,
        (Some(m), None) => if major > 0 {
            v.1 >= m
        } else {
            v.1 == m
        },
        (Some(m), Some(p)) => if major > 0 {
            v.1 > m || (v.1 == m && v.2 >= p)
        } else if m > 0 {
            v.1 == m && v.2 >= p
        } else {
            v.1 == m && v.2 == p
        },
    }
}

/// Whether a comparator matches the release with the numbers `v`, part by
/// part, as semver holds a comparator against a release.
pub open spec fn comparator_matches(c: Comparator, v: Triple) -> bool {
    match c.op {
        Op::Exact | Op::Wildcard => matches_exact(c.major, c.minor, c.patch, v),
        Op::Greater => matches_greater(c.major, c.minor, c.patch, v),
        Op::GreaterEq => matches_exact(c.major, c.minor, c.patch, v) || matches_greater(
            c.major,
            c.minor,
            c.patch,
            v,
        ),
        Op::Less => matches_less(c.major, c.minor, c.patch, v),
        Op::LessEq => matches_exact(c.major, c.minor, c.patch, v) || matches_less(
            c.major,
            c.minor,
            c.patch,
            v,
        ),
        Op::Tilde => matches_tilde(c.major, c.minor, c.patch, v),
        Op::Caret => matches_caret(c.major, c.minor, c.patch, v),
    }
}

/// Whether every comparator of a requirement matches the release with the
/// numbers `v`.
pub open spec fn req_matches(req: Seq<Comparator>, v: Triple) -> bool {
    forall|i: int| 0 <= i < req.len() ==> comparator_matches(#[trigger] req[i], v)
}

/// A partial version may name a patch number only beside a minor number.
pub open spec fn partial(minor: Option<u64>, patch: Option<u64>) -> bool {
    patch is Some ==> minor is Some
}

/// Every comparator of the requirement is a partial version.
pub open spec fn req_valid(req: Seq<Comparator>) -> bool {
    forall|i: int| 0 <= i < req.len() ==> partial((#[trigger] req[i]).minor, req[i].patch)
}

/// The interval of a comparator holds a release exactly if the comparator
/// matches it.
pub proof fn lemma_comparator_matches_release(c: Comparator, v: Triple)
    requires
        partial(c.minor, c.patch),
    ensures
        comparator_holds(c, release(v)) == comparator_matches(c, v),
{
}

/// The intervals of a requirement hold a release exactly if the
/// requirement matches it.
pub proof fn lemma_req_matches_release(req: Seq<Comparator>, v: Triple)
    requires
        req_valid(req),
    ensures
        req_holds(req, release(v)) == req_matches(req, v),
{
    assert forall|i: int| 0 <= i < req.len() implies comparator_holds(
        #[trigger] req[i],
        release(v),
    ) == comparator_matches(req[i], v) by {
        lemma_comparator_matches_release(req[i], v);
    }
}

/// The range set of a start.
fn from_lower(lower: Lower) -> (r: Ranges<Key>)
    ensures
        range_set(r) == Set::new(|v: Key| starts(lower, v)),
{
    let r = match lower {
        Lower::Unbounded => all(),
        Lower::From(k) => at_least(k),
        Lower::After(k) => above(k),
        Lower::Nowhere => none(),
    };
    assert(range_set(r) =~= Set::new(|v: Key| starts(lower, v)));
    r
}

/// The range set of an end.
fn from_upper(upper: Upper) -> (r: Ranges<Key>)
    ensures
        range_set(r) == Set::new(|v: Key| ends(upper, v)),
{
    let r = match upper {
        Upper::Unbounded => all(),
        Upper::To(k) => at_most(k),
        Upper::Before(k) => below(k),
    };
    assert(range_set(r) =~= Set::new(|v: Key| ends(upper, v)));
    r
}

/// The range set of an interval.
fn from_interval(lower: Lower, upper: Upper) -> (r: Ranges<Key>)
    ensures
        range_set(r) == Set::new(|v: Key| within((lower, upper), v)),
{
    let r = both(&from_lower(lower), &from_upper(upper));
    assert(range_set(r) =~= Set::new(|v: Key| within((lower, upper), v)));
    r
}

/// The end just before the first release of the next major number.
fn before_next_major(major: u64) -> (upper: Upper)
    ensures
        upper == next_major(major),
{
    if major == u64::MAX {
        Upper::Unbounded
    } else {
        Upper::Before((major + 1, 0, 0, RELEASE))
    }
}

/// The end just before the first release of the next minor number.
fn before_next_minor(major: u64, minor: u64) -> (upper: Upper)
    ensures
        upper == next_minor(major, minor),
{
    if minor == u64::MAX {
        before_next_major(major)
    } else {
        Upper::Before((major, minor + 1, 0, RELEASE))
    }
}

/// The start at the first release of the next major number.
fn at_next_major(major: u64) -> (lower: Lower)
    ensures
        lower == from_next_major(major),
{
    if major == u64::MAX {
        Lower::Nowhere
    } else {
        Lower::From((major + 1, 0, 0, RELEASE))
    }
}

/// The start at the first release of the next minor number.
fn at_next_minor(major: u64, minor: u64) -> (lower: Lower)
    ensures
        lower == from_next_minor(major, minor),
{
    if minor == u64::MAX {
        at_next_major(major)
    } else {
        Lower::From((major, minor + 1, 0, RELEASE))
    }
}

fn ranges_exact(major: u64, minor: Option<u64>, patch: Option<u64>) -> (r: Ranges<Key>)
    requires
        partial(minor, patch),
    ensures
        range_set(r) == Set::new(|v: Key| within(exact_interval(major, minor, patch), v)),
{
    match (minor, patch) {
        (Some(minor), Some(patch)) => {
            let r = only((major, minor, patch, RELEASE));
            assert(range_set(r) =~= Set::new(
                |v: Key| within(exact_interval(major, Some(minor), Some(patch)), v),
            ));
            r
        },
        (Some(minor), None) => from_interval(
            Lower::From((major, minor, 0, RELEASE)),
            before_next_minor(major, minor),
        ),
        _ => from_interval(Lower::From((major, 0, 0, RELEASE)), before_next_major(major)),
    }
}

fn ranges_greater(major: u64, minor: Option<u64>, patch: Option<u64>) -> (r: Ranges<Key>)
    requires
        partial(minor, patch),
    ensures
        range_set(r) == Set::new(|v: Key| within(greater_interval(major, minor, patch), v)),
{
    match (minor, patch) {
        (Some(minor), Some(patch)) => from_interval(
            Lower::After((major, minor, patch, RELEASE)),
            Upper::Unbounded,
        ),
        (Some(minor), None) => from_interval(at_next_minor(major, minor), Upper::Unbounded),
        _ => from_interval(at_next_major(major), Upper::Unbounded),
    }
}

/// The partial version with zeros for the numbers it leaves out, as the
/// key of a release.
fn floor_key(major: u64, minor: Option<u64>, patch: Option<u64>) -> (k: Key)
    ensures
        k == floor(major, minor, patch),
{
    (
        major,
        match minor {
            Some(minor) => minor,
            None => 0,
        },
        match patch {
            Some(patch) => patch,
            None => 0,
        },
        RELEASE,
    )
}

fn ranges_greater_eq(major: u64, minor: Option<u64>, patch: Option<u64>) -> (r: Ranges<Key>)
    requires
        partial(minor, patch),
    ensures
        range_set(r) == Set::new(|v: Key| within(greater_eq_interval(major, minor, patch), v)),
{
    from_interval(Lower::From(floor_key(major, minor, patch)), Upper::Unbounded)
}

fn ranges_less(major: u64, minor: Option<u64>, patch: Option<u64>) -> (r: Ranges<Key>)
    requires
        partial(minor, patch),
    ensures
        range_set(r) == Set::new(|v: Key| within(less_interval(major, minor, patch), v)),
{
    from_interval(Lower::Unbounded, Upper::Before(floor_key(major, minor, patch)))
}

fn ranges_less_eq(major: u64, minor: Option<u64>, patch: Option<u64>) -> (r: Ranges<Key>)
    requires
        partial(minor, patch),
    ensures
        range_set(r) == Set::new(|v: Key| within(less_eq_interval(major, minor, patch), v)),
{
    match (minor, patch) {
        (Some(minor), Some(patch)) => from_interval(
            Lower::Unbounded,
            Upper::To((major, minor, patch, RELEASE)),
        ),
        (Some(minor), None) => from_interval(Lower::Unbounded, before_next_minor(major, minor)),
        _ => from_interval(Lower::Unbounded, before_next_major(major)),
    }
}

fn ranges_tilde(major: u64, minor: Option<u64>, patch: Option<u64>) -> (r: Ranges<Key>)
    requires
        partial(minor, patch),
    ensures
        range_set(r) == Set::new(|v: Key| within(tilde_interval(major, minor, patch), v)),
{
    match (minor, patch) {
        (Some(minor), Some(patch)) => from_interval(
            Lower::From((major, minor, patch, RELEASE)),
            before_next_minor(major, minor),
        ),
        (Some(minor), None) => ranges_exact(major, Some(minor), None),
        _ => ranges_exact(major, None, None),
    }
}

fn ranges_caret(major: u64, minor: Option<u64>, patch: Option<u64>) -> (r: Ranges<Key>)
    requires
        partial(minor, patch),
    ensures
        range_set(r) == Set::new(|v: Key| within(caret_interval(major, minor, patch), v)),
{
    match (minor, patch) {
        (Some(minor), Some(patch)) => {
            if major > 0 {
                from_interval(
                    Lower::From((major, minor, patch, RELEASE)),
                    before_next_major(major),
                )
            } else if minor > 0 {
                from_interval(Lower::From((0, minor, patch, RELEASE)), before_next_minor(0, minor))
            } else {
                ranges_exact(0, Some(0), Some(patch))
            }
        },
        (Some(minor), None) => {
            if major > 0 {
                from_interval(Lower::From((major, minor, 0, RELEASE)), before_next_major(major))
            } else {
                ranges_exact(0, Some(minor), None)
            }
        },
        _ => ranges_exact(major, None, None),
    }
}

fn ranges_wildcard(major: u64, minor: Option<u64>, patch: Option<u64>) -> (r: Ranges<Key>)
    requires
        partial(minor, patch),
    ensures
        range_set(r) == Set::new(|v: Key| within(exact_interval(major, minor, patch), v)),
{
    ranges_exact(major, minor, patch)
}

/// The range set of one comparator.
fn ranges_of(c: &Comparator) -> (r: Ranges<Key>)
    requires
        partial(c.minor, c.patch),
    ensures
        range_set(r) == Set::new(|v: Key| comparator_holds(*c, v)),
{
    let r = match c.op {
        Op::Exact => ranges_exact(c.major, c.minor, c.patch),
        Op::Greater => ranges_greater(c.major, c.minor, c.patch),
        Op::GreaterEq => ranges_greater_eq(c.major, c.minor, c.patch),
        Op::Less => ranges_less(c.major, c.minor, c.patch),
        Op::LessEq => ranges_less_eq(c.major, c.minor, c.patch),
        Op::Tilde => ranges_tilde(c.major, c.minor, c.patch),
        Op::Caret => ranges_caret(c.major, c.minor, c.patch),
        Op::Wildcard => ranges_wildcard(c.major, c.minor, c.patch),
    };
    assert(range_set(r) =~= Set::new(|v: Key| comparator_holds(*c, v)));
    r
}

/// The range set of a requirement: it holds a key exactly if the interval
/// of every comparator of the requirement holds it. A release is held
/// exactly if every comparator matches it. A requirement with a comparator
/// that names a patch number without a minor number has no range set.
pub fn ranges_for(req: VersionReq) -> (out: Result<Ranges<Key>, Error>)
    ensures
        req_valid(req.comparators@) ==> out is Ok && range_set(out->Ok_0) == Set::new(
            |v: Key| req_holds(req.comparators@, v),
        ),
        req_valid(req.comparators@) ==> forall|t: Triple|
            range_set(out->Ok_0).contains(#[trigger] release(t)) == req_matches(
                req.comparators@,
                t,
            ),
        !req_valid(req.comparators@) ==> out is Err && out->Err_0 == Error::PatchWithoutMinor,
{
    let mut res = all();
    let mut i: usize = 0;
    while i < req.comparators.len()
        invariant
            i <= req.comparators@.len(),
            req_valid(req.comparators@.take(i as int)),
            range_set(res) == Set::new(|v: Key| req_holds(req.comparators@.take(i as int), v)),
        decreases req.comparators@.len() - i,
    {
        let c = req.comparators[i];
        if c.patch.is_some() && c.minor.is_none() {
            return Err(Error::PatchWithoutMinor);
        }
        let new = ranges_of(&c);
        let ghost before = req.comparators@.take(i as int);
        let ghost after = req.comparators@.take(i + 1);
        res = both(&res, &new);
        proof {
            assert(after =~= before.push(c));
            assert forall|v: Key| req_holds(after, v) == (req_holds(before, v)
                && comparator_holds(c, v)) by {
                if req_holds(after, v) {
                    assert forall|k: int| 0 <= k < before.len() implies comparator_holds(
                        #[trigger] before[k],
                        v,
                    ) by {
                        assert(before[k] == after[k]);
                    }
                    assert(after[i as int] == c);
                }
                if req_holds(before, v) && comparator_holds(c, v) {
                    assert forall|k: int| 0 <= k < after.len() implies comparator_holds(
                        #[trigger] after[k],
                        v,
                    ) by {
                        if k < before.len() {
                            assert(before[k] == after[k]);
                        }
                    }
                }
            }
            assert(range_set(res) =~= Set::new(|v: Key| req_holds(after, v)));
            assert forall|k: int| 0 <= k < after.len() implies partial(
                (#[trigger] after[k]).minor,
                after[k].patch,
            ) by {
                if k < before.len() {
                    assert(before[k] == after[k]);
                }
            }
        }
        i += 1;
    }
    proof {
        assert(req.comparators@.take(i as int) =~= req.comparators@);
        assert forall|t: Triple|
            range_set(res).contains(#[trigger] release(t)) == req_matches(
                req.comparators@,
                t,
            ) by {
            lemma_req_matches_release(req.comparators@, t);
        }
    }
    Ok(res)
}

/// The range set of a requirement that is only lent: see [`ranges_for`].
pub fn resolve_req(req: &VersionReq) -> (out: Result<Ranges<Key>, Error>)
    ensures
        req_valid(req.comparators@) ==> out is Ok && range_set(out->Ok_0) == Set::new(
            |v: Key| req_holds(req.comparators@, v),
        ),
        req_valid(req.comparators@) ==> forall|t: Triple|
            range_set(out->Ok_0).contains(#[trigger] release(t)) == req_matches(
                req.comparators@,
                t,
            ),
        !req_valid(req.comparators@) ==> out is Err && out->Err_0 == Error::PatchWithoutMinor,
{
    ranges_for(req.clone())
}

/// Whether a range set holds a version.
pub fn contains(range: &Ranges<Key>, v: &Version) -> (yes: bool)
    ensures
        yes == range_set(*range).contains(v.key()),
{
    holds(range, v.order_key())
}

} // verus!
