use creeper::ranges::{
    contains, ranges_for, resolve_req, Comparator, Error, Op, Version, VersionReq,
};

fn op(op: semver::Op) -> Op {
    match op {
        semver::Op::Exact => Op::Exact,
        semver::Op::Greater => Op::Greater,
        semver::Op::GreaterEq => Op::GreaterEq,
        semver::Op::Less => Op::Less,
        semver::Op::LessEq => Op::LessEq,
        semver::Op::Tilde => Op::Tilde,
        semver::Op::Caret => Op::Caret,
        semver::Op::Wildcard => Op::Wildcard,
        other => panic!("operator {other:?}"),
    }
}

fn req(text: &str) -> VersionReq {
    let parsed = semver::VersionReq::parse(text).unwrap();
    VersionReq {
        comparators: parsed
            .comparators
            .iter()
            .map(|c| Comparator { op: op(c.op), major: c.major, minor: c.minor, patch: c.patch })
            .collect(),
    }
}

fn matching(text: &str, versions: &[(u64, u64, u64)]) -> Vec<(u64, u64, u64)> {
    let range = ranges_for(req(text)).unwrap();
    versions
        .iter()
        .copied()
        .filter(|v| contains(&range, &Version::new(v.0, v.1, v.2)))
        .collect()
}

const SAMPLE: [(u64, u64, u64); 12] = [
    (0, 0, 0),
    (0, 0, 3),
    (0, 0, 4),
    (0, 2, 0),
    (0, 2, 5),
    (0, 3, 0),
    (1, 0, 0),
    (1, 2, 3),
    (1, 2, 4),
    (1, 3, 0),
    (2, 0, 0),
    (3, 1, 4),
];

#[test]
fn exact_ranges() {
    assert_eq!(matching("=1", &SAMPLE), vec![(1, 0, 0), (1, 2, 3), (1, 2, 4), (1, 3, 0)]);
    assert_eq!(matching("=1.2", &SAMPLE), vec![(1, 2, 3), (1, 2, 4)]);
    assert_eq!(matching("=1.2.3", &SAMPLE), vec![(1, 2, 3)]);
    assert_eq!(matching("=0", &SAMPLE).len(), 6);
}

#[test]
fn greater_ranges() {
    assert_eq!(matching(">1", &SAMPLE), vec![(2, 0, 0), (3, 1, 4)]);
    assert_eq!(matching(">1.2", &SAMPLE), vec![(1, 3, 0), (2, 0, 0), (3, 1, 4)]);
    assert_eq!(matching(">1.2.3", &SAMPLE), vec![(1, 2, 4), (1, 3, 0), (2, 0, 0), (3, 1, 4)]);
}

#[test]
fn greater_eq_ranges() {
    assert_eq!(matching(">=2", &SAMPLE), vec![(2, 0, 0), (3, 1, 4)]);
    assert_eq!(matching(">=1.3", &SAMPLE), vec![(1, 3, 0), (2, 0, 0), (3, 1, 4)]);
    assert_eq!(matching(">=1.2.4", &SAMPLE), vec![(1, 2, 4), (1, 3, 0), (2, 0, 0), (3, 1, 4)]);
}

#[test]
fn less_ranges() {
    assert_eq!(matching("<0.2", &SAMPLE), vec![(0, 0, 0), (0, 0, 3), (0, 0, 4)]);
    assert_eq!(matching("<0.0.4", &SAMPLE), vec![(0, 0, 0), (0, 0, 3)]);
    assert_eq!(matching("<1", &SAMPLE).len(), 6);
    assert_eq!(matching("<0", &SAMPLE), vec![]);
}

#[test]
fn less_eq_ranges() {
    assert_eq!(matching("<=0.0.3", &SAMPLE), vec![(0, 0, 0), (0, 0, 3)]);
    assert_eq!(matching("<=0.0", &SAMPLE), vec![(0, 0, 0), (0, 0, 3), (0, 0, 4)]);
    assert_eq!(matching("<=0", &SAMPLE).len(), 6);
    assert_eq!(matching("<=1.2", &SAMPLE).len(), 9);
}

#[test]
fn tilde_ranges() {
    assert_eq!(matching("~1.2", &SAMPLE), vec![(1, 2, 3), (1, 2, 4)]);
    assert_eq!(matching("~1.2.4", &SAMPLE), vec![(1, 2, 4)]);
    assert_eq!(matching("~1", &SAMPLE), vec![(1, 0, 0), (1, 2, 3), (1, 2, 4), (1, 3, 0)]);
    assert_eq!(matching("~0.2.1", &SAMPLE), vec![(0, 2, 5)]);
}

#[test]
fn caret_ranges() {
    assert_eq!(matching("^1.2.4", &SAMPLE), vec![(1, 2, 4), (1, 3, 0)]);
    assert_eq!(matching("^0.2.1", &SAMPLE), vec![(0, 2, 5)]);
    assert_eq!(matching("^0.0.3", &SAMPLE), vec![(0, 0, 3)]);
    assert_eq!(matching("^1.2", &SAMPLE), vec![(1, 2, 3), (1, 2, 4), (1, 3, 0)]);
    assert_eq!(matching("^0.2", &SAMPLE), vec![(0, 2, 0), (0, 2, 5)]);
    assert_eq!(matching("^0.0", &SAMPLE), vec![(0, 0, 0), (0, 0, 3), (0, 0, 4)]);
    assert_eq!(matching("^1", &SAMPLE), vec![(1, 0, 0), (1, 2, 3), (1, 2, 4), (1, 3, 0)]);
    assert_eq!(matching("^0", &SAMPLE).len(), 6);
    assert_eq!(matching("1.2.3", &SAMPLE), vec![(1, 2, 3), (1, 2, 4), (1, 3, 0)]);
}

#[test]
fn wildcard_ranges() {
    assert_eq!(matching("*", &SAMPLE), SAMPLE.to_vec());
    assert_eq!(matching("1.*", &SAMPLE), vec![(1, 0, 0), (1, 2, 3), (1, 2, 4), (1, 3, 0)]);
    assert_eq!(matching("1.2.*", &SAMPLE), vec![(1, 2, 3), (1, 2, 4)]);
}

#[test]
fn comparators_intersect() {
    assert_eq!(matching(">=1.2.4, <2", &SAMPLE), vec![(1, 2, 4), (1, 3, 0)]);
    assert_eq!(matching(">=1, <1", &SAMPLE), vec![]);
    assert_eq!(matching(">0.0.3, <=1.0.0, ^0.2", &SAMPLE), vec![(0, 2, 0), (0, 2, 5)]);
}

#[test]
fn empty_requirement_is_the_full_range() {
    let range = ranges_for(VersionReq { comparators: vec![] }).unwrap();
    for v in SAMPLE {
        assert!(contains(&range, &Version::new(v.0, v.1, v.2)));
    }
    assert!(contains(&range, &Version::new(u64::MAX, u64::MAX, u64::MAX)));
}

#[test]
fn ranges_agree_with_semver() {
    let reqs = [
        "*", "=0", "=1", "=1.2", "=0.0", "=1.2.3", "=0.0.0", ">0", ">1", ">1.2", ">0.0", ">1.2.3",
        ">=0", ">=1", ">=1.2", ">=1.2.3", "<0", "<1", "<1.2", "<0.0", "<1.2.3", "<0.0.0", "<=0",
        "<=1", "<=1.2", "<=0.0", "<=1.2.3", "~0", "~1", "~1.2", "~0.0", "~1.2.3", "~0.0.3", "^0",
        "^1", "^2", "^0.0", "^0.2", "^1.2", "^0.0.0", "^0.0.3", "^0.2.1", "^1.2.3", "1.*", "0.*",
        "1.2.*", "0.0.*", ">=1.2.3, <2.0.0", ">1, <3", ">=0.2, <=1.2", "^1.2, <1.3", "~0.2, >0.2.4",
        ">=1, <1", "=1.2.3, >1.2.3", "<=0.0.3, ^0.0.3",
    ];
    for text in reqs {
        let theirs = semver::VersionReq::parse(text).unwrap();
        let range = ranges_for(req(text)).unwrap();
        for major in 0..4u64 {
            for minor in 0..4u64 {
                for patch in 0..5u64 {
                    let expected = theirs.matches(&semver::Version::new(major, minor, patch));
                    let got = contains(&range, &Version::new(major, minor, patch));
                    assert_eq!(got, expected, "{text} on {major}.{minor}.{patch}");
                }
            }
        }
    }
}

#[test]
fn ranges_at_the_largest_numbers() {
    let max = u64::MAX;
    let cases = [
        format!("={max}"),
        format!(">{max}"),
        format!("<={max}"),
        format!("^{max}"),
        format!("~1.{max}"),
        format!(">1.{max}"),
        format!("<=1.{max}"),
        format!("={max}.{max}"),
        format!(">{max}.{max}"),
        format!("<={max}.{max}"),
        format!("^0.{max}"),
        format!("^{max}.{max}.{max}"),
        format!("~{max}.{max}.0"),
    ];
    let probes = [
        (0, 0, 0),
        (1, max, 0),
        (1, max, max),
        (2, 0, 0),
        (0, max, 7),
        (max - 1, max, max),
        (max, 0, 0),
        (max, max, 0),
        (max, max, max),
    ];
    for text in &cases {
        let theirs = semver::VersionReq::parse(text).unwrap();
        let range = ranges_for(req(text)).unwrap();
        for v in probes {
            let expected = theirs.matches(&semver::Version::new(v.0, v.1, v.2));
            let got = contains(&range, &Version::new(v.0, v.1, v.2));
            assert_eq!(got, expected, "{text} on {v:?}");
        }
    }
}

#[test]
fn patch_without_minor_has_no_range() {
    let bad = Comparator { op: Op::Exact, major: 1, minor: None, patch: Some(2) };
    let good = Comparator { op: Op::Caret, major: 1, minor: Some(0), patch: Some(0) };
    assert_eq!(
        ranges_for(VersionReq { comparators: vec![bad] }),
        Err(Error::PatchWithoutMinor)
    );
    assert_eq!(
        ranges_for(VersionReq { comparators: vec![good, bad] }),
        Err(Error::PatchWithoutMinor)
    );
    assert!(ranges_for(VersionReq { comparators: vec![good] }).is_ok());
}

#[test]
fn version_text_and_order() {
    assert_eq!(Version::new(1, 20, 4).to_string(), "1.20.4");
    assert_eq!(Version::new(0, 0, 0).to_string(), "0.0.0");
    assert_eq!(Version::new(u64::MAX, 10, 100).to_string(), "18446744073709551615.10.100");
    assert_eq!(Version::new(1, 2, 3).order_key(), (1, 2, 3, 1));
    assert_eq!(Version::pre_release(1, 2, 3).order_key(), (1, 2, 3, 0));
    assert_eq!(Version::from_key((1, 2, 3, 1)), Version::new(1, 2, 3));
    assert_eq!(Version::from_key((1, 2, 3, 0)), Version::pre_release(1, 2, 3));
    assert!(Version::new(1, 2, 3).before(&Version::new(1, 2, 4)));
    assert!(Version::new(1, 2, 3).before(&Version::new(1, 3, 0)));
    assert!(Version::new(1, 9, 9).before(&Version::new(2, 0, 0)));
    assert!(!Version::new(1, 2, 3).before(&Version::new(1, 2, 3)));
    assert!(!Version::new(2, 0, 0).before(&Version::new(1, 9, 9)));
}

#[test]
fn version_parse() {
    assert_eq!(Version::parse("1.20.4"), Some(Version::new(1, 20, 4)));
    assert_eq!(Version::parse("0.0.0"), Some(Version::new(0, 0, 0)));
    assert_eq!(Version::parse("1.2.3-alpha.1+build"), Some(Version::pre_release(1, 2, 3)));
    assert_eq!(Version::parse("1.2.3+build"), Some(Version::new(1, 2, 3)));
    assert_eq!(Version::parse("1.2.3-"), None);
    assert_eq!(Version::parse("1.2"), None);
    assert_eq!(Version::parse("1.02.3"), None);
    assert_eq!(Version::parse("latest"), None);
    assert_eq!(Version::parse(""), None);
    let v = Version::new(7, 8, 9);
    assert_eq!(Version::parse(&v.to_string()), Some(v));
}

#[test]
fn requirement_clone() {
    let r = req(">=1.2.3, <2");
    assert_eq!(r.clone(), r);
    assert_eq!(r.comparators.len(), 2);
}

#[test]
fn resolve_req_is_ranges_for_by_reference() {
    for text in ["^1.2.3", ">=1, <1", "*", "~0.2"] {
        let r = req(text);
        assert_eq!(resolve_req(&r), ranges_for(r.clone()));
    }
    let bad = Comparator { op: Op::Exact, major: 1, minor: None, patch: Some(2) };
    assert_eq!(resolve_req(&VersionReq { comparators: vec![bad] }), Err(Error::PatchWithoutMinor));
}

#[test]
fn pre_release_ranks_just_below_its_release() {
    let rc = Version::pre_release(1, 0, 0);
    let release = Version::new(1, 0, 0);
    assert!(rc.before(&release));
    assert!(!release.before(&rc));
    assert!(!rc.before(&rc));
    assert!(Version::new(0, 9, 9).before(&rc));
    assert!(rc.before(&Version::pre_release(1, 0, 1)));
    assert_eq!(rc.to_string(), "1.0.0");
}

#[test]
fn pre_releases_in_ranges() {
    let holds = |text: &str, v: Version| contains(&ranges_for(req(text)).unwrap(), &v);
    let rc = Version::pre_release;
    assert!(!holds(">=1.0.0", rc(1, 0, 0)));
    assert!(holds(">=1.0.0", rc(1, 0, 1)));
    assert!(holds(">0.9.9", rc(1, 0, 0)));
    assert!(holds("<2.0.0", rc(2, 0, 0)));
    assert!(!holds("<2.0.0", rc(2, 0, 1)));
    assert!(holds("<=2.0.0", rc(2, 0, 0)));
    assert!(!holds("=1.2.3", rc(1, 2, 3)));
    assert!(!holds("=1.2", rc(1, 2, 0)));
    assert!(holds("=1.2", rc(1, 2, 1)));
    assert!(holds("=1.2", rc(1, 3, 0)));
    assert!(!holds("^1.2.3", rc(1, 2, 3)));
    assert!(holds("^1.2.3", rc(1, 9, 0)));
    assert!(holds("^1.2.3", rc(2, 0, 0)));
    assert!(holds("~1.2.3", rc(1, 2, 4)));
    assert!(holds("*", rc(0, 0, 0)));
    assert!(!holds(">=0.0.0", rc(0, 0, 0)));
    assert!(holds(&format!("<={}", u64::MAX), rc(u64::MAX, u64::MAX, u64::MAX)));
    assert!(!holds(&format!(">{}", u64::MAX), rc(u64::MAX, u64::MAX, u64::MAX)));
}
