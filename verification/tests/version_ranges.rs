use osv_ranges::osv::{increment, ranges_for_advisory, unaffected_to_osv_ranges, OsvRange};
use osv_ranges::advisory::{Advisory, AdvisoryMetadata, AdvisoryVersions};
use osv_ranges::range::{Bound, Comparator, RangeError, ReqOp, UnaffectedRange, VersionReq};
use osv_ranges::version::{version_cmp, Identifier, Rel, Version};

fn v(major: u64, minor: u64, patch: u64) -> Version {
    Version { major, minor, patch, pre: vec![] }
}

fn v_pre(major: u64, minor: u64, patch: u64, pre: &str) -> Version {
    Version {
        major,
        minor,
        patch,
        pre: vec![Identifier::Alpha(pre.as_bytes().to_vec())],
    }
}

fn next(major: u64, minor: u64, patch: u64) -> Version {
    Version { major, minor, patch, pre: vec![Identifier::Numeric(0)] }
}

fn comp(op: ReqOp, major: u64, minor: u64, patch: u64) -> Comparator {
    Comparator { op, major, minor: Some(minor), patch: Some(patch), pre: vec![] }
}

fn req(comparators: Vec<Comparator>) -> VersionReq {
    VersionReq { comparators }
}

#[test]
fn both_unbounded() {
    let range1 = UnaffectedRange { start: Bound::Unbounded, end: Bound::Unbounded };
    let range2 = UnaffectedRange { start: Bound::Unbounded, end: Bound::Unbounded };
    assert!(range1.overlaps(&range2));
    assert!(range2.overlaps(&range1));
}

#[test]
fn barely_not_overlapping() {
    let range1 = UnaffectedRange {
        start: Bound::Inclusive(v(1, 2, 3)),
        end: Bound::Unbounded,
    };
    let range2 = UnaffectedRange {
        start: Bound::Unbounded,
        end: Bound::Exclusive(v(1, 2, 3)),
    };
    assert!(!range1.overlaps(&range2));
    assert!(!range2.overlaps(&range1));
}

#[test]
fn barely_overlapping() {
    let range1 = UnaffectedRange {
        start: Bound::Inclusive(v(1, 2, 3)),
        end: Bound::Unbounded,
    };
    let range2 = UnaffectedRange {
        start: Bound::Unbounded,
        end: Bound::Inclusive(v(1, 2, 3)),
    };
    assert!(range1.overlaps(&range2));
    assert!(range2.overlaps(&range1));
}

#[test]
fn clearly_not_overlapping() {
    let range1 = UnaffectedRange {
        start: Bound::Inclusive(v(0, 1, 0)),
        end: Bound::Inclusive(v(0, 3, 0)),
    };
    let range2 = UnaffectedRange {
        start: Bound::Inclusive(v(1, 1, 0)),
        end: Bound::Inclusive(v(1, 3, 0)),
    };
    assert!(!range1.overlaps(&range2));
    assert!(!range2.overlaps(&range1));
}

#[test]
fn clearly_overlapping() {
    let range1 = UnaffectedRange {
        start: Bound::Inclusive(v(0, 1, 0)),
        end: Bound::Inclusive(v(1, 1, 0)),
    };
    let range2 = UnaffectedRange {
        start: Bound::Inclusive(v(0, 2, 0)),
        end: Bound::Inclusive(v(1, 3, 0)),
    };
    assert!(range1.overlaps(&range2));
    assert!(range2.overlaps(&range1));
}

#[test]
fn unaffected_from_lower_bound_requirement() {
    // `>= 1.2.3` with no upper bound
    let r = UnaffectedRange::from_requirement(req(vec![comp(ReqOp::GreaterEq, 1, 2, 3)]))
        .unwrap();
    assert_eq!(r.start, Bound::Inclusive(v(1, 2, 3)));
    assert_eq!(r.end, Bound::Unbounded);
    let osv = unaffected_to_osv_ranges(&vec![r]).unwrap();
    assert_eq!(osv, vec![OsvRange { start: None, end: Some(v(1, 2, 3)) }]);
}

#[test]
fn patched_below_upper_bound_requirement() {
    // `< 2.0.0` alone: safe below 2.0.0, affected from 2.0.0 on
    let r = UnaffectedRange::from_requirement(req(vec![comp(ReqOp::Less, 2, 0, 0)])).unwrap();
    assert_eq!(r.start, Bound::Unbounded);
    assert_eq!(r.end, Bound::Exclusive(v(2, 0, 0)));
    let osv = unaffected_to_osv_ranges(&vec![r]).unwrap();
    assert_eq!(osv, vec![OsvRange { start: Some(v(2, 0, 0)), end: None }]);
}

#[test]
fn two_disjoint_ranges_complement() {
    let r1 = UnaffectedRange {
        start: Bound::Inclusive(v(0, 1, 0)),
        end: Bound::Inclusive(v(0, 3, 0)),
    };
    let r2 = UnaffectedRange {
        start: Bound::Inclusive(v(1, 1, 0)),
        end: Bound::Inclusive(v(1, 3, 0)),
    };
    let osv = unaffected_to_osv_ranges(&vec![r1, r2]).unwrap();
    assert_eq!(
        osv,
        vec![
            OsvRange { start: None, end: Some(v(0, 1, 0)) },
            OsvRange { start: Some(next(0, 3, 1)), end: Some(v(1, 1, 0)) },
            OsvRange { start: Some(next(1, 3, 1)), end: None },
        ]
    );
}

#[test]
fn overlapping_ranges_are_rejected() {
    let r1 = UnaffectedRange {
        start: Bound::Inclusive(v(0, 1, 0)),
        end: Bound::Inclusive(v(1, 1, 0)),
    };
    let r2 = UnaffectedRange {
        start: Bound::Inclusive(v(0, 2, 0)),
        end: Bound::Inclusive(v(1, 3, 0)),
    };
    assert_eq!(
        unaffected_to_osv_ranges(&vec![r1, r2]),
        Err(RangeError::OverlappingRanges)
    );
}

#[test]
fn increment_release_version() {
    // 1.2.3 -> 1.2.4-0
    let r = increment(&v(1, 2, 3)).unwrap();
    assert_eq!(r, next(1, 2, 4));
}

#[test]
fn increment_rejects_pre_release() {
    assert_eq!(
        increment(&v_pre(1, 2, 3, "alpha")),
        Err(RangeError::UnsupportedIncrement)
    );
}

#[test]
fn increment_is_strictly_above() {
    let ver = v(3, 7, 41);
    let inc = increment(&ver).unwrap();
    assert_eq!(
        osv_ranges::version::version_cmp(&ver, &inc),
        osv_ranges::version::Rel::Less
    );
    // and below the next release
    assert_eq!(
        osv_ranges::version::version_cmp(&inc, &v(3, 7, 42)),
        osv_ranges::version::Rel::Less
    );
}

#[test]
fn validity_of_bounded_ranges() {
    let ordered = UnaffectedRange {
        start: Bound::Exclusive(v(1, 0, 0)),
        end: Bound::Exclusive(v(2, 0, 0)),
    };
    assert!(ordered.is_valid());
    let single_point = UnaffectedRange {
        start: Bound::Inclusive(v(1, 0, 0)),
        end: Bound::Inclusive(v(1, 0, 0)),
    };
    assert!(single_point.is_valid());
    let both_exclusive_at_point = UnaffectedRange {
        start: Bound::Exclusive(v(1, 0, 0)),
        end: Bound::Exclusive(v(1, 0, 0)),
    };
    assert!(!both_exclusive_at_point.is_valid());
    let inverted = UnaffectedRange {
        start: Bound::Inclusive(v(2, 0, 0)),
        end: Bound::Inclusive(v(1, 0, 0)),
    };
    assert!(!inverted.is_valid());
}

#[test]
fn pre_release_orders_below_release() {
    let pre = v_pre(1, 0, 0, "alpha");
    let rel = v(1, 0, 0);
    assert_eq!(
        osv_ranges::version::version_cmp(&pre, &rel),
        osv_ranges::version::Rel::Less
    );
    // numeric identifiers order below alphanumeric ones
    let numeric = next(1, 0, 0);
    assert_eq!(
        osv_ranges::version::version_cmp(&numeric, &pre),
        osv_ranges::version::Rel::Less
    );
}

#[test]
fn non_degenerate_range_overlaps_itself() {
    let r = UnaffectedRange {
        start: Bound::Inclusive(v(1, 0, 0)),
        end: Bound::Exclusive(v(2, 0, 0)),
    };
    assert!(r.overlaps(&r));
}

#[test]
fn too_many_comparators_is_rejected() {
    let r = UnaffectedRange::from_requirement(req(vec![
        comp(ReqOp::Greater, 1, 0, 0),
        comp(ReqOp::Less, 2, 0, 0),
        comp(ReqOp::Less, 3, 0, 0),
    ]));
    assert_eq!(r, Err(RangeError::TooManyComparators));
}

#[test]
fn duplicate_bounds_are_rejected() {
    let two_lower = UnaffectedRange::from_requirement(req(vec![
        comp(ReqOp::Greater, 1, 0, 0),
        comp(ReqOp::GreaterEq, 2, 0, 0),
    ]));
    assert_eq!(two_lower, Err(RangeError::MultipleLowerBounds));
    let two_upper = UnaffectedRange::from_requirement(req(vec![
        comp(ReqOp::Less, 1, 0, 0),
        comp(ReqOp::LessEq, 2, 0, 0),
    ]));
    assert_eq!(two_upper, Err(RangeError::MultipleUpperBounds));
}

#[test]
fn unsupported_comparators_are_rejected() {
    for op in [ReqOp::Exact, ReqOp::Caret, ReqOp::Tilde, ReqOp::Wildcard] {
        let r = UnaffectedRange::from_requirement(req(vec![comp(op, 1, 0, 0)]));
        assert_eq!(r, Err(RangeError::UnsupportedComparator));
    }
}

#[test]
fn inverted_requirement_is_rejected() {
    let r = UnaffectedRange::from_requirement(req(vec![
        comp(ReqOp::GreaterEq, 2, 0, 0),
        comp(ReqOp::Less, 1, 0, 0),
    ]));
    assert_eq!(r, Err(RangeError::InvalidRange));
}

#[test]
fn elided_components_default_to_zero() {
    // comparator shorthand `>= 1` means `>= 1.0.0`
    let r = UnaffectedRange::from_requirement(req(vec![Comparator {
        op: ReqOp::GreaterEq,
        major: 1,
        minor: None,
        patch: None,
        pre: vec![],
    }]))
    .unwrap();
    assert_eq!(r.start, Bound::Inclusive(v(1, 0, 0)));
}

#[test]
fn empty_range_set_is_rejected() {
    assert_eq!(
        unaffected_to_osv_ranges(&vec![]),
        Err(RangeError::EmptyRangeSet)
    );
}

#[test]
fn invalid_range_in_set_is_rejected() {
    let bad = UnaffectedRange {
        start: Bound::Exclusive(v(1, 0, 0)),
        end: Bound::Exclusive(v(1, 0, 0)),
    };
    assert_eq!(
        unaffected_to_osv_ranges(&vec![bad]),
        Err(RangeError::InvalidRange)
    );
}

#[test]
fn equal_start_positions_are_rejected() {
    // valid, non-overlapping, but sharing a start position: no strict
    // order exists between them
    let r1 = UnaffectedRange {
        start: Bound::Inclusive(v(1, 0, 0)),
        end: Bound::Exclusive(v(1, 0, 0)),
    };
    let r2 = UnaffectedRange {
        start: Bound::Exclusive(v(1, 0, 0)),
        end: Bound::Inclusive(v(2, 0, 0)),
    };
    assert!(r1.is_valid() && r2.is_valid());
    assert!(!r1.overlaps(&r2));
    assert_eq!(
        unaffected_to_osv_ranges(&vec![r1, r2]),
        Err(RangeError::EqualStartPositions)
    );
}

#[test]
fn pre_release_boundary_needing_successor_is_rejected() {
    // tail conversion of an inclusive end needs a successor, which a
    // pre-release version does not have
    let r = UnaffectedRange {
        start: Bound::Unbounded,
        end: Bound::Inclusive(v_pre(1, 0, 0, "alpha")),
    };
    assert_eq!(
        unaffected_to_osv_ranges(&vec![r]),
        Err(RangeError::UnsupportedIncrement)
    );
}

#[test]
fn touching_boundaries_are_not_coalesced() {
    // two safe ranges whose facing boundaries touch at 1.0.0: the gap
    // between them is emitted as an empty range rather than coalesced away
    let r1 = UnaffectedRange {
        start: Bound::Unbounded,
        end: Bound::Inclusive(v(1, 0, 0)),
    };
    let r2 = UnaffectedRange {
        start: Bound::Exclusive(v(1, 0, 0)),
        end: Bound::Unbounded,
    };
    assert!(!r1.overlaps(&r2));
    let osv = unaffected_to_osv_ranges(&vec![r1, r2]).unwrap();
    assert_eq!(
        osv,
        vec![OsvRange { start: Some(next(1, 0, 1)), end: Some(next(1, 0, 1)) }]
    );
}

#[test]
fn fully_unbounded_range_affects_nothing() {
    let r = UnaffectedRange { start: Bound::Unbounded, end: Bound::Unbounded };
    let osv = unaffected_to_osv_ranges(&vec![r]).unwrap();
    assert_eq!(osv, vec![]);
}

#[test]
fn ranges_for_advisory_combines_unaffected_and_patched() {
    let advisory = Advisory {
        metadata: AdvisoryMetadata {
            id: "RUSTSEC-0000-0000".to_string(),
            package: "example".to_string(),
            title: "Example advisory".to_string(),
            informational: None,
            severity: None,
            url: None,
        },
        versions: AdvisoryVersions {
            patched: vec![req(vec![comp(ReqOp::GreaterEq, 2, 0, 0)])],
            unaffected: vec![req(vec![comp(ReqOp::Less, 1, 0, 0)])],
        },
    };
    let osv = ranges_for_advisory(advisory).unwrap();
    assert_eq!(
        osv,
        vec![OsvRange { start: Some(v(1, 0, 0)), end: Some(v(2, 0, 0)) }]
    );
}

#[test]
fn ranges_for_advisory_propagates_normalization_errors() {
    let advisory = Advisory {
        metadata: AdvisoryMetadata {
            id: "RUSTSEC-0000-0001".to_string(),
            package: "example".to_string(),
            title: "Example advisory".to_string(),
            informational: None,
            severity: None,
            url: None,
        },
        versions: AdvisoryVersions {
            patched: vec![],
            unaffected: vec![req(vec![comp(ReqOp::Exact, 1, 0, 0)])],
        },
    };
    assert_eq!(
        ranges_for_advisory(advisory),
        Err(RangeError::UnsupportedComparator)
    );
}

#[test]
fn complement_covers_each_version_exactly_once() {
    fn le(a: &Version, b: &Version) -> bool {
        matches!(version_cmp(a, b), Rel::Less | Rel::Equal)
    }
    fn lt(a: &Version, b: &Version) -> bool {
        version_cmp(a, b) == Rel::Less
    }
    fn in_safe(r: &UnaffectedRange, x: &Version) -> bool {
        let start_ok = match &r.start {
            Bound::Unbounded => true,
            Bound::Inclusive(s) => le(s, x),
            Bound::Exclusive(s) => lt(s, x),
        };
        let end_ok = match &r.end {
            Bound::Unbounded => true,
            Bound::Inclusive(e) => le(x, e),
            Bound::Exclusive(e) => lt(x, e),
        };
        start_ok && end_ok
    }
    fn in_affected(o: &OsvRange, x: &Version) -> bool {
        let start_ok = match &o.start {
            None => true,
            Some(s) => le(s, x),
        };
        let end_ok = match &o.end {
            None => true,
            Some(e) => lt(x, e),
        };
        start_ok && end_ok
    }

    let safe = vec![
        UnaffectedRange {
            start: Bound::Inclusive(v(0, 1, 0)),
            end: Bound::Inclusive(v(0, 3, 0)),
        },
        UnaffectedRange {
            start: Bound::Inclusive(v(1, 1, 0)),
            end: Bound::Inclusive(v(1, 3, 0)),
        },
    ];
    let affected = unaffected_to_osv_ranges(&safe).unwrap();

    let samples = vec![
        v(0, 0, 1),
        v(0, 1, 0),
        v(0, 2, 7),
        v(0, 3, 0),
        next(0, 3, 1),
        v(0, 3, 1),
        v(1, 0, 0),
        v(1, 1, 0),
        v(1, 2, 9),
        v(1, 3, 0),
        next(1, 3, 1),
        v(9, 9, 9),
        v_pre(0, 2, 0, "alpha"),
    ];
    for x in &samples {
        let hits = safe.iter().filter(|r| in_safe(r, x)).count()
            + affected.iter().filter(|o| in_affected(o, x)).count();
        assert_eq!(hits, 1, "version {:?} covered {} times", x, hits);
    }
}
