//! Affected-range generation for OSV export.
//!
//! The affected set is the complement of an advisory's safe ranges: the
//! safe ranges are validated, sorted by start, and the gaps between them
//! (plus the stretches before the first and after the last) are emitted as
//! half-open `[start, end)` ranges, converting inclusive and exclusive
//! boundaries with a successor-version computation.

use vstd::prelude::*;
use vstd::pervasive::unreached;

use crate::advisory::Advisory;
use crate::range::{
    bound_le, bound_position, end_allows, lemma_overlaps_symmetric, lemma_point_between, lemma_shared_point_overlaps,
    normalize_req, overlaps_spec, range_contains, range_valid, start_allows, Bound, BoundModel,
    Comparator, ComparatorModel, RangeError, RangeModel, UnaffectedRange, VersionReq,
};
use crate::version::{lemma_successor_is_next, version_wf};
use crate::version::{
    lemma_version_lt_irrefl, lemma_version_lt_total, lemma_version_lt_trans, successor,
    version_lt, Identifier, IdentifierModel, Rel, Version, VersionModel, version_cmp,
};

verus! {

/// A range of affected versions: every version `v` with `start <= v < end`
/// is affected, and an absent bound means all versions in that direction.
#[derive(PartialEq, Eq, Hash, Debug)]
pub struct OsvRange {
    /// Inclusive lower end, or affected from the beginning.
    pub start: Option<Version>,
    /// Exclusive upper end, or affected forever after.
    pub end: Option<Version>,
}

/// Mathematical value of an [`OsvRange`].
#[verifier::ext_equal]
pub struct OsvRangeModel {
    pub start: Option<VersionModel>,
    pub end: Option<VersionModel>,
}

impl View for OsvRange {
    type V = OsvRangeModel;

    open spec fn view(&self) -> OsvRangeModel {
        OsvRangeModel {
            start: match &self.start {
                Some(v) => Some(v@),
                None => None,
            },
            end: match &self.end {
                Some(v) => Some(v@),
                None => None,
            },
        }
    }
}

/// The models of a sequence of safe ranges.
pub open spec fn range_models(s: Seq<UnaffectedRange>) -> Seq<RangeModel> {
    s.map_values(|r: UnaffectedRange| r@)
}

/// The models of a sequence of affected ranges.
pub open spec fn osv_models(s: Seq<OsvRange>) -> Seq<OsvRangeModel> {
    s.map_values(|r: OsvRange| r@)
}

fn clone_bytes(b: &Vec<u8>) -> (r: Vec<u8>)
    ensures
        r@ == b@,
{
    let mut out: Vec<u8> = Vec::new();
    let mut i: usize = 0;
    while i < b.len()
        invariant
            i <= b.len(),
            out@ == b@.take(i as int),
        decreases b.len() - i,
    {
        out.push(b[i]);
        proof {
            assert(b@.take(i + 1 as int) =~= b@.take(i as int).push(b@[i as int]));
        }
        i = i + 1;
    }
    proof {
        assert(b@.take(b@.len() as int) =~= b@);
    }
    out
}

fn clone_ident(x: &Identifier) -> (r: Identifier)
    ensures
        r@ == x@,
{
    match x {
        Identifier::Numeric(n) => Identifier::Numeric(*n),
        Identifier::Alpha(b) => Identifier::Alpha(clone_bytes(b)),
    }
}

/// An exact copy of a version.
pub fn clone_version(v: &Version) -> (r: Version)
    ensures
        r@ == v@,
{
    let mut pre: Vec<Identifier> = Vec::new();
    let mut i: usize = 0;
    while i < v.pre.len()
        invariant
            i <= v.pre.len(),
            pre@.map_values(|x: Identifier| x@) == v.pre@.map_values(|x: Identifier| x@).take(
                i as int,
            ),
        decreases v.pre.len() - i,
    {
        let c = clone_ident(&v.pre[i]);
        let ghost prev = pre@;
        pre.push(c);
        proof {
            let f = |x: Identifier| x@;
            assert(v.pre@.map_values(f).take(i + 1 as int) =~= v.pre@.map_values(f).take(
                i as int,
            ).push(v.pre@[i as int]@));
            assert(pre@.map_values(f) =~= prev.map_values(f).push(c@));
        }
        i = i + 1;
    }
    proof {
        let f = |x: Identifier| x@;
        assert(v.pre@.map_values(f).take(v.pre@.len() as int) =~= v.pre@.map_values(f));
        assert(v@.pre == v.pre@.map_values(f));
    }
    let r = Version { major: v.major, minor: v.minor, patch: v.patch, pre };
    proof {
        assert(r@ =~= v@);
    }
    r
}

/// The lowest version strictly above a release version: one more patch
/// level, with the single pre-release identifier `0` appended. Succeeds
/// exactly on release versions whose patch component can still go up.
pub fn increment(v: &Version) -> (r: Result<Version, RangeError>)
    ensures
        v@.pre.len() == 0 && v.patch < u64::MAX ==> r is Ok && r->Ok_0@ == successor(v@),
        v@.pre.len() > 0 || v.patch == u64::MAX ==> r == Err::<Version, RangeError>(
            RangeError::UnsupportedIncrement,
        ),
{
    if v.pre.len() > 0 || v.patch == u64::MAX {
        return Err(RangeError::UnsupportedIncrement);
    }
    let mut pre: Vec<Identifier> = Vec::new();
    pre.push(Identifier::Numeric(0));
    let r = Version { major: v.major, minor: v.minor, patch: v.patch + 1, pre };
    proof {
        assert(r@.pre =~= seq![IdentifierModel::Numeric(0)]);
        assert(r@ =~= successor(v@));
    }
    Ok(r)
}

/// A safe range's end bound, converted to the inclusive start of the
/// affected stretch that follows it.
pub open spec fn affected_start_of_end(b: BoundModel) -> Option<VersionModel> {
    match b {
        BoundModel::Unbounded => None,
        BoundModel::Exclusive(v) => Some(v),
        BoundModel::Inclusive(v) => Some(successor(v)),
    }
}

/// A safe range's start bound, converted to the exclusive end of the
/// affected stretch that precedes it.
pub open spec fn affected_end_of_start(b: BoundModel) -> Option<VersionModel> {
    match b {
        BoundModel::Unbounded => None,
        BoundModel::Exclusive(v) => Some(successor(v)),
        BoundModel::Inclusive(v) => Some(v),
    }
}

/// Whether the conversion of an end bound can be computed: an inclusive
/// end needs a successor, which exists only for release versions with room
/// left in the patch component.
pub open spec fn end_convertible(b: BoundModel) -> bool {
    match b {
        BoundModel::Inclusive(v) => v.pre.len() == 0 && v.patch < u64::MAX as int,
        _ => true,
    }
}

/// Whether the conversion of a start bound can be computed.
pub open spec fn start_convertible(b: BoundModel) -> bool {
    match b {
        BoundModel::Exclusive(v) => v.pre.len() == 0 && v.patch < u64::MAX as int,
        _ => true,
    }
}

/// Every bound of every range can be converted where the emission needs it.
pub open spec fn all_convertible(vs: Seq<RangeModel>) -> bool {
    forall|i: int|
        0 <= i < vs.len() ==> start_convertible(#[trigger] vs[i].start) && end_convertible(
            vs[i].end,
        )
}

/// All ranges are valid.
pub open spec fn all_valid(vs: Seq<RangeModel>) -> bool {
    forall|i: int| 0 <= i < vs.len() ==> range_valid(#[trigger] vs[i])
}

/// No two ranges at distinct positions overlap.
pub open spec fn no_overlap(vs: Seq<RangeModel>) -> bool {
    forall|i: int, j: int| 0 <= i < j < vs.len() ==> !overlaps_spec(#[trigger] vs[i], #[trigger] vs[j])
}

/// No two ranges at distinct positions share a start position.
pub open spec fn distinct_starts(vs: Seq<RangeModel>) -> bool {
    forall|i: int, j: int|
        0 <= i < j < vs.len() ==> !(bound_position(#[trigger] vs[i].start) is Some
            && bound_position(#[trigger] vs[j].start) == bound_position(vs[i].start))
}

/// The ordering the complement generator sorts by: an unbounded start
/// first, then ascending start positions.
pub open spec fn start_le(a: RangeModel, b: RangeModel) -> bool {
    match (bound_position(a.start), bound_position(b.start)) {
        (None, _) => true,
        (Some(_), None) => false,
        (Some(x), Some(y)) => x == y || version_lt(x, y),
    }
}

/// Sorted ascending by start position.
pub open spec fn sorted_by_start(s: Seq<RangeModel>) -> bool {
    forall|i: int, j: int| 0 <= i < j < s.len() ==> start_le(#[trigger] s[i], #[trigger] s[j])
}

/// `b` is a rearrangement of `a`: `p` maps each position of `b` to the
/// position of `a` it came from, and `q` is the inverse map.
pub open spec fn is_permutation(
    p: Seq<int>,
    q: Seq<int>,
    a: Seq<RangeModel>,
    b: Seq<RangeModel>,
) -> bool {
    &&& p.len() == a.len()
    &&& q.len() == a.len()
    &&& b.len() == a.len()
    &&& forall|k: int| 0 <= k < p.len() ==> 0 <= #[trigger] p[k] < a.len() && q[p[k]] == k
    &&& forall|i: int| 0 <= i < q.len() ==> 0 <= #[trigger] q[i] < a.len() && p[q[i]] == i
    &&& forall|k: int| 0 <= k < p.len() ==> b[k] == a[#[trigger] p[k]]
}

/// The affected range before the first safe range, if its start is bounded.
pub open spec fn head_of(r: RangeModel) -> Seq<OsvRangeModel> {
    match r.start {
        BoundModel::Unbounded => Seq::empty(),
        _ => seq![OsvRangeModel { start: None, end: affected_end_of_start(r.start) }],
    }
}

/// The affected ranges between adjacent sorted safe ranges.
pub open spec fn gaps_of(s: Seq<RangeModel>) -> Seq<OsvRangeModel> {
    Seq::new(
        (s.len() - 1) as nat,
        |i: int|
            OsvRangeModel {
                start: affected_start_of_end(s[i].end),
                end: affected_end_of_start(s[i + 1].start),
            },
    )
}

/// The affected range after the last safe range, if its end is bounded.
pub open spec fn tail_of(r: RangeModel) -> Seq<OsvRangeModel> {
    match r.end {
        BoundModel::Unbounded => Seq::empty(),
        _ => seq![OsvRangeModel { start: affected_start_of_end(r.end), end: None }],
    }
}

/// The full complement of a non-empty sorted sequence of safe ranges.
pub open spec fn affected_of(s: Seq<RangeModel>) -> Seq<OsvRangeModel> {
    head_of(s[0]) + gaps_of(s) + tail_of(s[s.len() - 1])
}

/// Why the complement generator rejects a list of safe ranges, if it does:
/// the list must be non-empty, individually valid, pairwise non-overlapping
/// with pairwise distinct start positions, and every needed boundary
/// conversion must have a computable successor.
pub open spec fn complement_outcome(vs: Seq<RangeModel>) -> Option<RangeError> {
    if vs.len() == 0 {
        Some(RangeError::EmptyRangeSet)
    } else if !all_valid(vs) {
        Some(RangeError::InvalidRange)
    } else if !no_overlap(vs) {
        Some(RangeError::OverlappingRanges)
    } else if !distinct_starts(vs) {
        Some(RangeError::EqualStartPositions)
    } else if !all_convertible(vs) {
        Some(RangeError::UnsupportedIncrement)
    } else {
        None
    }
}

/// The error of a complement result, if any.
pub open spec fn complement_err(r: Result<Vec<OsvRange>, RangeError>) -> Option<RangeError> {
    match r {
        Ok(_) => None,
        Err(e) => Some(e),
    }
}

/// The start ordering is total.
proof fn lemma_start_le_total(a: RangeModel, b: RangeModel)
    ensures
        start_le(a, b) || start_le(b, a),
{
    match (bound_position(a.start), bound_position(b.start)) {
        (Some(x), Some(y)) => lemma_version_lt_total(x, y),
        _ => {},
    }
}

/// The start ordering is transitive.
proof fn lemma_start_le_trans(a: RangeModel, b: RangeModel, c: RangeModel)
    requires
        start_le(a, b),
        start_le(b, c),
    ensures
        start_le(a, c),
{
    match (bound_position(a.start), bound_position(b.start), bound_position(c.start)) {
        (Some(x), Some(y), Some(z)) => {
            if version_lt(x, y) && version_lt(y, z) {
                lemma_version_lt_trans(x, y, z);
            }
        },
        _ => {},
    }
}

/// The start ordering, decided executably.
fn start_le_exec(a: &UnaffectedRange, b: &UnaffectedRange) -> (r: bool)
    ensures
        r == start_le(a@, b@),
{
    match (a.start.version(), b.start.version()) {
        (None, _) => true,
        (Some(_), None) => false,
        (Some(x), Some(y)) => match version_cmp(x, y) {
            Rel::Greater => false,
            _ => true,
        },
    }
}

/// Sorts safe ranges ascending by start position (an unbounded start
/// first), returning the sorted vector, which is a permutation of the
/// input.
fn sort_by_start_vec(v: Vec<UnaffectedRange>) -> (r: Vec<UnaffectedRange>)
    ensures
        sorted_by_start(range_models(r@)),
        exists|p: Seq<int>, q: Seq<int>|
            is_permutation(p, q, range_models(v@), range_models(r@)),
{
    let ghost orig = range_models(v@);
    let mut v = v;
    let ghost mut perm: Seq<int> = Seq::new(orig.len(), |k: int| k);
    let ghost mut inv: Seq<int> = Seq::new(orig.len(), |k: int| k);
    if v.len() <= 1 {
        proof {
            assert(is_permutation(perm, inv, orig, range_models(v@)));
        }
        return v;
    }
    let mut i: usize = 1;
    while i < v.len()
        invariant
            1 <= i <= v@.len(),
            orig.len() == v@.len(),
            is_permutation(perm, inv, orig, range_models(v@)),
            forall|a: int, b: int|
                0 <= a < b < i ==> start_le(
                    #[trigger] range_models(v@)[a],
                    #[trigger] range_models(v@)[b],
                ),
        decreases v@.len() - i,
    {
        let mut j: usize = i;
        while j > 0 && !start_le_exec(&v[j - 1], &v[j])
            invariant
                0 <= j <= i < v@.len(),
                orig.len() == v@.len(),
                is_permutation(perm, inv, orig, range_models(v@)),
                forall|a: int, b: int|
                    0 <= a < b <= i && b != j ==> start_le(
                        #[trigger] range_models(v@)[a],
                        #[trigger] range_models(v@)[b],
                    ),
            ensures
                orig.len() == v@.len(),
                is_permutation(perm, inv, orig, range_models(v@)),
                forall|a: int, b: int|
                    0 <= a < b <= i && b != j ==> start_le(
                        #[trigger] range_models(v@)[a],
                        #[trigger] range_models(v@)[b],
                    ),
                j == 0 || start_le(range_models(v@)[j - 1], range_models(v@)[j as int]),
            decreases j,
        {
            let ghost before = range_models(v@);
            let x = v.remove(j);
            v.insert(j - 1, x);
            proof {
                let after = range_models(v@);
                assert(after =~= before.update(j - 1, before[j as int]).update(
                    j as int,
                    before[j - 1],
                ));
                let pj = perm[j as int];
                let pj1 = perm[j - 1];
                perm = perm.update(j - 1, pj).update(j as int, pj1);
                inv = inv.update(pj, j - 1).update(pj1, j as int);
                assert(is_permutation(perm, inv, orig, after));
                assert forall|a: int, b: int|
                    0 <= a < b <= i && b != j - 1 implies start_le(
                    #[trigger] after[a],
                    #[trigger] after[b],
                ) by {
                    if a == j - 1 {
                        if b == j {
                            // after[j-1] was before[j], after[j] was before[j-1]
                            lemma_start_le_total(before[j - 1], before[j as int]);
                        } else {
                            assert(after[a] == before[j as int]);
                            assert(after[b] == before[b]);
                            assert(start_le(before[j as int], before[b]));
                        }
                    } else if a == j {
                        assert(after[a] == before[j - 1]);
                        assert(start_le(before[j - 1], before[b]));
                    } else if b == j {
                        assert(after[b] == before[j - 1]);
                        if a < j - 1 {
                            assert(start_le(before[a], before[j - 1]));
                        }
                    } else {
                        assert(after[a] == before[a] && after[b] == before[b]);
                    }
                }
            }
            j = j - 1;
        }
        proof {
            let m = range_models(v@);
            assert forall|a: int, b: int| 0 <= a < b <= i implies start_le(
                #[trigger] m[a],
                #[trigger] m[b],
            ) by {
                if b == j {
                    if j > 0 {
                        if a < j - 1 {
                            assert(start_le(m[a], m[j - 1]));
                            lemma_start_le_trans(m[a], m[j - 1], m[j as int]);
                        }
                    }
                }
            }
        }
        i = i + 1;
    }
    proof {
        assert(is_permutation(perm, inv, orig, range_models(v@)));
    }
    v
}

fn clone_bound(b: &Bound) -> (r: Bound)
    ensures
        r@ == b@,
{
    match b {
        Bound::Unbounded => Bound::Unbounded,
        Bound::Exclusive(v) => Bound::Exclusive(clone_version(v)),
        Bound::Inclusive(v) => Bound::Inclusive(clone_version(v)),
    }
}

fn clone_range(r: &UnaffectedRange) -> (out: UnaffectedRange)
    ensures
        out@ == r@,
{
    let out = UnaffectedRange { start: clone_bound(&r.start), end: clone_bound(&r.end) };
    proof {
        assert(out@ =~= r@);
    }
    out
}

/// In a sorted, valid, non-overlapping list with distinct starts, every
/// interior end bound and every interior start bound carries a version.
proof fn lemma_interior_bounds(s: Seq<RangeModel>, k: int)
    requires
        sorted_by_start(s),
        all_valid(s),
        no_overlap(s),
        distinct_starts(s),
        0 <= k < s.len() - 1,
    ensures
        bound_position(s[k].end) is Some,
        bound_position(s[k + 1].start) is Some,
{
    let a = s[k];
    let b = s[k + 1];
    assert(start_le(a, b));
    assert(!overlaps_spec(a, b));
    if bound_position(b.start) is None {
        // a sorted predecessor of an unbounded start is itself unbounded,
        // and two unbounded starts always overlap
        assert(bound_position(a.start) is None);
        assert(bound_le(a.start, b.end));
        assert(bound_le(b.start, a.end));
    } else {
        let bp = bound_position(b.start)->Some_0;
        if bound_position(a.end) is None {
            assert(bound_le(b.start, a.end));
            if bound_position(a.start) is None {
                assert(bound_le(a.start, b.end));
            } else {
                let ap = bound_position(a.start)->Some_0;
                // distinct starts and sorted order put a's start strictly
                // below b's start, which valid b keeps at or below b's end
                assert(ap != bp);
                assert(version_lt(ap, bp));
                match bound_position(b.end) {
                    None => {
                        assert(bound_le(a.start, b.end));
                    },
                    Some(be) => {
                        lemma_version_lt_irrefl(bp);
                        if bp == be {
                            assert(version_lt(ap, be));
                            lemma_version_lt_irrefl(be);
                            assert(ap != be);
                        } else {
                            assert(version_lt(bp, be));
                            lemma_version_lt_trans(ap, bp, be);
                            assert(ap != be) by {
                                lemma_version_lt_irrefl(ap);
                                if ap == be {
                                    assert(version_lt(ap, ap));
                                }
                            }
                        }
                        assert(bound_le(a.start, b.end));
                    },
                }
            }
        }
    }
}

/// Converts a list of safe ranges to the list of affected OSV ranges: the
/// complement of their union, in ascending order.
///
/// The whole list must be given at once, both the patched and the
/// unaffected ranges of an advisory, since the complement is taken over
/// their union. The list is rejected (never silently reordered or
/// mis-sorted) when it is empty, when a range is invalid, when two ranges
/// overlap or share a start position, and when a needed boundary
/// conversion has no computable successor.
///
/// The gap between two safe ranges whose facing boundaries touch is
/// emitted as-is, even when it is empty; touching ranges are not coalesced
/// before emission.
pub fn unaffected_to_osv_ranges(unaffected: &Vec<UnaffectedRange>) -> (r: Result<
    Vec<OsvRange>,
    RangeError,
>)
    ensures
        complement_err(r) == complement_outcome(range_models(unaffected@)),
        r is Ok ==> exists|s: Seq<RangeModel>, p: Seq<int>, q: Seq<int>|
            is_permutation(p, q, range_models(unaffected@), s) && sorted_by_start(s) && all_valid(
                s,
            ) && no_overlap(s) && distinct_starts(s) && all_convertible(s) && osv_models(r->Ok_0@)
                == affected_of(s),
{
    let ghost vs = range_models(unaffected@);
    if unaffected.len() == 0 {
        return Err(RangeError::EmptyRangeSet);
    }

    // every range must be valid on its own
    let mut i: usize = 0;
    while i < unaffected.len()
        invariant
            vs == range_models(unaffected@),
            vs.len() > 0,
            i <= vs.len(),
            forall|t: int| 0 <= t < i ==> range_valid(#[trigger] vs[t]),
        decreases vs.len() - i,
    {
        if !unaffected[i].is_valid() {
            proof {
                assert(vs[i as int] == unaffected@[i as int]@);
                assert(!all_valid(vs)) by {
                    if all_valid(vs) {
                        assert(range_valid(vs[i as int]));
                    }
                }
            }
            return Err(RangeError::InvalidRange);
        }
        i = i + 1;
    }
    assert(all_valid(vs));

    // no two ranges may overlap
    i = 0;
    while i < unaffected.len()
        invariant
            vs == range_models(unaffected@),
            vs.len() > 0,
            all_valid(vs),
            i <= vs.len(),
            forall|a: int, b: int| 0 <= a < b < vs.len() && a < i ==> !overlaps_spec(
                #[trigger] vs[a],
                #[trigger] vs[b],
            ),
        decreases vs.len() - i,
    {
        let mut j: usize = i + 1;
        while j < unaffected.len()
            invariant
                vs == range_models(unaffected@),
                vs.len() > 0,
                all_valid(vs),
                i < j || i + 1 == j,
                i < vs.len(),
                i < j <= vs.len(),
                forall|a: int, b: int| 0 <= a < b < vs.len() && a < i ==> !overlaps_spec(
                    #[trigger] vs[a],
                    #[trigger] vs[b],
                ),
                forall|b: int| i < b < j ==> !overlaps_spec(vs[i as int], #[trigger] vs[b]),
            decreases vs.len() - j,
        {
            proof {
                assert(vs[i as int] == unaffected@[i as int]@);
                assert(vs[j as int] == unaffected@[j as int]@);
                assert(range_valid(vs[i as int]));
                assert(range_valid(vs[j as int]));
            }
            if unaffected[i].overlaps(&unaffected[j]) {
                proof {
                    assert(!no_overlap(vs)) by {
                        if no_overlap(vs) {
                            assert(!overlaps_spec(vs[i as int], vs[j as int]));
                        }
                    }
                }
                return Err(RangeError::OverlappingRanges);
            }
            j = j + 1;
        }
        i = i + 1;
    }
    assert(no_overlap(vs));

    // no two ranges may share a start position, else no strict order
    // exists between them
    i = 0;
    while i < unaffected.len()
        invariant
            vs == range_models(unaffected@),
            vs.len() > 0,
            all_valid(vs),
            no_overlap(vs),
            i <= vs.len(),
            forall|a: int, b: int| 0 <= a < b < vs.len() && a < i ==> !(bound_position(
                #[trigger] vs[a].start,
            ) is Some && bound_position(#[trigger] vs[b].start) == bound_position(vs[a].start)),
        decreases vs.len() - i,
    {
        let mut j: usize = i + 1;
        while j < unaffected.len()
            invariant
                vs == range_models(unaffected@),
                vs.len() > 0,
                all_valid(vs),
                no_overlap(vs),
                i < j <= vs.len(),
                i < vs.len(),
                forall|a: int, b: int| 0 <= a < b < vs.len() && a < i ==> !(bound_position(
                    #[trigger] vs[a].start,
                ) is Some && bound_position(#[trigger] vs[b].start) == bound_position(vs[a].start)),
                forall|b: int| i < b < j ==> !(bound_position(vs[i as int].start) is Some
                    && bound_position(#[trigger] vs[b].start) == bound_position(vs[i as int].start)),
            decreases vs.len() - j,
        {
            match (unaffected[i].start.version(), unaffected[j].start.version()) {
                (Some(x), Some(y)) => {
                    if version_cmp(x, y) == Rel::Equal {
                        proof {
                            assert(vs[i as int] == unaffected@[i as int]@);
                            assert(vs[j as int] == unaffected@[j as int]@);
                            assert(bound_position(vs[i as int].start) == Some(x@));
                            assert(bound_position(vs[j as int].start) == Some(y@));
                            assert(!distinct_starts(vs)) by {
                                if distinct_starts(vs) {
                                    assert(!(bound_position(vs[i as int].start) is Some
                                        && bound_position(vs[j as int].start) == bound_position(
                                        vs[i as int].start,
                                    )));
                                }
                            }
                        }
                        return Err(RangeError::EqualStartPositions);
                    }
                },
                _ => {},
            }
            j = j + 1;
        }
        i = i + 1;
    }
    assert(distinct_starts(vs));

    // copy and sort ascending by start position
    let mut owned: Vec<UnaffectedRange> = Vec::new();
    i = 0;
    while i < unaffected.len()
        invariant
            vs == range_models(unaffected@),
            i <= vs.len(),
            range_models(owned@) == vs.take(i as int),
        decreases vs.len() - i,
    {
        let c = clone_range(&unaffected[i]);
        let ghost prevo = owned@;
        owned.push(c);
        proof {
            assert(range_models(owned@) =~= range_models(prevo).push(c@));
            assert(vs.take(i + 1 as int) =~= vs.take(i as int).push(vs[i as int]));
        }
        i = i + 1;
    }
    proof {
        assert(vs.take(vs.len() as int) =~= vs);
    }
    let sorted = sort_by_start_vec(owned);
    let ghost s = range_models(sorted@);
    let ghost (p, q) = choose|p: Seq<int>, q: Seq<int>| is_permutation(p, q, vs, s);
    proof {
        assert(is_permutation(p, q, vs, s));
        assert forall|t: int| 0 <= t < s.len() implies range_valid(#[trigger] s[t]) by {
            assert(s[t] == vs[p[t]]);
        }
        assert forall|a: int, b: int| 0 <= a < b < s.len() implies !overlaps_spec(
            #[trigger] s[a],
            #[trigger] s[b],
        ) by {
            assert(s[a] == vs[p[a]] && s[b] == vs[p[b]]);
            assert(p[a] != p[b]);
            if p[a] < p[b] {
                assert(!overlaps_spec(vs[p[a]], vs[p[b]]));
            } else {
                assert(!overlaps_spec(vs[p[b]], vs[p[a]]));
                lemma_overlaps_symmetric(vs[p[a]], vs[p[b]]);
            }
        }
        assert forall|a: int, b: int| 0 <= a < b < s.len() implies !(bound_position(
            #[trigger] s[a].start,
        ) is Some && bound_position(#[trigger] s[b].start) == bound_position(s[a].start)) by {
            assert(s[a] == vs[p[a]] && s[b] == vs[p[b]]);
            assert(p[a] != p[b]);
        }
        assert(all_valid(s) && no_overlap(s) && distinct_starts(s));
    }

    // emit the complement: the stretch before the first safe range, the
    // gap between each adjacent pair, and the stretch after the last
    let mut result: Vec<OsvRange> = Vec::new();
    let first = &sorted[0];
    match &first.start {
        Bound::Unbounded => {},
        Bound::Exclusive(ver) => {
            match increment(ver) {
                Ok(nv) => {
                    result.push(OsvRange { start: None, end: Some(nv) });
                },
                Err(e) => {
                    proof {
                        assert(!start_convertible(s[0].start));
                        assert(!all_convertible(vs)) by {
                            if all_convertible(vs) {
                                assert(start_convertible(vs[p[0]].start));
                            }
                        }
                    }
                    return Err(e);
                },
            }
        },
        Bound::Inclusive(ver) => {
            result.push(OsvRange { start: None, end: Some(clone_version(ver)) });
        },
    }
    proof {
        assert(osv_models(result@) =~= head_of(s[0]));
        assert(gaps_of(s).take(0) =~= Seq::<OsvRangeModel>::empty());
        assert(osv_models(result@) =~= head_of(s[0]) + gaps_of(s).take(0));
    }

    let mut k: usize = 0;
    while k < sorted.len() - 1
        invariant
            vs == range_models(unaffected@),
            vs.len() > 0,
            all_valid(vs),
            no_overlap(vs),
            distinct_starts(vs),
            s == range_models(sorted@),
            s.len() == vs.len(),
            is_permutation(p, q, vs, s),
            sorted_by_start(s),
            all_valid(s),
            no_overlap(s),
            distinct_starts(s),
            k <= s.len() - 1,
            osv_models(result@) == head_of(s[0]) + gaps_of(s).take(k as int),
            forall|t: int| 0 <= t <= k ==> start_convertible(#[trigger] s[t].start),
            forall|t: int| 0 <= t < k ==> end_convertible(#[trigger] s[t].end),
        decreases s.len() - k,
    {
        proof {
            lemma_interior_bounds(s, k as int);
        }
        let rk = &sorted[k];
        let gap_start: Version = match &rk.end {
            Bound::Unbounded => unreached(),
            Bound::Exclusive(ver) => clone_version(ver),
            Bound::Inclusive(ver) => {
                match increment(ver) {
                    Ok(nv) => nv,
                    Err(e) => {
                        proof {
                            assert(!end_convertible(s[k as int].end));
                            assert(!all_convertible(vs)) by {
                                if all_convertible(vs) {
                                    assert(end_convertible(vs[p[k as int]].end));
                                }
                            }
                        }
                        return Err(e);
                    },
                }
            },
        };
        let rk1 = &sorted[k + 1];
        let gap_end: Version = match &rk1.start {
            Bound::Unbounded => unreached(),
            Bound::Exclusive(ver) => {
                match increment(ver) {
                    Ok(nv) => nv,
                    Err(e) => {
                        proof {
                            assert(!start_convertible(s[k + 1].start));
                            assert(!all_convertible(vs)) by {
                                if all_convertible(vs) {
                                    assert(start_convertible(vs[p[k + 1]].start));
                                }
                            }
                        }
                        return Err(e);
                    },
                }
            },
            Bound::Inclusive(ver) => clone_version(ver),
        };
        let ghost prevr = result@;
        result.push(OsvRange { start: Some(gap_start), end: Some(gap_end) });
        proof {
            assert(osv_models(result@) =~= osv_models(prevr).push(
                OsvRangeModel { start: Some(gap_start@), end: Some(gap_end@) },
            ));
            assert(gaps_of(s)[k as int] == OsvRangeModel {
                start: Some(gap_start@),
                end: Some(gap_end@),
            });
            assert(gaps_of(s).take(k + 1 as int) =~= gaps_of(s).take(k as int).push(
                gaps_of(s)[k as int],
            ));
            assert(osv_models(result@) =~= head_of(s[0]) + gaps_of(s).take(k + 1 as int));
        }
        k = k + 1;
    }

    let last = &sorted[sorted.len() - 1];
    let ghost li = s.len() - 1;
    match &last.end {
        Bound::Unbounded => {},
        Bound::Exclusive(ver) => {
            result.push(OsvRange { start: Some(clone_version(ver)), end: None });
        },
        Bound::Inclusive(ver) => {
            match increment(ver) {
                Ok(nv) => {
                    result.push(OsvRange { start: Some(nv), end: None });
                },
                Err(e) => {
                    proof {
                        assert(!end_convertible(s[li].end));
                        assert(!all_convertible(vs)) by {
                            if all_convertible(vs) {
                                assert(end_convertible(vs[p[li]].end));
                            }
                        }
                    }
                    return Err(e);
                },
            }
        },
    }
    proof {
        assert(gaps_of(s).take(s.len() - 1) =~= gaps_of(s));
        assert(osv_models(result@) =~= affected_of(s));
        assert forall|t: int| 0 <= t < vs.len() implies start_convertible(#[trigger] vs[t].start)
            && end_convertible(vs[t].end) by {
            assert(vs[t] == s[q[t]]);
            assert(start_convertible(s[q[t]].start));
            if q[t] < s.len() - 1 {
                assert(end_convertible(s[q[t]].end));
            } else {
                assert(end_convertible(s[li].end));
            }
        }
        assert(all_convertible(vs));
        assert(complement_outcome(vs) is None);
        assert forall|t: int| 0 <= t < s.len() implies start_convertible(#[trigger] s[t].start)
            && end_convertible(s[t].end) by {
            assert(start_convertible(s[t].start));
            if t < s.len() - 1 {
                assert(end_convertible(s[t].end));
            } else {
                assert(end_convertible(s[li].end));
            }
        }
        assert(all_convertible(s));
    }
    Ok(result)
}


/// The models of a sequence of version requirements.
pub open spec fn req_models(s: Seq<VersionReq>) -> Seq<Seq<ComparatorModel>> {
    s.map_values(|r: VersionReq| r@)
}

/// The ranges a sequence of requirements normalizes to, meaningful when
/// none of them fails.
pub open spec fn normalized_models(reqs: Seq<Seq<ComparatorModel>>) -> Seq<RangeModel> {
    reqs.map_values(|c: Seq<ComparatorModel>| normalize_req(c)->Ok_0)
}

/// The first error normalizing a sequence of requirements runs into.
pub open spec fn first_norm_error(reqs: Seq<Seq<ComparatorModel>>) -> Option<RangeError>
    decreases reqs.len(),
{
    if reqs.len() == 0 {
        None
    } else {
        match normalize_req(reqs[0]) {
            Err(e) => Some(e),
            Ok(_) => first_norm_error(reqs.skip(1)),
        }
    }
}

/// When a prefix of the requirements normalizes cleanly, the first error
/// is decided by the remainder.
proof fn lemma_first_norm_error_skip(reqs: Seq<Seq<ComparatorModel>>, c: int)
    requires
        0 <= c <= reqs.len(),
        forall|t: int| 0 <= t < c ==> normalize_req(#[trigger] reqs[t]) is Ok,
    ensures
        first_norm_error(reqs) == first_norm_error(reqs.skip(c)),
    decreases c,
{
    if c > 0 {
        lemma_first_norm_error_skip(reqs.skip(1), c - 1);
        assert(reqs.skip(1).skip(c - 1) =~= reqs.skip(c));
    } else {
        assert(reqs.skip(0) =~= reqs);
    }
}

fn clone_comparator(c: &Comparator) -> (r: Comparator)
    ensures
        r@ == c@,
{
    let mut pre: Vec<Identifier> = Vec::new();
    let mut i: usize = 0;
    while i < c.pre.len()
        invariant
            i <= c.pre.len(),
            pre@.map_values(|x: Identifier| x@) == c.pre@.map_values(|x: Identifier| x@).take(
                i as int,
            ),
        decreases c.pre.len() - i,
    {
        let ci = clone_ident(&c.pre[i]);
        let ghost prev = pre@;
        pre.push(ci);
        proof {
            let f = |x: Identifier| x@;
            assert(c.pre@.map_values(f).take(i + 1 as int) =~= c.pre@.map_values(f).take(
                i as int,
            ).push(c.pre@[i as int]@));
            assert(pre@.map_values(f) =~= prev.map_values(f).push(ci@));
        }
        i = i + 1;
    }
    proof {
        let f = |x: Identifier| x@;
        assert(c.pre@.map_values(f).take(c.pre@.len() as int) =~= c.pre@.map_values(f));
    }
    let r = Comparator {
        op: c.op,
        major: c.major,
        minor: c.minor,
        patch: c.patch,
        pre,
    };
    proof {
        assert(r@ =~= c@);
    }
    r
}

fn clone_version_req(r: &VersionReq) -> (out: VersionReq)
    ensures
        out@ == r@,
{
    let mut comparators: Vec<Comparator> = Vec::new();
    let mut i: usize = 0;
    while i < r.comparators.len()
        invariant
            i <= r.comparators.len(),
            comparators@.map_values(|c: Comparator| c@)
                == r.comparators@.map_values(|c: Comparator| c@).take(i as int),
        decreases r.comparators.len() - i,
    {
        let c = clone_comparator(&r.comparators[i]);
        let ghost prev = comparators@;
        comparators.push(c);
        proof {
            let f = |x: Comparator| x@;
            assert(r.comparators@.map_values(f).take(i + 1 as int) =~= r.comparators@.map_values(
                f,
            ).take(i as int).push(r.comparators@[i as int]@));
            assert(comparators@.map_values(f) =~= prev.map_values(f).push(c@));
        }
        i = i + 1;
    }
    proof {
        let f = |x: Comparator| x@;
        assert(r.comparators@.map_values(f).take(r.comparators@.len() as int)
            =~= r.comparators@.map_values(f));
    }
    let out = VersionReq { comparators };
    proof {
        assert(out@ =~= r@);
    }
    out
}

/// Normalizes every requirement in the list and appends the resulting safe
/// ranges, stopping at the first malformed requirement.
fn normalize_all(reqs: &Vec<VersionReq>, out: &mut Vec<UnaffectedRange>) -> (r: Result<
    (),
    RangeError,
>)
    ensures
        match first_norm_error(req_models(reqs@)) {
            Some(e) => r == Err::<(), RangeError>(e),
            None => r is Ok && range_models(final(out)@) == range_models(old(out)@)
                + normalized_models(req_models(reqs@)),
        },
{
    let ghost rm = req_models(reqs@);
    let ghost base = range_models(old(out)@);
    let mut i: usize = 0;
    while i < reqs.len()
        invariant
            rm == req_models(reqs@),
            base == range_models(old(out)@),
            i <= rm.len(),
            forall|t: int| 0 <= t < i ==> normalize_req(#[trigger] rm[t]) is Ok,
            range_models(out@) == base + normalized_models(rm.take(i as int)),
        decreases rm.len() - i,
    {
        let c = clone_version_req(&reqs[i]);
        proof {
            assert(c@ == rm[i as int]);
        }
        match UnaffectedRange::from_requirement(c) {
            Ok(rng) => {
                let ghost prev = out@;
                out.push(rng);
                proof {
                    assert(range_models(out@) =~= range_models(prev).push(rng@));
                    let g = |x: Seq<ComparatorModel>| normalize_req(x)->Ok_0;
                    assert(normalized_models(rm.take(i + 1 as int)) =~= normalized_models(
                        rm.take(i as int),
                    ).push(g(rm[i as int])));
                    assert(range_models(out@) =~= base + normalized_models(rm.take(i + 1 as int)));
                }
            },
            Err(e) => {
                proof {
                    lemma_first_norm_error_skip(rm, i as int);
                }
                return Err(e);
            },
        }
        i = i + 1;
    }
    proof {
        lemma_first_norm_error_skip(rm, rm.len() as int);
        assert(rm.take(rm.len() as int) =~= rm);
    }
    Ok(())
}

/// Returns the OSV ranges of all affected versions for the given advisory:
/// each `patched` and `unaffected` requirement is normalized to a safe
/// range, and the complement of those safe ranges is emitted as `[start,
/// end)` intervals.
pub fn ranges_for_advisory(advisory: Advisory) -> (r: Result<Vec<OsvRange>, RangeError>)
    ensures
        match first_norm_error(req_models(advisory.versions.unaffected@)) {
            Some(e) => r == Err::<Vec<OsvRange>, RangeError>(e),
            None => match first_norm_error(req_models(advisory.versions.patched@)) {
                Some(e) => r == Err::<Vec<OsvRange>, RangeError>(e),
                None => {
                    let vs = normalized_models(req_models(advisory.versions.unaffected@))
                        + normalized_models(req_models(advisory.versions.patched@));
                    complement_err(r) == complement_outcome(vs) && (r is Ok ==> exists|
                        s: Seq<RangeModel>,
                        p: Seq<int>,
                        q: Seq<int>,
                    |
                        is_permutation(p, q, vs, s) && sorted_by_start(s) && all_valid(s)
                            && no_overlap(s) && distinct_starts(s) && all_convertible(s)
                            && osv_models(r->Ok_0@) == affected_of(s))
                },
            },
        },
{
    let mut ranges: Vec<UnaffectedRange> = Vec::new();
    match normalize_all(&advisory.versions.unaffected, &mut ranges) {
        Ok(_) => {},
        Err(e) => {
            return Err(e);
        },
    }
    match normalize_all(&advisory.versions.patched, &mut ranges) {
        Ok(_) => {},
        Err(e) => {
            return Err(e);
        },
    }
    unaffected_to_osv_ranges(&ranges)
}


/// A version lies inside an affected range: at or above its inclusive
/// start, strictly below its exclusive end.
pub open spec fn osv_contains(o: OsvRangeModel, v: VersionModel) -> bool {
    &&& match o.start {
        None => true,
        Some(st) => st == v || version_lt(st, v),
    }
    &&& match o.end {
        None => true,
        Some(e) => version_lt(v, e),
    }
}

/// The converted start of an affected stretch admits exactly the versions
/// the safe range's end bound shuts out.
proof fn lemma_start_conversion(e: BoundModel, v: VersionModel)
    requires
        end_convertible(e),
        bound_position(e) is Some,
        version_wf(v),
    ensures
        (affected_start_of_end(e)->Some_0 == v || version_lt(affected_start_of_end(e)->Some_0, v))
            <==> !end_allows(e, v),
{
    match e {
        BoundModel::Exclusive(w) => {
            lemma_version_lt_total(w, v);
            lemma_version_lt_irrefl(w);
            lemma_version_lt_irrefl(v);
            if version_lt(w, v) && version_lt(v, w) {
                lemma_version_lt_trans(w, v, w);
            }
        },
        BoundModel::Inclusive(w) => {
            let st = successor(w);
            lemma_successor_is_next(w, v);
            lemma_version_lt_total(w, v);
            lemma_version_lt_total(v, st);
            lemma_version_lt_irrefl(w);
            lemma_version_lt_irrefl(v);
            lemma_version_lt_irrefl(st);
            if st == v {
                assert(version_lt(w, v));
            }
            if version_lt(st, v) {
                lemma_version_lt_trans(w, st, v);
            }
            if version_lt(w, v) {
                // nothing lies strictly between w and its successor
                assert(!version_lt(v, st));
            }
            if version_lt(v, w) && version_lt(w, v) {
                lemma_version_lt_trans(v, w, v);
            }
        },
        BoundModel::Unbounded => {},
    }
}

/// The converted end of an affected stretch admits exactly the versions
/// the safe range's start bound shuts out.
proof fn lemma_end_conversion(b: BoundModel, v: VersionModel)
    requires
        start_convertible(b),
        bound_position(b) is Some,
        version_wf(v),
    ensures
        version_lt(v, affected_end_of_start(b)->Some_0) <==> !start_allows(b, v),
{
    match b {
        BoundModel::Inclusive(w) => {
            lemma_version_lt_total(w, v);
            lemma_version_lt_irrefl(w);
            lemma_version_lt_irrefl(v);
            if version_lt(v, w) && version_lt(w, v) {
                lemma_version_lt_trans(v, w, v);
            }
        },
        BoundModel::Exclusive(w) => {
            let e = successor(w);
            lemma_successor_is_next(w, v);
            lemma_version_lt_total(w, v);
            lemma_version_lt_irrefl(w);
            lemma_version_lt_irrefl(v);
            if version_lt(v, e) && version_lt(w, v) {
                assert(false);
            }
            if !version_lt(w, v) {
                if v == w {
                    assert(version_lt(v, e));
                } else {
                    assert(version_lt(v, w));
                    lemma_version_lt_trans(v, w, e);
                }
            }
        },
        BoundModel::Unbounded => {},
    }
}

/// Along the sorted order, a start that admits a version is preceded only
/// by starts that admit it too.
proof fn lemma_start_allows_mono(s: Seq<RangeModel>, t: int, i: int, v: VersionModel)
    requires
        sorted_by_start(s),
        distinct_starts(s),
        0 <= t <= i < s.len(),
        start_allows(s[i].start, v),
    ensures
        start_allows(s[t].start, v),
{
    if t < i {
        assert(start_le(s[t], s[i]));
        match (bound_position(s[t].start), bound_position(s[i].start)) {
            (Some(pt), Some(pi)) => {
                assert(pt != pi);
                assert(version_lt(pt, pi));
                match s[i].start {
                    BoundModel::Inclusive(_) => {
                        if pi == v {
                            assert(version_lt(pt, v));
                        } else {
                            lemma_version_lt_trans(pt, pi, v);
                        }
                    },
                    BoundModel::Exclusive(_) => {
                        lemma_version_lt_trans(pt, pi, v);
                    },
                    BoundModel::Unbounded => {},
                }
            },
            (None, _) => {},
            (Some(_), None) => {
                assert(!start_le(s[t], s[i]));
            },
        }
    }
}

/// A version a valid range's end bound shuts out is admitted by its start
/// bound.
proof fn lemma_above_end_above_start(r: RangeModel, v: VersionModel)
    requires
        range_valid(r),
        bound_position(r.end) is Some,
        !end_allows(r.end, v),
    ensures
        start_allows(r.start, v),
{
    let e = bound_position(r.end)->Some_0;
    lemma_version_lt_total(e, v);
    lemma_version_lt_irrefl(e);
    lemma_version_lt_irrefl(v);
    match bound_position(r.start) {
        Some(st) => {
            lemma_version_lt_irrefl(st);
            if st == e {
                // a valid range with equal positions has an inclusive side
                match r.end {
                    BoundModel::Exclusive(_) => {
                        // v is not below e, and the start is inclusive
                        if version_lt(e, v) {
                        }
                    },
                    _ => {
                        assert(version_lt(e, v));
                    },
                }
            } else {
                assert(version_lt(st, e));
                match r.end {
                    BoundModel::Exclusive(_) => {
                        if e == v {
                            assert(version_lt(st, v));
                        } else {
                            assert(version_lt(e, v));
                            lemma_version_lt_trans(st, e, v);
                        }
                    },
                    _ => {
                        assert(version_lt(e, v));
                        lemma_version_lt_trans(st, e, v);
                    },
                }
            }
        },
        None => {},
    }
}

/// A version above one range's end cannot sit inside an earlier range of a
/// sorted, non-overlapping list.
proof fn lemma_no_safe_below_shut_end(s: Seq<RangeModel>, i: int, t: int, v: VersionModel)
    requires
        sorted_by_start(s),
        all_valid(s),
        no_overlap(s),
        distinct_starts(s),
        0 <= i < t < s.len(),
        bound_position(s[t].end) is Some,
        !end_allows(s[t].end, v),
    ensures
        !range_contains(s[i], v),
{
    if range_contains(s[i], v) {
        lemma_above_end_above_start(s[t], v);
        // both conjuncts of the overlap check hold, against no_overlap
        lemma_point_between(s[t].start, s[i].end, v);
        assert(start_le(s[i], s[t]));
        match (bound_position(s[i].start), bound_position(s[t].start)) {
            (Some(pi), Some(pt)) => {
                assert(pi != pt);
                assert(version_lt(pi, pt));
                let pe = bound_position(s[t].end)->Some_0;
                lemma_version_lt_irrefl(pi);
                lemma_version_lt_irrefl(pt);
                lemma_version_lt_irrefl(pe);
                if pt == pe {
                    assert(version_lt(pi, pe));
                } else {
                    assert(version_lt(pt, pe));
                    lemma_version_lt_trans(pi, pt, pe);
                }
                assert(bound_le(s[i].start, s[t].end));
            },
            (None, _) => {
                assert(bound_le(s[i].start, s[t].end));
            },
            (Some(_), None) => {
                assert(!start_le(s[i], s[t]));
            },
        }
        assert(overlaps_spec(s[i], s[t]));
    }
}

/// The largest index whose start admits the version.
proof fn find_threshold(s: Seq<RangeModel>, v: VersionModel, i: int) -> (k: int)
    requires
        0 <= i < s.len(),
        start_allows(s[i].start, v),
    ensures
        i <= k < s.len(),
        start_allows(s[k].start, v),
        k == s.len() - 1 || !start_allows(s[k + 1].start, v),
    decreases s.len() - i,
{
    if i == s.len() - 1 {
        i
    } else if start_allows(s[i + 1].start, v) {
        find_threshold(s, v, i + 1)
    } else {
        i
    }
}

/// The affected ranges of a sorted safe-range list cover exactly the
/// versions its safe ranges miss, and no version twice: together the safe
/// ranges and the emitted affected ranges partition the version order.
pub proof fn lemma_complement_partitions(s: Seq<RangeModel>, v: VersionModel)
    requires
        s.len() > 0,
        sorted_by_start(s),
        all_valid(s),
        no_overlap(s),
        distinct_starts(s),
        all_convertible(s),
        version_wf(v),
    ensures
        (exists|i: int| 0 <= i < s.len() && range_contains(#[trigger] s[i], v)) <==> !(exists|
            j: int,
        |
            0 <= j < affected_of(s).len() && osv_contains(#[trigger] affected_of(s)[j], v)),
        forall|i1: int, i2: int|
            0 <= i1 < i2 < s.len() ==> !(range_contains(#[trigger] s[i1], v) && range_contains(
                #[trigger] s[i2],
                v,
            )),
        forall|j1: int, j2: int|
            0 <= j1 < j2 < affected_of(s).len() ==> !(osv_contains(
                #[trigger] affected_of(s)[j1],
                v,
            ) && osv_contains(#[trigger] affected_of(s)[j2], v)),
{
    let n = s.len() as int;
    let af = affected_of(s);
    let hd = head_of(s[0]);
    let gp = gaps_of(s);
    let tl = tail_of(s[n - 1]);
    let h = hd.len() as int;

    // what each affected slot admits, in terms of the neighbouring bounds
    assert forall|j: int| 0 <= j < af.len() implies osv_contains(#[trigger] af[j], v) == ({
        if j < h {
            !start_allows(s[0].start, v)
        } else if j < h + n - 1 {
            let t = j - h;
            !end_allows(s[t].end, v) && !start_allows(s[t + 1].start, v)
        } else {
            !end_allows(s[n - 1].end, v)
        }
    }) by {
        if j < h {
            assert(af[j] == hd[j]);
            assert(s[0].start is Inclusive || s[0].start is Exclusive);
            assert(start_convertible(s[0].start));
            lemma_end_conversion(s[0].start, v);
        } else if j < h + n - 1 {
            let t = j - h;
            assert(af[j] == gp[t]);
            lemma_interior_bounds(s, t);
            assert(end_convertible(s[t].end));
            assert(start_convertible(s[t + 1].start));
            lemma_start_conversion(s[t].end, v);
            lemma_end_conversion(s[t + 1].start, v);
        } else {
            assert(af[j] == tl[j - (h + n - 1)]);
            assert(j - (h + n - 1) == 0);
            assert(end_convertible(s[n - 1].end));
            lemma_start_conversion(s[n - 1].end, v);
        }
    }

    // no version sits in two safe ranges
    assert forall|i1: int, i2: int| 0 <= i1 < i2 < n implies !(range_contains(
        #[trigger] s[i1],
        v,
    ) && range_contains(#[trigger] s[i2], v)) by {
        if range_contains(s[i1], v) && range_contains(s[i2], v) {
            lemma_shared_point_overlaps(s[i1], s[i2], v);
        }
    }

    // no version sits in two affected ranges: a later affected slot only
    // admits versions its left neighbour's start admits, which the earlier
    // slot shuts out
    assert forall|j1: int, j2: int| 0 <= j1 < j2 < af.len() implies !(osv_contains(
        #[trigger] af[j1],
        v,
    ) && osv_contains(#[trigger] af[j2], v)) by {
        if osv_contains(af[j1], v) && osv_contains(af[j2], v) {
            // the start admitted at the right end of slot j2
            let t2 = if j2 < h + n - 1 {
                j2 - h
            } else {
                n - 1
            };
            assert(!end_allows(s[t2].end, v));
            assert(bound_position(s[t2].end) is Some);
            lemma_above_end_above_start(s[t2], v);
            if j1 < h {
                lemma_start_allows_mono(s, 0, t2, v);
            } else {
                let t1 = j1 - h;
                assert(!start_allows(s[t1 + 1].start, v));
                lemma_start_allows_mono(s, t1 + 1, t2, v);
            }
        }
    }

    // a version in a safe range is in no affected range
    if exists|i: int| 0 <= i < n && range_contains(#[trigger] s[i], v) {
        let i = choose|i: int| 0 <= i < n && range_contains(#[trigger] s[i], v);
        assert forall|j: int| 0 <= j < af.len() implies !osv_contains(#[trigger] af[j], v) by {
            if osv_contains(af[j], v) {
                if j < h {
                    lemma_start_allows_mono(s, 0, i, v);
                } else {
                    let t = if j < h + n - 1 {
                        j - h
                    } else {
                        n - 1
                    };
                    assert(!end_allows(s[t].end, v));
                    if i <= t {
                        if i == t {
                            assert(end_allows(s[t].end, v));
                        } else {
                            lemma_no_safe_below_shut_end(s, i, t, v);
                        }
                    } else {
                        // i > t, so the gap's right neighbour admits v
                        assert(j < h + n - 1);
                        assert(!start_allows(s[t + 1].start, v));
                        lemma_start_allows_mono(s, t + 1, i, v);
                    }
                }
            }
        }
    }

    // a version in no safe range is in some affected range
    if !(exists|i: int| 0 <= i < n && range_contains(#[trigger] s[i], v)) {
        assert forall|i: int| 0 <= i < n implies !range_contains(#[trigger] s[i], v) by {}
        if !start_allows(s[0].start, v) {
            // below everything: the head slot admits v
            assert(bound_position(s[0].start) is Some);
            assert(h == 1);
            assert(osv_contains(af[0], v));
        } else {
            let k = find_threshold(s, v, 0);
            assert(!range_contains(s[k], v));
            assert(!end_allows(s[k].end, v));
            if k == n - 1 {
                assert(bound_position(s[n - 1].end) is Some);
                assert(tl.len() == 1);
                let j = h + n - 1;
                assert(osv_contains(af[j], v));
            } else {
                let j = h + k;
                assert(osv_contains(af[j], v));
            }
        }
    }
}


} // verus!
