//! Safe version intervals.
//!
//! An advisory's "patched" and "unaffected" requirements each normalize to
//! one [`UnaffectedRange`]: a contiguous interval of versions known not to
//! be affected, with inclusive, exclusive or absent bounds.

use vstd::prelude::*;

use crate::version::{
    lemma_version_lt_irrefl, lemma_version_lt_trans, version_lt, Identifier, IdentifierModel, Rel,
    Version, VersionModel, version_cmp,
};

verus! {

/// One edge of an interval: no constraint, or a version that is itself
/// inside or outside the interval.
#[derive(PartialEq, Eq, Hash, Debug)]
pub enum Bound {
    Unbounded,
    Exclusive(Version),
    Inclusive(Version),
}

/// Mathematical value of a [`Bound`].
#[verifier::ext_equal]
pub enum BoundModel {
    Unbounded,
    Exclusive(VersionModel),
    Inclusive(VersionModel),
}

impl View for Bound {
    type V = BoundModel;

    open spec fn view(&self) -> BoundModel {
        match self {
            Bound::Unbounded => BoundModel::Unbounded,
            Bound::Exclusive(v) => BoundModel::Exclusive(v@),
            Bound::Inclusive(v) => BoundModel::Inclusive(v@),
        }
    }
}

/// The version a bound sits at, ignoring whether it is inclusive or
/// exclusive; an unbounded edge has no position.
pub open spec fn bound_position(b: BoundModel) -> Option<VersionModel> {
    match b {
        BoundModel::Unbounded => None,
        BoundModel::Exclusive(v) => Some(v),
        BoundModel::Inclusive(v) => Some(v),
    }
}

/// A range of unaffected versions, as declared by either a `patched` or an
/// `unaffected` field of an advisory.
#[derive(PartialEq, Eq, Hash, Debug)]
pub struct UnaffectedRange {
    pub start: Bound,
    pub end: Bound,
}

/// Mathematical value of an [`UnaffectedRange`].
#[verifier::ext_equal]
pub struct RangeModel {
    pub start: BoundModel,
    pub end: BoundModel,
}

impl View for UnaffectedRange {
    type V = RangeModel;

    open spec fn view(&self) -> RangeModel {
        RangeModel { start: self.start@, end: self.end@ }
    }
}

/// A valid range: either edge is unbounded, or the start position is
/// strictly below the end position, or the two positions are equal with at
/// least one inclusive side (a single-point or empty-but-ordered range).
pub open spec fn range_valid(r: RangeModel) -> bool {
    match (bound_position(r.start), bound_position(r.end)) {
        (Some(s), Some(e)) => version_lt(s, e) || (s == e && (r.start is Inclusive
            || r.end is Inclusive)),
        _ => true,
    }
}

/// The ordering between two bounds used by the overlap check: an unbounded
/// edge always reaches; equal positions only touch if both sides include
/// the point.
pub open spec fn bound_le(a: BoundModel, b: BoundModel) -> bool {
    match (bound_position(a), bound_position(b)) {
        (Some(av), Some(bv)) => if av == bv {
            a is Inclusive && b is Inclusive
        } else {
            version_lt(av, bv)
        },
        _ => true,
    }
}

/// Two valid ranges overlap when each one's start reaches the other's end.
pub open spec fn overlaps_spec(a: RangeModel, b: RangeModel) -> bool {
    bound_le(a.start, b.end) && bound_le(b.start, a.end)
}

/// A version lies above a range's start bound.
pub open spec fn start_allows(b: BoundModel, v: VersionModel) -> bool {
    match b {
        BoundModel::Unbounded => true,
        BoundModel::Exclusive(s) => version_lt(s, v),
        BoundModel::Inclusive(s) => s == v || version_lt(s, v),
    }
}

/// A version lies below a range's end bound.
pub open spec fn end_allows(b: BoundModel, v: VersionModel) -> bool {
    match b {
        BoundModel::Unbounded => true,
        BoundModel::Exclusive(e) => version_lt(v, e),
        BoundModel::Inclusive(e) => v == e || version_lt(v, e),
    }
}

/// A version lies inside a range.
pub open spec fn range_contains(r: RangeModel, v: VersionModel) -> bool {
    start_allows(r.start, v) && end_allows(r.end, v)
}

impl Bound {
    /// The version this bound sits at, ignoring inclusivity.
    pub fn version(&self) -> (r: Option<&Version>)
        ensures
            match r {
                Some(v) => bound_position(self@) == Some(v@),
                None => bound_position(self@) is None,
            },
    {
        match self {
            Bound::Unbounded => None,
            Bound::Exclusive(v) => Some(v),
            Bound::Inclusive(v) => Some(v),
        }
    }
}

impl Default for UnaffectedRange {
    /// The range with no constraint in either direction.
    fn default() -> (r: Self)
        ensures
            r@.start is Unbounded,
            r@.end is Unbounded,
    {
        UnaffectedRange { start: Bound::Unbounded, end: Bound::Unbounded }
    }
}

/// The `bound_le` ordering, decided executably.
fn less_or_equal(a: &Bound, b: &Bound) -> (r: bool)
    ensures
        r == bound_le(a@, b@),
{
    match (a.version(), b.version()) {
        (Some(av), Some(bv)) => match version_cmp(av, bv) {
            Rel::Less => true,
            Rel::Greater => false,
            Rel::Equal => matches!(a, Bound::Inclusive(_)) && matches!(b, Bound::Inclusive(_)),
        },
        _ => true,
    }
}

impl UnaffectedRange {
    /// Whether the range satisfies the ordering invariant.
    pub fn is_valid(&self) -> (r: bool)
        ensures
            r == range_valid(self@),
    {
        match (self.start.version(), self.end.version()) {
            (Some(s), Some(e)) => match version_cmp(s, e) {
                Rel::Less => true,
                Rel::Greater => false,
                Rel::Equal => matches!(self.start, Bound::Inclusive(_)) || matches!(
                    self.end,
                    Bound::Inclusive(_),
                ),
            },
            _ => true,
        }
    }

    /// Whether two valid ranges share at least one point of contact.
    pub fn overlaps(&self, other: &UnaffectedRange) -> (r: bool)
        requires
            range_valid(self@),
            range_valid(other@),
        ensures
            r == overlaps_spec(self@, other@),
    {
        less_or_equal(&self.start, &other.end) && less_or_equal(&other.start, &self.end)
    }
}

/// A fatal defect in an advisory's declared version ranges. None of these
/// is recoverable: each one means the advisory itself is malformed or uses
/// an unsupported form.
#[derive(Clone, Copy, PartialEq, Eq, Structural, Debug)]
pub enum RangeError {
    /// A requirement carries more than two comparator clauses.
    TooManyComparators,
    /// A requirement declares two lower bounds.
    MultipleLowerBounds,
    /// A requirement declares two upper bounds.
    MultipleUpperBounds,
    /// A comparator form this engine does not support (`=`, `^`, `~`, `*`).
    UnsupportedComparator,
    /// A requirement normalizes to a range violating the ordering invariant.
    InvalidRange,
    /// No safe range at all was declared.
    EmptyRangeSet,
    /// Two declared safe ranges overlap.
    OverlappingRanges,
    /// Two declared safe ranges share a start position, so no strict order
    /// exists between them.
    EqualStartPositions,
    /// A successor version was requested for a pre-release version.
    UnsupportedIncrement,
}

/// A comparison operator of a version requirement clause.
#[derive(Clone, Copy, PartialEq, Eq, Structural, Debug)]
pub enum ReqOp {
    Exact,
    Greater,
    GreaterEq,
    Less,
    LessEq,
    Tilde,
    Caret,
    Wildcard,
}

/// One comparator clause of a version requirement: an operator plus a
/// version whose minor and patch components may be elided.
#[derive(PartialEq, Eq, Debug)]
pub struct Comparator {
    pub op: ReqOp,
    pub major: u64,
    pub minor: Option<u64>,
    pub patch: Option<u64>,
    pub pre: Vec<Identifier>,
}

/// Mathematical value of a [`Comparator`].
#[verifier::ext_equal]
pub struct ComparatorModel {
    pub op: ReqOp,
    pub major: int,
    pub minor: Option<int>,
    pub patch: Option<int>,
    pub pre: Seq<IdentifierModel>,
}

impl View for Comparator {
    type V = ComparatorModel;

    open spec fn view(&self) -> ComparatorModel {
        ComparatorModel {
            op: self.op,
            major: self.major as int,
            minor: match self.minor {
                Some(m) => Some(m as int),
                None => None,
            },
            patch: match self.patch {
                Some(p) => Some(p as int),
                None => None,
            },
            pre: self.pre@.map_values(|i: Identifier| i@),
        }
    }
}

/// A version requirement: an ordered list of comparator clauses.
#[derive(PartialEq, Eq, Debug)]
pub struct VersionReq {
    pub comparators: Vec<Comparator>,
}

impl View for VersionReq {
    type V = Seq<ComparatorModel>;

    open spec fn view(&self) -> Seq<ComparatorModel> {
        self.comparators@.map_values(|c: Comparator| c@)
    }
}

/// The version a comparator pins: elided minor and patch components
/// default to zero, and pre-release identifiers carry through.
pub open spec fn comparator_version(c: ComparatorModel) -> VersionModel {
    VersionModel {
        major: c.major,
        minor: match c.minor {
            Some(m) => m,
            None => 0,
        },
        patch: match c.patch {
            Some(p) => p,
            None => 0,
        },
        pre: c.pre,
    }
}

/// Strips the comparison operator from a comparator and turns it into a
/// plain version, defaulting elided components to zero.
pub fn comp_to_ver(c: Comparator) -> (v: Version)
    ensures
        v@ == comparator_version(c@),
{
    let v = Version {
        major: c.major,
        minor: match c.minor {
            Some(m) => m,
            None => 0,
        },
        patch: match c.patch {
            Some(p) => p,
            None => 0,
        },
        pre: c.pre,
    };
    v
}

/// Folds the clauses of a requirement into a range, left to right: `>` and
/// `>=` may each set the start bound once, `<` and `<=` the end bound once.
pub open spec fn fold_clauses(comps: Seq<ComparatorModel>, acc: RangeModel) -> Result<
    RangeModel,
    RangeError,
>
    decreases comps.len(),
{
    if comps.len() == 0 {
        Ok(acc)
    } else {
        let c = comps[0];
        match c.op {
            ReqOp::Greater => if !(acc.start is Unbounded) {
                Err(RangeError::MultipleLowerBounds)
            } else {
                fold_clauses(
                    comps.skip(1),
                    RangeModel { start: BoundModel::Exclusive(comparator_version(c)), end: acc.end },
                )
            },
            ReqOp::GreaterEq => if !(acc.start is Unbounded) {
                Err(RangeError::MultipleLowerBounds)
            } else {
                fold_clauses(
                    comps.skip(1),
                    RangeModel { start: BoundModel::Inclusive(comparator_version(c)), end: acc.end },
                )
            },
            ReqOp::Less => if !(acc.end is Unbounded) {
                Err(RangeError::MultipleUpperBounds)
            } else {
                fold_clauses(
                    comps.skip(1),
                    RangeModel { start: acc.start, end: BoundModel::Exclusive(comparator_version(c)) },
                )
            },
            ReqOp::LessEq => if !(acc.end is Unbounded) {
                Err(RangeError::MultipleUpperBounds)
            } else {
                fold_clauses(
                    comps.skip(1),
                    RangeModel { start: acc.start, end: BoundModel::Inclusive(comparator_version(c)) },
                )
            },
            _ => Err(RangeError::UnsupportedComparator),
        }
    }
}

/// What normalizing a requirement yields: at most two clauses, one lower
/// and one upper bound at most, and the folded range must be valid.
pub open spec fn normalize_req(comps: Seq<ComparatorModel>) -> Result<RangeModel, RangeError> {
    if comps.len() > 2 {
        Err(RangeError::TooManyComparators)
    } else {
        match fold_clauses(comps, RangeModel { start: BoundModel::Unbounded, end: BoundModel::Unbounded }) {
            Ok(r) => if range_valid(r) {
                Ok(r)
            } else {
                Err(RangeError::InvalidRange)
            },
            Err(e) => Err(e),
        }
    }
}

/// The model of a normalizer result.
pub open spec fn range_result_model(r: Result<UnaffectedRange, RangeError>) -> Result<
    RangeModel,
    RangeError,
> {
    match r {
        Ok(rng) => Ok(rng@),
        Err(e) => Err(e),
    }
}

impl UnaffectedRange {
    /// Normalizes one version requirement into a safe range.
    ///
    /// The policy is deliberately narrow, matching what advisories use for
    /// their `patched` and `unaffected` fields: at most two comparator
    /// clauses, at most one lower and one upper bound, and only the plain
    /// comparison operators.
    pub fn from_requirement(req: VersionReq) -> (r: Result<UnaffectedRange, RangeError>)
        ensures
            range_result_model(r) == normalize_req(req@),
    {
        let ghost all = req@;
        if req.comparators.len() > 2 {
            return Err(RangeError::TooManyComparators);
        }
        let mut comps = req.comparators;
        let mut result = UnaffectedRange::default();
        loop
            invariant
                all == req@,
                all.len() <= 2,
                fold_clauses(all, RangeModel { start: BoundModel::Unbounded, end: BoundModel::Unbounded })
                    == fold_clauses(comps@.map_values(|c: Comparator| c@), result@),
            ensures
                comps@.len() == 0,
            decreases comps@.len(),
        {
            if comps.len() == 0 {
                break;
            }
            let ghost before = comps@.map_values(|c: Comparator| c@);
            let c = comps.remove(0);
            proof {
                assert(comps@.map_values(|x: Comparator| x@) =~= before.skip(1));
                assert(before[0] == c@);
            }
            match c.op {
                ReqOp::Greater => {
                    if !matches!(result.start, Bound::Unbounded) {
                        return Err(RangeError::MultipleLowerBounds);
                    }
                    result.start = Bound::Exclusive(comp_to_ver(c));
                },
                ReqOp::GreaterEq => {
                    if !matches!(result.start, Bound::Unbounded) {
                        return Err(RangeError::MultipleLowerBounds);
                    }
                    result.start = Bound::Inclusive(comp_to_ver(c));
                },
                ReqOp::Less => {
                    if !matches!(result.end, Bound::Unbounded) {
                        return Err(RangeError::MultipleUpperBounds);
                    }
                    result.end = Bound::Exclusive(comp_to_ver(c));
                },
                ReqOp::LessEq => {
                    if !matches!(result.end, Bound::Unbounded) {
                        return Err(RangeError::MultipleUpperBounds);
                    }
                    result.end = Bound::Inclusive(comp_to_ver(c));
                },
                _ => {
                    return Err(RangeError::UnsupportedComparator);
                },
            }
        }
        proof {
            assert(comps@.map_values(|c: Comparator| c@).len() == 0);
            assert(fold_clauses(comps@.map_values(|c: Comparator| c@), result@) == Ok::<
                RangeModel,
                RangeError,
            >(result@));
        }
        if !result.is_valid() {
            return Err(RangeError::InvalidRange);
        }
        Ok(result)
    }
}

/// Overlap is symmetric: two valid ranges overlap in one order exactly
/// when they overlap in the other.
pub proof fn lemma_overlaps_symmetric(a: RangeModel, b: RangeModel)
    ensures
        overlaps_spec(a, b) == overlaps_spec(b, a),
{
}

/// A point above one bound and below another witnesses that the first
/// bound reaches the second.
pub proof fn lemma_point_between(b: BoundModel, e: BoundModel, v: VersionModel)
    requires
        start_allows(b, v),
        end_allows(e, v),
    ensures
        bound_le(b, e),
{
    match (bound_position(b), bound_position(e)) {
        (Some(s), Some(x)) => {
            lemma_version_lt_irrefl(s);
            lemma_version_lt_irrefl(x);
            lemma_version_lt_irrefl(v);
            if version_lt(s, v) && version_lt(v, x) {
                lemma_version_lt_trans(s, v, x);
            }
        },
        _ => {},
    }
}

/// Two valid ranges that share a point overlap.
pub proof fn lemma_shared_point_overlaps(a: RangeModel, b: RangeModel, v: VersionModel)
    requires
        range_valid(a),
        range_valid(b),
        range_contains(a, v),
        range_contains(b, v),
    ensures
        overlaps_spec(a, b),
{
    lemma_point_between(a.start, b.end, v);
    lemma_point_between(b.start, a.end, v);
}

/// A range that contains at least one point overlaps itself; in
/// particular every range with a non-empty interior does.
pub proof fn lemma_overlaps_self(r: RangeModel, v: VersionModel)
    requires
        range_valid(r),
        range_contains(r, v),
    ensures
        overlaps_spec(r, r),
{
    match (bound_position(r.start), bound_position(r.end)) {
        (Some(s), Some(e)) => {
            lemma_version_lt_irrefl(s);
            lemma_version_lt_irrefl(e);
            lemma_version_lt_irrefl(v);
            if version_lt(s, v) && version_lt(v, e) {
                lemma_version_lt_trans(s, v, e);
            }
        },
        _ => {},
    }
}

} // verus!
