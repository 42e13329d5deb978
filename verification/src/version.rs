//! Semantic-versioning values and their precedence order.
//!
//! A version is a numeric `major.minor.patch` triple plus an ordered list
//! of pre-release identifiers. Build metadata never takes part in
//! precedence or equality here, so it is not carried at all.

use vstd::prelude::*;

verus! {

/// One pre-release identifier: either numeric, or alphanumeric ASCII text
/// (held as its bytes). Numeric identifiers order below alphanumeric ones.
#[derive(PartialEq, Eq, Hash, Debug)]
pub enum Identifier {
    Numeric(u64),
    Alpha(Vec<u8>),
}

/// Mathematical value of an [`Identifier`].
#[verifier::ext_equal]
pub enum IdentifierModel {
    Numeric(int),
    Alpha(Seq<u8>),
}

impl View for Identifier {
    type V = IdentifierModel;

    open spec fn view(&self) -> IdentifierModel {
        match self {
            Identifier::Numeric(n) => IdentifierModel::Numeric(*n as int),
            Identifier::Alpha(bytes) => IdentifierModel::Alpha(bytes@),
        }
    }
}

/// A semantic version.
#[derive(PartialEq, Eq, Hash, Debug)]
pub struct Version {
    pub major: u64,
    pub minor: u64,
    pub patch: u64,
    pub pre: Vec<Identifier>,
}

/// Mathematical value of a [`Version`].
#[verifier::ext_equal]
pub struct VersionModel {
    pub major: int,
    pub minor: int,
    pub patch: int,
    pub pre: Seq<IdentifierModel>,
}

impl View for Version {
    type V = VersionModel;

    open spec fn view(&self) -> VersionModel {
        VersionModel {
            major: self.major as int,
            minor: self.minor as int,
            patch: self.patch as int,
            pre: self.pre@.map_values(|i: Identifier| i@),
        }
    }
}

/// Lexicographic order on ASCII byte strings: a proper prefix orders first.
pub open spec fn bytes_lt(a: Seq<u8>, b: Seq<u8>) -> bool
    decreases a.len(),
{
    if b.len() == 0 {
        false
    } else if a.len() == 0 {
        true
    } else if a[0] != b[0] {
        a[0] < b[0]
    } else {
        bytes_lt(a.skip(1), b.skip(1))
    }
}

/// Precedence of pre-release identifiers: numeric identifiers compare
/// numerically and order below alphanumeric ones; alphanumeric identifiers
/// compare in ASCII order.
pub open spec fn ident_lt(a: IdentifierModel, b: IdentifierModel) -> bool {
    match (a, b) {
        (IdentifierModel::Numeric(x), IdentifierModel::Numeric(y)) => x < y,
        (IdentifierModel::Numeric(_), IdentifierModel::Alpha(_)) => true,
        (IdentifierModel::Alpha(_), IdentifierModel::Numeric(_)) => false,
        (IdentifierModel::Alpha(x), IdentifierModel::Alpha(y)) => bytes_lt(x, y),
    }
}

/// Lexicographic order on sequences of pre-release identifiers:
/// a proper prefix orders first.
pub open spec fn pre_lt(a: Seq<IdentifierModel>, b: Seq<IdentifierModel>) -> bool
    decreases a.len(),
{
    if b.len() == 0 {
        false
    } else if a.len() == 0 {
        true
    } else if ident_lt(a[0], b[0]) {
        true
    } else if ident_lt(b[0], a[0]) {
        false
    } else {
        pre_lt(a.skip(1), b.skip(1))
    }
}

/// Semantic-versioning precedence: compare the numeric triple first;
/// with equal triples, a version with pre-release identifiers orders
/// strictly below the plain release, and two pre-release versions compare
/// by their identifier sequences.
pub open spec fn version_lt(a: VersionModel, b: VersionModel) -> bool {
    if a.major != b.major {
        a.major < b.major
    } else if a.minor != b.minor {
        a.minor < b.minor
    } else if a.patch != b.patch {
        a.patch < b.patch
    } else if a.pre.len() == 0 {
        false
    } else if b.pre.len() == 0 {
        true
    } else {
        pre_lt(a.pre, b.pre)
    }
}

/// Three-way comparison result.
#[derive(Clone, Copy, PartialEq, Eq, Structural, Debug)]
pub enum Rel {
    Less,
    Equal,
    Greater,
}

/// If two byte strings agree on their first `i` positions, their order is
/// decided by the remainders.
proof fn lemma_bytes_lt_skip(a: Seq<u8>, b: Seq<u8>, i: int)
    requires
        0 <= i <= a.len(),
        i <= b.len(),
        forall|j: int| 0 <= j < i ==> a[j] == b[j],
    ensures
        bytes_lt(a, b) == bytes_lt(a.skip(i), b.skip(i)),
    decreases i,
{
    if i > 0 {
        lemma_bytes_lt_skip(a.skip(1), b.skip(1), i - 1);
        assert(a.skip(1).skip(i - 1) =~= a.skip(i));
        assert(b.skip(1).skip(i - 1) =~= b.skip(i));
    } else {
        assert(a.skip(0) =~= a);
        assert(b.skip(0) =~= b);
    }
}

/// Compare two ASCII byte strings.
pub fn bytes_cmp(a: &Vec<u8>, b: &Vec<u8>) -> (r: Rel)
    ensures
        (r == Rel::Less) == bytes_lt(a@, b@),
        (r == Rel::Greater) == bytes_lt(b@, a@),
        (r == Rel::Equal) == (a@ == b@),
{
    let mut i: usize = 0;
    loop
        invariant
            0 <= i <= a.len(),
            i <= b.len(),
            forall|j: int| 0 <= j < i ==> a@[j] == b@[j],
        decreases a.len() - i,
    {
        proof {
            lemma_bytes_lt_skip(a@, b@, i as int);
            lemma_bytes_lt_skip(b@, a@, i as int);
        }
        if i == a.len() && i == b.len() {
            assert(a@ =~= b@);
            return Rel::Equal;
        }
        if i == a.len() {
            assert(a@ != b@) by {
                assert(a@.len() != b@.len());
            }
            return Rel::Less;
        }
        if i == b.len() {
            return Rel::Greater;
        }
        if a[i] < b[i] {
            assert(a@ != b@) by {
                assert(a@[i as int] != b@[i as int]);
            }
            return Rel::Less;
        }
        if a[i] > b[i] {
            return Rel::Greater;
        }
        i = i + 1;
    }
}

/// Compare two pre-release identifiers.
pub fn ident_cmp(a: &Identifier, b: &Identifier) -> (r: Rel)
    ensures
        (r == Rel::Less) == ident_lt(a@, b@),
        (r == Rel::Greater) == ident_lt(b@, a@),
        (r == Rel::Equal) == (a@ == b@),
{
    match (a, b) {
        (Identifier::Numeric(x), Identifier::Numeric(y)) => {
            if x < y {
                Rel::Less
            } else if y < x {
                Rel::Greater
            } else {
                Rel::Equal
            }
        },
        (Identifier::Numeric(_), Identifier::Alpha(_)) => Rel::Less,
        (Identifier::Alpha(_), Identifier::Numeric(_)) => Rel::Greater,
        (Identifier::Alpha(x), Identifier::Alpha(y)) => bytes_cmp(x, y),
    }
}

/// The byte order is irreflexive.
proof fn lemma_bytes_lt_irrefl(s: Seq<u8>)
    ensures
        !bytes_lt(s, s),
    decreases s.len(),
{
    if s.len() > 0 {
        lemma_bytes_lt_irrefl(s.skip(1));
    }
}

/// The identifier order is irreflexive.
proof fn lemma_ident_lt_irrefl(x: IdentifierModel)
    ensures
        !ident_lt(x, x),
{
    match x {
        IdentifierModel::Alpha(bytes) => lemma_bytes_lt_irrefl(bytes),
        IdentifierModel::Numeric(_) => {},
    }
}

/// If two identifier sequences agree on their first `i` positions, their
/// order is decided by the remainders.
proof fn lemma_pre_lt_skip(a: Seq<IdentifierModel>, b: Seq<IdentifierModel>, i: int)
    requires
        0 <= i <= a.len(),
        i <= b.len(),
        forall|j: int| 0 <= j < i ==> a[j] == b[j],
    ensures
        pre_lt(a, b) == pre_lt(a.skip(i), b.skip(i)),
    decreases i,
{
    if i > 0 {
        lemma_ident_lt_irrefl(a[0]);
        lemma_pre_lt_skip(a.skip(1), b.skip(1), i - 1);
        assert(a.skip(1).skip(i - 1) =~= a.skip(i));
        assert(b.skip(1).skip(i - 1) =~= b.skip(i));
    } else {
        assert(a.skip(0) =~= a);
        assert(b.skip(0) =~= b);
    }
}

/// Compare two sequences of pre-release identifiers.
pub fn pre_cmp(a: &Vec<Identifier>, b: &Vec<Identifier>) -> (r: Rel)
    ensures
        (r == Rel::Less) == pre_lt(a@.map_values(|x: Identifier| x@), b@.map_values(|x: Identifier| x@)),
        (r == Rel::Greater) == pre_lt(b@.map_values(|x: Identifier| x@), a@.map_values(|x: Identifier| x@)),
        (r == Rel::Equal) == (a@.map_values(|x: Identifier| x@) == b@.map_values(|x: Identifier| x@)),
{
    let ghost av = a@.map_values(|x: Identifier| x@);
    let ghost bv = b@.map_values(|x: Identifier| x@);
    let mut i: usize = 0;
    loop
        invariant
            0 <= i <= a.len(),
            i <= b.len(),
            av == a@.map_values(|x: Identifier| x@),
            bv == b@.map_values(|x: Identifier| x@),
            forall|j: int| 0 <= j < i ==> av[j] == bv[j],
        decreases a.len() - i,
    {
        proof {
            lemma_pre_lt_skip(av, bv, i as int);
            lemma_pre_lt_skip(bv, av, i as int);
        }
        if i == a.len() && i == b.len() {
            assert(av =~= bv);
            return Rel::Equal;
        }
        if i == a.len() {
            assert(av != bv) by {
                assert(av.len() != bv.len());
            }
            return Rel::Less;
        }
        if i == b.len() {
            return Rel::Greater;
        }
        let c = ident_cmp(&a[i], &b[i]);
        if c == Rel::Less {
            assert(av != bv) by {
                assert(av[i as int] != bv[i as int]);
            }
            return Rel::Less;
        }
        if c == Rel::Greater {
            return Rel::Greater;
        }
        assert(av[i as int] == bv[i as int]);
        i = i + 1;
    }
}

/// A well-formed identifier model: numeric identifiers carry machine
/// integers. Every identifier built in executable code satisfies this.
pub open spec fn ident_wf(i: IdentifierModel) -> bool {
    match i {
        IdentifierModel::Numeric(x) => 0 <= x <= u64::MAX,
        IdentifierModel::Alpha(_) => true,
    }
}

/// A well-formed version model: the triple and all numeric pre-release
/// identifiers carry machine integers.
pub open spec fn version_wf(v: VersionModel) -> bool {
    &&& 0 <= v.major <= u64::MAX
    &&& 0 <= v.minor <= u64::MAX
    &&& 0 <= v.patch <= u64::MAX
    &&& forall|i: int| 0 <= i < v.pre.len() ==> ident_wf(#[trigger] v.pre[i])
}

/// The value of every executable version is well formed.
pub proof fn lemma_view_version_wf(v: &Version)
    ensures
        version_wf(v@),
{
    assert forall|i: int| 0 <= i < v@.pre.len() implies ident_wf(#[trigger] v@.pre[i]) by {
        assert(v@.pre[i] == v.pre@[i]@);
    }
}

/// The byte order is transitive.
proof fn lemma_bytes_lt_trans(a: Seq<u8>, b: Seq<u8>, c: Seq<u8>)
    requires
        bytes_lt(a, b),
        bytes_lt(b, c),
    ensures
        bytes_lt(a, c),
    decreases a.len(),
{
    if a.len() > 0 {
        if a[0] == b[0] && b[0] == c[0] {
            lemma_bytes_lt_trans(a.skip(1), b.skip(1), c.skip(1));
        }
    }
}

/// The byte order is total: two byte strings compare one way, the other,
/// or are equal.
proof fn lemma_bytes_lt_total(a: Seq<u8>, b: Seq<u8>)
    ensures
        bytes_lt(a, b) || bytes_lt(b, a) || a == b,
    decreases a.len(),
{
    if a.len() == 0 && b.len() == 0 {
        assert(a =~= b);
    } else if a.len() > 0 && b.len() > 0 && a[0] == b[0] {
        lemma_bytes_lt_total(a.skip(1), b.skip(1));
        if a.skip(1) == b.skip(1) {
            assert(a.skip(1).len() == b.skip(1).len());
            assert(a.len() == b.len());
            assert forall|i: int| 0 <= i < a.len() implies a[i] == b[i] by {
                if i >= 1 {
                    assert(a[i] == a.skip(1)[i - 1]);
                    assert(b[i] == b.skip(1)[i - 1]);
                }
            }
            assert(a =~= b);
        }
    }
}

/// The identifier order is transitive.
proof fn lemma_ident_lt_trans(a: IdentifierModel, b: IdentifierModel, c: IdentifierModel)
    requires
        ident_lt(a, b),
        ident_lt(b, c),
    ensures
        ident_lt(a, c),
{
    match (a, b, c) {
        (IdentifierModel::Alpha(x), IdentifierModel::Alpha(y), IdentifierModel::Alpha(z)) => {
            lemma_bytes_lt_trans(x, y, z);
        },
        _ => {},
    }
}

/// The identifier order is total.
proof fn lemma_ident_lt_total(a: IdentifierModel, b: IdentifierModel)
    ensures
        ident_lt(a, b) || ident_lt(b, a) || a == b,
{
    match (a, b) {
        (IdentifierModel::Alpha(x), IdentifierModel::Alpha(y)) => {
            lemma_bytes_lt_total(x, y);
        },
        _ => {},
    }
}

/// The pre-release sequence order is transitive.
proof fn lemma_pre_lt_trans(a: Seq<IdentifierModel>, b: Seq<IdentifierModel>, c: Seq<IdentifierModel>)
    requires
        pre_lt(a, b),
        pre_lt(b, c),
    ensures
        pre_lt(a, c),
    decreases a.len(),
{
    if a.len() > 0 {
        lemma_ident_lt_total(a[0], b[0]);
        lemma_ident_lt_total(b[0], c[0]);
        lemma_ident_lt_irrefl(a[0]);
        lemma_ident_lt_irrefl(b[0]);
        if ident_lt(a[0], b[0]) && ident_lt(b[0], c[0]) {
            lemma_ident_lt_trans(a[0], b[0], c[0]);
        } else if a[0] == b[0] && b[0] == c[0] {
            lemma_pre_lt_trans(a.skip(1), b.skip(1), c.skip(1));
        }
    }
}

/// The pre-release sequence order is total.
proof fn lemma_pre_lt_total(a: Seq<IdentifierModel>, b: Seq<IdentifierModel>)
    ensures
        pre_lt(a, b) || pre_lt(b, a) || a == b,
    decreases a.len(),
{
    if a.len() == 0 && b.len() == 0 {
        assert(a =~= b);
    } else if a.len() > 0 && b.len() > 0 {
        lemma_ident_lt_total(a[0], b[0]);
        lemma_ident_lt_irrefl(a[0]);
        if !ident_lt(a[0], b[0]) && !ident_lt(b[0], a[0]) {
            lemma_pre_lt_total(a.skip(1), b.skip(1));
            if a.skip(1) == b.skip(1) {
                assert(a.skip(1).len() == b.skip(1).len());
                assert(a.len() == b.len());
                assert forall|i: int| 0 <= i < a.len() implies a[i] == b[i] by {
                    if i >= 1 {
                        assert(a[i] == a.skip(1)[i - 1]);
                        assert(b[i] == b.skip(1)[i - 1]);
                    }
                }
                assert(a =~= b);
            }
        }
    }
}

/// The pre-release sequence order is irreflexive.
proof fn lemma_pre_lt_irrefl(s: Seq<IdentifierModel>)
    ensures
        !pre_lt(s, s),
    decreases s.len(),
{
    if s.len() > 0 {
        lemma_ident_lt_irrefl(s[0]);
        lemma_pre_lt_irrefl(s.skip(1));
    }
}

/// Version precedence is irreflexive.
pub proof fn lemma_version_lt_irrefl(v: VersionModel)
    ensures
        !version_lt(v, v),
{
    lemma_pre_lt_irrefl(v.pre);
}

/// Version precedence is transitive.
pub proof fn lemma_version_lt_trans(a: VersionModel, b: VersionModel, c: VersionModel)
    requires
        version_lt(a, b),
        version_lt(b, c),
    ensures
        version_lt(a, c),
{
    if a.major == b.major && b.major == c.major && a.minor == b.minor && b.minor == c.minor
        && a.patch == b.patch && b.patch == c.patch && a.pre.len() > 0 && b.pre.len() > 0
        && c.pre.len() > 0 {
        lemma_pre_lt_trans(a.pre, b.pre, c.pre);
    }
}

/// Version precedence is total: two versions compare one way, the other,
/// or are equal.
pub proof fn lemma_version_lt_total(a: VersionModel, b: VersionModel)
    ensures
        version_lt(a, b) || version_lt(b, a) || a == b,
{
    if a.major == b.major && a.minor == b.minor && a.patch == b.patch {
        if a.pre.len() == 0 && b.pre.len() == 0 {
            assert(a.pre =~= b.pre);
            assert(a =~= b);
        } else if a.pre.len() > 0 && b.pre.len() > 0 {
            lemma_pre_lt_total(a.pre, b.pre);
            if a.pre == b.pre {
                assert(a =~= b);
            }
        }
    }
}

/// The lowest version strictly above a release version: the patch
/// component goes up by one and the single pre-release identifier `0`
/// is appended.
pub open spec fn successor(v: VersionModel) -> VersionModel {
    VersionModel {
        major: v.major,
        minor: v.minor,
        patch: v.patch + 1,
        pre: seq![IdentifierModel::Numeric(0)],
    }
}

/// The successor of a release version is strictly above it, and no
/// well-formed version lies strictly between the two.
pub proof fn lemma_successor_is_next(v: VersionModel, w: VersionModel)
    requires
        v.pre.len() == 0,
        version_wf(w),
    ensures
        version_lt(v, successor(v)),
        !(version_lt(v, w) && version_lt(w, successor(v))),
{
    if version_lt(v, w) && version_lt(w, successor(v)) {
        let s = successor(v);
        assert(s.pre.len() == 1 && s.pre[0] == IdentifierModel::Numeric(0));
        if w.major == v.major && w.minor == v.minor && w.patch == v.patch + 1 {
            assert(w.pre.len() > 0);
            assert(pre_lt(w.pre, s.pre));
            assert(ident_wf(w.pre[0]));
            if ident_lt(w.pre[0], s.pre[0]) {
                assert(false);
            } else if ident_lt(s.pre[0], w.pre[0]) {
                assert(!pre_lt(w.pre, s.pre));
                assert(false);
            } else {
                assert(pre_lt(w.pre.skip(1), s.pre.skip(1)));
                assert(s.pre.skip(1).len() == 0);
                assert(false);
            }
        }
    }
}

/// Compare two versions under semantic-versioning precedence.
pub fn version_cmp(a: &Version, b: &Version) -> (r: Rel)
    ensures
        (r == Rel::Less) == version_lt(a@, b@),
        (r == Rel::Greater) == version_lt(b@, a@),
        (r == Rel::Equal) == (a@ == b@),
{
    if a.major != b.major {
        if a.major < b.major {
            Rel::Less
        } else {
            Rel::Greater
        }
    } else if a.minor != b.minor {
        if a.minor < b.minor {
            Rel::Less
        } else {
            Rel::Greater
        }
    } else if a.patch != b.patch {
        if a.patch < b.patch {
            Rel::Less
        } else {
            Rel::Greater
        }
    } else if a.pre.len() == 0 && b.pre.len() == 0 {
        assert(a@ =~= b@);
        Rel::Equal
    } else if a.pre.len() == 0 {
        assert(b@.pre.len() > 0);
        Rel::Greater
    } else if b.pre.len() == 0 {
        Rel::Less
    } else {
        let r = pre_cmp(&a.pre, &b.pre);
        proof {
            if r == Rel::Equal {
                assert(a@ =~= b@);
            }
            if a@ == b@ {
                assert(a@.pre == b@.pre);
            }
        }
        r
    }
}

} // verus!
