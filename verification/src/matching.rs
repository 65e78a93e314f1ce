//! The matching model and the matcher.
//!
//! A query is first resolved against the database's defaults into a
//! `ResolvedFamily`; a face then matches when every constraint the query
//! specifies holds of it. Family names compare ASCII-case-insensitively.
//! Weight and stretch follow the nearest-available policy: among the faces
//! that pass the family, monospace and style constraints, a specified
//! stretch keeps only the faces whose stretch is nearest to the requested
//! one, and a specified weight then keeps only the faces whose weight is
//! nearest to the requested one among those.

use vstd::prelude::*;
use vstd::utf8::encode_utf8;

use crate::attrs::Attrs;
use crate::attrs::Family;
use crate::attrs::Style;
use crate::db::unique_ids;
use crate::db::FaceRecord;
use crate::db::FontDatabase;

verus! {

/// A byte with ASCII upper-case letters folded to lower case.
pub open spec fn fold_byte(b: u8) -> u8 {
    if 65 <= b <= 90 {
        (b + 32) as u8
    } else {
        b
    }
}

/// ASCII-case-insensitive equality of two byte sequences.
pub open spec fn bytes_eq_fold(a: Seq<u8>, b: Seq<u8>) -> bool {
    a.len() == b.len() && forall|i: int| 0 <= i < a.len() ==> fold_byte(a[i]) == fold_byte(b[i])
}

/// ASCII-case-insensitive equality of two strings, compared over their
/// UTF-8 encodings.
pub open spec fn family_eq(a: Seq<char>, b: Seq<char>) -> bool {
    bytes_eq_fold(encode_utf8(a), encode_utf8(b))
}

/// What the query's family preference resolved to: no constraint, a
/// concrete name, or a generic class with no configured default (which no
/// face matches by name).
pub enum FamilyReq {
    Any,
    Named(Seq<char>),
    Unmatchable,
}

/// The executable form of a resolved family preference.
pub enum ResolvedFamily {
    Any,
    Named(String),
    Unmatchable,
}

impl View for ResolvedFamily {
    type V = FamilyReq;

    open spec fn view(&self) -> FamilyReq {
        match self {
            ResolvedFamily::Any => FamilyReq::Any,
            ResolvedFamily::Named(s) => FamilyReq::Named(s@),
            ResolvedFamily::Unmatchable => FamilyReq::Unmatchable,
        }
    }
}

/// Resolves a family preference against the database's defaults. A
/// concrete name passes through unchanged; a generic class becomes its
/// configured default, or unmatchable when none is configured. `Fantasy`
/// and `Cursive` have no configurable default here and are always
/// unmatchable.
pub open spec fn family_req(db: FontDatabase, family: Option<Family>) -> FamilyReq {
    match family {
        None => FamilyReq::Any,
        Some(Family::Name(s)) => FamilyReq::Named(s@),
        Some(Family::Monospace) => match db.spec_monospace_family() {
            Some(n) => FamilyReq::Named(n),
            None => FamilyReq::Unmatchable,
        },
        Some(Family::SansSerif) => match db.spec_sans_serif_family() {
            Some(n) => FamilyReq::Named(n),
            None => FamilyReq::Unmatchable,
        },
        Some(Family::Serif) => match db.spec_serif_family() {
            Some(n) => FamilyReq::Named(n),
            None => FamilyReq::Unmatchable,
        },
        Some(Family::Fantasy) => FamilyReq::Unmatchable,
        Some(Family::Cursive) => FamilyReq::Unmatchable,
    }
}

/// A query with its family preference already resolved: exactly the
/// constraints the matcher applies.
pub struct Constraints {
    pub req: FamilyReq,
    pub monospaced: bool,
    pub style: Option<Style>,
    pub weight: Option<u16>,
    pub stretch: Option<u16>,
}

/// The constraints of a query under a given resolved family.
pub open spec fn attrs_constraints(req: FamilyReq, q: Attrs) -> Constraints {
    Constraints {
        req: req,
        monospaced: q.monospaced,
        style: q.style,
        weight: q.weight,
        stretch: q.stretch,
    }
}

/// The constraints of a query against a database.
pub open spec fn constraints_of(db: FontDatabase, q: Attrs) -> Constraints {
    attrs_constraints(family_req(db, q.family), q)
}

/// The family constraint alone.
pub open spec fn family_ok(req: FamilyReq, f: FaceRecord) -> bool {
    match req {
        FamilyReq::Any => true,
        FamilyReq::Named(n) => family_eq(f.family@, n),
        FamilyReq::Unmatchable => false,
    }
}

/// The per-face constraints: family, monospacing and style. Weight and
/// stretch are relative to the candidate set and handled separately.
pub open spec fn base_ok(c: Constraints, f: FaceRecord) -> bool {
    &&& family_ok(c.req, f)
    &&& (c.monospaced ==> f.monospaced)
    &&& (c.style matches Some(s) ==> f.style == s)
}

/// Absolute difference of two numeric classes.
pub open spec fn dist(a: u16, b: u16) -> int {
    if a >= b {
        a - b
    } else {
        b - a
    }
}

/// A face's distance from the requested stretch; zero when none is
/// requested.
pub open spec fn sdist(c: Constraints, f: FaceRecord) -> int {
    match c.stretch {
        Some(s) => dist(f.stretch, s),
        None => 0,
    }
}

/// A face's distance from the requested weight; zero when none is
/// requested.
pub open spec fn wdist(c: Constraints, f: FaceRecord) -> int {
    match c.weight {
        Some(w) => dist(f.weight, w),
        None => 0,
    }
}

/// The least distance over the records that satisfy the predicate, or
/// nothing when none does.
pub open spec fn min_dist_over(
    s: Seq<FaceRecord>,
    pred: spec_fn(FaceRecord) -> bool,
    d: spec_fn(FaceRecord) -> int,
) -> Option<int>
    decreases s.len(),
{
    if s.len() == 0 {
        None
    } else {
        let m0 = min_dist_over(s.drop_last(), pred, d);
        if pred(s.last()) {
            match m0 {
                Some(v) => if d(s.last()) < v {
                    Some(d(s.last()))
                } else {
                    Some(v)
                },
                None => Some(d(s.last())),
            }
        } else {
            m0
        }
    }
}

/// The per-face constraints as a predicate.
pub open spec fn base_pred(c: Constraints) -> spec_fn(FaceRecord) -> bool {
    |f: FaceRecord| base_ok(c, f)
}

/// The stretch distance as a function of the face.
pub open spec fn sdist_fn(c: Constraints) -> spec_fn(FaceRecord) -> int {
    |f: FaceRecord| sdist(c, f)
}

/// The weight distance as a function of the face.
pub open spec fn wdist_fn(c: Constraints) -> spec_fn(FaceRecord) -> int {
    |f: FaceRecord| wdist(c, f)
}

/// The least stretch distance over the faces passing the per-face
/// constraints.
pub open spec fn min_sdist(s: Seq<FaceRecord>, c: Constraints) -> Option<int> {
    min_dist_over(s, base_pred(c), sdist_fn(c))
}

/// Whether a face survives the stretch-narrowing stage: it passes the
/// per-face constraints, and when a stretch is requested its stretch
/// distance is the least one available.
pub open spec fn stage2_ok(s: Seq<FaceRecord>, c: Constraints, f: FaceRecord) -> bool {
    &&& base_ok(c, f)
    &&& (c.stretch is Some ==> min_sdist(s, c) == Some(sdist(c, f)))
}

/// The stretch-narrowing stage as a predicate.
pub open spec fn stage2_pred(s: Seq<FaceRecord>, c: Constraints) -> spec_fn(FaceRecord) -> bool {
    |f: FaceRecord| stage2_ok(s, c, f)
}

/// The least weight distance over the faces surviving stretch narrowing.
pub open spec fn min_wdist(s: Seq<FaceRecord>, c: Constraints) -> Option<int> {
    min_dist_over(s, stage2_pred(s, c), wdist_fn(c))
}

/// Whether a face is matched: it survives stretch narrowing, and when a
/// weight is requested its weight distance is the least one available.
pub open spec fn full_ok(s: Seq<FaceRecord>, c: Constraints, f: FaceRecord) -> bool {
    &&& stage2_ok(s, c, f)
    &&& (c.weight is Some ==> min_wdist(s, c) == Some(wdist(c, f)))
}

/// Being matched, as a predicate.
pub open spec fn full_pred(s: Seq<FaceRecord>, c: Constraints) -> spec_fn(FaceRecord) -> bool {
    |f: FaceRecord| full_ok(s, c, f)
}

/// The faces a query matches, in load order.
pub open spec fn matched(s: Seq<FaceRecord>, c: Constraints) -> Seq<FaceRecord> {
    s.filter(full_pred(s, c))
}

/// A least distance exists exactly when some record satisfies the
/// predicate.
pub proof fn lemma_min_dist_some_iff(
    s: Seq<FaceRecord>,
    pred: spec_fn(FaceRecord) -> bool,
    d: spec_fn(FaceRecord) -> int,
)
    ensures
        (min_dist_over(s, pred, d) is Some) <==> exists|i: int| 0 <= i < s.len() && pred(s[i]),
    decreases s.len(),
{
    if s.len() == 0 {
    } else {
        lemma_min_dist_some_iff(s.drop_last(), pred, d);
        let last = s.len() - 1;
        if pred(s[last]) {
            assert(min_dist_over(s, pred, d) is Some);
        } else {
            assert(s.last() == s[last]);
            if exists|i: int| 0 <= i < s.len() && pred(s[i]) {
                let i = choose|i: int| 0 <= i < s.len() && pred(s[i]);
                assert(i < last);
                assert(s.drop_last()[i] == s[i]);
                assert(min_dist_over(s.drop_last(), pred, d) is Some);
            } else {
                assert(forall|i: int| 0 <= i < s.drop_last().len() ==> s.drop_last()[i] == s[i]);
            }
        }
    }
}

/// A least distance is attained by some record satisfying the predicate.
pub proof fn lemma_min_dist_attained(
    s: Seq<FaceRecord>,
    pred: spec_fn(FaceRecord) -> bool,
    d: spec_fn(FaceRecord) -> int,
    m: int,
)
    requires
        min_dist_over(s, pred, d) == Some(m),
    ensures
        exists|i: int| 0 <= i < s.len() && pred(s[i]) && d(s[i]) == m,
    decreases s.len(),
{
    let last = s.len() - 1;
    if pred(s.last()) {
        let m0 = min_dist_over(s.drop_last(), pred, d);
        if m == d(s.last()) {
            assert(0 <= last < s.len() && pred(s[last]) && d(s[last]) == m);
        } else {
            assert(m0 == Some(m));
            lemma_min_dist_attained(s.drop_last(), pred, d, m);
            let i = choose|i: int| 0 <= i < s.drop_last().len() && pred(s.drop_last()[i]) && d(
                s.drop_last()[i],
            ) == m;
            assert(s.drop_last()[i] == s[i]);
            assert(0 <= i < s.len() && pred(s[i]) && d(s[i]) == m);
        }
    } else {
        lemma_min_dist_attained(s.drop_last(), pred, d, m);
        let i = choose|i: int| 0 <= i < s.drop_last().len() && pred(s.drop_last()[i]) && d(
            s.drop_last()[i],
        ) == m;
        assert(s.drop_last()[i] == s[i]);
        assert(0 <= i < s.len() && pred(s[i]) && d(s[i]) == m);
    }
}

/// Filtering with predicates that agree on every element gives the same
/// result.
pub proof fn lemma_filter_pointwise(
    s: Seq<FaceRecord>,
    p1: spec_fn(FaceRecord) -> bool,
    p2: spec_fn(FaceRecord) -> bool,
)
    requires
        forall|i: int| 0 <= i < s.len() ==> p1(s[i]) == p2(s[i]),
    ensures
        s.filter(p1) == s.filter(p2),
    decreases s.len(),
{
    reveal(Seq::filter);
    if s.len() > 0 {
        assert(forall|i: int| 0 <= i < s.drop_last().len() ==> s.drop_last()[i] == s[i]);
        lemma_filter_pointwise(s.drop_last(), p1, p2);
        assert(s.last() == s[s.len() - 1]);
    }
}

/// Every element of a filtered sequence comes from the unfiltered one.
pub proof fn lemma_filter_elem(s: Seq<FaceRecord>, pred: spec_fn(FaceRecord) -> bool, j: int)
    requires
        0 <= j < s.filter(pred).len(),
    ensures
        exists|i: int| 0 <= i < s.len() && s[i] == s.filter(pred)[j],
    decreases s.len(),
{
    reveal(Seq::filter);
    if s.len() > 0 {
        let fl0 = s.drop_last().filter(pred);
        if j < fl0.len() {
            lemma_filter_elem(s.drop_last(), pred, j);
            let i = choose|i: int| 0 <= i < s.drop_last().len() && s.drop_last()[i] == fl0[j];
            assert(s.drop_last()[i] == s[i]);
            assert(s[i] == s.filter(pred)[j]);
        } else {
            let last = s.len() - 1;
            assert(s.filter(pred)[j] == s[last]);
        }
    }
}

/// Filtering one more element appends it exactly when it satisfies the
/// predicate.
pub proof fn lemma_filter_take_step(s: Seq<FaceRecord>, pred: spec_fn(FaceRecord) -> bool, i: int)
    requires
        0 <= i < s.len(),
    ensures
        pred(s[i]) ==> s.take(i + 1).filter(pred) == s.take(i).filter(pred).push(s[i]),
        !pred(s[i]) ==> s.take(i + 1).filter(pred) == s.take(i).filter(pred),
    decreases s.len(),
{
    reveal(Seq::filter);
    let t1 = s.take(i + 1);
    assert(t1.drop_last() =~= s.take(i));
    assert(t1.last() == s[i]);
    if pred(s[i]) {
        assert(t1.filter(pred) =~= s.take(i).filter(pred).push(s[i]));
    }
}

/// Filtering a sequence extended by one element appends it exactly when
/// it satisfies the predicate.
pub proof fn lemma_filter_push(s: Seq<FaceRecord>, pred: spec_fn(FaceRecord) -> bool, x: FaceRecord)
    ensures
        pred(x) ==> (s.push(x)).filter(pred) == s.filter(pred).push(x),
        !pred(x) ==> (s.push(x)).filter(pred) == s.filter(pred),
{
    reveal(Seq::filter);
    assert((s.push(x)).drop_last() =~= s);
    assert((s.push(x)).last() == x);
    if pred(x) {
        assert((s.push(x)).filter(pred) =~= s.filter(pred).push(x));
    }
}

/// Filtering with a predicate that holds of every element keeps the
/// sequence whole.
pub proof fn lemma_filter_all_true(s: Seq<FaceRecord>, pred: spec_fn(FaceRecord) -> bool)
    requires
        forall|i: int| 0 <= i < s.len() ==> pred(s[i]),
    ensures
        s.filter(pred) == s,
    decreases s.len(),
{
    reveal(Seq::filter);
    if s.len() > 0 {
        let dl = s.drop_last();
        assert(forall|i: int| 0 <= i < dl.len() ==> dl[i] == s[i]);
        lemma_filter_all_true(dl, pred);
        assert(s.last() == s[s.len() - 1]);
        assert(s.filter(pred) =~= s);
    }
}

/// Filtering preserves uniqueness of identifiers.
pub proof fn lemma_filter_unique_ids(s: Seq<FaceRecord>, pred: spec_fn(FaceRecord) -> bool)
    requires
        unique_ids(s),
    ensures
        unique_ids(s.filter(pred)),
    decreases s.len(),
{
    reveal(Seq::filter);
    if s.len() > 0 {
        let dl = s.drop_last();
        let last = s.len() - 1;
        assert(forall|i: int| 0 <= i < dl.len() ==> dl[i] == s[i]);
        assert(unique_ids(dl));
        lemma_filter_unique_ids(dl, pred);
        let fl0 = dl.filter(pred);
        if pred(s.last()) {
            let fl = s.filter(pred);
            assert(fl =~= fl0.push(s[last]));
            assert forall|j: int| 0 <= j < fl0.len() implies fl0[j].id != s[last].id by {
                lemma_filter_elem(dl, pred, j);
                let i = choose|i: int| 0 <= i < dl.len() && dl[i] == fl0[j];
                assert(dl[i] == s[i]);
                assert(s[i].id != s[last].id);
            }
            assert forall|a: int, b: int|
                0 <= a < fl.len() && 0 <= b < fl.len() && a != b implies fl[a].id != fl[b].id by {
                if a < fl.len() - 1 && b < fl.len() - 1 {
                    assert(fl[a] == fl0[a]);
                    assert(fl[b] == fl0[b]);
                } else if a == fl.len() - 1 {
                    assert(fl[a] == s[last]);
                    assert(fl[b] == fl0[b]);
                } else {
                    assert(fl[b] == s[last]);
                    assert(fl[a] == fl0[a]);
                }
            }
        }
    }
}

/// Law: when some face satisfies the per-face constraints — in particular
/// when a requested concrete family exists in the database together with
/// the requested style and monospacing — the query matches at least one
/// face.
pub proof fn lemma_match_exists(s: Seq<FaceRecord>, c: Constraints)
    requires
        exists|i: int| 0 <= i < s.len() && base_ok(c, s[i]),
    ensures
        matched(s, c).len() > 0,
{
    let i0 = choose|i: int| 0 <= i < s.len() && base_ok(c, s[i]);
    assert(base_pred(c)(s[i0]));
    // A face with the least stretch distance passes stretch narrowing.
    let i1: int = if c.stretch is Some {
        lemma_min_dist_some_iff(s, base_pred(c), sdist_fn(c));
        let m = min_sdist(s, c)->0;
        lemma_min_dist_attained(s, base_pred(c), sdist_fn(c), m);
        let i = choose|i: int|
            0 <= i < s.len() && base_pred(c)(s[i]) && sdist_fn(c)(s[i]) == m;
        assert(stage2_ok(s, c, s[i]));
        i
    } else {
        assert(stage2_ok(s, c, s[i0]));
        i0
    };
    assert(stage2_pred(s, c)(s[i1]));
    // A face with the least weight distance among those is matched.
    let i2: int = if c.weight is Some {
        lemma_min_dist_some_iff(s, stage2_pred(s, c), wdist_fn(c));
        let m = min_wdist(s, c)->0;
        lemma_min_dist_attained(s, stage2_pred(s, c), wdist_fn(c), m);
        let i = choose|i: int|
            0 <= i < s.len() && stage2_pred(s, c)(s[i]) && wdist_fn(c)(s[i]) == m;
        assert(full_ok(s, c, s[i]));
        i
    } else {
        assert(full_ok(s, c, s[i1]));
        i1
    };
    assert(full_pred(s, c)(s[i2]));
    s.lemma_filter_contains(full_pred(s, c), i2);
    assert(matched(s, c).contains(s[i2]));
}

/// Law: a query that requires monospacing matches only monospaced faces.
pub proof fn lemma_monospaced_only(s: Seq<FaceRecord>, c: Constraints)
    requires
        c.monospaced,
    ensures
        forall|j: int| 0 <= j < matched(s, c).len() ==> matched(s, c)[j].monospaced,
{
    assert forall|j: int| 0 <= j < matched(s, c).len() implies matched(s, c)[j].monospaced by {
        s.lemma_filter_pred(full_pred(s, c), j);
        assert(full_ok(s, c, matched(s, c)[j]));
    }
}

/// Law: with the Monospace default configured, a query for the generic
/// Monospace family imposes exactly the constraints of a query for the
/// configured concrete name, and so matches exactly the same faces.
pub proof fn lemma_generic_monospace_default(
    db: FontDatabase,
    name: Seq<char>,
    q1: Attrs,
    q2: Attrs,
)
    requires
        db.spec_monospace_family() == Some(name),
        q1.family == Some(Family::Monospace),
        (match q2.family {
            Some(Family::Name(n)) => n@ == name,
            _ => false,
        }),
        q1.monospaced == q2.monospaced,
        q1.style == q2.style,
        q1.weight == q2.weight,
        q1.stretch == q2.stretch,
    ensures
        constraints_of(db, q1) == constraints_of(db, q2),
        matched(db.spec_faces(), constraints_of(db, q1)) == matched(
            db.spec_faces(),
            constraints_of(db, q2),
        ),
{
    assert(family_req(db, q1.family) == FamilyReq::Named(name));
    assert(family_req(db, q2.family) == FamilyReq::Named(name));
}

/// Law: against an empty database every query matches nothing.
pub proof fn lemma_empty_database(c: Constraints)
    ensures
        matched(Seq::<FaceRecord>::empty(), c).len() == 0,
{
    reveal(Seq::filter);
}

/// Folds one byte: ASCII upper-case letters become lower case.
fn fold_byte_exec(x: u8) -> (r: u8)
    ensures
        r == fold_byte(x),
{
    if 65 <= x && x <= 90 {
        x + 32
    } else {
        x
    }
}

/// ASCII-case-insensitive string comparison over the UTF-8 encodings.
pub fn eq_ignore_ascii_case(a: &str, b: &str) -> (r: bool)
    ensures
        r == family_eq(a@, b@),
{
    let ab = a.as_bytes();
    let bb = b.as_bytes();
    if ab.len() != bb.len() {
        return false;
    }
    let n = ab.len();
    let mut i: usize = 0;
    while i < n
        invariant
            ab@ == encode_utf8(a@),
            bb@ == encode_utf8(b@),
            n == ab@.len(),
            ab@.len() == bb@.len(),
            0 <= i <= n,
            forall|j: int| 0 <= j < i ==> fold_byte(ab@[j]) == fold_byte(bb@[j]),
        decreases n - i,
    {
        let x = fold_byte_exec(ab[i]);
        let y = fold_byte_exec(bb[i]);
        if x != y {
            proof {
                assert(fold_byte(ab@[i as int]) != fold_byte(bb@[i as int]));
            }
            return false;
        }
        i += 1;
    }
    true
}

/// Resolves a query's family preference against the database defaults.
pub fn resolve_family(db: &FontDatabase, family: &Option<Family>) -> (r: ResolvedFamily)
    ensures
        r@ == family_req(*db, *family),
{
    match family {
        None => ResolvedFamily::Any,
        Some(Family::Name(s)) => ResolvedFamily::Named(s.clone()),
        Some(Family::Monospace) => match db.monospace_family() {
            Some(s) => ResolvedFamily::Named(s.clone()),
            None => ResolvedFamily::Unmatchable,
        },
        Some(Family::SansSerif) => match db.sans_serif_family() {
            Some(s) => ResolvedFamily::Named(s.clone()),
            None => ResolvedFamily::Unmatchable,
        },
        Some(Family::Serif) => match db.serif_family() {
            Some(s) => ResolvedFamily::Named(s.clone()),
            None => ResolvedFamily::Unmatchable,
        },
        Some(Family::Fantasy) => ResolvedFamily::Unmatchable,
        Some(Family::Cursive) => ResolvedFamily::Unmatchable,
    }
}

/// The pure per-face matcher: whether one face satisfies the family,
/// monospace and style constraints of a query under a resolved family.
pub fn face_matches(req: &ResolvedFamily, attrs: &Attrs, face: &FaceRecord) -> (r: bool)
    ensures
        r == base_ok(attrs_constraints(req@, *attrs), *face),
{
    let fam_ok: bool = match req {
        ResolvedFamily::Any => true,
        ResolvedFamily::Named(n) => eq_ignore_ascii_case(face.family.as_str(), n.as_str()),
        ResolvedFamily::Unmatchable => false,
    };
    if !fam_ok {
        return false;
    }
    if attrs.monospaced && !face.monospaced {
        return false;
    }
    match attrs.style {
        Some(s) => {
            if s != face.style {
                return false;
            }
        },
        None => {},
    }
    true
}

} // verus!
