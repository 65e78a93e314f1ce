//! The font system: the query/resolution layer over a font database, with
//! a cache of parsed fonts keyed by face identifier. Resolving a query
//! walks the catalog, applies the matching model, and materializes each
//! matched face at most once: a cache hit hands out the already-shared
//! handle, a miss parses the source bytes and caches the result, and a
//! face that fails to parse is skipped without aborting the query.

use std::sync::Arc;
use vstd::prelude::*;

use crate::attrs::Attrs;
use crate::db::find_face;
use crate::db::lemma_find_face_unique;
use crate::db::unique_ids;
use crate::db::FaceRecord;
use crate::db::FontDatabase;
use crate::font::font_of;
use crate::font::parse_ok;
use crate::font::Font;
use crate::font::FontError;
use crate::matching::attrs_constraints;
use crate::matching::base_ok;
use crate::matching::constraints_of;
use crate::matching::lemma_filter_push;
use crate::matching::lemma_filter_take_step;
use crate::matching::dist;
use crate::matching::family_req;
use crate::matching::full_ok;
use crate::matching::full_pred;
use crate::matching::matched;
use crate::matching::min_dist_over;
use crate::matching::min_sdist;
use crate::matching::min_wdist;
use crate::matching::base_pred;
use crate::matching::sdist;
use crate::matching::sdist_fn;
use crate::matching::stage2_ok;
use crate::matching::stage2_pred;
use crate::matching::wdist;
use crate::matching::wdist_fn;
use crate::matching::face_matches;
use crate::matching::resolve_family;
use crate::matching::Constraints;
use crate::matching::ResolvedFamily;

verus! {

/// One shared handle more. Relies on `Arc::clone` from std: the returned
/// handle is the same shared value.
#[verifier::external_body]
fn arc_clone(f: &Arc<Font>) -> (r: Arc<Font>)
    ensures
        r == *f,
{
    Arc::clone(f)
}

/// The first cache entry carrying the identifier, if any.
pub open spec fn cache_lookup(c: Seq<(u64, Arc<Font>)>, id: u64) -> Option<Arc<Font>>
    decreases c.len(),
{
    if c.len() == 0 {
        None
    } else if c[0].0 == id {
        Some(c[0].1)
    } else {
        cache_lookup(c.drop_first(), id)
    }
}

/// Cache well-formedness: at most one entry per identifier, and every
/// entry's font was parsed from the face with that identifier.
pub open spec fn cache_wf(c: Seq<(u64, Arc<Font>)>) -> bool {
    &&& forall|i: int, j: int|
        0 <= i < c.len() && 0 <= j < c.len() && i != j ==> c[i].0 != c[j].0
    &&& forall|i: int| 0 <= i < c.len() ==> (*#[trigger] c[i].1).id == c[i].0
}

/// `cache_lookup` returns the entry at the first index carrying the
/// identifier.
pub proof fn lemma_cache_lookup_at(c: Seq<(u64, Arc<Font>)>, id: u64, i: int)
    requires
        0 <= i < c.len(),
        c[i].0 == id,
        forall|j: int| 0 <= j < i ==> c[j].0 != id,
    ensures
        cache_lookup(c, id) == Some(c[i].1),
    decreases i,
{
    if i > 0 {
        lemma_cache_lookup_at(c.drop_first(), id, i - 1);
    }
}

/// When no entry carries the identifier, `cache_lookup` returns nothing.
pub proof fn lemma_cache_lookup_none(c: Seq<(u64, Arc<Font>)>, id: u64)
    requires
        forall|j: int| 0 <= j < c.len() ==> c[j].0 != id,
    ensures
        cache_lookup(c, id) is None,
    decreases c.len(),
{
    if c.len() > 0 {
        lemma_cache_lookup_none(c.drop_first(), id);
    }
}

/// An entry is found exactly when some entry carries the identifier.
pub proof fn lemma_cache_lookup_some_iff(c: Seq<(u64, Arc<Font>)>, id: u64)
    ensures
        (cache_lookup(c, id) is Some) <==> exists|j: int| 0 <= j < c.len() && c[j].0 == id,
    decreases c.len(),
{
    if c.len() > 0 {
        lemma_cache_lookup_some_iff(c.drop_first(), id);
        if c[0].0 == id {
        } else {
            assert(forall|j: int|
                0 <= j < c.drop_first().len() ==> c.drop_first()[j] == c[j + 1]);
            if exists|j: int| 0 <= j < c.len() && c[j].0 == id {
                let j = choose|j: int| 0 <= j < c.len() && c[j].0 == id;
                assert(c.drop_first()[j - 1].0 == id);
            }
        }
    }
}

/// Looking up in an extended cache: entries of the front part win, and
/// the appended part answers only identifiers the front part lacks.
pub proof fn lemma_cache_lookup_append(
    c: Seq<(u64, Arc<Font>)>,
    d: Seq<(u64, Arc<Font>)>,
    id: u64,
)
    ensures
        cache_lookup(c + d, id) == (if cache_lookup(c, id) is Some {
            cache_lookup(c, id)
        } else {
            cache_lookup(d, id)
        }),
    decreases c.len(),
{
    if c.len() == 0 {
        assert(c + d =~= d);
    } else {
        assert((c + d)[0] == c[0]);
        assert((c + d).drop_first() =~= c.drop_first() + d);
        lemma_cache_lookup_append(c.drop_first(), d, id);
    }
}

/// Looking up after pushing one entry.
pub proof fn lemma_cache_lookup_push(c: Seq<(u64, Arc<Font>)>, e: (u64, Arc<Font>), id: u64)
    ensures
        cache_lookup(c.push(e), id) == (if cache_lookup(c, id) is Some {
            cache_lookup(c, id)
        } else if e.0 == id {
            Some(e.1)
        } else {
            None::<Arc<Font>>
        }),
{
    assert(c.push(e) =~= c + seq![e]);
    lemma_cache_lookup_append(c, seq![e], id);
    let s1 = seq![e];
    assert(s1.len() == 1);
    assert(s1[0] == e);
    if e.0 == id {
        assert(cache_lookup(s1, id) == Some(e.1));
    } else {
        assert(s1.drop_first() =~= Seq::<(u64, Arc<Font>)>::empty());
        assert(cache_lookup(s1.drop_first(), id) is None);
        assert(cache_lookup(s1, id) is None);
    }
}

/// A matched face that was not yet cached and whose bytes parse: the
/// faces a resolution call materializes anew.
pub open spec fn fresh_pred(c0: Seq<(u64, Arc<Font>)>) -> spec_fn(FaceRecord) -> bool {
    |f: FaceRecord| cache_lookup(c0, f.id) is None && parse_ok(f.source@)
}

/// A matched face that yields a handle: already cached, or parseable.
pub open spec fn served_pred(c0: Seq<(u64, Arc<Font>)>) -> spec_fn(FaceRecord) -> bool {
    |f: FaceRecord| cache_lookup(c0, f.id) is Some || parse_ok(f.source@)
}

/// An executable distance as the model's optional integer.
pub open spec fn opt_to_int(o: Option<u16>) -> Option<int> {
    match o {
        Some(v) => Some(v as int),
        None => None,
    }
}

/// What one resolution call does, relating the catalog, the query's
/// constraints, the cache before (`c0`) and after (`c1`), and the
/// returned handles (`rs`): the cache keeps its old entries and grows by
/// exactly one entry for each matched face that was not yet cached and
/// whose bytes parse, in match order; the handles returned are one per
/// matched face that is cached or parseable, in match order, each equal
/// to the final cache's entry for its face; a matched face that is
/// neither cached nor parseable is skipped.
pub open spec fn post_match(
    faces: Seq<FaceRecord>,
    cons: Constraints,
    c0: Seq<(u64, Arc<Font>)>,
    c1: Seq<(u64, Arc<Font>)>,
    rs: Seq<Arc<Font>>,
) -> bool {
    let ms = matched(faces, cons);
    let fresh = ms.filter(fresh_pred(c0));
    let served = ms.filter(served_pred(c0));
    &&& c1.len() == c0.len() + fresh.len()
    &&& c1.take(c0.len() as int) == c0
    &&& (forall|j: int|
        0 <= j < fresh.len() ==> (#[trigger] c1[c0.len() + j]).0 == fresh[j].id && *c1[c0.len()
            + j].1 == font_of(fresh[j]))
    &&& rs.len() == served.len()
    &&& (forall|j: int|
        0 <= j < served.len() ==> cache_lookup(c1, (#[trigger] served[j]).id) == Some(rs[j]))
}

/// The state of a resolution call after the first `i` faces of the
/// catalog have been considered: the same relation as `post_match`, over
/// the prefix.
pub open spec fn partial_state(
    faces: Seq<FaceRecord>,
    cons: Constraints,
    i: int,
    c0: Seq<(u64, Arc<Font>)>,
    ccur: Seq<(u64, Arc<Font>)>,
    fonts: Seq<Arc<Font>>,
) -> bool {
    let ms = faces.take(i).filter(full_pred(faces, cons));
    let fresh = ms.filter(fresh_pred(c0));
    let served = ms.filter(served_pred(c0));
    &&& ccur.len() == c0.len() + fresh.len()
    &&& ccur.take(c0.len() as int) == c0
    &&& (forall|j: int|
        0 <= j < fresh.len() ==> (#[trigger] ccur[c0.len() + j]).0 == fresh[j].id && *ccur[c0.len()
            + j].1 == font_of(fresh[j]))
    &&& fonts.len() == served.len()
    &&& (forall|j: int|
        0 <= j < served.len() ==> cache_lookup(ccur, (#[trigger] served[j]).id) == Some(fonts[j]))
}

/// Law: resolving the same query twice against an unchanged database is
/// idempotent. Whenever one call takes the cache from `c0` to `c1` and
/// returns `rs1`, and a second call with the same constraints takes `c1`
/// to `c2` and returns `rs2`, then the second call changes nothing
/// (`c2 == c1`) and hands out exactly the same shared values
/// (`rs2 == rs1`): every face the query needs is already cached, so
/// nothing is parsed again.
pub proof fn lemma_match_idempotent(
    faces: Seq<FaceRecord>,
    cons: Constraints,
    c0: Seq<(u64, Arc<Font>)>,
    c1: Seq<(u64, Arc<Font>)>,
    rs1: Seq<Arc<Font>>,
    c2: Seq<(u64, Arc<Font>)>,
    rs2: Seq<Arc<Font>>,
)
    requires
        unique_ids(faces),
        post_match(faces, cons, c0, c1, rs1),
        post_match(faces, cons, c1, c2, rs2),
    ensures
        c2 == c1,
        rs2 == rs1,
{
    let ms = matched(faces, cons);
    crate::matching::lemma_filter_unique_ids(faces, full_pred(faces, cons));
    let fresh1 = ms.filter(fresh_pred(c0));
    let served1 = ms.filter(served_pred(c0));
    let delta1 = c1.skip(c0.len() as int);
    assert(c1 =~= c0 + delta1);
    assert(delta1.len() == fresh1.len());

    // Every matched parseable face is cached after the first call.
    assert forall|t: int|
        0 <= t < ms.len() && parse_ok(ms[t].source@) implies cache_lookup(
        c1,
        (#[trigger] ms[t]).id,
    ) is Some by {
        let f = ms[t];
        lemma_cache_lookup_append(c0, delta1, f.id);
        if cache_lookup(c0, f.id) is None {
            assert(fresh_pred(c0)(f));
            ms.lemma_filter_contains(fresh_pred(c0), t);
            let j = choose|j: int| 0 <= j < fresh1.len() && fresh1[j] == f;
            assert(c1[c0.len() + j].0 == fresh1[j].id);
            lemma_cache_lookup_some_iff(c1, f.id);
        }
    }

    // A matched unparseable face that was uncached stays uncached: the
    // first call added only parseable faces.
    assert forall|t: int|
        0 <= t < ms.len() && !parse_ok(ms[t].source@) && cache_lookup(c0, (#[trigger] ms[t]).id)
            is None implies cache_lookup(c1, ms[t].id) is None by {
        let f = ms[t];
        lemma_cache_lookup_append(c0, delta1, f.id);
        lemma_cache_lookup_some_iff(delta1, f.id);
        if exists|j: int| 0 <= j < delta1.len() && delta1[j].0 == f.id {
            let j = choose|j: int| 0 <= j < delta1.len() && delta1[j].0 == f.id;
            assert(delta1[j] == c1[c0.len() + j]);
            assert(c1[c0.len() + j].0 == fresh1[j].id);
            crate::matching::lemma_filter_elem(ms, fresh_pred(c0), j);
            let t2 = choose|t2: int| 0 <= t2 < ms.len() && ms[t2] == fresh1[j];
            assert(ms[t2].id == ms[t].id);
            assert(t2 == t);
            ms.lemma_filter_pred(fresh_pred(c0), j);
            assert(fresh_pred(c0)(f));
            assert(false);
        }
        lemma_cache_lookup_none(delta1, f.id);
    }

    // The second call finds nothing fresh, so it leaves the cache alone.
    let fresh2 = ms.filter(fresh_pred(c1));
    if fresh2.len() > 0 {
        ms.lemma_filter_pred(fresh_pred(c1), 0);
        crate::matching::lemma_filter_elem(ms, fresh_pred(c1), 0);
        let t = choose|t: int| 0 <= t < ms.len() && ms[t] == fresh2[0];
        assert(fresh_pred(c1)(ms[t]));
        assert(parse_ok(ms[t].source@));
        assert(false);
    }
    assert(c2.len() == c1.len());
    assert(c2.take(c1.len() as int) == c1);
    assert(c2 =~= c1);

    // Both calls serve the same faces, each from the same cache entry.
    let served2 = ms.filter(served_pred(c1));
    assert forall|t: int| 0 <= t < ms.len() implies served_pred(c1)(#[trigger] ms[t])
        == served_pred(c0)(ms[t]) by {
        let f = ms[t];
        lemma_cache_lookup_append(c0, delta1, f.id);
    }
    crate::matching::lemma_filter_pointwise(ms, served_pred(c1), served_pred(c0));
    assert(served2 == served1);
    assert forall|j: int| 0 <= j < rs2.len() implies rs2[j] == rs1[j] by {
        assert(cache_lookup(c2, served2[j].id) == Some(rs2[j]));
        assert(cache_lookup(c1, served1[j].id) == Some(rs1[j]));
    }
    assert(rs2 =~= rs1);
}

/// Law: when every face of the catalog has parseable source bytes, a
/// resolution call returns exactly one handle per matched face. Together
/// with `lemma_match_exists` this says that a query whose constraints
/// some face satisfies is answered with at least one font.
pub proof fn lemma_all_parseable_results(
    faces: Seq<FaceRecord>,
    cons: Constraints,
    c0: Seq<(u64, Arc<Font>)>,
    c1: Seq<(u64, Arc<Font>)>,
    rs: Seq<Arc<Font>>,
)
    requires
        post_match(faces, cons, c0, c1, rs),
        forall|i: int| 0 <= i < faces.len() ==> parse_ok((#[trigger] faces[i]).source@),
    ensures
        rs.len() == matched(faces, cons).len(),
{
    let ms = matched(faces, cons);
    assert forall|t: int| 0 <= t < ms.len() implies served_pred(c0)(#[trigger] ms[t]) by {
        crate::matching::lemma_filter_elem(faces, full_pred(faces, cons), t);
        let i = choose|i: int| 0 <= i < faces.len() && faces[i] == ms[t];
        assert(parse_ok(ms[t].source@));
    }
    crate::matching::lemma_filter_all_true(ms, served_pred(c0));
}

/// A found entry is some entry of the cache carrying the identifier.
pub proof fn lemma_cache_lookup_index(c: Seq<(u64, Arc<Font>)>, id: u64)
    ensures
        cache_lookup(c, id) matches Some(v) ==> exists|k: int|
            0 <= k < c.len() && c[k].0 == id && c[k].1 == v,
    decreases c.len(),
{
    if c.len() > 0 {
        if c[0].0 == id {
            assert(c[0].0 == id && c[0].1 == cache_lookup(c, id)->0);
        } else {
            lemma_cache_lookup_index(c.drop_first(), id);
            if cache_lookup(c, id) is Some {
                let v = cache_lookup(c, id)->0;
                let k = choose|k: int|
                    0 <= k < c.drop_first().len() && c.drop_first()[k].0 == id
                        && c.drop_first()[k].1 == v;
                assert(c[k + 1].0 == id && c[k + 1].1 == v);
            }
        }
    }
}

/// Law: every handle a resolution call returns identifies the matched
/// face it was served for. With the monospacing law this means, for
/// example, that a query requiring monospacing is answered only with
/// handles to monospaced faces.
pub proof fn lemma_results_carry_face_ids(
    faces: Seq<FaceRecord>,
    cons: Constraints,
    c0: Seq<(u64, Arc<Font>)>,
    c1: Seq<(u64, Arc<Font>)>,
    rs: Seq<Arc<Font>>,
)
    requires
        post_match(faces, cons, c0, c1, rs),
        cache_wf(c1),
    ensures
        forall|j: int|
            0 <= j < rs.len() ==> (*#[trigger] rs[j]).id == matched(faces, cons).filter(
                served_pred(c0),
            )[j].id,
{
    let served = matched(faces, cons).filter(served_pred(c0));
    assert forall|j: int| 0 <= j < rs.len() implies (*#[trigger] rs[j]).id == served[j].id by {
        assert(cache_lookup(c1, served[j].id) == Some(rs[j]));
        lemma_cache_lookup_index(c1, served[j].id);
        let k = choose|k: int|
            0 <= k < c1.len() && c1[k].0 == served[j].id && c1[k].1 == rs[j];
        assert((*c1[k].1).id == c1[k].0);
    }
}

/// The query/resolution layer: a database, a locale tag, and the cache of
/// parsed fonts keyed by face identifier.
pub struct FontSystem {
    locale: String,
    db: FontDatabase,
    cache: Vec<(u64, Arc<Font>)>,
}

impl FontSystem {
    /// The active locale tag.
    pub closed spec fn spec_locale(&self) -> Seq<char> {
        self.locale@
    }

    /// The database.
    pub closed spec fn spec_db(&self) -> FontDatabase {
        self.db
    }

    /// The cache, as the sequence of entries in insertion order.
    pub closed spec fn spec_cache(&self) -> Seq<(u64, Arc<Font>)> {
        self.cache@
    }

    /// Well-formedness: the database's identifiers are unique and the
    /// cache holds at most one entry per identifier.
    pub open spec fn wf(&self) -> bool {
        &&& self.spec_db().wf()
        &&& cache_wf(self.spec_cache())
    }

    /// A font system over an empty database with the stock defaults: the
    /// locale is "en-US" and the three generic classes default to
    /// "Fira Mono", "Fira Sans" and "DejaVu Serif".
    pub fn new() -> (r: FontSystem)
        ensures
            r.wf(),
            r.spec_locale() == "en-US"@,
            r.spec_cache().len() == 0,
            r.spec_db().spec_faces().len() == 0,
            r.spec_db().spec_monospace_family() == Some("Fira Mono"@),
            r.spec_db().spec_sans_serif_family() == Some("Fira Sans"@),
            r.spec_db().spec_serif_family() == Some("DejaVu Serif"@),
    {
        let locale = "en-US".to_owned();
        let mut db = FontDatabase::new();
        db.set_monospace_family("Fira Mono".to_owned());
        db.set_sans_serif_family("Fira Sans".to_owned());
        db.set_serif_family("DejaVu Serif".to_owned());
        FontSystem { locale, db, cache: Vec::new() }
    }

    /// A font system over a caller-supplied database and locale tag, with
    /// an empty cache.
    pub fn new_with_locale_and_db(locale: &str, db: FontDatabase) -> (r: FontSystem)
        ensures
            r.spec_locale() == locale@,
            r.spec_db() == db,
            r.spec_cache().len() == 0,
            db.wf() ==> r.wf(),
    {
        FontSystem { locale: locale.to_owned(), db, cache: Vec::new() }
    }

    /// The active locale tag; informational only, never interpreted here.
    pub fn locale(&self) -> (r: &str)
        ensures
            r@ == self.spec_locale(),
    {
        self.locale.as_str()
    }

    /// Read access to the database.
    pub fn db(&self) -> (r: &FontDatabase)
        ensures
            *r == self.spec_db(),
    {
        &self.db
    }

    /// Write access to the database, for reconfiguration. Already-cached
    /// fonts are unaffected.
    pub fn db_mut(&mut self) -> (r: &mut FontDatabase)
        ensures
            *r == old(self).spec_db(),
            final(self).spec_db() == *final(r),
            final(self).spec_locale() == old(self).spec_locale(),
            final(self).spec_cache() == old(self).spec_cache(),
    {
        &mut self.db
    }

    /// Resolves a face identifier to its shared font, saying why when it
    /// cannot: `NotFound` for an identifier the database does not know,
    /// `LoadFailure` for a face whose source bytes fail to parse. A hit
    /// returns the cached handle unchanged; a successful miss parses the
    /// face and caches the new handle. A failure is never cached: the
    /// parse is retried on the next request.
    pub fn try_get_font(&mut self, id: u64) -> (r: Result<Arc<Font>, FontError>)
        requires
            old(self).wf(),
        ensures
            final(self).wf(),
            final(self).spec_db() == old(self).spec_db(),
            final(self).spec_locale() == old(self).spec_locale(),
            (match cache_lookup(old(self).spec_cache(), id) {
                Some(f) => r == Ok::<Arc<Font>, FontError>(f) && final(self).spec_cache()
                    == old(self).spec_cache(),
                None => (match find_face(old(self).spec_db().spec_faces(), id) {
                    Some(face) => {
                        if parse_ok(face.source@) {
                            r matches Ok(f) && *f == font_of(face) && final(self).spec_cache()
                                == old(self).spec_cache().push((id, f))
                        } else {
                            r == Err::<Arc<Font>, FontError>(FontError::LoadFailure)
                                && final(self).spec_cache() == old(self).spec_cache()
                        }
                    },
                    None => r == Err::<Arc<Font>, FontError>(FontError::NotFound)
                        && final(self).spec_cache() == old(self).spec_cache(),
                }),
            }),
    {
        let n = self.cache.len();
        let mut i: usize = 0;
        while i < n
            invariant
                *self == *old(self),
                old(self).wf(),
                n == self.cache.len(),
                0 <= i <= n,
                forall|j: int| 0 <= j < i ==> self.cache@[j].0 != id,
            decreases n - i,
        {
            if self.cache[i].0 == id {
                proof {
                    lemma_cache_lookup_at(self.spec_cache(), id, i as int);
                }
                let f = arc_clone(&self.cache[i].1);
                return Ok(f);
            }
            i += 1;
        }
        proof {
            lemma_cache_lookup_none(self.spec_cache(), id);
        }
        match self.db.face(id) {
            None => Err(FontError::NotFound),
            Some(face) => match Font::new(face) {
                None => Err(FontError::LoadFailure),
                Some(font) => {
                    proof {
                        crate::db::lemma_find_face_id(self.spec_db().spec_faces(), id);
                    }
                    let handle = Arc::new(font);
                    let entry = arc_clone(&handle);
                    self.cache.push((id, entry));
                    Ok(handle)
                },
            },
        }
    }

    /// Resolves a style query to the matching fonts, in load order. The
    /// query's family preference is resolved against the database's
    /// defaults, the catalog is filtered by the matching model (with
    /// nearest-available narrowing for stretch, then weight), and every
    /// matched face is materialized through the cache: hits are returned
    /// as-is, misses are parsed and cached, and faces whose bytes fail to
    /// parse are skipped without aborting the query. An empty result is a
    /// valid outcome, never an error.
    pub fn get_font_matches(&mut self, attrs: &Attrs) -> (r: Arc<Vec<Arc<Font>>>)
        requires
            old(self).wf(),
        ensures
            final(self).wf(),
            final(self).spec_db() == old(self).spec_db(),
            final(self).spec_locale() == old(self).spec_locale(),
            post_match(
                old(self).spec_db().spec_faces(),
                constraints_of(old(self).spec_db(), *attrs),
                old(self).spec_cache(),
                final(self).spec_cache(),
                r@,
            ),
    {
        let req = resolve_family(&self.db, &attrs.family);
        let ghost faces0 = self.spec_db().spec_faces();
        let ghost cons = attrs_constraints(req@, *attrs);
        let n = self.db.len();

        // Stretch narrowing: the least stretch distance over the faces
        // passing the per-face constraints.
        let mut best_s: Option<u16> = None;
        if let Some(starget) = attrs.stretch {
            let mut i: usize = 0;
            while i < n
                invariant
                    *self == *old(self),
                    old(self).wf(),
                    faces0 == self.spec_db().spec_faces(),
                    cons == attrs_constraints(req@, *attrs),
                    cons.stretch == Some(starget),
                    n == faces0.len(),
                    0 <= i <= n,
                    opt_to_int(best_s) == min_dist_over(
                        faces0.take(i as int),
                        base_pred(cons),
                        sdist_fn(cons),
                    ),
                decreases n - i,
            {
                let fm = face_matches(&req, attrs, &self.db.faces()[i]);
                let fs = self.db.faces()[i].stretch;
                if fm {
                    let d = if fs >= starget {
                        fs - starget
                    } else {
                        starget - fs
                    };
                    best_s = match best_s {
                        Some(b) => if d < b {
                            Some(d)
                        } else {
                            Some(b)
                        },
                        None => Some(d),
                    };
                }
                proof {
                    let f = faces0[i as int];
                    assert(faces0.take(i as int + 1).drop_last() =~= faces0.take(i as int));
                    assert(faces0.take(i as int + 1).last() == f);
                    assert(base_pred(cons)(f) == base_ok(cons, f));
                    assert(sdist_fn(cons)(f) == sdist(cons, f));
                    assert(sdist(cons, f) == dist(f.stretch, starget));
                }
                i += 1;
            }
            proof {
                assert(faces0.take(n as int) =~= faces0);
            }
        }
        proof {
            assert(cons.stretch is Some ==> opt_to_int(best_s) == min_sdist(faces0, cons));
        }

        // Weight narrowing: the least weight distance over the faces
        // surviving stretch narrowing.
        let mut best_w: Option<u16> = None;
        if let Some(wtarget) = attrs.weight {
            let mut i: usize = 0;
            while i < n
                invariant
                    *self == *old(self),
                    old(self).wf(),
                    faces0 == self.spec_db().spec_faces(),
                    cons == attrs_constraints(req@, *attrs),
                    cons.weight == Some(wtarget),
                    cons.stretch is Some ==> opt_to_int(best_s) == min_sdist(faces0, cons),
                    cons.stretch is None ==> best_s is None,
                    cons.stretch == attrs.stretch,
                    n == faces0.len(),
                    0 <= i <= n,
                    opt_to_int(best_w) == min_dist_over(
                        faces0.take(i as int),
                        stage2_pred(faces0, cons),
                        wdist_fn(cons),
                    ),
                decreases n - i,
            {
                let fm = face_matches(&req, attrs, &self.db.faces()[i]);
                let fs = self.db.faces()[i].stretch;
                let fw = self.db.faces()[i].weight;
                let s2: bool = if fm {
                    match attrs.stretch {
                        Some(st) => {
                            let ds = if fs >= st {
                                fs - st
                            } else {
                                st - fs
                            };
                            match best_s {
                                Some(b) => ds == b,
                                None => false,
                            }
                        },
                        None => true,
                    }
                } else {
                    false
                };
                proof {
                    let f = faces0[i as int];
                    assert(s2 == stage2_ok(faces0, cons, f));
                    assert(faces0.take(i as int + 1).drop_last() =~= faces0.take(i as int));
                    assert(faces0.take(i as int + 1).last() == f);
                    assert(stage2_pred(faces0, cons)(f) == stage2_ok(faces0, cons, f));
                    assert(wdist_fn(cons)(f) == wdist(cons, f));
                    assert(wdist(cons, f) == dist(f.weight, wtarget));
                }
                if s2 {
                    let d = if fw >= wtarget {
                        fw - wtarget
                    } else {
                        wtarget - fw
                    };
                    best_w = match best_w {
                        Some(b) => if d < b {
                            Some(d)
                        } else {
                            Some(b)
                        },
                        None => Some(d),
                    };
                }
                i += 1;
            }
            proof {
                assert(faces0.take(n as int) =~= faces0);
            }
        }
        proof {
            assert(cons.weight is Some ==> opt_to_int(best_w) == min_wdist(faces0, cons));
        }

        // Collection: materialize each matched face through the cache.
        let mut fonts: Vec<Arc<Font>> = Vec::new();
        let ghost c0 = self.spec_cache();
        proof {
            reveal(Seq::filter);
            let ms = faces0.take(0).filter(full_pred(faces0, cons));
            assert(faces0.take(0) =~= Seq::<FaceRecord>::empty());
            assert(ms =~= Seq::<FaceRecord>::empty());
            assert(ms.filter(fresh_pred(c0)) =~= Seq::<FaceRecord>::empty());
            assert(ms.filter(served_pred(c0)) =~= Seq::<FaceRecord>::empty());
            assert(self.spec_cache().take(c0.len() as int) =~= c0);
        }
        let mut i: usize = 0;
        while i < n
            invariant
                old(self).wf(),
                self.wf(),
                self.spec_db() == old(self).spec_db(),
                self.spec_locale() == old(self).spec_locale(),
                faces0 == self.spec_db().spec_faces(),
                cons == attrs_constraints(req@, *attrs),
                cons.stretch == attrs.stretch,
                cons.weight == attrs.weight,
                cons.stretch is Some ==> opt_to_int(best_s) == min_sdist(faces0, cons),
                cons.stretch is None ==> best_s is None,
                cons.weight is Some ==> opt_to_int(best_w) == min_wdist(faces0, cons),
                n == faces0.len(),
                0 <= i <= n,
                c0 == old(self).spec_cache(),
                partial_state(
                    faces0,
                    cons,
                    i as int,
                    c0,
                    self.spec_cache(),
                    fonts@,
                ),
                forall|j: int|
                    c0.len() <= j < self.spec_cache().len() ==> exists|t: int|
                        0 <= t < i && (#[trigger] self.spec_cache()[j]).0 == faces0[t].id,
            decreases n - i,
        {
            let fm = face_matches(&req, attrs, &self.db.faces()[i]);
            let fs = self.db.faces()[i].stretch;
            let fw = self.db.faces()[i].weight;
            let face_id = self.db.faces()[i].id;
            let s2: bool = if fm {
                match attrs.stretch {
                    Some(st) => {
                        let ds = if fs >= st {
                            fs - st
                        } else {
                            st - fs
                        };
                        match best_s {
                            Some(b) => ds == b,
                            None => false,
                        }
                    },
                    None => true,
                }
            } else {
                false
            };
            let ok: bool = if s2 {
                match attrs.weight {
                    Some(wt) => {
                        let dw = if fw >= wt {
                            fw - wt
                        } else {
                            wt - fw
                        };
                        match best_w {
                            Some(b) => dw == b,
                            None => false,
                        }
                    },
                    None => true,
                }
            } else {
                false
            };
            let ghost f = faces0[i as int];
            let ghost ccur = self.spec_cache();
            proof {
                assert(s2 == stage2_ok(faces0, cons, f));
                assert(ok == full_ok(faces0, cons, f));
                assert(full_pred(faces0, cons)(f) == full_ok(faces0, cons, f));
                lemma_filter_take_step(faces0, full_pred(faces0, cons), i as int);
            }
            if ok {
                proof {
                    // The current cache is the starting one plus the fresh
                    // entries, whose identifiers all come from earlier
                    // faces; this face's identifier is new to them.
                    let delta = ccur.skip(c0.len() as int);
                    assert(ccur =~= ccur.take(c0.len() as int) + delta);
                    lemma_cache_lookup_append(c0, delta, f.id);
                    if cache_lookup(c0, f.id) is None {
                        lemma_cache_lookup_some_iff(delta, f.id);
                        if exists|j: int| 0 <= j < delta.len() && delta[j].0 == f.id {
                            let j = choose|j: int| 0 <= j < delta.len() && delta[j].0 == f.id;
                            assert(delta[j] == ccur[c0.len() + j]);
                            let t = choose|t: int|
                                0 <= t < i && ccur[c0.len() + j].0 == faces0[t].id;
                            assert(faces0[t].id == faces0[i as int].id);
                            assert(false);
                        }
                        assert(cache_lookup(ccur, f.id) is None);
                        lemma_find_face_unique(faces0, f.id, i as int);
                    } else {
                        assert(cache_lookup(ccur, f.id) == cache_lookup(c0, f.id));
                    }
                }
                let got = self.get_font(face_id);
                proof {
                    let ms0 = faces0.take(i as int).filter(full_pred(faces0, cons));
                    let ms1 = faces0.take(i as int + 1).filter(full_pred(faces0, cons));
                    assert(ms1 == ms0.push(f));
                    lemma_filter_push(ms0, fresh_pred(c0), f);
                    lemma_filter_push(ms0, served_pred(c0), f);
                    assert(fresh_pred(c0)(f) == (cache_lookup(c0, f.id) is None && parse_ok(
                        f.source@,
                    )));
                    assert(served_pred(c0)(f) == (cache_lookup(c0, f.id) is Some || parse_ok(
                        f.source@,
                    )));
                }
                match got {
                    Some(handle) => {
                        fonts.push(handle);
                        proof {
                            let cnew = self.spec_cache();
                            if cache_lookup(c0, f.id) is Some {
                                assert(cnew == ccur);
                            } else {
                                assert(parse_ok(f.source@));
                                assert(cnew == ccur.push((f.id, got->0)));
                                assert(cnew.take(c0.len() as int) =~= ccur.take(c0.len() as int));
                                lemma_cache_lookup_push(ccur, (f.id, got->0), f.id);
                            }
                            let served0 = faces0.take(i as int).filter(full_pred(faces0, cons))
                                .filter(served_pred(c0));
                            assert forall|j: int| 0 <= j < served0.len() implies cache_lookup(
                                cnew,
                                (#[trigger] served0[j]).id,
                            ) == Some(fonts@[j]) by {
                                assert(cache_lookup(ccur, served0[j].id) == Some(fonts@[j]));
                                if cnew != ccur {
                                    lemma_cache_lookup_push(ccur, (f.id, got->0), served0[j].id);
                                }
                            }
                        }
                    },
                    None => {
                        proof {
                            assert(cache_lookup(c0, f.id) is None);
                            assert(!parse_ok(f.source@));
                        }
                    },
                }
            }
            i += 1;
        }
        proof {
            assert(faces0.take(n as int) =~= faces0);
            assert(matched(faces0, cons) == faces0.take(n as int).filter(
                full_pred(faces0, cons),
            ));
        }
        Arc::new(fonts)
    }

    /// Resolves a face identifier to its shared font, or nothing when the
    /// identifier is unknown or the face's source bytes fail to parse.
    pub fn get_font(&mut self, id: u64) -> (r: Option<Arc<Font>>)
        requires
            old(self).wf(),
        ensures
            final(self).wf(),
            final(self).spec_db() == old(self).spec_db(),
            final(self).spec_locale() == old(self).spec_locale(),
            (match cache_lookup(old(self).spec_cache(), id) {
                Some(f) => r == Some(f) && final(self).spec_cache() == old(self).spec_cache(),
                None => (match find_face(old(self).spec_db().spec_faces(), id) {
                    Some(face) => {
                        if parse_ok(face.source@) {
                            r matches Some(f) && *f == font_of(face) && final(self).spec_cache()
                                == old(self).spec_cache().push((id, f))
                        } else {
                            r is None && final(self).spec_cache() == old(self).spec_cache()
                        }
                    },
                    None => r is None && final(self).spec_cache() == old(self).spec_cache(),
                }),
            }),
    {
        match self.try_get_font(id) {
            Ok(f) => Some(f),
            Err(_) => None,
        }
    }
}

} // verus!
