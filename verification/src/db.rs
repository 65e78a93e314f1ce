//! The font database: an in-memory catalog of face metadata plus the
//! configurable default family for each generic class.

use vstd::prelude::*;

use crate::attrs::Style;

verus! {

/// Metadata for one font face as known to the database. Immutable once
/// loaded; the `source` field holds the face's raw source bytes.
pub struct FaceRecord {
    /// Unique identifier of the face within its database.
    pub id: u64,
    /// The family name of the face.
    pub family: String,
    /// Weight on the usual numeric scale (100–900).
    pub weight: u16,
    /// Slant of the face.
    pub style: Style,
    /// Stretch as a numeric width class.
    pub stretch: u16,
    /// Whether the face is monospaced.
    pub monospaced: bool,
    /// The raw bytes of the face's font source.
    pub source: Vec<u8>,
}

/// True when no two records in the sequence share an identifier.
pub open spec fn unique_ids(s: Seq<FaceRecord>) -> bool {
    forall|i: int, j: int| 0 <= i < s.len() && 0 <= j < s.len() && i != j ==> s[i].id != s[j].id
}

/// True when some record in the sequence carries the identifier.
pub open spec fn has_id(s: Seq<FaceRecord>, id: u64) -> bool {
    exists|i: int| 0 <= i < s.len() && s[i].id == id
}

/// The first record in the sequence carrying the identifier, if any.
pub open spec fn find_face(s: Seq<FaceRecord>, id: u64) -> Option<FaceRecord>
    decreases s.len(),
{
    if s.len() == 0 {
        None
    } else if s[0].id == id {
        Some(s[0])
    } else {
        find_face(s.drop_first(), id)
    }
}

/// `find_face` returns the record at the first index carrying the identifier.
pub proof fn lemma_find_face_at(s: Seq<FaceRecord>, id: u64, i: int)
    requires
        0 <= i < s.len(),
        s[i].id == id,
        forall|j: int| 0 <= j < i ==> s[j].id != id,
    ensures
        find_face(s, id) == Some(s[i]),
    decreases i,
{
    if i == 0 {
    } else {
        lemma_find_face_at(s.drop_first(), id, i - 1);
    }
}

/// When no record carries the identifier, `find_face` returns nothing.
pub proof fn lemma_find_face_none(s: Seq<FaceRecord>, id: u64)
    requires
        forall|j: int| 0 <= j < s.len() ==> s[j].id != id,
    ensures
        find_face(s, id) is None,
    decreases s.len(),
{
    if s.len() > 0 {
        lemma_find_face_none(s.drop_first(), id);
    }
}

/// A record that `find_face` returns carries the identifier it was asked
/// for.
pub proof fn lemma_find_face_id(s: Seq<FaceRecord>, id: u64)
    ensures
        find_face(s, id) matches Some(f) ==> f.id == id,
    decreases s.len(),
{
    if s.len() > 0 && s[0].id != id {
        lemma_find_face_id(s.drop_first(), id);
    }
}

/// With unique identifiers, any record carrying the identifier is the one
/// that `find_face` returns.
pub proof fn lemma_find_face_unique(s: Seq<FaceRecord>, id: u64, i: int)
    requires
        unique_ids(s),
        0 <= i < s.len(),
        s[i].id == id,
    ensures
        find_face(s, id) == Some(s[i]),
{
    assert(forall|j: int| 0 <= j < i ==> s[j].id != id);
    lemma_find_face_at(s, id, i);
}

/// The catalog of known faces plus the defaults used to resolve the three
/// configurable generic family classes. A default that was never set is
/// `None`; a query for that generic class then matches no face by name.
pub struct FontDatabase {
    faces: Vec<FaceRecord>,
    monospace_family: Option<String>,
    sans_serif_family: Option<String>,
    serif_family: Option<String>,
}

impl FontDatabase {
    /// The catalog, in load order.
    pub closed spec fn spec_faces(&self) -> Seq<FaceRecord> {
        self.faces@
    }

    /// The configured default for the generic Monospace class.
    pub closed spec fn spec_monospace_family(&self) -> Option<Seq<char>> {
        match self.monospace_family {
            Some(s) => Some(s@),
            None => None,
        }
    }

    /// The configured default for the generic SansSerif class.
    pub closed spec fn spec_sans_serif_family(&self) -> Option<Seq<char>> {
        match self.sans_serif_family {
            Some(s) => Some(s@),
            None => None,
        }
    }

    /// The configured default for the generic Serif class.
    pub closed spec fn spec_serif_family(&self) -> Option<Seq<char>> {
        match self.serif_family {
            Some(s) => Some(s@),
            None => None,
        }
    }

    /// Well-formedness: no two faces share an identifier.
    pub open spec fn wf(&self) -> bool {
        unique_ids(self.spec_faces())
    }

    /// An empty database: no faces, no defaults configured.
    pub fn new() -> (r: FontDatabase)
        ensures
            r.wf(),
            r.spec_faces().len() == 0,
            r.spec_monospace_family() is None,
            r.spec_sans_serif_family() is None,
            r.spec_serif_family() is None,
    {
        FontDatabase {
            faces: Vec::new(),
            monospace_family: None,
            sans_serif_family: None,
            serif_family: None,
        }
    }

    /// Sets the default family for the generic Monospace class,
    /// overwriting any prior value.
    pub fn set_monospace_family(&mut self, name: String)
        ensures
            final(self).spec_monospace_family() == Some(name@),
            final(self).spec_sans_serif_family() == old(self).spec_sans_serif_family(),
            final(self).spec_serif_family() == old(self).spec_serif_family(),
            final(self).spec_faces() == old(self).spec_faces(),
    {
        self.monospace_family = Some(name);
    }

    /// Sets the default family for the generic SansSerif class,
    /// overwriting any prior value.
    pub fn set_sans_serif_family(&mut self, name: String)
        ensures
            final(self).spec_sans_serif_family() == Some(name@),
            final(self).spec_monospace_family() == old(self).spec_monospace_family(),
            final(self).spec_serif_family() == old(self).spec_serif_family(),
            final(self).spec_faces() == old(self).spec_faces(),
    {
        self.sans_serif_family = Some(name);
    }

    /// Sets the default family for the generic Serif class,
    /// overwriting any prior value.
    pub fn set_serif_family(&mut self, name: String)
        ensures
            final(self).spec_serif_family() == Some(name@),
            final(self).spec_monospace_family() == old(self).spec_monospace_family(),
            final(self).spec_sans_serif_family() == old(self).spec_sans_serif_family(),
            final(self).spec_faces() == old(self).spec_faces(),
    {
        self.serif_family = Some(name);
    }

    /// The configured Monospace default, if any.
    pub fn monospace_family(&self) -> (r: &Option<String>)
        ensures
            match r {
                Some(s) => self.spec_monospace_family() == Some(s@),
                None => self.spec_monospace_family() is None,
            },
    {
        &self.monospace_family
    }

    /// The configured SansSerif default, if any.
    pub fn sans_serif_family(&self) -> (r: &Option<String>)
        ensures
            match r {
                Some(s) => self.spec_sans_serif_family() == Some(s@),
                None => self.spec_sans_serif_family() is None,
            },
    {
        &self.sans_serif_family
    }

    /// The configured Serif default, if any.
    pub fn serif_family(&self) -> (r: &Option<String>)
        ensures
            match r {
                Some(s) => self.spec_serif_family() == Some(s@),
                None => self.spec_serif_family() is None,
            },
    {
        &self.serif_family
    }

    /// The full catalog, in load order.
    pub fn faces(&self) -> (r: &Vec<FaceRecord>)
        ensures
            r@ == self.spec_faces(),
    {
        &self.faces
    }

    /// The number of faces in the catalog.
    pub fn len(&self) -> (r: usize)
        ensures
            r == self.spec_faces().len(),
    {
        self.faces.len()
    }

    /// Adds a face to the catalog, keeping identifiers unique: a record
    /// whose identifier is already present is rejected and the database is
    /// left unchanged.
    pub fn push_face(&mut self, face: FaceRecord) -> (r: bool)
        requires
            old(self).wf(),
        ensures
            final(self).wf(),
            r == !has_id(old(self).spec_faces(), face.id),
            r ==> final(self).spec_faces() == old(self).spec_faces().push(face),
            !r ==> final(self).spec_faces() == old(self).spec_faces(),
            final(self).spec_monospace_family() == old(self).spec_monospace_family(),
            final(self).spec_sans_serif_family() == old(self).spec_sans_serif_family(),
            final(self).spec_serif_family() == old(self).spec_serif_family(),
    {
        let n = self.faces.len();
        let mut i: usize = 0;
        while i < n
            invariant
                *self == *old(self),
                old(self).wf(),
                n == self.faces.len(),
                0 <= i <= n,
                forall|j: int| 0 <= j < i ==> self.faces@[j].id != face.id,
            decreases n - i,
        {
            if self.faces[i].id == face.id {
                proof {
                    assert(has_id(self.spec_faces(), face.id)) by {
                        assert(self.spec_faces()[i as int].id == face.id);
                    }
                }
                return false;
            }
            i += 1;
        }
        proof {
            assert(!has_id(self.spec_faces(), face.id));
        }
        self.faces.push(face);
        true
    }

    /// Looks up the record carrying the identifier, or nothing when the
    /// identifier is unknown to the database.
    pub fn face(&self, id: u64) -> (r: Option<&FaceRecord>)
        ensures
            match r {
                Some(f) => find_face(self.spec_faces(), id) == Some(*f),
                None => find_face(self.spec_faces(), id) is None,
            },
    {
        let n = self.faces.len();
        let mut i: usize = 0;
        while i < n
            invariant
                n == self.faces.len(),
                0 <= i <= n,
                forall|j: int| 0 <= j < i ==> self.faces@[j].id != id,
            decreases n - i,
        {
            if self.faces[i].id == id {
                proof {
                    lemma_find_face_at(self.spec_faces(), id, i as int);
                }
                return Some(&self.faces[i]);
            }
            i += 1;
        }
        proof {
            lemma_find_face_none(self.spec_faces(), id);
        }
        None
    }
}

} // verus!
