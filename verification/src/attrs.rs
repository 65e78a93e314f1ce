//! Style attributes a caller may request: the query side of font matching.

use vstd::prelude::*;

verus! {

/// Slant of a face: upright, italic, or oblique.
#[derive(Clone, Copy, Debug, PartialEq, Eq, Structural)]
pub enum Style {
    Normal,
    Italic,
    Oblique,
}

/// A family preference: either a concrete family name or one of the
/// generic classes. The generic classes `Monospace`, `SansSerif` and
/// `Serif` are resolved through the database's configurable defaults;
/// `Fantasy` and `Cursive` have no configurable default here and so
/// resolve to no concrete family (such a query matches no face by name).
#[derive(Clone, Debug)]
pub enum Family {
    Name(String),
    Monospace,
    SansSerif,
    Serif,
    Fantasy,
    Cursive,
}

/// A caller-supplied description of the desired style. Every field is
/// optional in the sense that an unspecified field imposes no constraint;
/// `monospaced` is a flag: when set, only monospaced faces match.
#[derive(Clone, Debug)]
pub struct Attrs {
    /// Family preference; `None` leaves the family unconstrained.
    pub family: Option<Family>,
    /// When true, only faces with the monospace flag match.
    pub monospaced: bool,
    /// Desired slant; `None` leaves it unconstrained.
    pub style: Option<Style>,
    /// Desired weight on the usual numeric scale (100–900); matched by the
    /// nearest available weight among the otherwise-matching faces.
    pub weight: Option<u16>,
    /// Desired stretch (a numeric width class); matched by the nearest
    /// available stretch among the otherwise-matching faces.
    pub stretch: Option<u16>,
}

impl Attrs {
    /// A query with no constraints at all: every face matches it.
    pub fn new() -> (r: Attrs)
        ensures
            r.family is None,
            !r.monospaced,
            r.style is None,
            r.weight is None,
            r.stretch is None,
    {
        Attrs { family: None, monospaced: false, style: None, weight: None, stretch: None }
    }
}

} // verus!
