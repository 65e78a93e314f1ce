//! A font resolver: it turns loosely specified style requests (family,
//! weight, style, stretch, monospacing) into a ranked set of concrete font
//! faces drawn from an in-memory catalog, validates each face's source bytes
//! once, and shares the validated font objects through a cache.

pub mod attrs;
pub mod db;
pub mod font;
pub mod matching;
pub mod system;

pub use attrs::Attrs;
pub use attrs::Family;
pub use attrs::Style;
pub use db::FaceRecord;
pub use db::FontDatabase;
pub use font::Font;
pub use font::FontError;
pub use matching::ResolvedFamily;
pub use system::FontSystem;
