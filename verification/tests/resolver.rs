use std::sync::Arc;

use fontmatch::Attrs;
use fontmatch::FaceRecord;
use fontmatch::Family;
use fontmatch::FontDatabase;
use fontmatch::FontError;
use fontmatch::FontSystem;
use fontmatch::Style;

/// A minimal valid sfnt source: TrueType version tag, zero tables.
fn good_bytes() -> Vec<u8> {
    vec![0x00, 0x01, 0x00, 0x00, 0x00, 0x00, 0x00, 0x00, 0x00, 0x00, 0x00, 0x00]
}

/// Corrupted source bytes: no known version tag.
fn bad_bytes() -> Vec<u8> {
    vec![0xDE, 0xAD, 0xBE, 0xEF, 0x00, 0x00, 0x00, 0x00, 0x00, 0x00, 0x00, 0x00]
}

fn face(id: u64, family: &str, weight: u16, monospaced: bool, source: Vec<u8>) -> FaceRecord {
    FaceRecord {
        id,
        family: family.to_string(),
        weight,
        style: Style::Normal,
        stretch: 100,
        monospaced,
        source,
    }
}

fn fira_db() -> FontDatabase {
    let mut db = FontDatabase::new();
    assert!(db.push_face(face(1, "Fira Mono", 400, true, good_bytes())));
    assert!(db.push_face(face(2, "Fira Mono", 700, true, good_bytes())));
    db
}

fn query() -> Attrs {
    Attrs::new()
}

#[test]
fn concrete_family_is_found() {
    let mut db = fira_db();
    assert!(db.push_face(face(3, "DejaVu Serif", 400, false, good_bytes())));
    let mut sys = FontSystem::new_with_locale_and_db("en-US", db);
    let mut q = query();
    q.family = Some(Family::Name("Fira Mono".to_string()));
    let fonts = sys.get_font_matches(&q);
    assert_eq!(fonts.len(), 2);
    assert_eq!(fonts[0].id(), 1);
    assert_eq!(fonts[1].id(), 2);
}

#[test]
fn family_match_is_case_insensitive() {
    let mut sys = FontSystem::new_with_locale_and_db("en-US", fira_db());
    let mut q = query();
    q.family = Some(Family::Name("fira MONO".to_string()));
    let fonts = sys.get_font_matches(&q);
    assert_eq!(fonts.len(), 2);
}

#[test]
fn monospace_flag_filters_unflagged_faces() {
    let mut db = fira_db();
    assert!(db.push_face(face(3, "Fira Sans", 400, false, good_bytes())));
    let mut sys = FontSystem::new_with_locale_and_db("en-US", db);
    let mut q = query();
    q.monospaced = true;
    let fonts = sys.get_font_matches(&q);
    assert_eq!(fonts.len(), 2);
    assert_eq!(fonts[0].id(), 1);
    assert_eq!(fonts[1].id(), 2);
}

#[test]
fn repeated_query_returns_the_same_instances() {
    let mut sys = FontSystem::new_with_locale_and_db("en-US", fira_db());
    let mut q = query();
    q.monospaced = true;
    let first = sys.get_font_matches(&q);
    let second = sys.get_font_matches(&q);
    assert_eq!(first.len(), 2);
    assert_eq!(second.len(), 2);
    assert!(Arc::ptr_eq(&first[0], &second[0]));
    assert!(Arc::ptr_eq(&first[1], &second[1]));
}

#[test]
fn get_font_hit_shares_the_cached_instance() {
    let mut sys = FontSystem::new_with_locale_and_db("en-US", fira_db());
    let a = sys.get_font(1).unwrap();
    let b = sys.get_font(1).unwrap();
    assert!(Arc::ptr_eq(&a, &b));
    assert_eq!(a.id(), 1);
}

#[test]
fn corrupt_face_is_excluded_and_reported() {
    let mut db = FontDatabase::new();
    assert!(db.push_face(face(1, "Fira Mono", 400, true, bad_bytes())));
    assert!(db.push_face(face(2, "Fira Mono", 400, true, good_bytes())));
    let mut sys = FontSystem::new_with_locale_and_db("en-US", db);
    let mut q = query();
    q.family = Some(Family::Name("Fira Mono".to_string()));
    let fonts = sys.get_font_matches(&q);
    assert_eq!(fonts.len(), 1);
    assert_eq!(fonts[0].id(), 2);
    assert_eq!(sys.try_get_font(1), Err(FontError::LoadFailure));
    assert!(sys.try_get_font(2).is_ok());
}

#[test]
fn truncated_table_directory_fails_to_parse() {
    // The header announces one table but the directory is missing.
    let mut db = FontDatabase::new();
    let bytes = vec![0x00, 0x01, 0x00, 0x00, 0x00, 0x01, 0x00, 0x00, 0x00, 0x00, 0x00, 0x00];
    assert!(db.push_face(face(7, "Fira Mono", 400, true, bytes)));
    let mut sys = FontSystem::new_with_locale_and_db("en-US", db);
    assert_eq!(sys.try_get_font(7), Err(FontError::LoadFailure));
    assert_eq!(sys.get_font(7), None);
}

#[test]
fn unknown_identifier_is_not_found() {
    let mut sys = FontSystem::new_with_locale_and_db("en-US", fira_db());
    assert_eq!(sys.try_get_font(42), Err(FontError::NotFound));
    assert_eq!(sys.get_font(42), None);
}

#[test]
fn parsed_font_exposes_the_header_fields() {
    let mut db = FontDatabase::new();
    let mut bytes = vec![0x4F, 0x54, 0x54, 0x4F, 0x00, 0x02];
    bytes.resize(12 + 16 * 2, 0u8);
    assert!(db.push_face(face(9, "Fira Mono", 400, true, bytes)));
    let mut sys = FontSystem::new_with_locale_and_db("en-US", db);
    let font = sys.get_font(9).unwrap();
    assert_eq!(font.id, 9);
    assert_eq!(font.sfnt_version, 0x4F54544F);
    assert_eq!(font.num_tables, 2);
}

#[test]
fn configured_monospace_default_matches_direct_query() {
    let mut db = fira_db();
    db.set_monospace_family("Fira Mono".to_string());
    let mut sys = FontSystem::new_with_locale_and_db("en-US", db);

    let mut generic = query();
    generic.family = Some(Family::Monospace);
    let via_generic = sys.get_font_matches(&generic);

    let mut direct = query();
    direct.family = Some(Family::Name("Fira Mono".to_string()));
    let via_direct = sys.get_font_matches(&direct);

    assert_eq!(via_generic.len(), via_direct.len());
    for (a, b) in via_generic.iter().zip(via_direct.iter()) {
        assert!(Arc::ptr_eq(a, b));
    }
}

#[test]
fn unconfigured_generic_class_matches_nothing() {
    let mut sys = FontSystem::new_with_locale_and_db("en-US", fira_db());
    let mut q = query();
    q.family = Some(Family::Serif);
    let fonts = sys.get_font_matches(&q);
    assert_eq!(fonts.len(), 0);
}

#[test]
fn empty_database_yields_empty_results() {
    let mut sys = FontSystem::new_with_locale_and_db("en-US", FontDatabase::new());
    let mut q = query();
    q.family = Some(Family::Name("Anything".to_string()));
    q.monospaced = true;
    q.weight = Some(700);
    let fonts = sys.get_font_matches(&q);
    assert_eq!(fonts.len(), 0);
    assert_eq!(sys.get_font(1), None);
}

#[test]
fn monospaced_query_returns_both_fira_faces_in_load_order() {
    let mut sys = FontSystem::new_with_locale_and_db("en-US", fira_db());
    let mut q = query();
    q.monospaced = true;
    let fonts = sys.get_font_matches(&q);
    assert_eq!(fonts.len(), 2);
    assert_eq!(fonts[0].id(), 1);
    assert_eq!(fonts[1].id(), 2);
}

#[test]
fn weight_700_selects_the_nearest_face_only() {
    let mut sys = FontSystem::new_with_locale_and_db("en-US", fira_db());
    let mut q = query();
    q.monospaced = true;
    q.weight = Some(700);
    let fonts = sys.get_font_matches(&q);
    assert_eq!(fonts.len(), 1);
    assert_eq!(fonts[0].id(), 2);
}

#[test]
fn nearest_weight_keeps_ties_in_load_order() {
    let mut db = FontDatabase::new();
    assert!(db.push_face(face(1, "Fira Mono", 400, true, good_bytes())));
    assert!(db.push_face(face(2, "Fira Mono", 1000, true, good_bytes())));
    let mut sys = FontSystem::new_with_locale_and_db("en-US", db);
    let mut q = query();
    q.family = Some(Family::Name("Fira Mono".to_string()));
    q.weight = Some(700);
    let fonts = sys.get_font_matches(&q);
    assert_eq!(fonts.len(), 2);
    assert_eq!(fonts[0].id(), 1);
    assert_eq!(fonts[1].id(), 2);
}

#[test]
fn nearest_stretch_narrows_before_weight() {
    let mut db = FontDatabase::new();
    assert!(db.push_face(face(1, "Fira Mono", 700, true, good_bytes())));
    let mut narrow = face(2, "Fira Mono", 400, true, good_bytes());
    narrow.stretch = 75;
    assert!(db.push_face(narrow));
    let mut sys = FontSystem::new_with_locale_and_db("en-US", db);
    let mut q = query();
    q.family = Some(Family::Name("Fira Mono".to_string()));
    q.stretch = Some(75);
    q.weight = Some(700);
    let fonts = sys.get_font_matches(&q);
    // The narrow face wins the stretch stage, so the weight stage can
    // only choose among narrow faces.
    assert_eq!(fonts.len(), 1);
    assert_eq!(fonts[0].id(), 2);
}

#[test]
fn style_constraint_excludes_other_slants() {
    let mut db = fira_db();
    let mut italic = face(3, "Fira Mono", 400, true, good_bytes());
    italic.style = Style::Italic;
    assert!(db.push_face(italic));
    let mut sys = FontSystem::new_with_locale_and_db("en-US", db);
    let mut q = query();
    q.family = Some(Family::Name("Fira Mono".to_string()));
    q.style = Some(Style::Italic);
    let fonts = sys.get_font_matches(&q);
    assert_eq!(fonts.len(), 1);
    assert_eq!(fonts[0].id(), 3);
}

#[test]
fn duplicate_identifier_is_rejected() {
    let mut db = FontDatabase::new();
    assert!(db.push_face(face(1, "Fira Mono", 400, true, good_bytes())));
    assert!(!db.push_face(face(1, "Other", 700, false, good_bytes())));
    assert_eq!(db.len(), 1);
}

#[test]
fn stock_defaults_and_locale() {
    let sys = FontSystem::new();
    assert_eq!(sys.locale(), "en-US");
    assert_eq!(sys.db().monospace_family().as_deref(), Some("Fira Mono"));
    assert_eq!(sys.db().sans_serif_family().as_deref(), Some("Fira Sans"));
    assert_eq!(sys.db().serif_family().as_deref(), Some("DejaVu Serif"));
    assert_eq!(sys.db().len(), 0);
}

#[test]
fn reconfiguration_through_db_mut() {
    let mut sys = FontSystem::new_with_locale_and_db("de-DE", fira_db());
    sys.db_mut().set_monospace_family("Fira Mono".to_string());
    assert_eq!(sys.locale(), "de-DE");
    let mut q = query();
    q.family = Some(Family::Monospace);
    let fonts = sys.get_font_matches(&q);
    assert_eq!(fonts.len(), 2);
}

#[test]
fn face_lookup_finds_records() {
    let db = fira_db();
    assert_eq!(db.face(2).map(|f| f.weight), Some(700));
    assert!(db.face(5).is_none());
}
