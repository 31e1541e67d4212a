use std::collections::HashMap;

use font_catalog::identity::{check_or_create_uuid, resolve_uuid};
use font_catalog::lint::{ErrorContext, LintErrors, LintMode};
use font_catalog::types::SourceUUID;

fn sans() -> ErrorContext {
    ErrorContext::Group("Sans".to_string())
}

#[test]
fn new_identifier_is_recorded_and_returned() {
    let mut seen: HashMap<u128, ()> = HashMap::new();
    for mode in [LintMode::Check, LintMode::Fix] {
        seen.clear();
        assert_eq!(check_or_create_uuid(&mut seen, SourceUUID::Uuid(5), sans(), mode), Ok(5));
        assert!(seen.contains_key(&5));
        assert_eq!(seen.len(), 1);
    }
}

#[test]
fn identifier_seen_before_is_reused() {
    let mut seen: HashMap<u128, ()> = HashMap::new();
    seen.insert(5, ());
    for mode in [LintMode::Check, LintMode::Fix] {
        assert_eq!(
            check_or_create_uuid(&mut seen, SourceUUID::Uuid(5), sans(), mode),
            Err(LintErrors::ReusedUuid(5))
        );
        assert_eq!(seen.len(), 1);
    }
}

#[test]
fn missing_identifier_is_a_finding_in_check_mode() {
    let mut seen: HashMap<u128, ()> = HashMap::new();
    assert_eq!(
        check_or_create_uuid(&mut seen, SourceUUID::Null, sans(), LintMode::Check),
        Err(LintErrors::MissingUuid(sans()))
    );
    assert!(seen.is_empty());
}

#[test]
fn missing_identifier_is_minted_in_fix_mode() {
    let mut seen: HashMap<u128, ()> = HashMap::new();
    let first = check_or_create_uuid(&mut seen, SourceUUID::Null, sans(), LintMode::Fix).unwrap();
    let second = check_or_create_uuid(&mut seen, SourceUUID::Null, sans(), LintMode::Fix).unwrap();
    assert_ne!(first, second);
    assert!(seen.contains_key(&first));
    assert!(seen.contains_key(&second));
    assert_eq!(seen.len(), 2);
}

#[test]
fn given_identifier_is_assigned_in_fix_mode() {
    let mut seen: HashMap<u128, ()> = HashMap::new();
    assert_eq!(resolve_uuid(&mut seen, SourceUUID::Null, sans(), LintMode::Fix, 77), Ok(77));
    assert!(seen.contains_key(&77));
    assert_eq!(
        resolve_uuid(&mut seen, SourceUUID::Uuid(77), sans(), LintMode::Fix, 78),
        Err(LintErrors::ReusedUuid(77))
    );
    assert_eq!(
        resolve_uuid(&mut seen, SourceUUID::Null, sans(), LintMode::Check, 78),
        Err(LintErrors::MissingUuid(sans()))
    );
    assert_eq!(seen.len(), 1);
}

#[test]
fn text_of_the_manifest_stands_for_an_identifier() {
    assert_eq!(SourceUUID::parse("<UUID>"), Some(SourceUUID::Null));
    assert_eq!(
        SourceUUID::parse("a1a2a3a4-b1b2-c1c2-d1d2-d3d4d5d6d7d8"),
        Some(SourceUUID::Uuid(0xa1a2a3a4b1b2c1c2d1d2d3d4d5d6d7d8))
    );
    assert_eq!(
        SourceUUID::parse("A1A2A3A4B1B2C1C2D1D2D3D4D5D6D7D8"),
        Some(SourceUUID::Uuid(0xa1a2a3a4b1b2c1c2d1d2d3d4d5d6d7d8))
    );
    assert_eq!(SourceUUID::parse("<uuid>"), None);
    assert_eq!(SourceUUID::parse(""), None);
    assert_eq!(SourceUUID::parse("a1a2a3a4"), None);
}

#[test]
fn parsed_identifier_yields_to_the_text_for_none() {
    assert_eq!(SourceUUID::from_parsed("<UUID>", Some(3)), Some(SourceUUID::Null));
    assert_eq!(SourceUUID::from_parsed("x", Some(3)), Some(SourceUUID::Uuid(3)));
    assert_eq!(SourceUUID::from_parsed("x", None), None);
}

#[test]
fn identifier_is_written_as_the_manifest_holds_it() {
    assert_eq!(SourceUUID::Null.to_string(), "<UUID>");
    assert_eq!(
        SourceUUID::Uuid(0xa1a2a3a4b1b2c1c2d1d2d3d4d5d6d7d8).to_string(),
        "a1a2a3a4-b1b2-c1c2-d1d2-d3d4d5d6d7d8"
    );
    assert_eq!(
        SourceUUID::parse(&SourceUUID::Uuid(77).to_string()),
        Some(SourceUUID::Uuid(77))
    );
}
