use font_catalog::builder::BuildError;
use font_catalog::lint::{ErrorContext, LintErrors};
use font_catalog::messages::decimal_text;

fn sans() -> ErrorContext {
    ErrorContext::Group("Sans".to_string())
}

fn arial() -> ErrorContext {
    ErrorContext::Font("Arial".to_string())
}

#[test]
fn places_have_texts() {
    assert_eq!(ErrorContext::Groups.to_string(), "groups");
    assert_eq!(ErrorContext::Fonts.to_string(), "fonts");
    assert_eq!(sans().to_string(), "groups -> Sans");
    assert_eq!(arial().to_string(), "fonts -> Arial");
}

#[test]
fn numbers_are_written_in_decimal() {
    assert_eq!(decimal_text(0), "0");
    assert_eq!(decimal_text(7), "7");
    assert_eq!(decimal_text(10), "10");
    assert_eq!(decimal_text(404), "404");
    assert_eq!(decimal_text(65535), "65535");
}

#[test]
fn identifier_findings_have_texts() {
    assert_eq!(
        LintErrors::ReusedUuid(0xa1a2a3a4b1b2c1c2d1d2d3d4d5d6d7d8).to_string(),
        "The UUID a1a2a3a4-b1b2-c1c2-d1d2-d3d4d5d6d7d8 has been reused"
    );
    assert_eq!(LintErrors::MissingUuid(sans()).to_string(), "Missing UUID for groups -> Sans");
}

#[test]
fn name_findings_have_texts() {
    assert_eq!(
        LintErrors::DuplicatedName("Arial".to_string(), arial()).to_string(),
        "The name/short name Arial has been reused in fonts -> Arial"
    );
    assert_eq!(
        LintErrors::NameTooLong("Arial".to_string(), arial()).to_string(),
        "The name/short name Arial is too long in fonts -> Arial"
    );
    assert_eq!(
        LintErrors::NameTooShort("Ar".to_string(), sans()).to_string(),
        "The name/short name Ar is too short in groups -> Sans"
    );
}

#[test]
fn order_findings_have_texts() {
    assert_eq!(
        LintErrors::UnsortedList(ErrorContext::Groups).to_string(),
        "The list \"groups\" is not sorted"
    );
    assert_eq!(
        LintErrors::UnsortedList(ErrorContext::Fonts).to_string(),
        "The list \"fonts\" is not sorted"
    );
    assert_eq!(
        LintErrors::UnsortedList(sans()).to_string(),
        "The list \"groups -> Sans -> fonts\" is not sorted"
    );
    assert_eq!(
        LintErrors::UnsortedList(arial()).to_string(),
        "The list \"fonts -> Arial -> Installations\" is not sorted"
    );
}

#[test]
fn group_and_font_findings_have_texts() {
    assert_eq!(
        LintErrors::GroupEmpty(sans()).to_string(),
        "The group \"groups -> Sans\" has no fonts"
    );
    assert_eq!(
        LintErrors::GroupDuplicateFont(sans(), "Arial".to_string()).to_string(),
        "The group \"groups -> Sans\" has a duplicate font named \"Arial\""
    );
    assert_eq!(
        LintErrors::GroupFontDoesntExist(sans(), "Arial".to_string()).to_string(),
        "The group \"groups -> Sans\" has a font named \"Arial\" that doesn't exist"
    );
    assert_eq!(
        LintErrors::FontEmpty(arial()).to_string(),
        "There are no installations for the font \"fonts -> Arial\""
    );
}

#[test]
fn download_findings_have_texts() {
    assert_eq!(
        LintErrors::DownloadLocalResourceDoesntExist(arial(), "base/arial.cab".to_string())
            .to_string(),
        "The local resource for \"fonts -> Arial\" doesn't exist at \"base/arial.cab\""
    );
    assert_eq!(
        LintErrors::DownloadExternalResourceNotHttps(arial(), "http://a.b/c".to_string())
            .to_string(),
        "External resource for \"fonts -> Arial\" isn't https at \"http://a.b/c\""
    );
    assert_eq!(
        LintErrors::DownloadExternalResourceError(arial(), "https://a.b/c".to_string(), 404)
            .to_string(),
        "Failed to download the external resource for \"fonts -> Arial\" at \"https://a.b/c\" with status code 404"
    );
}

#[test]
fn build_failures_have_texts() {
    assert_eq!(
        BuildError::UnexpectedEmptyUuid("font: Arial".to_string()).to_string(),
        "Unexpected empty uuid (name: font: Arial)"
    );
    assert_eq!(
        BuildError::MissingFont("Arial".to_string()).to_string(),
        "Missing font (name: Arial)"
    );
    assert_eq!(
        BuildError::DownloadFailed("https://a.b/c".to_string(), "Status code: 404".to_string())
            .to_string(),
        "Download failed (url: https://a.b/c, error: Status code: 404)"
    );
    assert_eq!(
        BuildError::FileError("arial.cab".to_string(), "No such file".to_string()).to_string(),
        "File error (path: arial.cab, error: No such file)"
    );
}
