use font_catalog::lint::{ErrorContext, LintErrors};
use font_catalog::reach::{check_external_download, external_download_findings};
use font_catalog::urls::{
    download_url, generate_url, generate_versions_url, payload_file_name, BaseUrl,
    DOWNLOAD_FILE_PATH, VERSIONS_FILE_PATH,
};

const ID: u128 = 0xa1a2a3a4b1b2c1c2d1d2d3d4d5d6d7d8;

fn arial() -> ErrorContext {
    ErrorContext::Font("Arial".to_string())
}

#[test]
fn directories_are_named() {
    assert_eq!(DOWNLOAD_FILE_PATH, "downloads");
    assert_eq!(VERSIONS_FILE_PATH, "versions");
}

#[test]
fn payload_is_named_by_its_identifier_and_extension() {
    assert_eq!(payload_file_name(ID, Some("cab")), "a1a2a3a4-b1b2-c1c2-d1d2-d3d4d5d6d7d8.cab");
    assert_eq!(payload_file_name(ID, None), "a1a2a3a4-b1b2-c1c2-d1d2-d3d4d5d6d7d8");
    assert_eq!(payload_file_name(15, None), "00000000-0000-0000-0000-00000000000f");
}

#[test]
fn download_address_lies_under_the_base_path() {
    let base = BaseUrl::parse("https://example.com/fonts").unwrap();
    assert_eq!(
        generate_url(&base, "files/arial.cab", ID),
        "https://example.com/fonts/downloads/a1a2a3a4-b1b2-c1c2-d1d2-d3d4d5d6d7d8.cab"
    );
    assert_eq!(
        generate_url(&base, "files/arial", ID),
        "https://example.com/fonts/downloads/a1a2a3a4-b1b2-c1c2-d1d2-d3d4d5d6d7d8"
    );
}

#[test]
fn download_address_under_a_base_without_path() {
    let base = BaseUrl::parse("https://example.com").unwrap();
    assert_eq!(base.as_str(), "https://example.com");
    assert_eq!(
        generate_url(&base, "arial.tar.gz", ID),
        "https://example.com/downloads/a1a2a3a4-b1b2-c1c2-d1d2-d3d4d5d6d7d8.gz"
    );
}

#[test]
fn download_address_keeps_query_of_the_base() {
    let base = BaseUrl::parse("https://example.com/a/b?token=1").unwrap();
    assert_eq!(
        download_url(&base, Some("cab"), 1),
        "https://example.com/a/b/downloads/00000000-0000-0000-0000-000000000001.cab?token=1"
    );
}

#[test]
fn extension_is_percent_encoded() {
    let base = BaseUrl::parse("https://example.com/fonts").unwrap();
    assert_eq!(
        download_url(&base, Some("c b+é"), 1),
        "https://example.com/fonts/downloads/00000000-0000-0000-0000-000000000001.c%20b%2B%C3%A9"
    );
}

#[test]
fn version_address_lies_under_the_base_path() {
    let base = BaseUrl::parse("https://example.com/fonts").unwrap();
    assert_eq!(
        generate_versions_url(&base, ID),
        "https://example.com/fonts/versions/a1a2a3a4-b1b2-c1c2-d1d2-d3d4d5d6d7d8.json"
    );
}

#[test]
fn address_that_cannot_be_a_base_is_refused() {
    assert!(BaseUrl::parse("data:text/plain,Stuff").is_none());
    assert!(BaseUrl::parse("not an address").is_none());
    assert!(BaseUrl::parse("/relative/path").is_none());
}

#[test]
fn secure_address_that_answers_has_no_finding() {
    assert_eq!(check_external_download(arial(), "https://example.com/arial.cab", 200), vec![]);
    assert_eq!(check_external_download(arial(), "HTTPS://example.com/arial.cab", 299), vec![]);
}

#[test]
fn insecure_address_is_reported() {
    assert_eq!(
        check_external_download(arial(), "http://example.com/arial.cab", 204),
        vec![LintErrors::DownloadExternalResourceNotHttps(
            arial(),
            "http://example.com/arial.cab".to_string()
        )]
    );
}

#[test]
fn text_that_is_no_address_is_not_secure() {
    assert_eq!(
        check_external_download(arial(), "https", 200),
        vec![LintErrors::DownloadExternalResourceNotHttps(arial(), "https".to_string())]
    );
}

#[test]
fn status_that_is_no_success_is_reported() {
    for status in [199u16, 300, 404, 500] {
        assert_eq!(
            check_external_download(arial(), "https://example.com/arial.cab", status),
            vec![LintErrors::DownloadExternalResourceError(
                arial(),
                "https://example.com/arial.cab".to_string(),
                status
            )]
        );
    }
}

#[test]
fn insecure_address_that_fails_gets_both_findings_in_order() {
    assert_eq!(
        check_external_download(arial(), "ftp://example.com/arial.cab", 404),
        vec![
            LintErrors::DownloadExternalResourceNotHttps(
                arial(),
                "ftp://example.com/arial.cab".to_string()
            ),
            LintErrors::DownloadExternalResourceError(
                arial(),
                "ftp://example.com/arial.cab".to_string(),
                404
            ),
        ]
    );
}

#[test]
fn findings_follow_the_scheme_that_is_given() {
    assert_eq!(
        external_download_findings(arial(), "x", Some("https".to_string()), 200),
        vec![]
    );
    assert_eq!(
        external_download_findings(arial(), "x", Some("http".to_string()), 200),
        vec![LintErrors::DownloadExternalResourceNotHttps(arial(), "x".to_string())]
    );
    assert_eq!(
        external_download_findings(arial(), "x", None, 200),
        vec![LintErrors::DownloadExternalResourceNotHttps(arial(), "x".to_string())]
    );
}

#[test]
fn path_without_dot_in_its_file_name_has_no_extension() {
    let base = BaseUrl::parse("https://example.com/fonts").unwrap();
    let bare = "https://example.com/fonts/downloads/a1a2a3a4-b1b2-c1c2-d1d2-d3d4d5d6d7d8";
    assert_eq!(generate_url(&base, "arial", ID), bare);
    assert_eq!(generate_url(&base, "", ID), bare);
    assert_eq!(generate_url(&base, "files.d/arial", ID), bare);
    assert_eq!(generate_url(&base, ".hidden", ID), bare);
}

#[test]
fn extension_is_what_follows_the_last_dot() {
    let base = BaseUrl::parse("https://example.com/fonts").unwrap();
    assert_eq!(
        generate_url(&base, "files.d/arial.tar.gz", ID),
        "https://example.com/fonts/downloads/a1a2a3a4-b1b2-c1c2-d1d2-d3d4d5d6d7d8.gz"
    );
    assert_eq!(
        generate_url(&base, "arial.", ID),
        "https://example.com/fonts/downloads/a1a2a3a4-b1b2-c1c2-d1d2-d3d4d5d6d7d8."
    );
}
