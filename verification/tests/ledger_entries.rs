use font_catalog::ledger::{
    find_entry, ledger_after_uploads, version_info, Downloadable, UploadableDownloadInfo,
    VersionInfo,
};
use font_catalog::urls::BaseUrl;

fn entry(id: u128, hash: &str) -> Downloadable {
    Downloadable {
        id,
        file_size: 3,
        hash: hash.to_string(),
        download_url: format!("https://cdn.example.com/{}", id),
    }
}

#[test]
fn first_entry_with_the_hash_is_found() {
    let ledger = vec![entry(1, "aa"), entry(2, "bb"), entry(3, "bb")];
    assert_eq!(find_entry(&ledger, "aa"), Some(0));
    assert_eq!(find_entry(&ledger, "bb"), Some(1));
    assert_eq!(find_entry(&ledger, "cc"), None);
    assert_eq!(find_entry(&vec![], "aa"), None);
}

#[test]
fn published_payloads_are_appended_to_the_ledger() {
    let base = BaseUrl::parse("https://example.com/fonts").unwrap();
    let ledger = vec![entry(1, "aa")];
    let uploads = vec![
        UploadableDownloadInfo {
            uuid: 2,
            file_path: "files/arial.cab".to_string(),
            hash: "bb".to_string(),
            file_size: 10,
        },
        UploadableDownloadInfo {
            uuid: 3,
            file_path: "files/times".to_string(),
            hash: "cc".to_string(),
            file_size: 11,
        },
    ];
    assert_eq!(
        ledger_after_uploads(&ledger, &uploads, &base),
        vec![
            entry(1, "aa"),
            Downloadable {
                id: 2,
                file_size: 10,
                hash: "bb".to_string(),
                download_url:
                    "https://example.com/fonts/downloads/00000000-0000-0000-0000-000000000002.cab"
                        .to_string(),
            },
            Downloadable {
                id: 3,
                file_size: 11,
                hash: "cc".to_string(),
                download_url:
                    "https://example.com/fonts/downloads/00000000-0000-0000-0000-000000000003"
                        .to_string(),
            },
        ]
    );
}

#[test]
fn version_entry_describes_the_artifact() {
    let base = BaseUrl::parse("https://example.com/fonts").unwrap();
    assert_eq!(
        version_info(5, semver::Version::new(1, 0, 0), &base, &b"hello".to_vec()),
        VersionInfo {
            id: 5,
            version: semver::Version::new(1, 0, 0),
            download_url:
                "https://example.com/fonts/versions/00000000-0000-0000-0000-000000000005.json"
                    .to_string(),
            hash: "2cf24dba5fb0a30e26e83b2ac5b9e29e1b161e5c1fa7425e73043362938b9824".to_string(),
            file_size: 5,
        }
    );
}
