use font_catalog::builder::{build, distinct_downloads, BuildError, Payload};
use font_catalog::ledger::{ledger_after_uploads, Downloadable, UploadableDownloadInfo};
use font_catalog::lint::{lint, LintErrors, LintMode, ErrorContext};
use font_catalog::resolver::DownloadResolver;
use font_catalog::types::{
    CabextractInstalationCompiled, CabextractInstalationSource, CompiledDownloads, CompiledGroup,
    CompiledInstalationType, FontCategory, Source, SourceDownload, SourceFont, SourceGroup,
    SourceInstalationType, SourceUUID,
};
use font_catalog::urls::BaseUrl;

const HELLO_SHA256: &str = "2cf24dba5fb0a30e26e83b2ac5b9e29e1b161e5c1fa7425e73043362938b9824";

fn local(path: &str) -> SourceDownload {
    SourceDownload::LocalResource(path.to_string())
}

fn external(url: &str) -> SourceDownload {
    SourceDownload::ExternalResource(url.to_string())
}

fn cab(download: SourceDownload) -> SourceInstalationType {
    SourceInstalationType::Cabextract(CabextractInstalationSource {
        download,
        files: vec!["arial.ttf".to_string()],
    })
}

fn font(id: SourceUUID, name: &str, installations: Vec<SourceInstalationType>) -> SourceFont {
    SourceFont {
        id,
        name: name.to_string(),
        short_name: name.to_lowercase(),
        publisher: "Microsoft".to_string(),
        categories: vec![FontCategory::SansSerif, FontCategory::Display],
        installations,
    }
}

fn group(id: SourceUUID, name: &str, fonts: &[&str]) -> SourceGroup {
    SourceGroup {
        id,
        name: name.to_string(),
        fonts: fonts.iter().map(|f| f.to_string()).collect(),
    }
}

fn base() -> BaseUrl {
    BaseUrl::parse("https://example.com/fonts").unwrap()
}

fn version() -> semver::Version {
    semver::Version::new(1, 2, 3)
}

fn outcomes(source: &Source, payloads: Vec<Payload>) -> Vec<(SourceDownload, Payload)> {
    distinct_downloads(source).into_iter().zip(payloads).collect()
}

fn content(bytes: &[u8]) -> Payload {
    Payload::Content(bytes.to_vec())
}

fn download_of(installation: &CompiledInstalationType) -> u128 {
    match installation {
        CompiledInstalationType::Cabextract(CabextractInstalationCompiled { download, .. }) => {
            *download
        }
    }
}

fn hyphenated(id: u128) -> String {
    let hex = format!("{:032x}", id);
    format!("{}-{}-{}-{}-{}", &hex[0..8], &hex[8..12], &hex[12..16], &hex[16..20], &hex[20..32])
}

#[test]
fn fixed_manifest_builds_with_one_record_of_the_payload() {
    let fresh = Source {
        groups: vec![group(SourceUUID::Null, "Sans", &["Arial"])],
        fonts: vec![font(SourceUUID::Null, "Arial", vec![cab(local("arial.cab"))])],
    };
    let (source, errors) = lint(&fresh, LintMode::Fix);
    assert_eq!(errors, vec![]);
    assert_eq!(distinct_downloads(&source), vec![local("arial.cab")]);
    let (uploads, compiled) =
        build(version(), &source, &base(), vec![], outcomes(&source, vec![content(b"hello")])).unwrap();

    assert_eq!(compiled.version, version());
    assert_eq!(compiled.downloads.len(), 1);
    let record = &compiled.downloads[0];
    assert_eq!(record.hash, HELLO_SHA256);
    assert_eq!(record.file_size, 5);
    assert_eq!(
        record.download_url,
        format!("https://example.com/fonts/downloads/{}.cab", hyphenated(record.id))
    );
    assert_eq!(
        uploads,
        vec![UploadableDownloadInfo {
            uuid: record.id,
            file_path: "arial.cab".to_string(),
            hash: HELLO_SHA256.to_string(),
            file_size: 5,
        }]
    );
    let group_id = match source.groups[0].id {
        SourceUUID::Uuid(id) => id,
        SourceUUID::Null => unreachable!(),
    };
    let font_id = match source.fonts[0].id {
        SourceUUID::Uuid(id) => id,
        SourceUUID::Null => unreachable!(),
    };
    assert_eq!(
        compiled.groups,
        vec![CompiledGroup { id: group_id, name: "Sans".to_string(), fonts: vec![font_id] }]
    );
    assert_eq!(compiled.fonts.len(), 1);
    assert_eq!(compiled.fonts[0].id, font_id);
    assert_eq!(compiled.fonts[0].name, "Arial");
    assert_eq!(compiled.fonts[0].short_name, "arial");
    assert_eq!(compiled.fonts[0].publisher, "Microsoft");
    assert_eq!(
        compiled.fonts[0].categories,
        vec![FontCategory::SansSerif, FontCategory::Display]
    );
    assert_eq!(
        compiled.fonts[0].installations,
        vec![CompiledInstalationType::Cabextract(CabextractInstalationCompiled {
            download: record.id,
            files: vec!["arial.ttf".to_string()],
        })]
    );
}

#[test]
fn identical_content_gets_one_record() {
    let source = Source {
        groups: vec![],
        fonts: vec![
            font(SourceUUID::Uuid(1), "Arial", vec![cab(local("a.cab")), cab(local("b.cab"))]),
            font(
                SourceUUID::Uuid(2),
                "Verdana",
                vec![cab(local("a.cab")), cab(external("https://example.org/c.cab"))],
            ),
        ],
    };
    assert_eq!(
        distinct_downloads(&source),
        vec![local("a.cab"), local("b.cab"), external("https://example.org/c.cab")]
    );
    let payloads = vec![content(b"same"), content(b"same"), content(b"same")];
    let (uploads, compiled) = build(version(), &source, &base(), vec![], outcomes(&source, payloads)).unwrap();
    assert_eq!(compiled.downloads.len(), 1);
    let id = compiled.downloads[0].id;
    assert_eq!(uploads.len(), 1);
    assert_eq!(uploads[0].uuid, id);
    assert_eq!(uploads[0].file_path, "a.cab");
    for font in &compiled.fonts {
        for installation in &font.installations {
            assert_eq!(download_of(installation), id);
        }
    }
}

#[test]
fn different_content_gets_different_records() {
    let source = Source {
        groups: vec![],
        fonts: vec![font(
            SourceUUID::Uuid(1),
            "Arial",
            vec![cab(local("a.cab")), cab(local("b.cab"))],
        )],
    };
    let payloads = vec![content(b"hello"), content(b"world")];
    let (uploads, compiled) = build(version(), &source, &base(), vec![], outcomes(&source, payloads)).unwrap();
    assert_eq!(compiled.downloads.len(), 2);
    assert_eq!(uploads.len(), 2);
    assert_eq!(compiled.downloads[0].hash, HELLO_SHA256);
    assert_ne!(compiled.downloads[1].hash, HELLO_SHA256);
    assert_eq!(download_of(&compiled.fonts[0].installations[0]), compiled.downloads[0].id);
    assert_eq!(download_of(&compiled.fonts[0].installations[1]), compiled.downloads[1].id);
    assert_ne!(compiled.downloads[0].id, compiled.downloads[1].id);
}

#[test]
fn content_of_the_ledger_is_not_published_again() {
    let source = Source {
        groups: vec![],
        fonts: vec![font(SourceUUID::Uuid(1), "Arial", vec![cab(local("arial.cab"))])],
    };
    let ledger = vec![
        Downloadable {
            id: 40,
            file_size: 1,
            hash: "00".to_string(),
            download_url: "https://cdn.example.com/other".to_string(),
        },
        Downloadable {
            id: 41,
            file_size: 5,
            hash: HELLO_SHA256.to_string(),
            download_url: "https://cdn.example.com/hello".to_string(),
        },
        Downloadable {
            id: 42,
            file_size: 5,
            hash: HELLO_SHA256.to_string(),
            download_url: "https://cdn.example.com/again".to_string(),
        },
    ];
    let (uploads, compiled) =
        build(version(), &source, &base(), ledger, outcomes(&source, vec![content(b"hello")])).unwrap();
    assert_eq!(uploads, vec![]);
    assert_eq!(
        compiled.downloads,
        vec![CompiledDownloads {
            id: 41,
            file_size: 5,
            hash: HELLO_SHA256.to_string(),
            download_url: "https://cdn.example.com/hello".to_string(),
        }]
    );
    assert_eq!(download_of(&compiled.fonts[0].installations[0]), 41);
}

#[test]
fn new_external_content_keeps_its_address_and_is_not_published() {
    let source = Source {
        groups: vec![],
        fonts: vec![font(
            SourceUUID::Uuid(1),
            "Arial",
            vec![cab(external("https://example.org/arial.cab"))],
        )],
    };
    let (uploads, compiled) =
        build(version(), &source, &base(), vec![], outcomes(&source, vec![content(b"hello")])).unwrap();
    assert_eq!(uploads, vec![]);
    assert_eq!(compiled.downloads.len(), 1);
    assert_eq!(compiled.downloads[0].download_url, "https://example.org/arial.cab");
    assert_eq!(compiled.downloads[0].hash, HELLO_SHA256);
    assert_eq!(compiled.downloads[0].file_size, 5);
}

#[test]
fn group_naming_unknown_font_fails_the_build() {
    let source = Source {
        groups: vec![group(SourceUUID::Uuid(1), "Sans", &["Helvetica"])],
        fonts: vec![font(SourceUUID::Uuid(2), "Arial", vec![cab(local("arial.cab"))])],
    };
    let (_, errors) = lint(&source, LintMode::Check);
    assert_eq!(
        errors,
        vec![LintErrors::GroupFontDoesntExist(
            ErrorContext::Group("Sans".to_string()),
            "Helvetica".to_string()
        )]
    );
    assert_eq!(
        build(version(), &source, &base(), vec![], outcomes(&source, vec![content(b"hello")])),
        Err(BuildError::MissingFont("Helvetica".to_string()))
    );
}

#[test]
fn group_without_identifier_fails_the_build() {
    let source = Source {
        groups: vec![group(SourceUUID::Null, "Sans", &["Arial"])],
        fonts: vec![font(SourceUUID::Uuid(2), "Arial", vec![])],
    };
    assert_eq!(
        build(version(), &source, &base(), vec![], vec![]),
        Err(BuildError::UnexpectedEmptyUuid("group: Sans".to_string()))
    );
}

#[test]
fn referenced_font_without_identifier_fails_the_build() {
    let source = Source {
        groups: vec![group(SourceUUID::Uuid(1), "Sans", &["Arial"])],
        fonts: vec![font(SourceUUID::Null, "Arial", vec![])],
    };
    assert_eq!(
        build(version(), &source, &base(), vec![], vec![]),
        Err(BuildError::UnexpectedEmptyUuid("group -> font: Arial".to_string()))
    );
}

#[test]
fn font_without_identifier_fails_the_build() {
    let source = Source {
        groups: vec![],
        fonts: vec![font(SourceUUID::Null, "Arial", vec![])],
    };
    assert_eq!(
        build(version(), &source, &base(), vec![], vec![]),
        Err(BuildError::UnexpectedEmptyUuid("font: Arial".to_string()))
    );
}

#[test]
fn payload_that_could_not_be_read_fails_the_build() {
    let source = Source {
        groups: vec![],
        fonts: vec![font(
            SourceUUID::Uuid(1),
            "Arial",
            vec![cab(local("a.cab")), cab(external("https://example.org/b.cab"))],
        )],
    };
    assert_eq!(
        build(
            version(),
            &source,
            &base(),
            vec![],
            outcomes(&source, vec![Payload::Failed("No such file".to_string()), content(b"hello")])
        ),
        Err(BuildError::FileError("a.cab".to_string(), "No such file".to_string()))
    );
    assert_eq!(
        build(
            version(),
            &source,
            &base(),
            vec![],
            outcomes(
                &source,
                vec![content(b"hello"), Payload::Failed("Status code: 404".to_string())]
            )
        ),
        Err(BuildError::DownloadFailed(
            "https://example.org/b.cab".to_string(),
            "Status code: 404".to_string()
        ))
    );
}

#[test]
fn resolver_settles_content_with_the_identifier_it_is_given() {
    let mut resolver = DownloadResolver::new();
    resolver.resolve_with(&local("a.cab"), &b"hello".to_vec(), &vec![], &base(), 7, Some("cab"));
    resolver.resolve_with(&local("b.cab"), &b"hello".to_vec(), &vec![], &base(), 8, Some("cab"));
    assert_eq!(resolver.assigned, vec![7, 7]);
    assert_eq!(
        resolver.records,
        vec![CompiledDownloads {
            id: 7,
            file_size: 5,
            hash: HELLO_SHA256.to_string(),
            download_url:
                "https://example.com/fonts/downloads/00000000-0000-0000-0000-000000000007.cab"
                    .to_string(),
        }]
    );
    assert_eq!(resolver.uploads.len(), 1);
}

#[test]
fn resolver_records_a_given_hash() {
    let mut resolver = DownloadResolver::new();
    resolver.record(
        &external("https://example.org/a.cab"),
        "abc".to_string(),
        3,
        &vec![],
        &base(),
        9,
        None,
    );
    assert_eq!(
        resolver.records,
        vec![CompiledDownloads {
            id: 9,
            file_size: 3,
            hash: "abc".to_string(),
            download_url: "https://example.org/a.cab".to_string(),
        }]
    );
    assert_eq!(resolver.uploads, vec![]);
    assert_eq!(resolver.assigned, vec![9]);
}

#[test]
fn reference_without_outcome_fails_the_build() {
    let source = Source {
        groups: vec![],
        fonts: vec![font(
            SourceUUID::Uuid(1),
            "Arial",
            vec![cab(local("a.cab")), cab(external("https://example.org/b.cab"))],
        )],
    };
    assert_eq!(
        build(version(), &source, &base(), vec![], vec![]),
        Err(BuildError::FileError("a.cab".to_string(), "not materialized".to_string()))
    );
    assert_eq!(
        build(version(), &source, &base(), vec![], vec![(local("a.cab"), content(b"hello"))]),
        Err(BuildError::DownloadFailed(
            "https://example.org/b.cab".to_string(),
            "not materialized".to_string()
        ))
    );
}

#[test]
fn outcomes_are_found_by_their_reference() {
    let source = Source {
        groups: vec![],
        fonts: vec![font(
            SourceUUID::Uuid(1),
            "Arial",
            vec![cab(local("a.cab")), cab(local("b.cab"))],
        )],
    };
    let supplied = vec![
        (local("b.cab"), content(b"world")),
        (local("unused.cab"), content(b"unused")),
        (local("a.cab"), content(b"hello")),
        (local("a.cab"), content(b"later")),
    ];
    let (uploads, compiled) = build(version(), &source, &base(), vec![], supplied).unwrap();
    assert_eq!(compiled.downloads.len(), 2);
    assert_eq!(compiled.downloads[0].hash, HELLO_SHA256);
    assert_eq!(compiled.downloads[0].file_size, 5);
    assert_eq!(uploads[0].file_path, "a.cab");
    assert_eq!(uploads[1].file_path, "b.cab");
}

#[test]
fn identical_local_content_is_published_and_entered_once() {
    let source = Source {
        groups: vec![],
        fonts: vec![
            font(SourceUUID::Uuid(1), "Arial", vec![cab(local("a.cab"))]),
            font(SourceUUID::Uuid(2), "Verdana", vec![cab(local("b.cab"))]),
        ],
    };
    let ledger = vec![Downloadable {
        id: 40,
        file_size: 1,
        hash: "00".to_string(),
        download_url: "https://cdn.example.com/other".to_string(),
    }];
    let payloads = vec![content(b"hello"), content(b"hello")];
    let (uploads, compiled) =
        build(version(), &source, &base(), ledger.clone(), outcomes(&source, payloads)).unwrap();
    assert_eq!(uploads.len(), 1);
    assert_eq!(uploads[0].hash, HELLO_SHA256);
    let id = download_of(&compiled.fonts[0].installations[0]);
    assert_eq!(download_of(&compiled.fonts[1].installations[0]), id);
    assert_eq!(uploads[0].uuid, id);

    let after = ledger_after_uploads(&ledger, &uploads, &base());
    let entries: Vec<&Downloadable> = after.iter().filter(|e| e.hash == HELLO_SHA256).collect();
    assert_eq!(entries.len(), 1);
    assert_eq!(entries[0].id, id);
    assert_eq!(entries[0].file_size, 5);
    assert_eq!(entries[0].download_url, compiled.downloads[0].download_url);
    assert_eq!(after.len(), 2);
    assert_eq!(after[0], ledger[0]);
}

#[test]
fn content_first_met_at_an_external_address_is_not_published() {
    let source = Source {
        groups: vec![],
        fonts: vec![font(
            SourceUUID::Uuid(1),
            "Arial",
            vec![cab(external("https://example.org/a.cab")), cab(local("a.cab"))],
        )],
    };
    let payloads = vec![content(b"hello"), content(b"hello")];
    let (uploads, compiled) =
        build(version(), &source, &base(), vec![], outcomes(&source, payloads)).unwrap();
    assert_eq!(uploads, vec![]);
    assert_eq!(compiled.downloads.len(), 1);
    assert_eq!(compiled.downloads[0].download_url, "https://example.org/a.cab");
}

#[test]
fn dangling_reference_survives_fix_and_fails_the_build() {
    let fresh = Source {
        groups: vec![
            group(SourceUUID::Null, "Serif", &["Times", "Georgia"]),
            group(SourceUUID::Null, "Sans", &["Arial"]),
        ],
        fonts: vec![
            font(SourceUUID::Null, "Times", vec![cab(local("times.cab"))]),
            font(SourceUUID::Null, "Arial", vec![cab(local("arial.cab"))]),
        ],
    };
    for mode in [LintMode::Check, LintMode::Fix] {
        let (_, errors) = lint(&fresh, mode);
        let missing: Vec<&LintErrors> = errors
            .iter()
            .filter(|e| matches!(e, LintErrors::GroupFontDoesntExist(_, _)))
            .collect();
        assert_eq!(
            missing,
            vec![&LintErrors::GroupFontDoesntExist(
                ErrorContext::Group("Serif".to_string()),
                "Georgia".to_string()
            )]
        );
    }
    let (fixed, errors) = lint(&fresh, LintMode::Fix);
    assert_eq!(
        errors,
        vec![LintErrors::GroupFontDoesntExist(
            ErrorContext::Group("Serif".to_string()),
            "Georgia".to_string()
        )]
    );
    assert_eq!(fixed.groups[1].fonts, vec!["Georgia", "Times"]);
    let payloads = vec![content(b"arial"), content(b"times")];
    assert_eq!(
        build(version(), &fixed, &base(), vec![], outcomes(&fixed, payloads)),
        Err(BuildError::MissingFont("Georgia".to_string()))
    );
}
