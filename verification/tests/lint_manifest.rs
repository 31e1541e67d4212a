use font_catalog::lint::{lint, ErrorContext, LintErrors, LintMode};
use font_catalog::reach::{check_local_download, downloads_to_check};
use font_catalog::types::{
    CabextractInstalationSource, FontCategory, Source, SourceDownload, SourceFont, SourceGroup,
    SourceInstalationType, SourceUUID,
};

fn cab(path: &str, files: &[&str]) -> SourceInstalationType {
    SourceInstalationType::Cabextract(CabextractInstalationSource {
        download: SourceDownload::LocalResource(path.to_string()),
        files: files.iter().map(|f| f.to_string()).collect(),
    })
}

fn font(id: SourceUUID, name: &str, short_name: &str) -> SourceFont {
    SourceFont {
        id,
        name: name.to_string(),
        short_name: short_name.to_string(),
        publisher: "Microsoft".to_string(),
        categories: vec![FontCategory::SansSerif],
        installations: vec![cab("arial.cab", &["arial.ttf"])],
    }
}

fn group(id: SourceUUID, name: &str, fonts: &[&str]) -> SourceGroup {
    SourceGroup {
        id,
        name: name.to_string(),
        fonts: fonts.iter().map(|f| f.to_string()).collect(),
    }
}

fn groups_ctx(name: &str) -> ErrorContext {
    ErrorContext::Group(name.to_string())
}

fn fonts_ctx(name: &str) -> ErrorContext {
    ErrorContext::Font(name.to_string())
}

fn fresh_manifest() -> Source {
    Source {
        groups: vec![group(SourceUUID::Null, "Sans", &["Arial"])],
        fonts: vec![font(SourceUUID::Null, "Arial", "arial")],
    }
}

#[test]
fn fresh_manifest_in_check_mode_misses_two_identifiers() {
    let source = fresh_manifest();
    let (after, errors) = lint(&source, LintMode::Check);
    assert_eq!(after, source);
    assert_eq!(
        errors,
        vec![
            LintErrors::MissingUuid(groups_ctx("Sans")),
            LintErrors::MissingUuid(fonts_ctx("Arial")),
        ]
    );
    let downloads = downloads_to_check(&after);
    assert_eq!(
        downloads,
        vec![(fonts_ctx("Arial"), SourceDownload::LocalResource("arial.cab".to_string()))]
    );
    let (context, download) = downloads.into_iter().next().unwrap();
    let path = match download {
        SourceDownload::LocalResource(path) => path,
        SourceDownload::ExternalResource(_) => unreachable!(),
    };
    assert_eq!(check_local_download(context, &path, true), vec![]);
}

#[test]
fn fix_assigns_identifiers_and_reports_nothing() {
    let (after, errors) = lint(&fresh_manifest(), LintMode::Fix);
    assert_eq!(errors, vec![]);
    assert!(matches!(after.groups[0].id, SourceUUID::Uuid(_)));
    assert!(matches!(after.fonts[0].id, SourceUUID::Uuid(_)));
    assert_ne!(after.groups[0].id, after.fonts[0].id);
    assert_eq!(after.groups[0].name, "Sans");
    assert_eq!(after.fonts[0].name, "Arial");
}

#[test]
fn fix_twice_is_fix_once() {
    let source = Source {
        groups: vec![
            group(SourceUUID::Null, "Serif", &["Times", "Georgia"]),
            group(SourceUUID::Uuid(7), "Sans", &["Verdana", "Arial"]),
        ],
        fonts: vec![
            font(SourceUUID::Null, "Verdana", "verdana"),
            font(SourceUUID::Uuid(9), "Arial", "arial"),
            font(SourceUUID::Null, "Times", "times"),
            font(SourceUUID::Null, "Georgia", "georgia"),
        ],
    };
    let (once, _) = lint(&source, LintMode::Fix);
    let (twice, errors) = lint(&once, LintMode::Fix);
    assert_eq!(twice, once);
    assert_eq!(errors, vec![]);
}

#[test]
fn fix_sorts_groups_references_and_fonts() {
    let source = Source {
        groups: vec![
            group(SourceUUID::Uuid(1), "Serif", &["Times", "Georgia"]),
            group(SourceUUID::Uuid(2), "Sans", &["Verdana", "Arial"]),
        ],
        fonts: vec![
            font(SourceUUID::Uuid(3), "Verdana", "verdana"),
            font(SourceUUID::Uuid(4), "Arial", "arial"),
            font(SourceUUID::Uuid(5), "Times", "times"),
            font(SourceUUID::Uuid(6), "Georgia", "georgia"),
        ],
    };
    let (after, errors) = lint(&source, LintMode::Fix);
    assert_eq!(errors, vec![]);
    assert_eq!(
        after.groups,
        vec![
            group(SourceUUID::Uuid(2), "Sans", &["Arial", "Verdana"]),
            group(SourceUUID::Uuid(1), "Serif", &["Georgia", "Times"]),
        ]
    );
    assert_eq!(
        after.fonts,
        vec![
            font(SourceUUID::Uuid(4), "Arial", "arial"),
            font(SourceUUID::Uuid(6), "Georgia", "georgia"),
            font(SourceUUID::Uuid(5), "Times", "times"),
            font(SourceUUID::Uuid(3), "Verdana", "verdana"),
        ]
    );
}

#[test]
fn check_reports_each_unsorted_list_and_changes_nothing() {
    let source = Source {
        groups: vec![
            group(SourceUUID::Uuid(1), "Serif", &["Times", "Georgia"]),
            group(SourceUUID::Uuid(2), "Sans", &["Arial"]),
        ],
        fonts: vec![
            font(SourceUUID::Uuid(5), "Times", "times"),
            font(SourceUUID::Uuid(4), "Arial", "arial"),
            font(SourceUUID::Uuid(6), "Georgia", "georgia"),
        ],
    };
    let (after, errors) = lint(&source, LintMode::Check);
    assert_eq!(after, source);
    assert_eq!(
        errors,
        vec![
            LintErrors::UnsortedList(ErrorContext::Groups),
            LintErrors::UnsortedList(groups_ctx("Serif")),
            LintErrors::UnsortedList(ErrorContext::Fonts),
        ]
    );
}

#[test]
fn check_accepts_assigned_identifiers() {
    let source = Source {
        groups: vec![
            group(SourceUUID::Uuid(2), "Sans", &["Arial"]),
            group(SourceUUID::Uuid(1), "Serif", &["Georgia"]),
        ],
        fonts: vec![
            font(SourceUUID::Uuid(4), "Arial", "arial"),
            font(SourceUUID::Uuid(6), "Georgia", "georgia"),
        ],
    };
    let (_, errors) = lint(&source, LintMode::Check);
    assert_eq!(errors, vec![]);
}

#[test]
fn identifier_shared_by_group_and_font_is_reused() {
    let source = Source {
        groups: vec![group(SourceUUID::Uuid(4), "Sans", &["Arial"])],
        fonts: vec![font(SourceUUID::Uuid(4), "Arial", "arial")],
    };
    for mode in [LintMode::Check, LintMode::Fix] {
        let (after, errors) = lint(&source, mode);
        assert_eq!(errors, vec![LintErrors::ReusedUuid(4)]);
        assert_eq!(after, source);
    }
}

#[test]
fn group_naming_unknown_font_gets_one_finding() {
    let source = Source {
        groups: vec![group(SourceUUID::Uuid(1), "Sans", &["Helvetica"])],
        fonts: vec![font(SourceUUID::Uuid(2), "Arial", "arial")],
    };
    let (_, errors) = lint(&source, LintMode::Check);
    assert_eq!(
        errors,
        vec![LintErrors::GroupFontDoesntExist(groups_ctx("Sans"), "Helvetica".to_string())]
    );
}

#[test]
fn group_findings_come_in_order() {
    let source = Source {
        groups: vec![
            group(SourceUUID::Uuid(1), "Sa", &[]),
            group(SourceUUID::Uuid(1), "Sa", &["Arial", "Arial", "Nope"]),
        ],
        fonts: vec![font(SourceUUID::Uuid(2), "Arial", "arial")],
    };
    let (_, errors) = lint(&source, LintMode::Check);
    assert_eq!(
        errors,
        vec![
            LintErrors::NameTooShort("Sa".to_string(), groups_ctx("Sa")),
            LintErrors::GroupEmpty(groups_ctx("Sa")),
            LintErrors::DuplicatedName("Sa".to_string(), groups_ctx("Sa")),
            LintErrors::NameTooShort("Sa".to_string(), groups_ctx("Sa")),
            LintErrors::ReusedUuid(1),
            LintErrors::GroupDuplicateFont(groups_ctx("Sa"), "Arial".to_string()),
            LintErrors::GroupFontDoesntExist(groups_ctx("Sa"), "Nope".to_string()),
        ]
    );
}

#[test]
fn font_findings_come_in_order() {
    let long = "x".repeat(51);
    let mut second = font(SourceUUID::Null, "Arial", "ar");
    second.publisher = long.clone();
    second.installations = vec![];
    let source = Source {
        groups: vec![],
        fonts: vec![font(SourceUUID::Uuid(2), "Arial", "arial"), second],
    };
    let (_, errors) = lint(&source, LintMode::Check);
    assert_eq!(
        errors,
        vec![
            LintErrors::DuplicatedName("Arial".to_string(), fonts_ctx("Arial")),
            LintErrors::NameTooShort("ar".to_string(), fonts_ctx("Arial")),
            LintErrors::NameTooLong(long, fonts_ctx("Arial")),
            LintErrors::MissingUuid(fonts_ctx("Arial")),
            LintErrors::FontEmpty(fonts_ctx("Arial")),
        ]
    );
}

#[test]
fn short_name_taken_by_another_font_is_duplicated() {
    let source = Source {
        groups: vec![],
        fonts: vec![
            font(SourceUUID::Uuid(2), "Arial", "sans"),
            font(SourceUUID::Uuid(3), "Verdana", "sans"),
        ],
    };
    let (_, errors) = lint(&source, LintMode::Check);
    assert_eq!(errors, vec![LintErrors::DuplicatedName("sans".to_string(), fonts_ctx("Verdana"))]);
}

#[test]
fn font_whose_short_name_is_its_name_does_not_collide_with_itself() {
    let source = Source {
        groups: vec![],
        fonts: vec![font(SourceUUID::Uuid(2), "Arial", "Arial")],
    };
    let (_, errors) = lint(&source, LintMode::Check);
    assert_eq!(errors, vec![]);
}

#[test]
fn empty_manifest_has_no_findings() {
    let source = Source { groups: vec![], fonts: vec![] };
    for mode in [LintMode::Check, LintMode::Fix] {
        let (after, errors) = lint(&source, mode);
        assert_eq!(after, source);
        assert_eq!(errors, vec![]);
    }
}

#[test]
fn fix_keeps_groups_of_equal_name_in_their_order() {
    let source = Source {
        groups: vec![
            group(SourceUUID::Uuid(1), "Sans", &["Arial"]),
            group(SourceUUID::Uuid(2), "Mono", &["Arial"]),
            group(SourceUUID::Uuid(3), "Sans", &["Arial"]),
        ],
        fonts: vec![font(SourceUUID::Uuid(9), "Arial", "arial")],
    };
    let (after, errors) = lint(&source, LintMode::Fix);
    assert_eq!(
        after.groups.iter().map(|g| g.id).collect::<Vec<_>>(),
        vec![SourceUUID::Uuid(2), SourceUUID::Uuid(1), SourceUUID::Uuid(3)]
    );
    assert_eq!(errors, vec![LintErrors::DuplicatedName("Sans".to_string(), groups_ctx("Sans"))]);
}

#[test]
fn local_download_without_file_is_reported() {
    assert_eq!(
        check_local_download(fonts_ctx("Arial"), "fonts/arial.cab", false),
        vec![LintErrors::DownloadLocalResourceDoesntExist(
            fonts_ctx("Arial"),
            "fonts/arial.cab".to_string()
        )]
    );
}

#[test]
fn equal_neighbours_are_in_order() {
    let source = Source {
        groups: vec![
            group(SourceUUID::Uuid(1), "Sans", &["Arial", "Arial", "Verdana"]),
            group(SourceUUID::Uuid(2), "Sans", &["Arial"]),
        ],
        fonts: vec![
            font(SourceUUID::Uuid(3), "Arial", "arial"),
            font(SourceUUID::Uuid(4), "Verdana", "verdana"),
            font(SourceUUID::Uuid(5), "Verdana", "verdana2"),
        ],
    };
    let (_, errors) = lint(&source, LintMode::Check);
    assert_eq!(
        errors,
        vec![
            LintErrors::GroupDuplicateFont(groups_ctx("Sans"), "Arial".to_string()),
            LintErrors::DuplicatedName("Sans".to_string(), groups_ctx("Sans")),
            LintErrors::DuplicatedName("Verdana".to_string(), fonts_ctx("Verdana")),
        ]
    );
}

#[test]
fn what_fix_has_sorted_check_finds_in_order() {
    let source = Source {
        groups: vec![
            group(SourceUUID::Uuid(1), "Sans", &["Verdana", "Arial", "Arial"]),
            group(SourceUUID::Uuid(2), "Mono", &["Arial"]),
            group(SourceUUID::Uuid(3), "Sans", &["Arial"]),
        ],
        fonts: vec![
            font(SourceUUID::Uuid(4), "Verdana", "verdana"),
            font(SourceUUID::Uuid(5), "Arial", "arial"),
            font(SourceUUID::Uuid(6), "Arial", "arial2"),
        ],
    };
    let (fixed, _) = lint(&source, LintMode::Fix);
    let (_, errors) = lint(&fixed, LintMode::Check);
    assert!(errors.iter().all(|e| !matches!(e, LintErrors::UnsortedList(_))));
    assert!(!errors.is_empty());
}

#[test]
fn list_of_one_is_in_order() {
    let source = Source {
        groups: vec![group(SourceUUID::Uuid(1), "Sans", &["Arial"])],
        fonts: vec![font(SourceUUID::Uuid(2), "Arial", "arial")],
    };
    let (_, errors) = lint(&source, LintMode::Check);
    assert_eq!(errors, vec![]);
}

#[test]
fn name_after_the_next_is_out_of_order() {
    let source = Source {
        groups: vec![
            group(SourceUUID::Uuid(1), "Mono", &["Arial"]),
            group(SourceUUID::Uuid(2), "Sans", &["Arial"]),
            group(SourceUUID::Uuid(3), "Sans", &["Arial"]),
            group(SourceUUID::Uuid(4), "Other", &["Arial"]),
        ],
        fonts: vec![font(SourceUUID::Uuid(9), "Arial", "arial")],
    };
    let (_, errors) = lint(&source, LintMode::Check);
    assert_eq!(
        errors,
        vec![
            LintErrors::UnsortedList(ErrorContext::Groups),
            LintErrors::DuplicatedName("Sans".to_string(), groups_ctx("Sans")),
        ]
    );
}
