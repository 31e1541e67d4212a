//! The manifest linter: names, order, identifiers, references.

use std::collections::HashMap;
use vstd::prelude::*;
use vstd::string::StringSliceAdditionalSpecFns;
use crate::identity::{check_or_create_uuid, resolved, seen_after};
use crate::rules::{
    agree, failure, finding_if, font_after, font_exists, font_findings, font_ids, fonts_findings,
    fonts_linted, group_after, group_findings, group_ids, group_names, groups_findings,
    groups_linted, id_after, in_order, lemma_append_parts, lemma_fonts_findings_agree,
    lemma_groups_findings_agree, lemma_seen_through_agree, lint_findings, linted, minted_of,
    optional, order_finding, reference_findings, seen_by_groups, seen_through, taken_names,
};
use crate::sorting::{is_sorted, lemma_sorted_by_neighbours, sort_by_name, Keyed, Named};
use crate::text::{contains_name, name_le, name_len, str_eq, str_lt};
use crate::types::{
    clone_list, lemma_views_push, views, Source, SourceFont, SourceGroup, SourceUUID, Uuid,
};

verus! {

/// What the linter may do.
#[derive(Debug, Clone, Copy, PartialEq, Eq, Structural)]
pub enum LintMode {
    /// Report, and leave the manifest as it is.
    Check,
    /// Sort the lists and assign the missing identifiers.
    Fix,
}

/// The place in the manifest that a finding is about.
#[derive(Debug, PartialEq, Eq)]
pub enum ErrorContext {
    /// The list of groups.
    Groups,
    /// The list of fonts.
    Fonts,
    /// The group of this name.
    Group(String),
    /// The font of this name.
    Font(String),
}

/// A place in the manifest as a mathematical value.
pub enum ContextView {
    Groups,
    Fonts,
    Group(Seq<char>),
    Font(Seq<char>),
}

impl Clone for ErrorContext {
    fn clone(&self) -> (r: Self)
        ensures
            r@ == self@,
    {
        match self {
            ErrorContext::Groups => ErrorContext::Groups,
            ErrorContext::Fonts => ErrorContext::Fonts,
            ErrorContext::Group(name) => ErrorContext::Group(name.clone()),
            ErrorContext::Font(name) => ErrorContext::Font(name.clone()),
        }
    }
}

impl View for ErrorContext {
    type V = ContextView;

    open spec fn view(&self) -> ContextView {
        match self {
            ErrorContext::Groups => ContextView::Groups,
            ErrorContext::Fonts => ContextView::Fonts,
            ErrorContext::Group(name) => ContextView::Group(name@),
            ErrorContext::Font(name) => ContextView::Font(name@),
        }
    }
}

/// A finding of the linter.
#[derive(Debug, PartialEq, Eq)]
pub enum LintErrors {
    /// The identifier occurs more than once.
    ReusedUuid(Uuid),
    /// No identifier has been assigned.
    MissingUuid(ErrorContext),
    /// The name is taken already.
    DuplicatedName(String, ErrorContext),
    /// The name has more than the greatest length.
    NameTooLong(String, ErrorContext),
    /// The name has less than the least length.
    NameTooShort(String, ErrorContext),
    /// The list is not in order.
    UnsortedList(ErrorContext),
    /// The group lists no font.
    GroupEmpty(ErrorContext),
    /// The group lists the font twice.
    GroupDuplicateFont(ErrorContext, String),
    /// The group lists a font that the manifest lacks.
    GroupFontDoesntExist(ErrorContext, String),
    /// The font has no installation.
    FontEmpty(ErrorContext),
    /// No file at the path of a local download.
    DownloadLocalResourceDoesntExist(ErrorContext, String),
    /// The address of an external download is not secure.
    DownloadExternalResourceNotHttps(ErrorContext, String),
    /// The address of an external download answered with this status.
    DownloadExternalResourceError(ErrorContext, String, u16),
}

/// A finding as a mathematical value.
pub enum FindingView {
    ReusedUuid(Uuid),
    MissingUuid(ContextView),
    DuplicatedName(Seq<char>, ContextView),
    NameTooLong(Seq<char>, ContextView),
    NameTooShort(Seq<char>, ContextView),
    UnsortedList(ContextView),
    GroupEmpty(ContextView),
    GroupDuplicateFont(ContextView, Seq<char>),
    GroupFontDoesntExist(ContextView, Seq<char>),
    FontEmpty(ContextView),
    DownloadLocalResourceDoesntExist(ContextView, Seq<char>),
    DownloadExternalResourceNotHttps(ContextView, Seq<char>),
    DownloadExternalResourceError(ContextView, Seq<char>, u16),
}

impl View for LintErrors {
    type V = FindingView;

    open spec fn view(&self) -> FindingView {
        match self {
            LintErrors::ReusedUuid(id) => FindingView::ReusedUuid(*id),
            LintErrors::MissingUuid(c) => FindingView::MissingUuid(c@),
            LintErrors::DuplicatedName(n, c) => FindingView::DuplicatedName(n@, c@),
            LintErrors::NameTooLong(n, c) => FindingView::NameTooLong(n@, c@),
            LintErrors::NameTooShort(n, c) => FindingView::NameTooShort(n@, c@),
            LintErrors::UnsortedList(c) => FindingView::UnsortedList(c@),
            LintErrors::GroupEmpty(c) => FindingView::GroupEmpty(c@),
            LintErrors::GroupDuplicateFont(c, n) => FindingView::GroupDuplicateFont(c@, n@),
            LintErrors::GroupFontDoesntExist(c, n) => FindingView::GroupFontDoesntExist(c@, n@),
            LintErrors::FontEmpty(c) => FindingView::FontEmpty(c@),
            LintErrors::DownloadLocalResourceDoesntExist(c, p) =>
                FindingView::DownloadLocalResourceDoesntExist(c@, p@),
            LintErrors::DownloadExternalResourceNotHttps(c, u) =>
                FindingView::DownloadExternalResourceNotHttps(c@, u@),
            LintErrors::DownloadExternalResourceError(c, u, s) =>
                FindingView::DownloadExternalResourceError(c@, u@, *s),
        }
    }
}

/// The greatest length of a name, in bytes.
pub const MAX_NAME_LENGTH: usize = 50;

/// The least length of a name, in bytes.
pub const MIN_NAME_LENGTH: usize = 3;

/// What `check_name` finds wrong with a name, if anything.
pub open spec fn name_finding(name: Seq<char>, context: ContextView) -> Option<FindingView> {
    if name_len(name) > MAX_NAME_LENGTH {
        Some(FindingView::NameTooLong(name, context))
    } else if name_len(name) < MIN_NAME_LENGTH {
        Some(FindingView::NameTooShort(name, context))
    } else {
        None
    }
}

/// Holds a name to the length limits.
pub fn check_name(name: &str, context: ErrorContext) -> (r: Result<(), LintErrors>)
    ensures
        match r {
            Ok(_) => name_finding(name@, context@) is None,
            Err(e) => name_finding(name@, context@) == Some(e@),
        },
{
    let length = name.as_bytes().len();
    if length > MAX_NAME_LENGTH {
        Err(LintErrors::NameTooLong(name.to_owned(), context))
    } else if length < MIN_NAME_LENGTH {
        Err(LintErrors::NameTooShort(name.to_owned(), context))
    } else {
        Ok(())
    }
}

/// Whether each item of the list stands in the relation `sort_fn` to the next.
pub fn check_sorted<T, F: Fn(&T, &T) -> bool>(list: &Vec<T>, sort_fn: &F) -> (sorted: bool)
    requires
        forall|i: int|
            #![trigger list[i]]
            0 <= i < list.len() - 1 ==> sort_fn.requires((&list[i], &list[i + 1])),
    ensures
        sorted ==> forall|i: int|
            #![trigger list[i]]
            0 <= i < list.len() - 1 ==> sort_fn.ensures((&list[i], &list[i + 1]), true),
        !sorted ==> exists|i: int|
            #![trigger list[i]]
            0 <= i < list.len() - 1 && sort_fn.ensures((&list[i], &list[i + 1]), false),
{
    let mut i: usize = 1;
    while i < list.len()
        invariant
            1 <= i,
            forall|k: int|
                #![trigger list[k]]
                0 <= k < list.len() - 1 ==> sort_fn.requires((&list[k], &list[k + 1])),
            forall|k: int|
                #![trigger list[k]]
                0 <= k < i - 1 && k < list.len() - 1 ==> sort_fn.ensures(
                    (&list[k], &list[k + 1]),
                    true,
                ),
        decreases list.len() - i,
    {
        if !sort_fn(&list[i - 1], &list[i]) {
            return false;
        }
        i += 1;
    }
    true
}

/// Adds a finding to the list.
fn report(errors: &mut Vec<LintErrors>, finding: LintErrors)
    ensures
        views(final(errors)@) == views(old(errors)@).push(finding@),
{
    errors.push(finding);
    assert(views(errors@) =~= views(old(errors)@).push(finding@));
}

/// Whether the list is sorted by name: no item stands before one with a
/// smaller name.
fn sorted_by_name<T: Named>(list: &Vec<T>) -> (r: bool) where T::V: Keyed
    ensures
        r == is_sorted(views(list@)),
{
    let in_order = |a: &T, b: &T| -> (r: bool)
        ensures
            r == name_le(a@.key(), b@.key()),
        { !str_lt(b.sort_name(), a.sort_name()) };
    let sorted = check_sorted(list, &in_order);
    proof {
        let names = views(list@);
        lemma_sorted_by_neighbours(names);
        if sorted {
            assert forall|i: int| #![trigger names[i]] 0 <= i < names.len() - 1 implies name_le(
                names[i].key(),
                names[i + 1].key(),
            ) by {
                assert(in_order.ensures((&list[i], &list[i + 1]), true));
            }
        } else {
            let i = choose|i: int|
                #![trigger list[i]]
                0 <= i < list.len() - 1 && in_order.ensures((&list[i], &list[i + 1]), false);
            assert(!name_le(names[i].key(), names[i + 1].key()));
        }
    }
    sorted
}

/// Whether the manifest has a font of this name.
fn font_named(fonts: &Vec<SourceFont>, name: &str) -> (r: bool)
    ensures
        r == font_exists(views(fonts@), name@),
{
    let mut i: usize = 0;
    while i < fonts.len()
        invariant
            i <= fonts.len(),
            forall|k: int| 0 <= k < i ==> fonts[k]@.name != name@,
        decreases fonts.len() - i,
    {
        if str_eq(fonts[i].name.as_str(), name) {
            assert(views(fonts@)[i as int].name == name@);
            return true;
        }
        i += 1;
    }
    assert forall|k: int| 0 <= k < fonts.len() implies (#[trigger] views(fonts@)[k]).name
        != name@ by {
        assert(views(fonts@)[k] == fonts[k]@);
    }
    false
}

/// Holds each font reference of the group against the earlier ones and
/// against the fonts of the manifest.
fn lint_references(group: &SourceGroup, fonts: &Vec<SourceFont>, errors: &mut Vec<LintErrors>)
    ensures
        views(final(errors)@) == views(old(errors)@) + reference_findings(
            ContextView::Group(group@.name),
            group@.fonts,
            views(fonts@),
            group@.fonts.len() as int,
        ),
{
    let ghost context = ContextView::Group(group@.name);
    let mut listed: Vec<String> = Vec::new();
    let mut k: usize = 0;
    assert(views(errors@) =~= views(old(errors)@) + reference_findings(
        context,
        group@.fonts,
        views(fonts@),
        0,
    ));
    while k < group.fonts.len()
        invariant
            k <= group.fonts.len(),
            context == ContextView::Group(group@.name),
            views(listed@) == group@.fonts.subrange(0, k as int),
            views(errors@) == views(old(errors)@) + reference_findings(
                context,
                group@.fonts,
                views(fonts@),
                k as int,
            ),
        decreases group.fonts.len() - k,
    {
        let ghost start = views(errors@);
        let name = &group.fonts[k];
        assert(name@ == group@.fonts[k as int]);
        if contains_name(&listed, name.as_str()) {
            report(
                errors,
                LintErrors::GroupDuplicateFont(
                    ErrorContext::Group(group.name.clone()),
                    name.clone(),
                ),
            );
        }
        proof {
            lemma_views_push(listed@, *name);
        }
        listed.push(name.clone());
        if !font_named(fonts, name.as_str()) {
            report(
                errors,
                LintErrors::GroupFontDoesntExist(
                    ErrorContext::Group(group.name.clone()),
                    name.clone(),
                ),
            );
        }
        k += 1;
        proof {
            assert(views(listed@) =~= group@.fonts.subrange(0, k as int));
            assert(views(errors@) =~= start + finding_if(
                group@.fonts.subrange(0, k - 1).contains(name@),
                FindingView::GroupDuplicateFont(context, name@),
            ) + finding_if(
                !font_exists(views(fonts@), name@),
                FindingView::GroupFontDoesntExist(context, name@),
            ));
            assert(views(errors@) =~= views(old(errors)@) + reference_findings(
                context,
                group@.fonts,
                views(fonts@),
                k as int,
            ));
        }
    }
}

/// Reports the finding, if there is one.
fn report_failure(errors: &mut Vec<LintErrors>, checked: Result<(), LintErrors>)
    ensures
        views(final(errors)@) == views(old(errors)@) + match checked {
            Ok(_) => Seq::empty(),
            Err(e) => seq![e@],
        },
{
    if let Err(error) = checked {
        report(errors, error);
    }
    assert(views(errors@) =~= views(old(errors)@) + match checked {
        Ok(_) => Seq::empty(),
        Err(e) => seq![e@],
    });
}

/// Resolves the identifier of a manifest entry and returns the identifier
/// that the linter leaves the entry with.
fn lint_identifier(
    uuids: &mut HashMap<Uuid, ()>,
    id: SourceUUID,
    context: ErrorContext,
    lint_mode: LintMode,
    errors: &mut Vec<LintErrors>,
) -> (after: SourceUUID)
    ensures
        after == id_after(old(uuids)@.dom(), id, lint_mode, minted_of(after)),
        final(uuids)@.dom() == seen_after(old(uuids)@.dom(), id, lint_mode, minted_of(after)),
        views(final(errors)@) == views(old(errors)@) + failure(
            resolved(old(uuids)@.dom(), id, context@, lint_mode, minted_of(after)),
        ),
{
    match check_or_create_uuid(uuids, id, context, lint_mode) {
        Ok(assigned) => {
            assert(views(errors@) =~= views(old(errors)@) + Seq::empty());
            if lint_mode == LintMode::Fix {
                SourceUUID::Uuid(assigned)
            } else {
                id
            }
        },
        Err(error) => {
            report(errors, error);
            assert(views(errors@) =~= views(old(errors)@) + seq![error@]);
            id
        },
    }
}

/// Holds the name of the group at position `i` against the names of the
/// groups before it and the length limits, and reports a group without fonts.
fn lint_group_name(
    groups: &Vec<SourceGroup>,
    i: usize,
    names: &Vec<String>,
    errors: &mut Vec<LintErrors>,
)
    requires
        i < groups.len(),
        views(names@) == group_names(views(groups@).subrange(0, i as int)),
    ensures
        views(final(errors)@) == views(old(errors)@) + finding_if(
            group_names(views(groups@).subrange(0, i as int)).contains(groups[i as int]@.name),
            FindingView::DuplicatedName(
                groups[i as int]@.name,
                ContextView::Group(groups[i as int]@.name),
            ),
        ) + optional(
            name_finding(groups[i as int]@.name, ContextView::Group(groups[i as int]@.name)),
        ) + finding_if(
            groups[i as int]@.fonts.len() == 0,
            FindingView::GroupEmpty(ContextView::Group(groups[i as int]@.name)),
        ),
{
    let source = &groups[i];
    let ghost context = ContextView::Group(source@.name);
    let ghost start = views(errors@);
    if contains_name(names, source.name.as_str()) {
        report(
            errors,
            LintErrors::DuplicatedName(source.name.clone(), ErrorContext::Group(source.name.clone())),
        );
    }
    let ghost first = finding_if(
        group_names(views(groups@).subrange(0, i as int)).contains(source@.name),
        FindingView::DuplicatedName(source@.name, context),
    );
    assert(views(errors@) =~= start + first);
    report_failure(
        errors,
        check_name(source.name.as_str(), ErrorContext::Group(source.name.clone())),
    );
    let ghost second = optional(name_finding(source@.name, context));
    assert(views(errors@) =~= start + first + second);
    if source.fonts.len() == 0 {
        report(errors, LintErrors::GroupEmpty(ErrorContext::Group(source.name.clone())));
    }
    assert(views(errors@) =~= start + first + second + finding_if(
        source@.fonts.len() == 0,
        FindingView::GroupEmpty(context),
    ));
}

/// The font references of a group as the linter leaves them: sorted in fix
/// mode; in check mode as they are, with a finding where they are not in
/// order.
fn lint_reference_order(
    source: &SourceGroup,
    lint_mode: LintMode,
    errors: &mut Vec<LintErrors>,
) -> (references: Vec<String>)
    ensures
        views(references@) == in_order(source@.fonts, lint_mode),
        views(final(errors)@) == views(old(errors)@) + order_finding(
            source@.fonts,
            ContextView::Group(source@.name),
            lint_mode,
        ),
{
    let mut references = clone_list(&source.fonts);
    if lint_mode == LintMode::Fix {
        sort_by_name(&mut references);
    } else if !sorted_by_name(&source.fonts) {
        report(errors, LintErrors::UnsortedList(ErrorContext::Group(source.name.clone())));
    }
    assert(views(errors@) =~= views(old(errors)@) + order_finding(
        source@.fonts,
        ContextView::Group(source@.name),
        lint_mode,
    ));
    references
}

/// Lints the group at position `i`: its name against the names of the groups
/// before it and the length limits, its font references, its identifier.
/// Returns the group as the linter leaves it.
fn lint_group(
    groups: &Vec<SourceGroup>,
    i: usize,
    fonts: &Vec<SourceFont>,
    names: &Vec<String>,
    uuids: &mut HashMap<Uuid, ()>,
    lint_mode: LintMode,
    errors: &mut Vec<LintErrors>,
) -> (group: SourceGroup)
    requires
        i < groups.len(),
        views(names@) == group_names(views(groups@).subrange(0, i as int)),
    ensures
        group@ == group_after(
            views(groups@),
            i as int,
            old(uuids)@.dom(),
            lint_mode,
            minted_of(group@.id),
        ),
        final(uuids)@.dom() == seen_after(
            old(uuids)@.dom(),
            groups[i as int]@.id,
            lint_mode,
            minted_of(group@.id),
        ),
        views(final(errors)@) == views(old(errors)@) + group_findings(
            views(groups@),
            i as int,
            views(fonts@),
            old(uuids)@.dom(),
            lint_mode,
            minted_of(group@.id),
        ),
{
    let source = &groups[i];
    let ghost start = views(errors@);
    let ghost context = ContextView::Group(source@.name);
    let ghost seen = uuids@.dom();
    assert(views(groups@)[i as int] == source@);
    lint_group_name(groups, i, names, errors);
    let id = lint_identifier(
        uuids,
        source.id,
        ErrorContext::Group(source.name.clone()),
        lint_mode,
        errors,
    );
    lint_references(source, fonts, errors);
    let references = lint_reference_order(source, lint_mode, errors);
    proof {
        let first = finding_if(
            group_names(views(groups@).subrange(0, i as int)).contains(source@.name),
            FindingView::DuplicatedName(source@.name, context),
        );
        let second = optional(name_finding(source@.name, context));
        let third = finding_if(source@.fonts.len() == 0, FindingView::GroupEmpty(context));
        let fourth = failure(resolved(seen, source.id, context, lint_mode, minted_of(id)));
        let fifth = reference_findings(
            context,
            source@.fonts,
            views(fonts@),
            source@.fonts.len() as int,
        );
        let sixth = order_finding(source@.fonts, context, lint_mode);
        lemma_append_parts(start, first, second);
        lemma_append_parts(start, first + second, third);
        lemma_append_parts(start, first + second + third, fourth);
        lemma_append_parts(start, first + second + third + fourth, fifth);
        lemma_append_parts(start, first + second + third + fourth + fifth, sixth);
    }
    SourceGroup { id, name: source.name.clone(), fonts: references }
}

/// Holds the name and the short name of the font at position `i` against the
/// names taken by the fonts before it, and its name, short name and publisher
/// against the length limits.
fn lint_font_names(
    fonts: &Vec<SourceFont>,
    i: usize,
    taken: &Vec<String>,
    errors: &mut Vec<LintErrors>,
)
    requires
        i < fonts.len(),
        views(taken@) == taken_names(views(fonts@), i as int),
    ensures
        views(final(errors)@) == views(old(errors)@) + finding_if(
            taken_names(views(fonts@), i as int).contains(fonts[i as int]@.name),
            FindingView::DuplicatedName(
                fonts[i as int]@.name,
                ContextView::Font(fonts[i as int]@.name),
            ),
        ) + finding_if(
            fonts[i as int]@.name != fonts[i as int]@.short_name && taken_names(
                views(fonts@),
                i as int,
            ).contains(fonts[i as int]@.short_name),
            FindingView::DuplicatedName(
                fonts[i as int]@.short_name,
                ContextView::Font(fonts[i as int]@.name),
            ),
        ) + optional(
            name_finding(fonts[i as int]@.name, ContextView::Font(fonts[i as int]@.name)),
        ) + optional(
            name_finding(fonts[i as int]@.short_name, ContextView::Font(fonts[i as int]@.name)),
        ) + optional(
            name_finding(fonts[i as int]@.publisher, ContextView::Font(fonts[i as int]@.name)),
        ),
{
    let source = &fonts[i];
    let ghost context = ContextView::Font(source@.name);
    let ghost start = views(errors@);
    if contains_name(taken, source.name.as_str()) {
        report(
            errors,
            LintErrors::DuplicatedName(source.name.clone(), ErrorContext::Font(source.name.clone())),
        );
    }
    let ghost first = finding_if(
        views(taken@).contains(source@.name),
        FindingView::DuplicatedName(source@.name, context),
    );
    assert(views(errors@) =~= start + first);
    if !str_eq(source.name.as_str(), source.short_name.as_str()) && contains_name(
        taken,
        source.short_name.as_str(),
    ) {
        report(
            errors,
            LintErrors::DuplicatedName(
                source.short_name.clone(),
                ErrorContext::Font(source.name.clone()),
            ),
        );
    }
    let ghost second = finding_if(
        source@.name != source@.short_name && views(taken@).contains(source@.short_name),
        FindingView::DuplicatedName(source@.short_name, context),
    );
    assert(views(errors@) =~= start + first + second);
    report_failure(errors, check_name(source.name.as_str(), ErrorContext::Font(source.name.clone())));
    report_failure(
        errors,
        check_name(source.short_name.as_str(), ErrorContext::Font(source.name.clone())),
    );
    report_failure(
        errors,
        check_name(source.publisher.as_str(), ErrorContext::Font(source.name.clone())),
    );
    proof {
        let third = optional(name_finding(source@.name, context));
        let fourth = optional(name_finding(source@.short_name, context));
        let fifth = optional(name_finding(source@.publisher, context));
        assert(views(errors@) == start + first + second + third + fourth + fifth);
    }
}

/// Lints the font at position `i`: its names, its identifier, its
/// installations. Returns the font as the linter leaves it.
fn lint_font(
    fonts: &Vec<SourceFont>,
    i: usize,
    taken: &Vec<String>,
    uuids: &mut HashMap<Uuid, ()>,
    lint_mode: LintMode,
    errors: &mut Vec<LintErrors>,
) -> (font: SourceFont)
    requires
        i < fonts.len(),
        views(taken@) == taken_names(views(fonts@), i as int),
    ensures
        font@ == font_after(
            views(fonts@),
            i as int,
            old(uuids)@.dom(),
            lint_mode,
            minted_of(font@.id),
        ),
        final(uuids)@.dom() == seen_after(
            old(uuids)@.dom(),
            fonts[i as int]@.id,
            lint_mode,
            minted_of(font@.id),
        ),
        views(final(errors)@) == views(old(errors)@) + font_findings(
            views(fonts@),
            i as int,
            old(uuids)@.dom(),
            lint_mode,
            minted_of(font@.id),
        ),
{
    let source = &fonts[i];
    let ghost start = views(errors@);
    let ghost context = ContextView::Font(source@.name);
    let ghost seen = uuids@.dom();
    assert(views(fonts@)[i as int] == source@);
    lint_font_names(fonts, i, taken, errors);
    let id = lint_identifier(
        uuids,
        source.id,
        ErrorContext::Font(source.name.clone()),
        lint_mode,
        errors,
    );
    let ghost identified = views(errors@);
    if source.installations.len() == 0 {
        report(errors, LintErrors::FontEmpty(ErrorContext::Font(source.name.clone())));
    }
    proof {
        let taken_before = taken_names(views(fonts@), i as int);
        let first = finding_if(
            taken_before.contains(source@.name),
            FindingView::DuplicatedName(source@.name, context),
        );
        let second = finding_if(
            source@.name != source@.short_name && taken_before.contains(source@.short_name),
            FindingView::DuplicatedName(source@.short_name, context),
        );
        let third = optional(name_finding(source@.name, context));
        let fourth = optional(name_finding(source@.short_name, context));
        let fifth = optional(name_finding(source@.publisher, context));
        let sixth = failure(resolved(seen, source.id, context, lint_mode, minted_of(id)));
        let seventh = finding_if(
            source@.installations.len() == 0,
            FindingView::FontEmpty(context),
        );
        assert(views(errors@) =~= identified + seventh);
        lemma_append_parts(start, first, second);
        lemma_append_parts(start, first + second, third);
        lemma_append_parts(start, first + second + third, fourth);
        lemma_append_parts(start, first + second + third + fourth, fifth);
        lemma_append_parts(start, first + second + third + fourth + fifth, sixth);
        lemma_append_parts(start, first + second + third + fourth + fifth + sixth, seventh);
    }
    SourceFont {
        id,
        name: source.name.clone(),
        short_name: source.short_name.clone(),
        publisher: source.publisher.clone(),
        categories: source.categories.clone(),
        installations: clone_list(&source.installations),
    }
}

/// Lints the groups, which stand in the order the linter walks them, and
/// returns them as the linter leaves them.
fn lint_groups(
    groups: &Vec<SourceGroup>,
    fonts: &Vec<SourceFont>,
    uuids: &mut HashMap<Uuid, ()>,
    lint_mode: LintMode,
    errors: &mut Vec<LintErrors>,
) -> (out: Vec<SourceGroup>)
    requires
        old(uuids)@.dom() == Set::<Uuid>::empty(),
    ensures
        groups_linted(views(groups@), views(out@), lint_mode),
        final(uuids)@.dom() == seen_through(
            Set::empty(),
            group_ids(views(groups@)),
            group_ids(views(out@)),
            lint_mode,
            groups.len() as int,
        ),
        views(final(errors)@) == views(old(errors)@) + groups_findings(
            views(groups@),
            group_ids(views(out@)),
            views(fonts@),
            lint_mode,
            groups.len() as int,
        ),
{
    let ghost start = views(errors@);
    let ghost all = views(groups@);
    let mut out: Vec<SourceGroup> = Vec::new();
    let mut names: Vec<String> = Vec::new();
    let mut i: usize = 0;
    assert(views(names@) =~= group_names(all.subrange(0, 0)));
    assert(views(errors@) =~= start + groups_findings(
        all,
        group_ids(views(out@)),
        views(fonts@),
        lint_mode,
        0,
    ));
    while i < groups.len()
        invariant
            i <= groups.len(),
            out.len() == i,
            all == views(groups@),
            views(names@) == group_names(all.subrange(0, i as int)),
            forall|k: int|
                0 <= k < i ==> #[trigger] views(out@)[k] == group_after(
                    all,
                    k,
                    seen_through(Set::empty(), group_ids(all), group_ids(views(out@)), lint_mode, k),
                    lint_mode,
                    minted_of(views(out@)[k].id),
                ),
            uuids@.dom() == seen_through(
                Set::empty(),
                group_ids(all),
                group_ids(views(out@)),
                lint_mode,
                i as int,
            ),
            views(errors@) == start + groups_findings(
                all,
                group_ids(views(out@)),
                views(fonts@),
                lint_mode,
                i as int,
            ),
        decreases groups.len() - i,
    {
        let ghost before = views(out@);
        let ghost found = groups_findings(all, group_ids(before), views(fonts@), lint_mode, i as int);
        let ghost seen = uuids@.dom();
        let group = lint_group(groups, i, fonts, &names, uuids, lint_mode, errors);
        proof {
            lemma_views_push(names@, groups[i as int].name);
            lemma_views_push(out@, group);
        }
        names.push(groups[i].name.clone());
        out.push(group);
        proof {
            let after = views(out@);
            assert(after == before.push(group@));
            assert(all[i as int] == groups[i as int]@);
            assert(agree(group_ids(before), group_ids(after), i as int));
            lemma_seen_through_agree(
                Set::empty(),
                group_ids(all),
                group_ids(before),
                group_ids(after),
                lint_mode,
                i as int,
            );
            lemma_groups_findings_agree(
                all,
                group_ids(before),
                group_ids(after),
                views(fonts@),
                lint_mode,
                i as int,
            );
            assert forall|k: int| 0 <= k < i + 1 implies #[trigger] after[k] == group_after(
                all,
                k,
                seen_through(Set::empty(), group_ids(all), group_ids(after), lint_mode, k),
                lint_mode,
                minted_of(after[k].id),
            ) by {
                if k < i {
                    assert(after[k] == before[k]);
                    assert(agree(group_ids(before), group_ids(after), k));
                    lemma_seen_through_agree(
                        Set::empty(),
                        group_ids(all),
                        group_ids(before),
                        group_ids(after),
                        lint_mode,
                        k,
                    );
                }
            }
            assert(group_names(all.subrange(0, i + 1)) =~= group_names(
                all.subrange(0, i as int),
            ).push(all[i as int].name));
            lemma_append_parts(
                start,
                found,
                group_findings(all, i as int, views(fonts@), seen, lint_mode, minted_of(group@.id)),
            );
        }
        i += 1;
    }
    out
}

/// Lints the fonts, which stand in the order the linter walks them, and
/// returns them as the linter leaves them.
fn lint_fonts(
    fonts: &Vec<SourceFont>,
    uuids: &mut HashMap<Uuid, ()>,
    lint_mode: LintMode,
    errors: &mut Vec<LintErrors>,
) -> (out: Vec<SourceFont>)
    ensures
        fonts_linted(views(fonts@), views(out@), old(uuids)@.dom(), lint_mode),
        views(final(errors)@) == views(old(errors)@) + fonts_findings(
            views(fonts@),
            font_ids(views(out@)),
            old(uuids)@.dom(),
            lint_mode,
            fonts.len() as int,
        ),
{
    let ghost start = views(errors@);
    let ghost all = views(fonts@);
    let ghost first_seen = uuids@.dom();
    let mut out: Vec<SourceFont> = Vec::new();
    let mut taken: Vec<String> = Vec::new();
    let mut i: usize = 0;
    assert(views(taken@) =~= taken_names(all, 0));
    assert(views(errors@) =~= start + fonts_findings(
        all,
        font_ids(views(out@)),
        first_seen,
        lint_mode,
        0,
    ));
    while i < fonts.len()
        invariant
            i <= fonts.len(),
            out.len() == i,
            all == views(fonts@),
            views(taken@) == taken_names(all, i as int),
            forall|k: int|
                0 <= k < i ==> #[trigger] views(out@)[k] == font_after(
                    all,
                    k,
                    seen_through(first_seen, font_ids(all), font_ids(views(out@)), lint_mode, k),
                    lint_mode,
                    minted_of(views(out@)[k].id),
                ),
            uuids@.dom() == seen_through(
                first_seen,
                font_ids(all),
                font_ids(views(out@)),
                lint_mode,
                i as int,
            ),
            views(errors@) == start + fonts_findings(
                all,
                font_ids(views(out@)),
                first_seen,
                lint_mode,
                i as int,
            ),
        decreases fonts.len() - i,
    {
        let ghost before = views(out@);
        let ghost found = fonts_findings(all, font_ids(before), first_seen, lint_mode, i as int);
        let ghost seen = uuids@.dom();
        let font = lint_font(fonts, i, &taken, uuids, lint_mode, errors);
        proof {
            lemma_views_push(taken@, fonts[i as int].name);
            lemma_views_push(taken@.push(fonts[i as int].name), fonts[i as int].short_name);
            lemma_views_push(out@, font);
        }
        taken.push(fonts[i].name.clone());
        taken.push(fonts[i].short_name.clone());
        out.push(font);
        proof {
            let after = views(out@);
            assert(after == before.push(font@));
            assert(all[i as int] == fonts[i as int]@);
            assert(agree(font_ids(before), font_ids(after), i as int));
            lemma_seen_through_agree(
                first_seen,
                font_ids(all),
                font_ids(before),
                font_ids(after),
                lint_mode,
                i as int,
            );
            lemma_fonts_findings_agree(
                all,
                font_ids(before),
                font_ids(after),
                first_seen,
                lint_mode,
                i as int,
            );
            assert forall|k: int| 0 <= k < i + 1 implies #[trigger] after[k] == font_after(
                all,
                k,
                seen_through(first_seen, font_ids(all), font_ids(after), lint_mode, k),
                lint_mode,
                minted_of(after[k].id),
            ) by {
                if k < i {
                    assert(after[k] == before[k]);
                    assert(agree(font_ids(before), font_ids(after), k));
                    lemma_seen_through_agree(
                        first_seen,
                        font_ids(all),
                        font_ids(before),
                        font_ids(after),
                        lint_mode,
                        k,
                    );
                }
            }
            lemma_append_parts(
                start,
                found,
                font_findings(all, i as int, seen, lint_mode, minted_of(font@.id)),
            );
        }
        i += 1;
    }
    out
}

/// Lints the manifest. In check mode the manifest comes back as it is; in fix
/// mode its groups, each group's font references and its fonts are sorted by
/// name, and every entry without an identifier is given a random one. The
/// findings are those on the order of the groups, on each group, on the order
/// of the fonts and on each font, in that order.
pub fn lint(original: &Source, lint_mode: LintMode) -> (r: (Source, Vec<LintErrors>))
    ensures
        linted(original@, lint_mode, r.0@),
        views(r.1@) == lint_findings(original@, lint_mode, r.0@),
{
    let mut errors: Vec<LintErrors> = Vec::new();
    let mut uuids: HashMap<Uuid, ()> = HashMap::new();

    let mut groups = clone_list(&original.groups);
    if lint_mode == LintMode::Fix {
        sort_by_name(&mut groups);
    } else if !sorted_by_name(&original.groups) {
        report(&mut errors, LintErrors::UnsortedList(ErrorContext::Groups));
    }
    let ghost first = order_finding(original@.groups, ContextView::Groups, lint_mode);
    assert(views(errors@) =~= first);
    let new_groups = lint_groups(&groups, &original.fonts, &mut uuids, lint_mode, &mut errors);
    let ghost second = groups_findings(
        views(groups@),
        group_ids(views(new_groups@)),
        original@.fonts,
        lint_mode,
        groups.len() as int,
    );
    let ghost from_groups = uuids@.dom();

    let mut fonts = clone_list(&original.fonts);
    if lint_mode == LintMode::Fix {
        sort_by_name(&mut fonts);
    } else if !sorted_by_name(&original.fonts) {
        report(&mut errors, LintErrors::UnsortedList(ErrorContext::Fonts));
    }
    let ghost third = order_finding(original@.fonts, ContextView::Fonts, lint_mode);
    assert(views(errors@) =~= first + second + third);
    let new_fonts = lint_fonts(&fonts, &mut uuids, lint_mode, &mut errors);
    let new = Source { groups: new_groups, fonts: new_fonts };
    proof {
        crate::sorting::lemma_stable_sort_len(original@.groups);
        crate::sorting::lemma_stable_sort_len(original@.fonts);
        assert(from_groups == seen_by_groups(original@, new@, lint_mode));
    }
    (new, errors)
}

} // verus!
