//! What holds of every run of the linter.

use vstd::prelude::*;
use crate::identity::resolved;
use crate::lint::{name_finding, ContextView, FindingView, LintMode};
use crate::rules::{
    failure, finding_if, font_findings, font_ids, fonts_findings, group_findings, group_ids,
    groups_findings, lint_findings, linted, minted_of, optional, order_finding, reference_findings,
    seen_by_groups, seen_through,
};
use crate::sorting::{
    is_sorted, lemma_stable_sort_fixes_sorted, lemma_stable_sort_sorted, stable_sort,
};
use crate::types::{SourceFontView, SourceGroupView, SourceUUID, SourceView, Uuid};

verus! {

/// A finding about an identifier: one used twice, or one missing.
pub open spec fn about_identifier(finding: FindingView) -> bool {
    finding is ReusedUuid || finding is MissingUuid
}

/// No finding of the list is about an identifier.
pub open spec fn free_of_identifier_findings(findings: Seq<FindingView>) -> bool {
    forall|k: int| 0 <= k < findings.len() ==> !about_identifier(#[trigger] findings[k])
}

/// The identifiers of the groups, then those of the fonts.
pub open spec fn all_ids(source: SourceView) -> Seq<SourceUUID> {
    group_ids(source.groups) + font_ids(source.fonts)
}

/// Every group and font has an identifier, and no two have the same.
pub open spec fn identifiers_assigned_once(source: SourceView) -> bool {
    let ids = all_ids(source);
    &&& forall|i: int| 0 <= i < ids.len() ==> #[trigger] ids[i] is Uuid
    &&& forall|i: int, j: int| 0 <= i < j < ids.len() ==> #[trigger] ids[i] != #[trigger] ids[j]
}

/// After fix mode the groups, each group's font references and the fonts are
/// sorted by name.
pub proof fn lemma_fix_sorts(original: SourceView, after: SourceView)
    requires
        linted(original, LintMode::Fix, after),
    ensures
        is_sorted(after.groups),
        is_sorted(after.fonts),
        forall|i: int| 0 <= i < after.groups.len() ==> is_sorted(#[trigger] after.groups[i].fonts),
{
    let groups = stable_sort(original.groups);
    let fonts = stable_sort(original.fonts);
    lemma_stable_sort_sorted(original.groups);
    lemma_stable_sort_sorted(original.fonts);
    assert forall|i: int, j: int| 0 <= i < j < after.groups.len() implies crate::text::name_le(
        #[trigger] crate::sorting::Keyed::key(after.groups[i]),
        #[trigger] crate::sorting::Keyed::key(after.groups[j]),
    ) by {
        assert(after.groups[i].name == groups[i].name);
        assert(after.groups[j].name == groups[j].name);
        assert(crate::text::name_le(
            crate::sorting::Keyed::key(groups[i]),
            crate::sorting::Keyed::key(groups[j]),
        ));
    }
    assert forall|i: int, j: int| 0 <= i < j < after.fonts.len() implies crate::text::name_le(
        #[trigger] crate::sorting::Keyed::key(after.fonts[i]),
        #[trigger] crate::sorting::Keyed::key(after.fonts[j]),
    ) by {
        assert(after.fonts[i].name == fonts[i].name);
        assert(after.fonts[j].name == fonts[j].name);
        assert(crate::text::name_le(
            crate::sorting::Keyed::key(fonts[i]),
            crate::sorting::Keyed::key(fonts[j]),
        ));
    }
    assert forall|i: int| 0 <= i < after.groups.len() implies is_sorted(
        #[trigger] after.groups[i].fonts,
    ) by {
        lemma_stable_sort_sorted(groups[i].fonts);
    }
}

/// What fix mode has sorted, check mode finds in order: no list of the
/// manifest that fix mode returns gets a finding on its order.
pub proof fn lemma_fixed_manifest_is_in_order(original: SourceView, after: SourceView)
    requires
        linted(original, LintMode::Fix, after),
    ensures
        order_finding(after.groups, ContextView::Groups, LintMode::Check) == Seq::<
            FindingView,
        >::empty(),
        order_finding(after.fonts, ContextView::Fonts, LintMode::Check) == Seq::<
            FindingView,
        >::empty(),
        forall|i: int|
            0 <= i < after.groups.len() ==> order_finding(
                (#[trigger] after.groups[i]).fonts,
                ContextView::Group(after.groups[i].name),
                LintMode::Check,
            ) == Seq::<FindingView>::empty(),
{
    lemma_fix_sorts(original, after);
}

/// Fix mode leaves every entry with an identifier.
pub proof fn lemma_fix_assigns(original: SourceView, after: SourceView)
    requires
        linted(original, LintMode::Fix, after),
    ensures
        forall|i: int| 0 <= i < after.groups.len() ==> (#[trigger] after.groups[i]).id is Uuid,
        forall|i: int| 0 <= i < after.fonts.len() ==> (#[trigger] after.fonts[i]).id is Uuid,
{
}

/// Check mode changes nothing: the manifest it returns is the one it was
/// given.
pub proof fn lemma_check_changes_nothing(original: SourceView, after: SourceView)
    requires
        linted(original, LintMode::Check, after),
    ensures
        after == original,
{
    assert(after.groups =~= original.groups);
    assert(after.fonts =~= original.fonts);
}

/// Fix mode is idempotent: run on the manifest that it returned, it returns
/// that manifest again.
pub proof fn lemma_fix_idempotent(original: SourceView, once: SourceView, twice: SourceView)
    requires
        linted(original, LintMode::Fix, once),
        linted(once, LintMode::Fix, twice),
    ensures
        twice == once,
{
    lemma_fix_sorts(original, once);
    lemma_fix_assigns(original, once);
    lemma_stable_sort_fixes_sorted(once.groups);
    lemma_stable_sort_fixes_sorted(once.fonts);
    assert forall|i: int| 0 <= i < once.groups.len() implies twice.groups[i] == once.groups[i] by {
        lemma_stable_sort_fixes_sorted(once.groups[i].fonts);
        assert(once.groups[i].id is Uuid);
    }
    assert forall|i: int| 0 <= i < once.fonts.len() implies twice.fonts[i] == once.fonts[i] by {
        assert(once.fonts[i].id is Uuid);
    }
    assert(twice.groups =~= once.groups);
    assert(twice.fonts =~= once.fonts);
}

/// The identifiers among the first `n` entries of the list.
pub open spec fn assigned_among(ids: Seq<SourceUUID>, n: int) -> Set<Uuid> {
    Set::new(|x: Uuid| exists|k: int| 0 <= k < n && k < ids.len() && #[trigger] ids[k] == SourceUUID::Uuid(x))
}

/// In check mode the identifiers taken after `n` entries are among those
/// taken before and those that the entries hold.
proof fn lemma_seen_through_bounded(
    seen: Set<Uuid>,
    before: Seq<SourceUUID>,
    after: Seq<SourceUUID>,
    n: int,
)
    requires
        0 <= n <= before.len(),
    ensures
        seen_through(seen, before, after, LintMode::Check, n).subset_of(
            seen.union(assigned_among(before, n)),
        ),
    decreases n,
{
    if n > 0 {
        lemma_seen_through_bounded(seen, before, after, n - 1);
        let earlier = seen_through(seen, before, after, LintMode::Check, n - 1);
        let now = seen_through(seen, before, after, LintMode::Check, n);
        assert forall|x: Uuid| now.contains(x) implies seen.union(
            assigned_among(before, n),
        ).contains(x) by {
            if earlier.contains(x) {
                if !seen.contains(x) {
                    assert(assigned_among(before, n - 1).contains(x));
                    let k = choose|k: int|
                        0 <= k < n - 1 && k < before.len() && #[trigger] before[k]
                            == SourceUUID::Uuid(x);
                    assert(before[k] == SourceUUID::Uuid(x));
                }
            } else {
                assert(before[n - 1] == SourceUUID::Uuid(x));
            }
        }
    }
}

/// Joining two lists without findings about identifiers gives such a list.
proof fn lemma_free_join(first: Seq<FindingView>, second: Seq<FindingView>)
    requires
        free_of_identifier_findings(first),
        free_of_identifier_findings(second),
    ensures
        free_of_identifier_findings(first + second),
{
    assert forall|k: int| 0 <= k < (first + second).len() implies !about_identifier(
        #[trigger] (first + second)[k],
    ) by {
        if k < first.len() {
            assert((first + second)[k] == first[k]);
        } else {
            assert((first + second)[k] == second[k - first.len()]);
        }
    }
}

/// The findings on font references are not about identifiers.
proof fn lemma_references_free(
    context: ContextView,
    references: Seq<Seq<char>>,
    fonts: Seq<SourceFontView>,
    n: int,
)
    ensures
        free_of_identifier_findings(reference_findings(context, references, fonts, n)),
    decreases n,
{
    if n > 0 {
        lemma_references_free(context, references, fonts, n - 1);
        let name = references[n - 1];
        let first = reference_findings(context, references, fonts, n - 1);
        let second = finding_if(
            references.subrange(0, n - 1).contains(name),
            FindingView::GroupDuplicateFont(context, name),
        );
        let third = finding_if(
            !crate::rules::font_exists(fonts, name),
            FindingView::GroupFontDoesntExist(context, name),
        );
        lemma_free_join(first, second);
        lemma_free_join(first + second, third);
    }
}

/// The findings on a group whose identifier is assigned and not taken are
/// not about identifiers.
proof fn lemma_group_free(
    groups: Seq<SourceGroupView>,
    i: int,
    fonts: Seq<SourceFontView>,
    seen: Set<Uuid>,
    mode: LintMode,
    minted: Uuid,
)
    requires
        0 <= i < groups.len(),
        groups[i].id is Uuid,
        !seen.contains(minted_of(groups[i].id)),
    ensures
        free_of_identifier_findings(group_findings(groups, i, fonts, seen, mode, minted)),
{
    let group = groups[i];
    let context = ContextView::Group(group.name);
    let first = finding_if(
        crate::rules::group_names(groups.subrange(0, i)).contains(group.name),
        FindingView::DuplicatedName(group.name, context),
    );
    let second = optional(name_finding(group.name, context));
    let third = finding_if(group.fonts.len() == 0, FindingView::GroupEmpty(context));
    let fourth = failure(resolved(seen, group.id, context, mode, minted));
    let fifth = reference_findings(context, group.fonts, fonts, group.fonts.len() as int);
    let sixth = order_finding(group.fonts, context, mode);
    lemma_references_free(context, group.fonts, fonts, group.fonts.len() as int);
    lemma_free_join(first, second);
    lemma_free_join(first + second, third);
    lemma_free_join(first + second + third, fourth);
    lemma_free_join(first + second + third + fourth, fifth);
    lemma_free_join(first + second + third + fourth + fifth, sixth);
}

/// The findings on a font whose identifier is assigned and not taken are not
/// about identifiers.
proof fn lemma_font_free(
    fonts: Seq<SourceFontView>,
    i: int,
    seen: Set<Uuid>,
    mode: LintMode,
    minted: Uuid,
)
    requires
        0 <= i < fonts.len(),
        fonts[i].id is Uuid,
        !seen.contains(minted_of(fonts[i].id)),
    ensures
        free_of_identifier_findings(font_findings(fonts, i, seen, mode, minted)),
{
    let font = fonts[i];
    let context = ContextView::Font(font.name);
    let taken = crate::rules::taken_names(fonts, i);
    let first = finding_if(
        taken.contains(font.name),
        FindingView::DuplicatedName(font.name, context),
    );
    let second = finding_if(
        font.name != font.short_name && taken.contains(font.short_name),
        FindingView::DuplicatedName(font.short_name, context),
    );
    let third = optional(name_finding(font.name, context));
    let fourth = optional(name_finding(font.short_name, context));
    let fifth = optional(name_finding(font.publisher, context));
    let sixth = failure(resolved(seen, font.id, context, mode, minted));
    let seventh = finding_if(font.installations.len() == 0, FindingView::FontEmpty(context));
    lemma_free_join(first, second);
    lemma_free_join(first + second, third);
    lemma_free_join(first + second + third, fourth);
    lemma_free_join(first + second + third + fourth, fifth);
    lemma_free_join(first + second + third + fourth + fifth, sixth);
    lemma_free_join(first + second + third + fourth + fifth + sixth, seventh);
}

/// In check mode the findings on the first `n` groups of a manifest whose
/// identifiers are assigned once are not about identifiers.
proof fn lemma_groups_free(source: SourceView, after: Seq<SourceUUID>, n: int)
    requires
        identifiers_assigned_once(source),
        0 <= n <= source.groups.len(),
    ensures
        free_of_identifier_findings(
            groups_findings(source.groups, after, source.fonts, LintMode::Check, n),
        ),
    decreases n,
{
    if n > 0 {
        let ids = all_ids(source);
        let before = group_ids(source.groups);
        lemma_groups_free(source, after, n - 1);
        let seen = seen_through(Set::empty(), before, after, LintMode::Check, n - 1);
        lemma_seen_through_bounded(Set::empty(), before, after, n - 1);
        assert(ids[n - 1] == source.groups[n - 1].id);
        assert(ids[n - 1] is Uuid);
        let x = minted_of(source.groups[n - 1].id);
        if seen.contains(x) {
            assert(assigned_among(before, n - 1).contains(x));
            let k = choose|k: int|
                0 <= k < n - 1 && k < before.len() && #[trigger] before[k] == SourceUUID::Uuid(x);
            assert(ids[k] == before[k]);
            assert(ids[k] != ids[n - 1]);
        }
        lemma_group_free(
            source.groups,
            n - 1,
            source.fonts,
            seen,
            LintMode::Check,
            minted_of(after[n - 1]),
        );
        lemma_free_join(
            groups_findings(source.groups, after, source.fonts, LintMode::Check, n - 1),
            group_findings(
                source.groups,
                n - 1,
                source.fonts,
                seen,
                LintMode::Check,
                minted_of(after[n - 1]),
            ),
        );
    }
}

/// In check mode the findings on the first `n` fonts of a manifest whose
/// identifiers are assigned once are not about identifiers, where the
/// identifiers taken before the first font are among those of the groups.
proof fn lemma_fonts_free(source: SourceView, after: Seq<SourceUUID>, seen: Set<Uuid>, n: int)
    requires
        identifiers_assigned_once(source),
        0 <= n <= source.fonts.len(),
        seen.subset_of(assigned_among(group_ids(source.groups), source.groups.len() as int)),
    ensures
        free_of_identifier_findings(fonts_findings(source.fonts, after, seen, LintMode::Check, n)),
    decreases n,
{
    if n > 0 {
        let ids = all_ids(source);
        let groups = group_ids(source.groups);
        let before = font_ids(source.fonts);
        let offset = source.groups.len() as int;
        lemma_fonts_free(source, after, seen, n - 1);
        let taken = seen_through(seen, before, after, LintMode::Check, n - 1);
        lemma_seen_through_bounded(seen, before, after, n - 1);
        assert(ids[offset + n - 1] == source.fonts[n - 1].id);
        assert(ids[offset + n - 1] is Uuid);
        let x = minted_of(source.fonts[n - 1].id);
        if taken.contains(x) {
            if seen.contains(x) {
                assert(assigned_among(groups, offset).contains(x));
                let k = choose|k: int|
                    0 <= k < offset && k < groups.len() && #[trigger] groups[k]
                        == SourceUUID::Uuid(x);
                assert(ids[k] == groups[k]);
                assert(ids[k] != ids[offset + n - 1]);
            } else {
                assert(assigned_among(before, n - 1).contains(x));
                let k = choose|k: int|
                    0 <= k < n - 1 && k < before.len() && #[trigger] before[k]
                        == SourceUUID::Uuid(x);
                assert(ids[offset + k] == before[k]);
                assert(ids[offset + k] != ids[offset + n - 1]);
            }
        }
        lemma_font_free(source.fonts, n - 1, taken, LintMode::Check, minted_of(after[n - 1]));
        lemma_free_join(
            fonts_findings(source.fonts, after, seen, LintMode::Check, n - 1),
            font_findings(source.fonts, n - 1, taken, LintMode::Check, minted_of(after[n - 1])),
        );
    }
}

/// In check mode a manifest in which every group and font has an identifier
/// and no identifier occurs twice gets no finding about identifiers.
pub proof fn lemma_check_accepts_assigned_identifiers(original: SourceView, after: SourceView)
    requires
        identifiers_assigned_once(original),
        linted(original, LintMode::Check, after),
    ensures
        free_of_identifier_findings(lint_findings(original, LintMode::Check, after)),
{
    let mode = LintMode::Check;
    let first = order_finding(original.groups, ContextView::Groups, mode);
    let second = groups_findings(
        original.groups,
        group_ids(after.groups),
        original.fonts,
        mode,
        original.groups.len() as int,
    );
    let third = order_finding(original.fonts, ContextView::Fonts, mode);
    let seen = seen_by_groups(original, after, mode);
    let fourth = fonts_findings(
        original.fonts,
        font_ids(after.fonts),
        seen,
        mode,
        original.fonts.len() as int,
    );
    lemma_groups_free(original, group_ids(after.groups), original.groups.len() as int);
    lemma_seen_through_bounded(
        Set::empty(),
        group_ids(original.groups),
        group_ids(after.groups),
        original.groups.len() as int,
    );
    lemma_fonts_free(original, font_ids(after.fonts), seen, original.fonts.len() as int);
    lemma_free_join(first, second);
    lemma_free_join(first + second, third);
    lemma_free_join(first + second + third, fourth);
}

} // verus!
