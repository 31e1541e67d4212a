//! What holds of references to fonts that do not exist: the linter reports
//! each of them once, and a build fails on them.

use vstd::prelude::*;
use crate::builder::{
    build_result, compiled_group, compiled_groups, font_position, lemma_first_group_failure,
    lemma_first_reference_failure, referenced_id, referenced_ids, BuildErrorView, PayloadView,
};
use crate::identity::resolved;
use crate::ledger::{DownloadableView, UploadView};
use crate::lint::{name_finding, ContextView, FindingView, LintMode};
use crate::rules::{
    failure, finding_if, font_exists, font_findings, font_ids, fonts_findings, group_findings,
    group_ids, group_names, groups_findings, in_order, lint_findings, minted_of, optional,
    order_finding, reference_findings, seen_by_groups, seen_through, taken_names,
};
use crate::sorting::{
    insert_position, lemma_insert_position, lemma_stable_sort_permutes, stable_sort, Keyed,
};
use crate::types::{
    CompiledGroupView, CompiledView, SourceFontView, SourceGroupView, SourceUUID, SourceView, Uuid,
};

verus! {

/// The number of findings on references to fonts that do not exist.
pub open spec fn missing_font_findings(findings: Seq<FindingView>) -> nat
    decreases findings.len(),
{
    if findings.len() == 0 {
        0
    } else {
        missing_font_findings(findings.drop_last()) + if findings.last() is GroupFontDoesntExist {
            1nat
        } else {
            0nat
        }
    }
}

/// No finding of the list is on a reference to a font that does not exist.
pub open spec fn no_missing_font(findings: Seq<FindingView>) -> bool {
    forall|k: int| 0 <= k < findings.len() ==> !((#[trigger] findings[k]) is GroupFontDoesntExist)
}

/// Whether reference `reference` of group `group` names no font.
pub open spec fn dangling_at(
    groups: Seq<SourceGroupView>,
    fonts: Seq<SourceFontView>,
    group: int,
    reference: int,
) -> bool {
    &&& 0 <= group < groups.len()
    &&& 0 <= reference < groups[group].fonts.len()
    &&& !font_exists(fonts, groups[group].fonts[reference])
}

/// The number of the first `n` references that name no font.
pub open spec fn dangling_in(references: Seq<Seq<char>>, fonts: Seq<SourceFontView>, n: int) -> nat
    decreases n,
{
    if n <= 0 {
        0
    } else {
        dangling_in(references, fonts, n - 1) + if !font_exists(fonts, references[n - 1]) {
            1nat
        } else {
            0nat
        }
    }
}

/// The number of references of the groups that name no font.
pub open spec fn dangling_among(groups: Seq<SourceGroupView>, fonts: Seq<SourceFontView>) -> nat
    decreases groups.len(),
{
    if groups.len() == 0 {
        0
    } else {
        dangling_among(groups.drop_last(), fonts) + dangling_in(
            groups.last().fonts,
            fonts,
            groups.last().fonts.len() as int,
        )
    }
}

/// A finding on a missing font names a reference of a group of the manifest
/// that names no font.
pub open spec fn names_dangling(
    finding: FindingView,
    groups: Seq<SourceGroupView>,
    fonts: Seq<SourceFontView>,
) -> bool {
    finding is GroupFontDoesntExist ==> exists|group: int, reference: int|
        #[trigger] dangling_at(groups, fonts, group, reference) && finding
            == FindingView::GroupFontDoesntExist(
            ContextView::Group(groups[group].name),
            groups[group].fonts[reference],
        )
}

/// Every finding on a missing font names a reference that names no font.
pub open spec fn all_name_dangling(
    findings: Seq<FindingView>,
    groups: Seq<SourceGroupView>,
    fonts: Seq<SourceFontView>,
) -> bool {
    forall|k: int| 0 <= k < findings.len() ==> names_dangling(#[trigger] findings[k], groups, fonts)
}

/// The findings of two lists joined are counted list by list.
pub proof fn lemma_missing_join(first: Seq<FindingView>, second: Seq<FindingView>)
    ensures
        missing_font_findings(first + second) == missing_font_findings(first)
            + missing_font_findings(second),
        all_name_dangling_joined(first, second),
    decreases second.len(),
{
    if second.len() == 0 {
        assert(first + second =~= first);
    } else {
        lemma_missing_join(first, second.drop_last());
        assert((first + second).drop_last() =~= first + second.drop_last());
        assert((first + second).last() == second.last());
    }
    assert forall|groups: Seq<SourceGroupView>, fonts: Seq<SourceFontView>|
        all_name_dangling(first, groups, fonts) && all_name_dangling(
            second,
            groups,
            fonts,
        ) implies #[trigger] all_name_dangling(first + second, groups, fonts) by {
        assert forall|k: int| 0 <= k < (first + second).len() implies names_dangling(
            #[trigger] (first + second)[k],
            groups,
            fonts,
        ) by {
            if k < first.len() {
                assert((first + second)[k] == first[k]);
            } else {
                assert((first + second)[k] == second[k - first.len()]);
            }
        }
    }
}

/// Two lists whose findings name references that name no font give such a
/// list when joined.
pub open spec fn all_name_dangling_joined(first: Seq<FindingView>, second: Seq<FindingView>) -> bool {
    forall|groups: Seq<SourceGroupView>, fonts: Seq<SourceFontView>|
        all_name_dangling(first, groups, fonts) && all_name_dangling(second, groups, fonts)
            ==> #[trigger] all_name_dangling(first + second, groups, fonts)
}

/// A list without findings on missing fonts counts none.
pub proof fn lemma_none_missing(findings: Seq<FindingView>)
    requires
        no_missing_font(findings),
    ensures
        missing_font_findings(findings) == 0,
    decreases findings.len(),
{
    if findings.len() > 0 {
        assert(findings.drop_last().len() == findings.len() - 1);
        assert forall|k: int| 0 <= k < findings.drop_last().len() implies !((
        #[trigger] findings.drop_last()[k]) is GroupFontDoesntExist) by {
            assert(findings.drop_last()[k] == findings[k]);
        }
        lemma_none_missing(findings.drop_last());
        assert(findings.last() == findings[findings.len() - 1]);
    }
}

/// Joining two lists without findings on missing fonts gives such a list.
pub proof fn lemma_no_missing_join(first: Seq<FindingView>, second: Seq<FindingView>)
    requires
        no_missing_font(first),
        no_missing_font(second),
    ensures
        no_missing_font(first + second),
{
    assert forall|k: int| 0 <= k < (first + second).len() implies !((#[trigger] (first
        + second)[k]) is GroupFontDoesntExist) by {
        if k < first.len() {
            assert((first + second)[k] == first[k]);
        } else {
            assert((first + second)[k] == second[k - first.len()]);
        }
    }
}

/// The findings on the first `n` references of a group of the manifest hold
/// one finding for each reference that names no font, and each names it.
pub proof fn lemma_reference_findings_count(
    groups: Seq<SourceGroupView>,
    group: int,
    fonts: Seq<SourceFontView>,
    n: int,
)
    requires
        0 <= group < groups.len(),
        0 <= n <= groups[group].fonts.len(),
    ensures
        missing_font_findings(
            reference_findings(
                ContextView::Group(groups[group].name),
                groups[group].fonts,
                fonts,
                n,
            ),
        ) == dangling_in(groups[group].fonts, fonts, n),
        all_name_dangling(
            reference_findings(
                ContextView::Group(groups[group].name),
                groups[group].fonts,
                fonts,
                n,
            ),
            groups,
            fonts,
        ),
    decreases n,
{
    let context = ContextView::Group(groups[group].name);
    let references = groups[group].fonts;
    if n > 0 {
        lemma_reference_findings_count(groups, group, fonts, n - 1);
        let name = references[n - 1];
        let earlier = reference_findings(context, references, fonts, n - 1);
        let repeated = finding_if(
            references.subrange(0, n - 1).contains(name),
            FindingView::GroupDuplicateFont(context, name),
        );
        let missing = finding_if(
            !font_exists(fonts, name),
            FindingView::GroupFontDoesntExist(context, name),
        );
        lemma_missing_join(earlier, repeated);
        lemma_missing_join(earlier + repeated, missing);
        lemma_none_missing(repeated);
        assert(missing_font_findings(missing) == if !font_exists(fonts, name) {
            1nat
        } else {
            0nat
        }) by {
            if !font_exists(fonts, name) {
                assert(missing.len() == 1);
                assert(missing.drop_last().len() == 0);
                assert(missing_font_findings(missing.drop_last()) == 0);
                assert(missing.last() is GroupFontDoesntExist);
            } else {
                assert(missing.len() == 0);
            }
        }
        assert(all_name_dangling(repeated, groups, fonts));
        assert(all_name_dangling(missing, groups, fonts)) by {
            if !font_exists(fonts, name) {
                assert(dangling_at(groups, fonts, group, n - 1));
            }
        }
    }
}

/// A list without findings on missing fonts names no reference wrongly.
pub proof fn lemma_none_names(
    findings: Seq<FindingView>,
    groups: Seq<SourceGroupView>,
    fonts: Seq<SourceFontView>,
)
    requires
        no_missing_font(findings),
    ensures
        all_name_dangling(findings, groups, fonts),
{
}

/// The findings on a group that the manifest holds count one finding on a
/// missing font for each of its references that names no font, and each
/// names it.
pub proof fn lemma_group_findings_count(
    groups: Seq<SourceGroupView>,
    walked: Seq<SourceGroupView>,
    i: int,
    fonts: Seq<SourceFontView>,
    seen: Set<Uuid>,
    mode: LintMode,
    minted: Uuid,
)
    requires
        0 <= i < walked.len(),
        groups.contains(walked[i]),
    ensures
        missing_font_findings(group_findings(walked, i, fonts, seen, mode, minted)) == dangling_in(
            walked[i].fonts,
            fonts,
            walked[i].fonts.len() as int,
        ),
        all_name_dangling(group_findings(walked, i, fonts, seen, mode, minted), groups, fonts),
{
    let group = walked[i];
    let context = ContextView::Group(group.name);
    let member = choose|member: int| 0 <= member < groups.len() && groups[member] == group;
    let first = finding_if(
        group_names(walked.subrange(0, i)).contains(group.name),
        FindingView::DuplicatedName(group.name, context),
    );
    let second = optional(name_finding(group.name, context));
    let third = finding_if(group.fonts.len() == 0, FindingView::GroupEmpty(context));
    let fourth = failure(resolved(seen, group.id, context, mode, minted));
    let fifth = reference_findings(context, group.fonts, fonts, group.fonts.len() as int);
    let sixth = order_finding(group.fonts, context, mode);
    lemma_reference_findings_count(groups, member, fonts, group.fonts.len() as int);
    lemma_no_missing_join(first, second);
    lemma_no_missing_join(first + second, third);
    lemma_no_missing_join(first + second + third, fourth);
    let head = first + second + third + fourth;
    lemma_none_missing(head);
    lemma_none_missing(sixth);
    lemma_none_names(head, groups, fonts);
    lemma_none_names(sixth, groups, fonts);
    lemma_missing_join(head, fifth);
    lemma_missing_join(head + fifth, sixth);
}

/// The findings on the first `n` groups, each of which the manifest holds,
/// count one finding on a missing font for each reference of those groups
/// that names no font, and each names it.
pub proof fn lemma_groups_findings_count(
    groups: Seq<SourceGroupView>,
    walked: Seq<SourceGroupView>,
    after: Seq<SourceUUID>,
    fonts: Seq<SourceFontView>,
    mode: LintMode,
    n: int,
)
    requires
        0 <= n <= walked.len(),
        forall|i: int| 0 <= i < walked.len() ==> groups.contains(#[trigger] walked[i]),
    ensures
        missing_font_findings(groups_findings(walked, after, fonts, mode, n)) == dangling_among(
            walked.subrange(0, n),
            fonts,
        ),
        all_name_dangling(groups_findings(walked, after, fonts, mode, n), groups, fonts),
    decreases n,
{
    if n > 0 {
        lemma_groups_findings_count(groups, walked, after, fonts, mode, n - 1);
        let seen = seen_through(Set::empty(), group_ids(walked), after, mode, n - 1);
        lemma_group_findings_count(
            groups,
            walked,
            n - 1,
            fonts,
            seen,
            mode,
            minted_of(after[n - 1]),
        );
        lemma_missing_join(
            groups_findings(walked, after, fonts, mode, n - 1),
            group_findings(walked, n - 1, fonts, seen, mode, minted_of(after[n - 1])),
        );
        assert(walked.subrange(0, n).drop_last() =~= walked.subrange(0, n - 1));
        assert(walked.subrange(0, n).last() == walked[n - 1]);
    } else {
        assert(walked.subrange(0, 0).len() == 0);
    }
}

/// The findings on the fonts hold none on a missing font.
pub proof fn lemma_fonts_findings_count(
    fonts: Seq<SourceFontView>,
    after: Seq<SourceUUID>,
    seen: Set<Uuid>,
    mode: LintMode,
    n: int,
)
    ensures
        no_missing_font(fonts_findings(fonts, after, seen, mode, n)),
    decreases n,
{
    if n > 0 {
        lemma_fonts_findings_count(fonts, after, seen, mode, n - 1);
        let font = fonts[n - 1];
        let context = ContextView::Font(font.name);
        let taken = taken_names(fonts, n - 1);
        let now = seen_through(seen, font_ids(fonts), after, mode, n - 1);
        let first = finding_if(
            taken.contains(font.name),
            FindingView::DuplicatedName(font.name, context),
        );
        let second = finding_if(
            font.name != font.short_name && taken.contains(font.short_name),
            FindingView::DuplicatedName(font.short_name, context),
        );
        let third = optional(name_finding(font.name, context));
        let fourth = optional(name_finding(font.short_name, context));
        let fifth = optional(name_finding(font.publisher, context));
        let sixth = failure(resolved(now, font.id, context, mode, minted_of(after[n - 1])));
        let seventh = finding_if(font.installations.len() == 0, FindingView::FontEmpty(context));
        lemma_no_missing_join(first, second);
        lemma_no_missing_join(first + second, third);
        lemma_no_missing_join(first + second + third, fourth);
        lemma_no_missing_join(first + second + third + fourth, fifth);
        lemma_no_missing_join(first + second + third + fourth + fifth, sixth);
        lemma_no_missing_join(first + second + third + fourth + fifth + sixth, seventh);
        lemma_no_missing_join(
            fonts_findings(fonts, after, seen, mode, n - 1),
            font_findings(fonts, n - 1, now, mode, minted_of(after[n - 1])),
        );
    }
}

/// An item put into a list of groups adds its references that name no font.
pub proof fn lemma_dangling_among_insert(
    groups: Seq<SourceGroupView>,
    fonts: Seq<SourceFontView>,
    at: int,
    group: SourceGroupView,
)
    requires
        0 <= at <= groups.len(),
    ensures
        dangling_among(groups.insert(at, group), fonts) == dangling_among(groups, fonts)
            + dangling_in(group.fonts, fonts, group.fonts.len() as int),
    decreases groups.len(),
{
    let longer = groups.insert(at, group);
    groups.insert_ensures(at, group);
    if at == groups.len() {
        assert(longer.drop_last() =~= groups);
        assert(longer.last() == group);
    } else {
        lemma_dangling_among_insert(groups.drop_last(), fonts, at, group);
        assert(longer.drop_last() =~= groups.drop_last().insert(at, group));
        assert(longer.last() == groups.last());
    }
}

/// Sorting the groups keeps the number of references that name no font, and
/// every group of the sorted list is a group of the list.
pub proof fn lemma_dangling_among_sorted(groups: Seq<SourceGroupView>, fonts: Seq<SourceFontView>)
    ensures
        dangling_among(stable_sort(groups), fonts) == dangling_among(groups, fonts),
        forall|i: int|
            0 <= i < stable_sort(groups).len() ==> groups.contains(
                #[trigger] stable_sort(groups)[i],
            ),
    decreases groups.len(),
{
    if groups.len() > 0 {
        let rest = stable_sort(groups.drop_first());
        let at = insert_position(rest, groups[0].key(), 0);
        lemma_dangling_among_sorted(groups.drop_first(), fonts);
        lemma_insert_position(rest, groups[0].key(), 0);
        lemma_dangling_among_insert(rest, fonts, at, groups[0]);
        lemma_dangling_among_insert(groups.drop_first(), fonts, 0, groups[0]);
        assert(groups.drop_first().insert(0, groups[0]) =~= groups);
    }
    let sorted = stable_sort(groups);
    lemma_stable_sort_permutes(groups);
    assert forall|i: int| 0 <= i < sorted.len() implies groups.contains(#[trigger] sorted[i]) by {
        sorted.to_multiset_ensures();
        groups.to_multiset_ensures();
        assert(sorted.contains(sorted[i]));
    }
}

/// The linter reports each reference to a font that does not exist once: its
/// findings hold as many on missing fonts as the groups have references that
/// name no font, and each such finding names one of these references and its
/// group. This holds in either mode: fix mode does not repair a reference.
pub proof fn lemma_dangling_references_reported(
    original: SourceView,
    mode: LintMode,
    after: SourceView,
)
    ensures
        missing_font_findings(lint_findings(original, mode, after)) == dangling_among(
            original.groups,
            original.fonts,
        ),
        all_name_dangling(lint_findings(original, mode, after), original.groups, original.fonts),
{
    let groups = in_order(original.groups, mode);
    let fonts = in_order(original.fonts, mode);
    let first = order_finding(original.groups, ContextView::Groups, mode);
    let second = groups_findings(
        groups,
        group_ids(after.groups),
        original.fonts,
        mode,
        groups.len() as int,
    );
    let third = order_finding(original.fonts, ContextView::Fonts, mode);
    let fourth = fonts_findings(
        fonts,
        font_ids(after.fonts),
        seen_by_groups(original, after, mode),
        mode,
        fonts.len() as int,
    );
    lemma_dangling_among_sorted(original.groups, original.fonts);
    assert forall|i: int| 0 <= i < groups.len() implies original.groups.contains(
        #[trigger] groups[i],
    ) by {
        if mode == LintMode::Check {
            assert(original.groups[i] == groups[i]);
        }
    }
    lemma_groups_findings_count(
        original.groups,
        groups,
        group_ids(after.groups),
        original.fonts,
        mode,
        groups.len() as int,
    );
    assert(groups.subrange(0, groups.len() as int) =~= groups);
    lemma_fonts_findings_count(
        fonts,
        font_ids(after.fonts),
        seen_by_groups(original, after, mode),
        mode,
        fonts.len() as int,
    );
    lemma_none_missing(first);
    lemma_none_missing(third);
    lemma_none_missing(fourth);
    lemma_none_names(first, original.groups, original.fonts);
    lemma_none_names(third, original.groups, original.fonts);
    lemma_none_names(fourth, original.groups, original.fonts);
    lemma_missing_join(first, second);
    lemma_missing_join(first + second, third);
    lemma_missing_join(first + second + third, fourth);
}

/// Where at most the reference at position `at` names no font, the first `n`
/// references count one if `at` is among them and none otherwise.
pub proof fn lemma_dangling_in_one(
    references: Seq<Seq<char>>,
    fonts: Seq<SourceFontView>,
    n: int,
    at: int,
)
    requires
        0 <= n <= references.len(),
        forall|ri: int|
            0 <= ri < n ==> (!font_exists(fonts, #[trigger] references[ri]) <==> ri == at),
    ensures
        dangling_in(references, fonts, n) == if 0 <= at < n {
            1nat
        } else {
            0nat
        },
    decreases n,
{
    if n > 0 {
        lemma_dangling_in_one(references, fonts, n - 1, at);
        assert(!font_exists(fonts, references[n - 1]) <==> n - 1 == at);
    }
}

/// Where exactly one reference of the groups names no font, the groups count
/// one.
pub proof fn lemma_dangling_among_one(
    groups: Seq<SourceGroupView>,
    fonts: Seq<SourceFontView>,
    group: int,
    reference: int,
)
    requires
        forall|gi: int, ri: int|
            #[trigger] dangling_at(groups, fonts, gi, ri) ==> gi == group && ri == reference,
        0 <= group < groups.len() ==> dangling_at(groups, fonts, group, reference),
    ensures
        dangling_among(groups, fonts) == if 0 <= group < groups.len() {
            1nat
        } else {
            0nat
        },
    decreases groups.len(),
{
    if groups.len() > 0 {
        let earlier = groups.drop_last();
        let last = groups.len() - 1;
        assert forall|gi: int, ri: int| #[trigger]
            dangling_at(earlier, fonts, gi, ri) implies gi == group && ri == reference by {
            assert(earlier[gi] == groups[gi]);
            assert(dangling_at(groups, fonts, gi, ri));
        }
        if 0 <= group < earlier.len() {
            assert(earlier[group] == groups[group]);
        }
        lemma_dangling_among_one(earlier, fonts, group, reference);
        let references = groups[last].fonts;
        let at = if group == last {
            reference
        } else {
            -1
        };
        assert forall|ri: int| 0 <= ri < references.len() implies (!font_exists(
            fonts,
            #[trigger] references[ri],
        ) <==> ri == at) by {
            if !font_exists(fonts, references[ri]) {
                assert(dangling_at(groups, fonts, last, ri));
            }
        }
        lemma_dangling_in_one(references, fonts, references.len() as int, at);
    }
}

/// A list that counts a finding on a missing font holds one.
pub proof fn lemma_some_missing(findings: Seq<FindingView>)
    requires
        missing_font_findings(findings) > 0,
    ensures
        exists|k: int| 0 <= k < findings.len() && (#[trigger] findings[k]) is GroupFontDoesntExist,
    decreases findings.len(),
{
    if findings.last() is GroupFontDoesntExist {
        assert(findings[findings.len() - 1] is GroupFontDoesntExist);
    } else {
        lemma_some_missing(findings.drop_last());
        let k = choose|k: int|
            0 <= k < findings.drop_last().len() && (#[trigger] findings.drop_last()[k])
                is GroupFontDoesntExist;
        assert(findings[k] == findings.drop_last()[k]);
    }
}

/// A manifest in which exactly one reference of a group names no font gets
/// exactly one finding on a missing font, in either mode, and the finding
/// names that group and that reference.
pub proof fn lemma_one_dangling_reference_one_finding(
    original: SourceView,
    mode: LintMode,
    after: SourceView,
    group: int,
    reference: int,
)
    requires
        dangling_at(original.groups, original.fonts, group, reference),
        forall|gi: int, ri: int|
            #[trigger] dangling_at(original.groups, original.fonts, gi, ri) ==> gi == group && ri
                == reference,
    ensures
        missing_font_findings(lint_findings(original, mode, after)) == 1,
        exists|k: int|
            0 <= k < lint_findings(original, mode, after).len() && #[trigger] lint_findings(
                original,
                mode,
                after,
            )[k] == FindingView::GroupFontDoesntExist(
                ContextView::Group(original.groups[group].name),
                original.groups[group].fonts[reference],
            ),
        forall|k: int|
            0 <= k < lint_findings(original, mode, after).len() && (#[trigger] lint_findings(
                original,
                mode,
                after,
            )[k]) is GroupFontDoesntExist ==> lint_findings(original, mode, after)[k]
                == FindingView::GroupFontDoesntExist(
                ContextView::Group(original.groups[group].name),
                original.groups[group].fonts[reference],
            ),
{
    let findings = lint_findings(original, mode, after);
    lemma_dangling_references_reported(original, mode, after);
    lemma_dangling_among_one(original.groups, original.fonts, group, reference);
    lemma_some_missing(findings);
    assert forall|k: int| 0 <= k < findings.len() && (#[trigger] findings[k])
        is GroupFontDoesntExist implies findings[k] == FindingView::GroupFontDoesntExist(
        ContextView::Group(original.groups[group].name),
        original.groups[group].fonts[reference],
    ) by {
        assert(names_dangling(findings[k], original.groups, original.fonts));
    }
}

/// Where `font_position` points: at the first font with the name.
pub proof fn lemma_font_position(fonts: Seq<SourceFontView>, name: Seq<char>, from: int)
    requires
        0 <= from <= fonts.len(),
    ensures
        from <= font_position(fonts, name, from) <= fonts.len(),
        font_position(fonts, name, from) < fonts.len() ==> fonts[font_position(
            fonts,
            name,
            from,
        )].name == name,
        forall|k: int|
            from <= k < font_position(fonts, name, from) ==> (#[trigger] fonts[k]).name != name,
    decreases fonts.len() - from,
{
    if from < fonts.len() && fonts[from].name != name {
        lemma_font_position(fonts, name, from + 1);
    }
}

/// A reference to a font that does not exist fails as a missing font.
pub proof fn lemma_missing_reference_fails(fonts: Seq<SourceFontView>, name: Seq<char>)
    requires
        !font_exists(fonts, name),
    ensures
        referenced_id(fonts, name) == Err::<Uuid, BuildErrorView>(
            BuildErrorView::MissingFont(name),
        ),
{
    lemma_font_position(fonts, name, 0);
    let at = font_position(fonts, name, 0);
    if at < fonts.len() {
        assert(fonts[at].name == name);
    }
}

/// Where every font has an identifier, the first `n` references resolve if
/// each names a font.
pub proof fn lemma_references_resolve(
    fonts: Seq<SourceFontView>,
    references: Seq<Seq<char>>,
    n: int,
)
    requires
        0 <= n <= references.len(),
        forall|i: int| 0 <= i < fonts.len() ==> (#[trigger] fonts[i]).id is Uuid,
        forall|ri: int| 0 <= ri < n ==> font_exists(fonts, #[trigger] references[ri]),
    ensures
        referenced_ids(fonts, references, n) is Ok,
    decreases n,
{
    if n > 0 {
        lemma_references_resolve(fonts, references, n - 1);
        let name = references[n - 1];
        assert(font_exists(fonts, name));
        let k = choose|k: int| 0 <= k < fonts.len() && (#[trigger] fonts[k]).name == name;
        lemma_font_position(fonts, name, 0);
        let at = font_position(fonts, name, 0);
        if at >= fonts.len() {
            assert(fonts[k].name != name);
        }
        assert(fonts[at].id is Uuid);
    }
}

/// A build of a manifest in which a reference of a group names no font
/// fails.
pub proof fn lemma_dangling_reference_fails_build(
    version: semver::Version,
    source: SourceView,
    base: Seq<char>,
    ledger: Seq<DownloadableView>,
    payloads: Seq<PayloadView>,
    minted: Seq<Uuid>,
    extensions: Seq<Option<Seq<char>>>,
    group: int,
    reference: int,
)
    requires
        dangling_at(source.groups, source.fonts, group, reference),
    ensures
        build_result(version, source, base, ledger, payloads, minted, extensions) is Err,
{
    let references = source.groups[group].fonts;
    lemma_missing_reference_fails(source.fonts, references[reference]);
    assert(referenced_ids(source.fonts, references, reference + 1) is Err);
    lemma_first_reference_failure(
        source.fonts,
        references,
        reference + 1,
        references.len() as int,
    );
    assert(compiled_group(source.fonts, source.groups[group]) is Err);
    assert(compiled_groups(source.fonts, source.groups, group + 1) is Err);
    lemma_first_group_failure(
        source.fonts,
        source.groups,
        group + 1,
        source.groups.len() as int,
    );
}

/// Where every group and font has an identifier, the first `n` groups
/// compile if each of their references names a font.
pub proof fn lemma_groups_compile(
    fonts: Seq<SourceFontView>,
    groups: Seq<SourceGroupView>,
    n: int,
)
    requires
        0 <= n <= groups.len(),
        forall|i: int| 0 <= i < fonts.len() ==> (#[trigger] fonts[i]).id is Uuid,
        forall|i: int| 0 <= i < groups.len() ==> (#[trigger] groups[i]).id is Uuid,
        forall|gi: int, ri: int| 0 <= gi < n ==> !#[trigger] dangling_at(groups, fonts, gi, ri),
    ensures
        compiled_groups(fonts, groups, n) is Ok,
    decreases n,
{
    if n > 0 {
        lemma_groups_compile(fonts, groups, n - 1);
        let references = groups[n - 1].fonts;
        assert forall|ri: int| 0 <= ri < references.len() implies font_exists(
            fonts,
            #[trigger] references[ri],
        ) by {
            assert(!dangling_at(groups, fonts, n - 1, ri));
        }
        lemma_references_resolve(fonts, references, references.len() as int);
        assert(groups[n - 1].id is Uuid);
    }
}

/// A build of a manifest in which every group and font has an identifier and
/// exactly one reference of a group names no font fails with that reference
/// as a missing font.
pub proof fn lemma_one_dangling_reference_fails_build(
    version: semver::Version,
    source: SourceView,
    base: Seq<char>,
    ledger: Seq<DownloadableView>,
    payloads: Seq<PayloadView>,
    minted: Seq<Uuid>,
    extensions: Seq<Option<Seq<char>>>,
    group: int,
    reference: int,
)
    requires
        dangling_at(source.groups, source.fonts, group, reference),
        forall|gi: int, ri: int|
            #[trigger] dangling_at(source.groups, source.fonts, gi, ri) ==> gi == group && ri
                == reference,
        forall|i: int| 0 <= i < source.fonts.len() ==> (#[trigger] source.fonts[i]).id is Uuid,
        forall|i: int| 0 <= i < source.groups.len() ==> (#[trigger] source.groups[i]).id is Uuid,
    ensures
        build_result(version, source, base, ledger, payloads, minted, extensions) == Err::<
            (Seq<UploadView>, CompiledView),
            BuildErrorView,
        >(BuildErrorView::MissingFont(source.groups[group].fonts[reference])),
{
    let fonts = source.fonts;
    let groups = source.groups;
    let references = groups[group].fonts;
    let failure = BuildErrorView::MissingFont(references[reference]);
    lemma_groups_compile(fonts, groups, group);
    assert forall|ri: int| 0 <= ri < reference implies font_exists(
        fonts,
        #[trigger] references[ri],
    ) by {
        if !font_exists(fonts, references[ri]) {
            assert(dangling_at(groups, fonts, group, ri));
        }
    }
    lemma_references_resolve(fonts, references, reference);
    lemma_missing_reference_fails(fonts, references[reference]);
    assert(referenced_ids(fonts, references, reference + 1) == Err::<Seq<Uuid>, BuildErrorView>(
        failure,
    ));
    lemma_first_reference_failure(fonts, references, reference + 1, references.len() as int);
    assert(compiled_group(fonts, groups[group]) == Err::<
        CompiledGroupView,
        BuildErrorView,
    >(failure));
    assert(compiled_groups(fonts, groups, group + 1) == Err::<
        Seq<CompiledGroupView>,
        BuildErrorView,
    >(failure));
    lemma_first_group_failure(fonts, groups, group + 1, groups.len() as int);
}

} // verus!
