//! What the linter finds and how fix mode rewrites the manifest, stated over
//! the views of the manifest.

use vstd::prelude::*;
use crate::identity::{resolved, seen_after};
use crate::lint::{name_finding, ContextView, FindingView, LintMode};
use crate::sorting::{is_sorted, stable_sort, Keyed};
use crate::types::{
    DownloadView, SourceFontView, SourceGroupView, SourceUUID, SourceView, Uuid,
};

verus! {

/// The finding, where the condition holds.
pub open spec fn finding_if(condition: bool, finding: FindingView) -> Seq<FindingView> {
    if condition {
        seq![finding]
    } else {
        Seq::empty()
    }
}

/// The finding, where there is one.
pub open spec fn optional(finding: Option<FindingView>) -> Seq<FindingView> {
    match finding {
        Some(f) => seq![f],
        None => Seq::empty(),
    }
}

/// The finding of a resolution, where it failed.
pub open spec fn failure(outcome: Result<Uuid, FindingView>) -> Seq<FindingView> {
    match outcome {
        Ok(_) => Seq::empty(),
        Err(f) => seq![f],
    }
}

/// The identifier that a manifest entry holds; zero where none is assigned.
pub open spec fn minted_of(id: SourceUUID) -> Uuid {
    match id {
        SourceUUID::Uuid(x) => x,
        SourceUUID::Null => 0,
    }
}

/// The identifier of an entry after the linter has resolved it: in fix mode
/// the resolved one, otherwise the one it had.
pub open spec fn id_after(seen: Set<Uuid>, id: SourceUUID, mode: LintMode, minted: Uuid) -> SourceUUID {
    match resolved(seen, id, ContextView::Groups, mode, minted) {
        Ok(x) => if mode == LintMode::Fix {
            SourceUUID::Uuid(x)
        } else {
            id
        },
        Err(_) => id,
    }
}

/// The list as the linter walks it: sorted in fix mode, as authored otherwise.
pub open spec fn in_order<A: Keyed>(list: Seq<A>, mode: LintMode) -> Seq<A> {
    if mode == LintMode::Fix {
        stable_sort(list)
    } else {
        list
    }
}

/// The finding on the order of a list: in check mode, where a name stands
/// before a smaller one. Equal names are in order.
pub open spec fn order_finding<A: Keyed>(list: Seq<A>, context: ContextView, mode: LintMode) -> Seq<
    FindingView,
> {
    finding_if(mode == LintMode::Check && !is_sorted(list), FindingView::UnsortedList(context))
}

/// Whether the manifest has a font of this name.
pub open spec fn font_exists(fonts: Seq<SourceFontView>, name: Seq<char>) -> bool {
    exists|k: int| 0 <= k < fonts.len() && (#[trigger] fonts[k]).name == name
}

/// The names of the groups.
pub open spec fn group_names(groups: Seq<SourceGroupView>) -> Seq<Seq<char>> {
    Seq::new(groups.len(), |i: int| groups[i].name)
}

/// The findings on the first `n` font references of a group: a reference that
/// repeats an earlier one, then a reference to a font that does not exist.
pub open spec fn reference_findings(
    context: ContextView,
    references: Seq<Seq<char>>,
    fonts: Seq<SourceFontView>,
    n: int,
) -> Seq<FindingView>
    decreases n,
{
    if n <= 0 {
        Seq::empty()
    } else {
        let name = references[n - 1];
        reference_findings(context, references, fonts, n - 1) + finding_if(
            references.subrange(0, n - 1).contains(name),
            FindingView::GroupDuplicateFont(context, name),
        ) + finding_if(!font_exists(fonts, name), FindingView::GroupFontDoesntExist(context, name))
    }
}

/// The findings on the group at position `i`, given the identifiers taken
/// before it and the identifier to assign to it if it has none.
pub open spec fn group_findings(
    groups: Seq<SourceGroupView>,
    i: int,
    fonts: Seq<SourceFontView>,
    seen: Set<Uuid>,
    mode: LintMode,
    minted: Uuid,
) -> Seq<FindingView> {
    let group = groups[i];
    let context = ContextView::Group(group.name);
    finding_if(
        group_names(groups.subrange(0, i)).contains(group.name),
        FindingView::DuplicatedName(group.name, context),
    ) + optional(name_finding(group.name, context)) + finding_if(
        group.fonts.len() == 0,
        FindingView::GroupEmpty(context),
    ) + failure(resolved(seen, group.id, context, mode, minted)) + reference_findings(
        context,
        group.fonts,
        fonts,
        group.fonts.len() as int,
    ) + order_finding(group.fonts, context, mode)
}

/// The group at position `i` as the linter leaves it.
pub open spec fn group_after(
    groups: Seq<SourceGroupView>,
    i: int,
    seen: Set<Uuid>,
    mode: LintMode,
    minted: Uuid,
) -> SourceGroupView {
    SourceGroupView {
        id: id_after(seen, groups[i].id, mode, minted),
        name: groups[i].name,
        fonts: in_order(groups[i].fonts, mode),
    }
}

/// The names and short names of the first `n` fonts.
pub open spec fn taken_names(fonts: Seq<SourceFontView>, n: int) -> Seq<Seq<char>>
    decreases n,
{
    if n <= 0 {
        Seq::empty()
    } else {
        taken_names(fonts, n - 1).push(fonts[n - 1].name).push(fonts[n - 1].short_name)
    }
}

/// The findings on the font at position `i`, given the identifiers taken
/// before it and the identifier to assign to it if it has none.
pub open spec fn font_findings(
    fonts: Seq<SourceFontView>,
    i: int,
    seen: Set<Uuid>,
    mode: LintMode,
    minted: Uuid,
) -> Seq<FindingView> {
    let font = fonts[i];
    let context = ContextView::Font(font.name);
    let taken = taken_names(fonts, i);
    finding_if(taken.contains(font.name), FindingView::DuplicatedName(font.name, context)) + finding_if(
        font.name != font.short_name && taken.contains(font.short_name),
        FindingView::DuplicatedName(font.short_name, context),
    ) + optional(name_finding(font.name, context)) + optional(
        name_finding(font.short_name, context),
    ) + optional(name_finding(font.publisher, context)) + failure(
        resolved(seen, font.id, context, mode, minted),
    ) + finding_if(font.installations.len() == 0, FindingView::FontEmpty(context))
}

/// The font at position `i` as the linter leaves it.
pub open spec fn font_after(
    fonts: Seq<SourceFontView>,
    i: int,
    seen: Set<Uuid>,
    mode: LintMode,
    minted: Uuid,
) -> SourceFontView {
    SourceFontView {
        id: id_after(seen, fonts[i].id, mode, minted),
        name: fonts[i].name,
        short_name: fonts[i].short_name,
        publisher: fonts[i].publisher,
        categories: fonts[i].categories,
        installations: fonts[i].installations,
    }
}

/// The identifiers taken once the first `n` entries have been resolved,
/// starting from `seen`; `after` holds for each entry the identifier that the
/// linter left it with.
pub open spec fn seen_through(
    seen: Set<Uuid>,
    before: Seq<SourceUUID>,
    after: Seq<SourceUUID>,
    mode: LintMode,
    n: int,
) -> Set<Uuid>
    decreases n,
{
    if n <= 0 {
        seen
    } else {
        seen_after(
            seen_through(seen, before, after, mode, n - 1),
            before[n - 1],
            mode,
            minted_of(after[n - 1]),
        )
    }
}

/// The identifiers of the groups.
pub open spec fn group_ids(groups: Seq<SourceGroupView>) -> Seq<SourceUUID> {
    Seq::new(groups.len(), |i: int| groups[i].id)
}

/// The identifiers of the fonts.
pub open spec fn font_ids(fonts: Seq<SourceFontView>) -> Seq<SourceUUID> {
    Seq::new(fonts.len(), |i: int| fonts[i].id)
}

/// The findings on the first `n` groups, in order.
pub open spec fn groups_findings(
    groups: Seq<SourceGroupView>,
    after: Seq<SourceUUID>,
    fonts: Seq<SourceFontView>,
    mode: LintMode,
    n: int,
) -> Seq<FindingView>
    decreases n,
{
    if n <= 0 {
        Seq::empty()
    } else {
        groups_findings(groups, after, fonts, mode, n - 1) + group_findings(
            groups,
            n - 1,
            fonts,
            seen_through(Set::empty(), group_ids(groups), after, mode, n - 1),
            mode,
            minted_of(after[n - 1]),
        )
    }
}

/// The findings on the first `n` fonts, in order; `seen` holds the
/// identifiers taken before the first font.
pub open spec fn fonts_findings(
    fonts: Seq<SourceFontView>,
    after: Seq<SourceUUID>,
    seen: Set<Uuid>,
    mode: LintMode,
    n: int,
) -> Seq<FindingView>
    decreases n,
{
    if n <= 0 {
        Seq::empty()
    } else {
        fonts_findings(fonts, after, seen, mode, n - 1) + font_findings(
            fonts,
            n - 1,
            seen_through(seen, font_ids(fonts), after, mode, n - 1),
            mode,
            minted_of(after[n - 1]),
        )
    }
}

/// The identifiers taken once every group of `original` has been resolved.
pub open spec fn seen_by_groups(original: SourceView, after: SourceView, mode: LintMode) -> Set<Uuid> {
    let groups = in_order(original.groups, mode);
    seen_through(Set::empty(), group_ids(groups), group_ids(after.groups), mode, groups.len() as int)
}

/// Whether `after` holds the groups as the linter leaves them, `groups` being
/// the groups in the order the linter walks them.
pub open spec fn groups_linted(
    groups: Seq<SourceGroupView>,
    after: Seq<SourceGroupView>,
    mode: LintMode,
) -> bool {
    &&& after.len() == groups.len()
    &&& forall|i: int|
        0 <= i < groups.len() ==> #[trigger] after[i] == group_after(
            groups,
            i,
            seen_through(Set::empty(), group_ids(groups), group_ids(after), mode, i),
            mode,
            minted_of(after[i].id),
        )
}

/// Whether `after` holds the fonts as the linter leaves them, `fonts` being
/// the fonts in the order the linter walks them and `seen` the identifiers
/// taken before the first font.
pub open spec fn fonts_linted(
    fonts: Seq<SourceFontView>,
    after: Seq<SourceFontView>,
    seen: Set<Uuid>,
    mode: LintMode,
) -> bool {
    &&& after.len() == fonts.len()
    &&& forall|i: int|
        0 <= i < fonts.len() ==> #[trigger] after[i] == font_after(
            fonts,
            i,
            seen_through(seen, font_ids(fonts), font_ids(after), mode, i),
            mode,
            minted_of(after[i].id),
        )
}

/// Whether `after` is the manifest that the linter returns for `original`.
/// Groups and fonts stand in the order the linter walks them; each keeps its
/// name and contents; in fix mode each group's font references are sorted and
/// each missing identifier is assigned. Which identifier is assigned is not
/// determined: it is the one that `after` holds.
pub open spec fn linted(original: SourceView, mode: LintMode, after: SourceView) -> bool {
    &&& groups_linted(in_order(original.groups, mode), after.groups, mode)
    &&& fonts_linted(
        in_order(original.fonts, mode),
        after.fonts,
        seen_by_groups(original, after, mode),
        mode,
    )
}

/// The findings of the linter on `original`, where `after` is the manifest it
/// returns: on the order of the groups, on each group, on the order of the
/// fonts, on each font.
pub open spec fn lint_findings(original: SourceView, mode: LintMode, after: SourceView) -> Seq<
    FindingView,
> {
    let groups = in_order(original.groups, mode);
    let fonts = in_order(original.fonts, mode);
    order_finding(original.groups, ContextView::Groups, mode) + groups_findings(
        groups,
        group_ids(after.groups),
        original.fonts,
        mode,
        groups.len() as int,
    ) + order_finding(original.fonts, ContextView::Fonts, mode) + fonts_findings(
        fonts,
        font_ids(after.fonts),
        seen_by_groups(original, after, mode),
        mode,
        fonts.len() as int,
    )
}

/// The downloads of the first `n` installations of a font, each with the
/// font as its context.
pub open spec fn font_downloads(font: SourceFontView, n: int) -> Seq<(ContextView, DownloadView)>
    decreases n,
{
    if n <= 0 {
        Seq::empty()
    } else {
        font_downloads(font, n - 1).push(
            (ContextView::Font(font.name), font.installations[n - 1].download()),
        )
    }
}

/// The downloads of the first `n` fonts, in order.
pub open spec fn downloads_of(fonts: Seq<SourceFontView>, n: int) -> Seq<(ContextView, DownloadView)>
    decreases n,
{
    if n <= 0 {
        Seq::empty()
    } else {
        downloads_of(fonts, n - 1) + font_downloads(
            fonts[n - 1],
            fonts[n - 1].installations.len() as int,
        )
    }
}

/// Appending part by part is appending the parts joined.
pub proof fn lemma_append_parts<A>(start: Seq<A>, parts: Seq<A>, part: Seq<A>)
    ensures
        (start + parts) + part == start + (parts + part),
{
    assert((start + parts) + part =~= start + (parts + part));
}

/// Two lists of identifiers that agree on the first `n` entries.
pub open spec fn agree(first: Seq<SourceUUID>, second: Seq<SourceUUID>, n: int) -> bool {
    &&& n <= first.len()
    &&& n <= second.len()
    &&& forall|k: int| 0 <= k < n ==> first[k] == second[k]
}

/// The identifiers taken after `n` entries depend on the first `n` entries
/// of `after` only.
pub proof fn lemma_seen_through_agree(
    seen: Set<Uuid>,
    before: Seq<SourceUUID>,
    first: Seq<SourceUUID>,
    second: Seq<SourceUUID>,
    mode: LintMode,
    n: int,
)
    requires
        agree(first, second, n),
    ensures
        seen_through(seen, before, first, mode, n) == seen_through(seen, before, second, mode, n),
    decreases n,
{
    if n > 0 {
        lemma_seen_through_agree(seen, before, first, second, mode, n - 1);
    }
}

/// The findings on the first `n` groups depend on the first `n` entries of
/// `after` only.
pub proof fn lemma_groups_findings_agree(
    groups: Seq<SourceGroupView>,
    first: Seq<SourceUUID>,
    second: Seq<SourceUUID>,
    fonts: Seq<SourceFontView>,
    mode: LintMode,
    n: int,
)
    requires
        agree(first, second, n),
    ensures
        groups_findings(groups, first, fonts, mode, n) == groups_findings(
            groups,
            second,
            fonts,
            mode,
            n,
        ),
    decreases n,
{
    if n > 0 {
        lemma_groups_findings_agree(groups, first, second, fonts, mode, n - 1);
        lemma_seen_through_agree(Set::empty(), group_ids(groups), first, second, mode, n - 1);
    }
}

/// The findings on the first `n` fonts depend on the first `n` entries of
/// `after` only.
pub proof fn lemma_fonts_findings_agree(
    fonts: Seq<SourceFontView>,
    first: Seq<SourceUUID>,
    second: Seq<SourceUUID>,
    seen: Set<Uuid>,
    mode: LintMode,
    n: int,
)
    requires
        agree(first, second, n),
    ensures
        fonts_findings(fonts, first, seen, mode, n) == fonts_findings(fonts, second, seen, mode, n),
    decreases n,
{
    if n > 0 {
        lemma_fonts_findings_agree(fonts, first, second, seen, mode, n - 1);
        lemma_seen_through_agree(seen, font_ids(fonts), first, second, mode, n - 1);
    }
}

} // verus!
