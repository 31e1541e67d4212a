//! The compiler: from a linted manifest and the payloads it refers to, to the
//! compiled artifact and the payloads that have yet to be published.

use vstd::prelude::*;
use vstd::string::StringExecFns;
use crate::ledger::{
    Downloadable, DownloadableView, DownloadsList, UploadableDownloadInfo, UploadView,
};
use crate::resolver::{reference_fits, resolve_step, DownloadResolver, Resolution};
use crate::text::str_eq;
use crate::types::{
    clone_list, lemma_views_push, views, CabextractInstalationCompiled, Compiled, CompiledFont,
    CompiledFontView, CompiledGroup, CompiledGroupView, CompiledInstalationType,
    CompiledInstalationView, CompiledView, DownloadView, Source, SourceDownload, SourceFont,
    SourceFontView, SourceGroup, SourceGroupView, SourceInstalationType, SourceInstalationView,
    SourceUUID, SourceView, Uuid,
};
use crate::urls::BaseUrl;

verus! {

/// Why a build failed.
#[derive(Debug, PartialEq, Eq)]
pub enum BuildError {
    /// An entry has no identifier; the text says which.
    UnexpectedEmptyUuid(String),
    /// A group lists a font that the manifest lacks.
    MissingFont(String),
    /// The payload at this address could not be fetched; the text says why.
    DownloadFailed(String, String),
    /// The payload at this path could not be read; the text says why.
    FileError(String, String),
}

/// A build failure as a mathematical value.
pub enum BuildErrorView {
    UnexpectedEmptyUuid(Seq<char>),
    MissingFont(Seq<char>),
    DownloadFailed(Seq<char>, Seq<char>),
    FileError(Seq<char>, Seq<char>),
}

impl View for BuildError {
    type V = BuildErrorView;

    open spec fn view(&self) -> BuildErrorView {
        match self {
            BuildError::UnexpectedEmptyUuid(what) => BuildErrorView::UnexpectedEmptyUuid(what@),
            BuildError::MissingFont(name) => BuildErrorView::MissingFont(name@),
            BuildError::DownloadFailed(url, detail) => BuildErrorView::DownloadFailed(
                url@,
                detail@,
            ),
            BuildError::FileError(path, detail) => BuildErrorView::FileError(path@, detail@),
        }
    }
}

/// The view of the outcome of a step of the build.
pub open spec fn outcome<T: View>(r: Result<T, BuildError>) -> Result<T::V, BuildErrorView> {
    match r {
        Ok(value) => Ok(value@),
        Err(e) => Err(e@),
    }
}

/// The position of the first font at or after `from` with this name; the
/// number of fonts if there is none.
pub open spec fn font_position(fonts: Seq<SourceFontView>, name: Seq<char>, from: int) -> int
    decreases fonts.len() - from,
{
    if from < 0 || from >= fonts.len() {
        fonts.len() as int
    } else if fonts[from].name == name {
        from
    } else {
        font_position(fonts, name, from + 1)
    }
}

/// The identifier of the font that a group refers to by `name`: that of the
/// first font of this name.
pub open spec fn referenced_id(fonts: Seq<SourceFontView>, name: Seq<char>) -> Result<
    Uuid,
    BuildErrorView,
> {
    let position = font_position(fonts, name, 0);
    if position >= fonts.len() {
        Err(BuildErrorView::MissingFont(name))
    } else {
        match fonts[position].id {
            SourceUUID::Uuid(id) => Ok(id),
            SourceUUID::Null => Err(BuildErrorView::UnexpectedEmptyUuid("group -> font: "@ + name)),
        }
    }
}

/// The identifiers of the fonts that the first `n` references name, or the
/// first failure among them.
pub open spec fn referenced_ids(fonts: Seq<SourceFontView>, references: Seq<Seq<char>>, n: int) -> Result<
    Seq<Uuid>,
    BuildErrorView,
>
    decreases n,
{
    if n <= 0 {
        Ok(Seq::empty())
    } else {
        match referenced_ids(fonts, references, n - 1) {
            Err(e) => Err(e),
            Ok(ids) => match referenced_id(fonts, references[n - 1]) {
                Err(e) => Err(e),
                Ok(id) => Ok(ids.push(id)),
            },
        }
    }
}

/// The group compiled: its fonts by identifier, its own identifier.
pub open spec fn compiled_group(fonts: Seq<SourceFontView>, group: SourceGroupView) -> Result<
    CompiledGroupView,
    BuildErrorView,
> {
    match referenced_ids(fonts, group.fonts, group.fonts.len() as int) {
        Err(e) => Err(e),
        Ok(ids) => match group.id {
            SourceUUID::Uuid(id) => Ok(CompiledGroupView { id, name: group.name, fonts: ids }),
            SourceUUID::Null => Err(BuildErrorView::UnexpectedEmptyUuid("group: "@ + group.name)),
        },
    }
}

/// The first `n` groups compiled, or the first failure among them.
pub open spec fn compiled_groups(
    fonts: Seq<SourceFontView>,
    groups: Seq<SourceGroupView>,
    n: int,
) -> Result<Seq<CompiledGroupView>, BuildErrorView>
    decreases n,
{
    if n <= 0 {
        Ok(Seq::empty())
    } else {
        match compiled_groups(fonts, groups, n - 1) {
            Err(e) => Err(e),
            Ok(done) => match compiled_group(fonts, groups[n - 1]) {
                Err(e) => Err(e),
                Ok(group) => Ok(done.push(group)),
            },
        }
    }
}

/// The text made of a label and a name.
fn labelled(label: &str, name: &str) -> (r: String)
    ensures
        r@ == label@ + name@,
{
    let mut text = String::from_str(label);
    text.append(name);
    text
}

/// The identifier of the font that a group refers to by `name`.
fn find_referenced(fonts: &Vec<SourceFont>, name: &String) -> (r: Result<Uuid, BuildError>)
    ensures
        match r {
            Ok(id) => referenced_id(views(fonts@), name@) == Ok::<Uuid, BuildErrorView>(id),
            Err(e) => referenced_id(views(fonts@), name@) == Err::<Uuid, BuildErrorView>(e@),
        },
{
    let mut i: usize = 0;
    while i < fonts.len()
        invariant
            i <= fonts.len(),
            font_position(views(fonts@), name@, 0) == font_position(
                views(fonts@),
                name@,
                i as int,
            ),
        decreases fonts.len() - i,
    {
        assert(views(fonts@)[i as int] == fonts[i as int]@);
        if str_eq(fonts[i].name.as_str(), name.as_str()) {
            return match fonts[i].id {
                SourceUUID::Uuid(id) => Ok(id),
                SourceUUID::Null => Err(
                    BuildError::UnexpectedEmptyUuid(labelled("group -> font: ", name.as_str())),
                ),
            };
        }
        i += 1;
    }
    Err(BuildError::MissingFont(name.clone()))
}

/// Compiles a group.
fn compile_group(fonts: &Vec<SourceFont>, group: &SourceGroup) -> (r: Result<
    CompiledGroup,
    BuildError,
>)
    ensures
        outcome(r) == compiled_group(views(fonts@), group@),
{
    let mut ids: Vec<Uuid> = Vec::new();
    let mut k: usize = 0;
    while k < group.fonts.len()
        invariant
            k <= group.fonts.len(),
            referenced_ids(views(fonts@), group@.fonts, k as int) == Ok::<
                Seq<Uuid>,
                BuildErrorView,
            >(ids@),
        decreases group.fonts.len() - k,
    {
        assert(group@.fonts[k as int] == group.fonts[k as int]@);
        match find_referenced(fonts, &group.fonts[k]) {
            Ok(id) => {
                ids.push(id);
            },
            Err(e) => {
                proof {
                    lemma_first_reference_failure(
                        views(fonts@),
                        group@.fonts,
                        k + 1,
                        group.fonts.len() as int,
                    );
                }
                return Err(e);
            },
        }
        k += 1;
    }
    match group.id {
        SourceUUID::Uuid(id) => Ok(CompiledGroup { id, name: group.name.clone(), fonts: ids }),
        SourceUUID::Null => Err(
            BuildError::UnexpectedEmptyUuid(labelled("group: ", group.name.as_str())),
        ),
    }
}

/// A failure among the first `n` references is the failure among the first
/// `m`, for every `m` from `n` on.
pub proof fn lemma_first_reference_failure(
    fonts: Seq<SourceFontView>,
    references: Seq<Seq<char>>,
    n: int,
    m: int,
)
    requires
        n <= m,
        referenced_ids(fonts, references, n) is Err,
    ensures
        referenced_ids(fonts, references, m) == referenced_ids(fonts, references, n),
    decreases m - n,
{
    if n < m {
        lemma_first_reference_failure(fonts, references, n, m - 1);
    }
}

/// A failure among the first `n` groups is the failure among the first `m`,
/// for every `m` from `n` on.
pub proof fn lemma_first_group_failure(
    fonts: Seq<SourceFontView>,
    groups: Seq<SourceGroupView>,
    n: int,
    m: int,
)
    requires
        n <= m,
        compiled_groups(fonts, groups, n) is Err,
    ensures
        compiled_groups(fonts, groups, m) == compiled_groups(fonts, groups, n),
    decreases m - n,
{
    if n < m {
        lemma_first_group_failure(fonts, groups, n, m - 1);
    }
}

/// Compiles the groups.
fn compile_groups(fonts: &Vec<SourceFont>, groups: &Vec<SourceGroup>) -> (r: Result<
    Vec<CompiledGroup>,
    BuildError,
>)
    ensures
        match r {
            Ok(done) => compiled_groups(views(fonts@), views(groups@), groups.len() as int) == Ok::<
                Seq<CompiledGroupView>,
                BuildErrorView,
            >(views(done@)),
            Err(e) => compiled_groups(views(fonts@), views(groups@), groups.len() as int) == Err::<
                Seq<CompiledGroupView>,
                BuildErrorView,
            >(e@),
        },
{
    let mut done: Vec<CompiledGroup> = Vec::new();
    let mut i: usize = 0;
    assert(views(done@) =~= Seq::empty());
    while i < groups.len()
        invariant
            i <= groups.len(),
            compiled_groups(views(fonts@), views(groups@), i as int) == Ok::<
                Seq<CompiledGroupView>,
                BuildErrorView,
            >(views(done@)),
        decreases groups.len() - i,
    {
        assert(views(groups@)[i as int] == groups[i as int]@);
        match compile_group(fonts, &groups[i]) {
            Ok(group) => {
                proof {
                    lemma_views_push(done@, group);
                }
                done.push(group);
            },
            Err(e) => {
                proof {
                    lemma_first_group_failure(
                        views(fonts@),
                        views(groups@),
                        i + 1,
                        groups.len() as int,
                    );
                }
                return Err(e);
            },
        }
        i += 1;
    }
    Ok(done)
}

/// The outcome of materializing a reference: the bytes, or why there are
/// none.
#[derive(Debug, PartialEq, Eq)]
pub enum Payload {
    Content(Vec<u8>),
    Failed(String),
}

/// The outcome of materializing a reference as a mathematical value.
pub enum PayloadView {
    Content(Seq<u8>),
    Failed(Seq<char>),
}

impl View for Payload {
    type V = PayloadView;

    open spec fn view(&self) -> PayloadView {
        match self {
            Payload::Content(bytes) => PayloadView::Content(bytes@),
            Payload::Failed(detail) => PayloadView::Failed(detail@),
        }
    }
}

/// The downloads of the first `n` installations of a font.
pub open spec fn installation_downloads(font: SourceFontView, n: int) -> Seq<DownloadView>
    decreases n,
{
    if n <= 0 {
        Seq::empty()
    } else {
        installation_downloads(font, n - 1).push(font.installations[n - 1].download())
    }
}

/// The downloads of the installations of the first `n` fonts, in order.
pub open spec fn all_downloads(fonts: Seq<SourceFontView>, n: int) -> Seq<DownloadView>
    decreases n,
{
    if n <= 0 {
        Seq::empty()
    } else {
        all_downloads(fonts, n - 1) + installation_downloads(
            fonts[n - 1],
            fonts[n - 1].installations.len() as int,
        )
    }
}

/// The first `n` references without repetitions, each where it first occurs.
pub open spec fn distinct(references: Seq<DownloadView>, n: int) -> Seq<DownloadView>
    decreases n,
{
    if n <= 0 {
        Seq::empty()
    } else {
        let earlier = distinct(references, n - 1);
        if earlier.contains(references[n - 1]) {
            earlier
        } else {
            earlier.push(references[n - 1])
        }
    }
}

/// The distinct references of a manifest, each where it first occurs.
pub open spec fn distinct_references(source: SourceView) -> Seq<DownloadView> {
    let all = all_downloads(source.fonts, source.fonts.len() as int);
    distinct(all, all.len() as int)
}

/// The position of the first reference at or after `from` equal to
/// `reference`; the number of references if there is none.
pub open spec fn reference_position(
    references: Seq<DownloadView>,
    reference: DownloadView,
    from: int,
) -> int
    decreases references.len() - from,
{
    if from < 0 || from >= references.len() {
        references.len() as int
    } else if references[from] == reference {
        from
    } else {
        reference_position(references, reference, from + 1)
    }
}

/// The failure to materialize a reference.
pub open spec fn materialization_failure(reference: DownloadView, detail: Seq<char>) -> BuildErrorView {
    match reference {
        DownloadView::ExternalResource(url) => BuildErrorView::DownloadFailed(url, detail),
        DownloadView::LocalResource(path) => BuildErrorView::FileError(path, detail),
    }
}

/// What a build says of a reference that has not been materialized.
pub const NOT_MATERIALIZED: &'static str = "not materialized";

/// The position of the first outcome at or after `from` that belongs to
/// `reference`; the number of outcomes if there is none.
pub open spec fn materialized_position(
    materialized: Seq<(DownloadView, PayloadView)>,
    reference: DownloadView,
    from: int,
) -> int
    decreases materialized.len() - from,
{
    if from < 0 || from >= materialized.len() {
        materialized.len() as int
    } else if materialized[from].0 == reference {
        from
    } else {
        materialized_position(materialized, reference, from + 1)
    }
}

/// The outcome of materializing `reference`: the first one that belongs to
/// it; a failure if there is none.
pub open spec fn payload_of(
    materialized: Seq<(DownloadView, PayloadView)>,
    reference: DownloadView,
) -> PayloadView {
    let position = materialized_position(materialized, reference, 0);
    if position < materialized.len() {
        materialized[position].1
    } else {
        PayloadView::Failed(NOT_MATERIALIZED@)
    }
}

/// The outcomes of materializing the references, in the order of the
/// references.
pub open spec fn payloads_for(
    references: Seq<DownloadView>,
    materialized: Seq<(DownloadView, PayloadView)>,
) -> Seq<PayloadView> {
    Seq::new(references.len(), |k: int| payload_of(materialized, references[k]))
}

/// The state of the resolver after the first `n` references, or the first
/// failure to materialize one of them. `minted` and `extensions` hold for
/// each reference the identifier and the file extension to use if its content
/// is new.
pub open spec fn resolved_through(
    references: Seq<DownloadView>,
    payloads: Seq<PayloadView>,
    ledger: Seq<DownloadableView>,
    base: Seq<char>,
    minted: Seq<Uuid>,
    extensions: Seq<Option<Seq<char>>>,
    n: int,
) -> Result<Resolution, BuildErrorView>
    decreases n,
{
    if n <= 0 {
        Ok(Resolution { records: Seq::empty(), uploads: Seq::empty(), assigned: Seq::empty() })
    } else {
        match resolved_through(references, payloads, ledger, base, minted, extensions, n - 1) {
            Err(e) => Err(e),
            Ok(state) => match payloads[n - 1] {
                PayloadView::Content(bytes) => Ok(
                    resolve_step(
                        state,
                        references[n - 1],
                        bytes,
                        ledger,
                        base,
                        minted[n - 1],
                        extensions[n - 1],
                    ),
                ),
                PayloadView::Failed(detail) => Err(
                    materialization_failure(references[n - 1], detail),
                ),
            },
        }
    }
}

/// Whether each extension can stand for the file of its reference.
pub open spec fn extensions_fit(
    references: Seq<DownloadView>,
    extensions: Seq<Option<Seq<char>>>,
) -> bool {
    forall|k: int|
        0 <= k < extensions.len() && k < references.len() ==> reference_fits(
            references[k],
            #[trigger] extensions[k],
        )
}

/// The first font among the first `n` that has no identifier, as a failure.
pub open spec fn unassigned_font(fonts: Seq<SourceFontView>, n: int) -> Option<BuildErrorView>
    decreases n,
{
    if n <= 0 {
        None
    } else {
        match unassigned_font(fonts, n - 1) {
            Some(e) => Some(e),
            None => match fonts[n - 1].id {
                SourceUUID::Uuid(_) => None,
                SourceUUID::Null => Some(
                    BuildErrorView::UnexpectedEmptyUuid("font: "@ + fonts[n - 1].name),
                ),
            },
        }
    }
}

/// The installation compiled: its download is the identifier assigned to its
/// reference.
pub open spec fn compiled_installation(
    installation: SourceInstalationView,
    references: Seq<DownloadView>,
    assigned: Seq<Uuid>,
) -> CompiledInstalationView {
    match installation {
        SourceInstalationView::Cabextract { download, files } => CompiledInstalationView::Cabextract {
            download: assigned[reference_position(references, download, 0)],
            files,
        },
    }
}

/// The font compiled.
pub open spec fn compiled_font(
    font: SourceFontView,
    references: Seq<DownloadView>,
    assigned: Seq<Uuid>,
) -> CompiledFontView {
    CompiledFontView {
        id: match font.id {
            SourceUUID::Uuid(id) => id,
            SourceUUID::Null => 0,
        },
        name: font.name,
        short_name: font.short_name,
        publisher: font.publisher,
        categories: font.categories,
        installations: Seq::new(
            font.installations.len(),
            |j: int| compiled_installation(font.installations[j], references, assigned),
        ),
    }
}

/// The fonts compiled.
pub open spec fn compiled_fonts(
    fonts: Seq<SourceFontView>,
    references: Seq<DownloadView>,
    assigned: Seq<Uuid>,
) -> Seq<CompiledFontView> {
    Seq::new(fonts.len(), |i: int| compiled_font(fonts[i], references, assigned))
}

/// The result of a build: the payloads to publish and the compiled artifact,
/// or the first failure: among the groups, then among the fonts, then among
/// the payloads. `minted` and `extensions` hold for each distinct reference
/// the identifier and the file extension to use if its content is new.
pub open spec fn build_result(
    version: semver::Version,
    source: SourceView,
    base: Seq<char>,
    ledger: Seq<DownloadableView>,
    payloads: Seq<PayloadView>,
    minted: Seq<Uuid>,
    extensions: Seq<Option<Seq<char>>>,
) -> Result<(Seq<UploadView>, CompiledView), BuildErrorView> {
    let references = distinct_references(source);
    match compiled_groups(source.fonts, source.groups, source.groups.len() as int) {
        Err(e) => Err(e),
        Ok(groups) => match unassigned_font(source.fonts, source.fonts.len() as int) {
            Some(e) => Err(e),
            None => match resolved_through(
                references,
                payloads,
                ledger,
                base,
                minted,
                extensions,
                references.len() as int,
            ) {
                Err(e) => Err(e),
                Ok(state) => Ok(
                    (
                        state.uploads,
                        CompiledView {
                            version,
                            downloads: state.records,
                            groups,
                            fonts: compiled_fonts(source.fonts, references, state.assigned),
                        },
                    ),
                ),
            },
        },
    }
}

/// Whether the two references are the same.
pub fn download_eq(a: &SourceDownload, b: &SourceDownload) -> (r: bool)
    ensures
        r == (a@ == b@),
{
    match (a, b) {
        (SourceDownload::ExternalResource(x), SourceDownload::ExternalResource(y)) => str_eq(
            x.as_str(),
            y.as_str(),
        ),
        (SourceDownload::LocalResource(x), SourceDownload::LocalResource(y)) => str_eq(
            x.as_str(),
            y.as_str(),
        ),
        _ => false,
    }
}

/// The position of the first reference equal to `reference`; the number of
/// references if there is none.
fn find_reference(references: &Vec<SourceDownload>, reference: &SourceDownload) -> (r: usize)
    ensures
        r == reference_position(views(references@), reference@, 0),
        r <= references.len(),
{
    let mut i: usize = 0;
    while i < references.len()
        invariant
            i <= references.len(),
            reference_position(views(references@), reference@, 0) == reference_position(
                views(references@),
                reference@,
                i as int,
            ),
        decreases references.len() - i,
    {
        assert(views(references@)[i as int] == references[i as int]@);
        if download_eq(&references[i], reference) {
            return i;
        }
        i += 1;
    }
    i
}

/// A reference is found in a list exactly if the list holds it.
pub proof fn lemma_reference_position(
    references: Seq<DownloadView>,
    reference: DownloadView,
    from: int,
)
    requires
        0 <= from <= references.len(),
    ensures
        from <= reference_position(references, reference, from) <= references.len(),
        reference_position(references, reference, from) < references.len() ==> references[reference_position(
            references,
            reference,
            from,
        )] == reference,
        forall|k: int|
            from <= k < reference_position(references, reference, from) ==> references[k]
                != reference,
    decreases references.len() - from,
{
    if from < references.len() && references[from] != reference {
        lemma_reference_position(references, reference, from + 1);
    }
}

/// The downloads of the installations of the fonts, in order.
fn collect_downloads(fonts: &Vec<SourceFont>) -> (r: Vec<SourceDownload>)
    ensures
        views(r@) == all_downloads(views(fonts@), fonts.len() as int),
{
    let mut all: Vec<SourceDownload> = Vec::new();
    let mut i: usize = 0;
    assert(views(all@) =~= all_downloads(views(fonts@), 0));
    while i < fonts.len()
        invariant
            i <= fonts.len(),
            views(all@) == all_downloads(views(fonts@), i as int),
        decreases fonts.len() - i,
    {
        let font = &fonts[i];
        let ghost before = views(all@);
        let mut j: usize = 0;
        assert(views(fonts@)[i as int] == font@);
        assert(views(all@) =~= before + installation_downloads(font@, 0));
        while j < font.installations.len()
            invariant
                j <= font.installations.len(),
                views(all@) == before + installation_downloads(font@, j as int),
            decreases font.installations.len() - j,
        {
            assert(font@.installations[j as int] == font.installations[j as int]@);
            let download = match &font.installations[j] {
                SourceInstalationType::Cabextract(data) => data.download.clone(),
            };
            proof {
                lemma_views_push(all@, download);
                assert(before + installation_downloads(font@, j + 1) =~= (before
                    + installation_downloads(font@, j as int)).push(download@));
            }
            all.push(download);
            j += 1;
        }
        i += 1;
    }
    all
}

/// The distinct references of the manifest, each where it first occurs: what
/// a build needs the payloads of, in this order.
pub fn distinct_downloads(source: &Source) -> (r: Vec<SourceDownload>)
    ensures
        views(r@) == distinct_references(source@),
{
    let all = collect_downloads(&source.fonts);
    let mut found: Vec<SourceDownload> = Vec::new();
    let mut i: usize = 0;
    assert(views(found@) =~= distinct(views(all@), 0));
    while i < all.len()
        invariant
            i <= all.len(),
            views(found@) == distinct(views(all@), i as int),
        decreases all.len() - i,
    {
        assert(views(all@)[i as int] == all[i as int]@);
        let position = find_reference(&found, &all[i]);
        proof {
            lemma_reference_position(views(found@), all[i as int]@, 0);
        }
        if position == found.len() {
            proof {
                lemma_views_push(found@, all[i as int]);
            }
            found.push(all[i].clone());
        }
        i += 1;
    }
    found
}

/// A failure among the first `n` fonts is the failure among the first `m`,
/// for every `m` from `n` on.
pub proof fn lemma_first_unassigned_font(fonts: Seq<SourceFontView>, n: int, m: int)
    requires
        n <= m,
        unassigned_font(fonts, n) is Some,
    ensures
        unassigned_font(fonts, m) == unassigned_font(fonts, n),
    decreases m - n,
{
    if n < m {
        lemma_first_unassigned_font(fonts, n, m - 1);
    }
}

/// Fails on the first font without an identifier.
fn check_font_identifiers(fonts: &Vec<SourceFont>) -> (r: Result<(), BuildError>)
    ensures
        match r {
            Ok(_) => unassigned_font(views(fonts@), fonts.len() as int) is None,
            Err(e) => unassigned_font(views(fonts@), fonts.len() as int) == Some(e@),
        },
{
    let mut i: usize = 0;
    while i < fonts.len()
        invariant
            i <= fonts.len(),
            unassigned_font(views(fonts@), i as int) is None,
        decreases fonts.len() - i,
    {
        assert(views(fonts@)[i as int] == fonts[i as int]@);
        match fonts[i].id {
            SourceUUID::Uuid(_) => {},
            SourceUUID::Null => {
                proof {
                    lemma_first_unassigned_font(views(fonts@), i + 1, fonts.len() as int);
                }
                return Err(
                    BuildError::UnexpectedEmptyUuid(labelled("font: ", fonts[i].name.as_str())),
                );
            },
        }
        i += 1;
    }
    Ok(())
}

/// A failure among the first `n` payloads is the failure among the first
/// `m`, for every `m` from `n` on.
pub proof fn lemma_first_payload_failure(
    references: Seq<DownloadView>,
    payloads: Seq<PayloadView>,
    ledger: Seq<DownloadableView>,
    base: Seq<char>,
    minted: Seq<Uuid>,
    extensions: Seq<Option<Seq<char>>>,
    n: int,
    m: int,
)
    requires
        n <= m,
        resolved_through(references, payloads, ledger, base, minted, extensions, n) is Err,
    ensures
        resolved_through(references, payloads, ledger, base, minted, extensions, m)
            == resolved_through(references, payloads, ledger, base, minted, extensions, n),
    decreases m - n,
{
    if n < m {
        lemma_first_payload_failure(references, payloads, ledger, base, minted, extensions, n, m - 1);
    }
}

/// The state after `n` references depends on the first `n` entries of
/// `minted` and `extensions` only.
pub proof fn lemma_resolved_through_agrees(
    references: Seq<DownloadView>,
    payloads: Seq<PayloadView>,
    ledger: Seq<DownloadableView>,
    base: Seq<char>,
    minted: Seq<Uuid>,
    extensions: Seq<Option<Seq<char>>>,
    other_minted: Seq<Uuid>,
    other_extensions: Seq<Option<Seq<char>>>,
    n: int,
)
    requires
        n <= minted.len(),
        n <= other_minted.len(),
        n <= extensions.len(),
        n <= other_extensions.len(),
        forall|k: int| 0 <= k < n ==> minted[k] == other_minted[k],
        forall|k: int| 0 <= k < n ==> extensions[k] == other_extensions[k],
    ensures
        resolved_through(references, payloads, ledger, base, minted, extensions, n)
            == resolved_through(
            references,
            payloads,
            ledger,
            base,
            other_minted,
            other_extensions,
            n,
        ),
    decreases n,
{
    if n > 0 {
        lemma_resolved_through_agrees(
            references,
            payloads,
            ledger,
            base,
            minted,
            extensions,
            other_minted,
            other_extensions,
            n - 1,
        );
    }
}

/// After `n` references, `n` identifiers have been assigned.
pub proof fn lemma_assigned_len(
    references: Seq<DownloadView>,
    payloads: Seq<PayloadView>,
    ledger: Seq<DownloadableView>,
    base: Seq<char>,
    minted: Seq<Uuid>,
    extensions: Seq<Option<Seq<char>>>,
    n: int,
)
    requires
        0 <= n,
        resolved_through(references, payloads, ledger, base, minted, extensions, n) is Ok,
    ensures
        resolved_through(references, payloads, ledger, base, minted, extensions, n) matches Ok(
            state,
        ) && state.assigned.len() == n,
    decreases n,
{
    if n > 0 {
        lemma_assigned_len(references, payloads, ledger, base, minted, extensions, n - 1);
    }
}

/// The position of the first outcome that belongs to `reference`; the number
/// of outcomes if there is none.
fn find_materialized(materialized: &Vec<(SourceDownload, Payload)>, reference: &SourceDownload) -> (r:
    usize)
    ensures
        r == materialized_position(views(materialized@), reference@, 0),
        r <= materialized.len(),
{
    let mut i: usize = 0;
    while i < materialized.len()
        invariant
            i <= materialized.len(),
            materialized_position(views(materialized@), reference@, 0) == materialized_position(
                views(materialized@),
                reference@,
                i as int,
            ),
        decreases materialized.len() - i,
    {
        assert(views(materialized@)[i as int] == materialized[i as int]@);
        if download_eq(&materialized[i].0, reference) {
            return i;
        }
        i += 1;
    }
    i
}

/// The failure to materialize a reference.
fn failure_of(reference: &SourceDownload, detail: &str) -> (r: BuildError)
    ensures
        r@ == materialization_failure(reference@, detail@),
{
    match reference {
        SourceDownload::ExternalResource(url) => BuildError::DownloadFailed(
            url.clone(),
            detail.to_owned(),
        ),
        SourceDownload::LocalResource(path) => BuildError::FileError(
            path.clone(),
            detail.to_owned(),
        ),
    }
}

/// Resolves the references in order, each with its payload.
fn resolve_all(
    references: &Vec<SourceDownload>,
    materialized: &Vec<(SourceDownload, Payload)>,
    ledger: &Vec<Downloadable>,
    base_url: &BaseUrl,
) -> (r: (Result<DownloadResolver, BuildError>, Ghost<Seq<Uuid>>, Ghost<Seq<Option<Seq<char>>>>))
    ensures
        extensions_fit(views(references@), r.2@),
        outcome(r.0) == resolved_through(
            views(references@),
            payloads_for(views(references@), views(materialized@)),
            views(ledger@),
            base_url@,
            r.1@,
            r.2@,
            references.len() as int,
        ),
{
    let ghost payloads = payloads_for(views(references@), views(materialized@));
    let mut resolver = DownloadResolver::new();
    let ghost mut minted: Seq<Uuid> = Seq::empty();
    let ghost mut extensions: Seq<Option<Seq<char>>> = Seq::empty();
    let mut k: usize = 0;
    while k < references.len()
        invariant
            k <= references.len(),
            payloads == payloads_for(views(references@), views(materialized@)),
            minted.len() == k,
            extensions.len() == k,
            extensions_fit(views(references@), extensions),
            resolved_through(
                views(references@),
                payloads,
                views(ledger@),
                base_url@,
                minted,
                extensions,
                k as int,
            ) == Ok::<Resolution, BuildErrorView>(resolver@),
        decreases references.len() - k,
    {
        assert(views(references@)[k as int] == references[k as int]@);
        let ghost earlier_minted = minted;
        let ghost earlier_extensions = extensions;
        let at = find_materialized(materialized, &references[k]);
        assert(payloads[k as int] == payload_of(views(materialized@), references[k as int]@));
        let failure = if at < materialized.len() {
            assert(views(materialized@)[at as int] == materialized[at as int]@);
            match &materialized[at].1 {
                Payload::Content(bytes) => {
                    let chosen = resolver.resolve(&references[k], bytes, ledger, base_url);
                    proof {
                        minted = minted.push(chosen.0@);
                        extensions = extensions.push(chosen.1@);
                    }
                    None
                },
                Payload::Failed(detail) => {
                    proof {
                        minted = minted.push(0);
                        extensions = extensions.push(None);
                    }
                    Some(failure_of(&references[k], detail.as_str()))
                },
            }
        } else {
            proof {
                minted = minted.push(0);
                extensions = extensions.push(None);
            }
            Some(failure_of(&references[k], NOT_MATERIALIZED))
        };
        proof {
            lemma_resolved_through_agrees(
                views(references@),
                payloads,
                views(ledger@),
                base_url@,
                earlier_minted,
                earlier_extensions,
                minted,
                extensions,
                k as int,
            );
        }
        match failure {
            Some(error) => {
                proof {
                    lemma_first_payload_failure(
                        views(references@),
                        payloads,
                        views(ledger@),
                        base_url@,
                        minted,
                        extensions,
                        k + 1,
                        references.len() as int,
                    );
                }
                return (Err(error), Ghost(minted), Ghost(extensions));
            },
            None => {},
        }
        k += 1;
    }
    (Ok(resolver), Ghost(minted), Ghost(extensions))
}

/// Every one of the first `n` references is among the first `n` distinct
/// ones.
pub proof fn lemma_distinct_holds_all(references: Seq<DownloadView>, n: int, k: int)
    requires
        0 <= k < n <= references.len(),
    ensures
        distinct(references, n).contains(references[k]),
    decreases n,
{
    let earlier = distinct(references, n - 1);
    if k < n - 1 {
        lemma_distinct_holds_all(references, n - 1, k);
        let at = choose|at: int| 0 <= at < earlier.len() && earlier[at] == references[k];
        assert(distinct(references, n)[at] == references[k]);
    } else if earlier.contains(references[n - 1]) {
    } else {
        assert(earlier.push(references[n - 1])[earlier.len() as int] == references[k]);
    }
}

/// The download of each installation of each font is among the downloads of
/// the fonts.
pub proof fn lemma_all_downloads_hold(fonts: Seq<SourceFontView>, n: int, i: int, j: int)
    requires
        0 <= i < n <= fonts.len(),
        0 <= j < fonts[i].installations.len(),
    ensures
        all_downloads(fonts, n).contains(fonts[i].installations[j].download()),
    decreases n,
{
    let last = installation_downloads(fonts[n - 1], fonts[n - 1].installations.len() as int);
    let earlier = all_downloads(fonts, n - 1);
    if i < n - 1 {
        lemma_all_downloads_hold(fonts, n - 1, i, j);
        let at = choose|at: int|
            0 <= at < earlier.len() && earlier[at] == fonts[i].installations[j].download();
        assert((earlier + last)[at] == fonts[i].installations[j].download());
    } else {
        lemma_installation_downloads(fonts[i], fonts[i].installations.len() as int);
        assert((earlier + last)[earlier.len() + j] == last[j]);
    }
}

/// The downloads of the first `n` installations, one by one.
pub proof fn lemma_installation_downloads(font: SourceFontView, n: int)
    requires
        0 <= n <= font.installations.len(),
    ensures
        installation_downloads(font, n).len() == n,
        forall|j: int|
            0 <= j < n ==> #[trigger] installation_downloads(font, n)[j]
                == font.installations[j].download(),
    decreases n,
{
    if n > 0 {
        lemma_installation_downloads(font, n - 1);
    }
}

/// The download of each installation of the manifest has a position among
/// the distinct references.
pub proof fn lemma_reference_known(source: SourceView, i: int, j: int)
    requires
        0 <= i < source.fonts.len(),
        0 <= j < source.fonts[i].installations.len(),
    ensures
        0 <= reference_position(
            distinct_references(source),
            source.fonts[i].installations[j].download(),
            0,
        ) < distinct_references(source).len(),
{
    let all = all_downloads(source.fonts, source.fonts.len() as int);
    let download = source.fonts[i].installations[j].download();
    lemma_all_downloads_hold(source.fonts, source.fonts.len() as int, i, j);
    let k = choose|k: int| 0 <= k < all.len() && all[k] == download;
    lemma_distinct_holds_all(all, all.len() as int, k);
    let references = distinct_references(source);
    lemma_reference_position(references, download, 0);
    let at = choose|at: int| 0 <= at < references.len() && references[at] == download;
    if reference_position(references, download, 0) >= references.len() {
        assert(references[at] != download);
    }
}

/// Whether each installation's download has a position among the
/// references.
pub open spec fn references_known(font: SourceFontView, references: Seq<DownloadView>) -> bool {
    forall|j: int|
        0 <= j < font.installations.len() ==> reference_position(
            references,
            (#[trigger] font.installations[j]).download(),
            0,
        ) < references.len()
}

/// Compiles a font.
fn compile_font(font: &SourceFont, references: &Vec<SourceDownload>, assigned: &Vec<Uuid>) -> (r:
    CompiledFont)
    requires
        assigned.len() == references.len(),
        references_known(font@, views(references@)),
    ensures
        r@ == compiled_font(font@, views(references@), assigned@),
{
    let mut installations: Vec<CompiledInstalationType> = Vec::new();
    let mut j: usize = 0;
    while j < font.installations.len()
        invariant
            j <= font.installations.len(),
            installations.len() == j,
            assigned.len() == references.len(),
            references_known(font@, views(references@)),
            forall|k: int|
                0 <= k < j ==> (#[trigger] installations[k])@ == compiled_installation(
                    font@.installations[k],
                    views(references@),
                    assigned@,
                ),
        decreases font.installations.len() - j,
    {
        assert(font@.installations[j as int] == font.installations[j as int]@);
        let compiled = match &font.installations[j] {
            SourceInstalationType::Cabextract(data) => {
                let position = find_reference(references, &data.download);
                CompiledInstalationType::Cabextract(
                    CabextractInstalationCompiled {
                        download: assigned[position],
                        files: clone_list(&data.files),
                    },
                )
            },
        };
        installations.push(compiled);
        j += 1;
    }
    let compiled = CompiledFont {
        id: match font.id {
            SourceUUID::Uuid(id) => id,
            SourceUUID::Null => 0,
        },
        name: font.name.clone(),
        short_name: font.short_name.clone(),
        publisher: font.publisher.clone(),
        categories: font.categories.clone(),
        installations,
    };
    assert(compiled@.installations =~= compiled_font(
        font@,
        views(references@),
        assigned@,
    ).installations);
    compiled
}

/// Compiles the fonts.
fn compile_fonts(fonts: &Vec<SourceFont>, references: &Vec<SourceDownload>, assigned: &Vec<Uuid>) -> (r:
    Vec<CompiledFont>)
    requires
        assigned.len() == references.len(),
        forall|i: int| 0 <= i < fonts.len() ==> references_known(
            (#[trigger] fonts[i])@,
            views(references@),
        ),
    ensures
        views(r@) == compiled_fonts(views(fonts@), views(references@), assigned@),
{
    let mut done: Vec<CompiledFont> = Vec::new();
    let mut i: usize = 0;
    while i < fonts.len()
        invariant
            i <= fonts.len(),
            done.len() == i,
            assigned.len() == references.len(),
            forall|k: int| 0 <= k < fonts.len() ==> references_known(
                (#[trigger] fonts[k])@,
                views(references@),
            ),
            forall|k: int|
                0 <= k < i ==> (#[trigger] done[k])@ == compiled_font(
                    fonts[k]@,
                    views(references@),
                    assigned@,
                ),
        decreases fonts.len() - i,
    {
        let font = compile_font(&fonts[i], references, assigned);
        done.push(font);
        i += 1;
    }
    assert(views(done@) =~= compiled_fonts(views(fonts@), views(references@), assigned@));
    done
}

/// The view of the outcome of a build.
pub open spec fn build_outcome(r: Result<(Vec<UploadableDownloadInfo>, Compiled), BuildError>) -> Result<
    (Seq<UploadView>, CompiledView),
    BuildErrorView,
> {
    match r {
        Ok((uploads, compiled)) => Ok((views(uploads@), compiled@)),
        Err(e) => Err(e@),
    }
}

/// Compiles the manifest. `materialized` holds the outcome of materializing
/// each distinct reference of the manifest: its bytes or the reason why there
/// are none; a reference without an outcome counts as not materialized. The
/// build fails on the first group that cannot be compiled, else on the first
/// font without an identifier, else on the first distinct reference without
/// bytes. Otherwise every distinct content gets one record: the ledger's
/// where the ledger knows the content, a new one with a random identifier
/// where it does not; each installation refers to the record of its content;
/// local payloads with new content are returned for publishing. The address
/// of such a payload ends in an extension that fits its path.
pub fn build(
    version: semver::Version,
    source: &Source,
    base_url: &BaseUrl,
    downloadables: DownloadsList,
    materialized: Vec<(SourceDownload, Payload)>,
) -> (r: Result<(Vec<UploadableDownloadInfo>, Compiled), BuildError>)
    ensures
        exists|minted: Seq<Uuid>, extensions: Seq<Option<Seq<char>>>|
            extensions_fit(distinct_references(source@), extensions) && build_outcome(r)
                == #[trigger] build_result(
                version,
                source@,
                base_url@,
                views(downloadables@),
                payloads_for(distinct_references(source@), views(materialized@)),
                minted,
                extensions,
            ),
{
    let ghost none = Seq::<Uuid>::empty();
    let ghost no_extension = Seq::<Option<Seq<char>>>::empty();
    let ghost payloads = payloads_for(distinct_references(source@), views(materialized@));
    let groups = match compile_groups(&source.fonts, &source.groups) {
        Ok(groups) => groups,
        Err(e) => {
            assert(build_outcome(Err(e)) == build_result(
                version,
                source@,
                base_url@,
                views(downloadables@),
                payloads,
                none,
                no_extension,
            ));
            return Err(e);
        },
    };
    match check_font_identifiers(&source.fonts) {
        Ok(_) => {},
        Err(e) => {
            assert(build_outcome(Err(e)) == build_result(
                version,
                source@,
                base_url@,
                views(downloadables@),
                payloads,
                none,
                no_extension,
            ));
            return Err(e);
        },
    }
    let references = distinct_downloads(source);
    let (resolved, Ghost(minted), Ghost(extensions)) = resolve_all(
        &references,
        &materialized,
        &downloadables,
        base_url,
    );
    let resolver = match resolved {
        Ok(resolver) => resolver,
        Err(e) => {
            assert(build_outcome(Err(e)) == build_result(
                version,
                source@,
                base_url@,
                views(downloadables@),
                payloads,
                minted,
                extensions,
            ));
            return Err(e);
        },
    };
    proof {
        lemma_assigned_len(
            views(references@),
            payloads,
            views(downloadables@),
            base_url@,
            minted,
            extensions,
            references.len() as int,
        );
        assert forall|i: int| 0 <= i < source.fonts.len() implies references_known(
            (#[trigger] source.fonts[i])@,
            views(references@),
        ) by {
            assert(source@.fonts[i] == source.fonts[i]@);
            assert forall|j: int| 0 <= j < source.fonts[i]@.installations.len() implies reference_position(
                views(references@),
                (#[trigger] source.fonts[i]@.installations[j]).download(),
                0,
            ) < references.len() by {
                lemma_reference_known(source@, i, j);
            }
        }
    }
    let fonts = compile_fonts(&source.fonts, &references, &resolver.assigned);
    let compiled = Compiled { version, downloads: resolver.records, groups, fonts };
    let r = Ok((resolver.uploads, compiled));
    assert(build_outcome(r) == build_result(
        version,
        source@,
        base_url@,
        views(downloadables@),
        payloads,
        minted,
        extensions,
    ));
    r
}

} // verus!
