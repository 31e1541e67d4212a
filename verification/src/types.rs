//! The manifest as it is authored, the artifact compiled from it, and the
//! mathematical view of each.

use vstd::prelude::*;

verus! {

/// A 128-bit identifier, held as the number whose big-endian bytes are the
/// identifier's sixteen bytes.
pub type Uuid = u128;

/// The views of the items of a sequence, in order.
pub open spec fn views<T: View>(s: Seq<T>) -> Seq<T::V> {
    Seq::new(s.len(), |i: int| s[i]@)
}

/// The views of a list with one more item are the views of the list with the
/// view of the item.
pub proof fn lemma_views_push<T: View>(s: Seq<T>, item: T)
    ensures
        views(s.push(item)) == views(s).push(item@),
{
    assert(views(s.push(item)) =~= views(s).push(item@));
}

/// A copy of the list, item by item.
pub fn clone_list<T: Clone + View>(list: &Vec<T>) -> (r: Vec<T>)
    requires
        forall|a: T, b: T| call_ensures(T::clone, (&a,), b) ==> b@ == a@,
    ensures
        views(r@) == views(list@),
{
    let mut out: Vec<T> = Vec::new();
    let mut i: usize = 0;
    while i < list.len()
        invariant
            i <= list.len(),
            out.len() == i,
            forall|a: T, b: T| call_ensures(T::clone, (&a,), b) ==> b@ == a@,
            views(out@) == views(list@.subrange(0, i as int)),
        decreases list.len() - i,
    {
        let item = list[i].clone();
        assert(item@ == list[i as int]@);
        let ghost before = out@;
        out.push(item);
        i += 1;
        assert(views(out@) =~= views(list@.subrange(0, i as int))) by {
            assert(views(before) == views(list@.subrange(0, i - 1)));
            assert forall|k: int| 0 <= k < i implies views(out@)[k] == views(
                list@.subrange(0, i as int),
            )[k] by {
                if k < i - 1 {
                    assert(views(before)[k] == before[k]@);
                    assert(views(list@.subrange(0, i - 1))[k] == list@[k]@);
                }
            }
        }
    }
    assert(list@.subrange(0, i as int) =~= list@);
    out
}

/// An identifier as authored: concrete, or not yet assigned.
#[derive(Debug, Clone, Copy, PartialEq, Eq, Structural)]
pub enum SourceUUID {
    Uuid(Uuid),
    Null,
}

/// Where the payload of an installation comes from.
#[derive(Debug, PartialEq, Eq, Hash)]
pub enum SourceDownload {
    /// A web address; the payload may not be redistributed.
    ExternalResource(String),
    /// A path below the base directory; the payload may be redistributed.
    LocalResource(String),
}

/// A reference to a payload as a mathematical value.
pub enum DownloadView {
    ExternalResource(Seq<char>),
    LocalResource(Seq<char>),
}

impl View for SourceDownload {
    type V = DownloadView;

    open spec fn view(&self) -> DownloadView {
        match self {
            SourceDownload::ExternalResource(url) => DownloadView::ExternalResource(url@),
            SourceDownload::LocalResource(path) => DownloadView::LocalResource(path@),
        }
    }
}

impl Clone for SourceDownload {
    fn clone(&self) -> (r: Self)
        ensures
            r@ == self@,
    {
        match self {
            SourceDownload::ExternalResource(url) => SourceDownload::ExternalResource(url.clone()),
            SourceDownload::LocalResource(path) => SourceDownload::LocalResource(path.clone()),
        }
    }
}

/// Extraction of member files from a cabinet archive, as authored.
#[derive(Debug, PartialEq, Eq)]
pub struct CabextractInstalationSource {
    pub download: SourceDownload,
    pub files: Vec<String>,
}

/// Extraction of member files from a cabinet archive, compiled.
#[derive(Debug, PartialEq, Eq)]
pub struct CabextractInstalationCompiled {
    pub download: Uuid,
    pub files: Vec<String>,
}

/// An installation recipe as authored.
#[derive(Debug, PartialEq, Eq)]
pub enum SourceInstalationType {
    Cabextract(CabextractInstalationSource),
}

/// An installation recipe, compiled.
#[derive(Debug, PartialEq, Eq)]
pub enum CompiledInstalationType {
    Cabextract(CabextractInstalationCompiled),
}

/// An authored installation recipe as a mathematical value.
pub enum SourceInstalationView {
    Cabextract { download: DownloadView, files: Seq<Seq<char>> },
}

/// A compiled installation recipe as a mathematical value.
pub enum CompiledInstalationView {
    Cabextract { download: Uuid, files: Seq<Seq<char>> },
}

impl View for SourceInstalationType {
    type V = SourceInstalationView;

    open spec fn view(&self) -> SourceInstalationView {
        match self {
            SourceInstalationType::Cabextract(data) => SourceInstalationView::Cabextract {
                download: data.download@,
                files: views(data.files@),
            },
        }
    }
}

impl Clone for SourceInstalationType {
    fn clone(&self) -> (r: Self)
        ensures
            r@ == self@,
    {
        match self {
            SourceInstalationType::Cabextract(data) => SourceInstalationType::Cabextract(
                CabextractInstalationSource {
                    download: data.download.clone(),
                    files: clone_list(&data.files),
                },
            ),
        }
    }
}

impl View for CompiledInstalationType {
    type V = CompiledInstalationView;

    open spec fn view(&self) -> CompiledInstalationView {
        match self {
            CompiledInstalationType::Cabextract(data) => CompiledInstalationView::Cabextract {
                download: data.download,
                files: views(data.files@),
            },
        }
    }
}

impl Clone for CompiledInstalationType {
    fn clone(&self) -> (r: Self)
        ensures
            r@ == self@,
    {
        match self {
            CompiledInstalationType::Cabextract(data) => CompiledInstalationType::Cabextract(
                CabextractInstalationCompiled {
                    download: data.download,
                    files: clone_list(&data.files),
                },
            ),
        }
    }
}

impl SourceInstalationView {
    /// The download that the recipe refers to.
    pub open spec fn download(self) -> DownloadView {
        match self {
            SourceInstalationView::Cabextract { download, .. } => download,
        }
    }
}

impl CompiledInstalationView {
    /// The identifier of the download record that the recipe refers to.
    pub open spec fn download(self) -> Uuid {
        match self {
            CompiledInstalationView::Cabextract { download, .. } => download,
        }
    }
}

/// The category of a font.
#[derive(Debug, Clone, Copy, PartialEq, Eq, Structural)]
pub enum FontCategory {
    Serif,
    SansSerif,
    Monospace,
    Cursive,
    Display,
    Symbol,
}

/// A named group of fonts, as authored.
#[derive(Debug, PartialEq, Eq)]
pub struct SourceGroup {
    pub id: SourceUUID,
    pub name: String,
    pub fonts: Vec<String>,
}

/// An authored group as a mathematical value.
pub struct SourceGroupView {
    pub id: SourceUUID,
    pub name: Seq<char>,
    pub fonts: Seq<Seq<char>>,
}

impl View for SourceGroup {
    type V = SourceGroupView;

    open spec fn view(&self) -> SourceGroupView {
        SourceGroupView { id: self.id, name: self.name@, fonts: views(self.fonts@) }
    }
}

impl Clone for SourceGroup {
    fn clone(&self) -> (r: Self)
        ensures
            r@ == self@,
    {
        SourceGroup { id: self.id, name: self.name.clone(), fonts: clone_list(&self.fonts) }
    }
}

/// A named group of fonts, compiled: the fonts by identifier.
#[derive(Debug, PartialEq, Eq)]
pub struct CompiledGroup {
    pub id: Uuid,
    pub name: String,
    pub fonts: Vec<Uuid>,
}

/// A compiled group as a mathematical value.
pub struct CompiledGroupView {
    pub id: Uuid,
    pub name: Seq<char>,
    pub fonts: Seq<Uuid>,
}

impl View for CompiledGroup {
    type V = CompiledGroupView;

    open spec fn view(&self) -> CompiledGroupView {
        CompiledGroupView { id: self.id, name: self.name@, fonts: self.fonts@ }
    }
}

impl Clone for CompiledGroup {
    fn clone(&self) -> (r: Self)
        ensures
            r@ == self@,
    {
        CompiledGroup { id: self.id, name: self.name.clone(), fonts: self.fonts.clone() }
    }
}

/// A font, as authored.
#[derive(Debug, PartialEq, Eq)]
pub struct SourceFont {
    pub id: SourceUUID,
    pub name: String,
    pub short_name: String,
    pub publisher: String,
    pub categories: Vec<FontCategory>,
    pub installations: Vec<SourceInstalationType>,
}

/// An authored font as a mathematical value.
pub struct SourceFontView {
    pub id: SourceUUID,
    pub name: Seq<char>,
    pub short_name: Seq<char>,
    pub publisher: Seq<char>,
    pub categories: Seq<FontCategory>,
    pub installations: Seq<SourceInstalationView>,
}

impl View for SourceFont {
    type V = SourceFontView;

    open spec fn view(&self) -> SourceFontView {
        SourceFontView {
            id: self.id,
            name: self.name@,
            short_name: self.short_name@,
            publisher: self.publisher@,
            categories: self.categories@,
            installations: views(self.installations@),
        }
    }
}

impl Clone for SourceFont {
    fn clone(&self) -> (r: Self)
        ensures
            r@ == self@,
    {
        SourceFont {
            id: self.id,
            name: self.name.clone(),
            short_name: self.short_name.clone(),
            publisher: self.publisher.clone(),
            categories: self.categories.clone(),
            installations: clone_list(&self.installations),
        }
    }
}

/// A font, compiled.
#[derive(Debug, PartialEq, Eq)]
pub struct CompiledFont {
    pub id: Uuid,
    pub name: String,
    pub short_name: String,
    pub publisher: String,
    pub categories: Vec<FontCategory>,
    pub installations: Vec<CompiledInstalationType>,
}

/// A compiled font as a mathematical value.
pub struct CompiledFontView {
    pub id: Uuid,
    pub name: Seq<char>,
    pub short_name: Seq<char>,
    pub publisher: Seq<char>,
    pub categories: Seq<FontCategory>,
    pub installations: Seq<CompiledInstalationView>,
}

impl View for CompiledFont {
    type V = CompiledFontView;

    open spec fn view(&self) -> CompiledFontView {
        CompiledFontView {
            id: self.id,
            name: self.name@,
            short_name: self.short_name@,
            publisher: self.publisher@,
            categories: self.categories@,
            installations: views(self.installations@),
        }
    }
}

impl Clone for CompiledFont {
    fn clone(&self) -> (r: Self)
        ensures
            r@ == self@,
    {
        CompiledFont {
            id: self.id,
            name: self.name.clone(),
            short_name: self.short_name.clone(),
            publisher: self.publisher.clone(),
            categories: self.categories.clone(),
            installations: clone_list(&self.installations),
        }
    }
}

/// One published payload: its identifier, size in bytes, content hash in
/// hexadecimal, and the address it is served from.
#[derive(Debug, PartialEq, Eq)]
pub struct CompiledDownloads {
    pub id: Uuid,
    pub file_size: u64,
    pub hash: String,
    pub download_url: String,
}

/// A record of a published payload as a mathematical value.
pub struct DownloadRecordView {
    pub id: Uuid,
    pub file_size: u64,
    pub hash: Seq<char>,
    pub download_url: Seq<char>,
}

impl View for CompiledDownloads {
    type V = DownloadRecordView;

    open spec fn view(&self) -> DownloadRecordView {
        DownloadRecordView {
            id: self.id,
            file_size: self.file_size,
            hash: self.hash@,
            download_url: self.download_url@,
        }
    }
}

impl Clone for CompiledDownloads {
    fn clone(&self) -> (r: Self)
        ensures
            r@ == self@,
    {
        CompiledDownloads {
            id: self.id,
            file_size: self.file_size,
            hash: self.hash.clone(),
            download_url: self.download_url.clone(),
        }
    }
}

/// The manifest.
#[derive(Debug, PartialEq, Eq)]
pub struct Source {
    pub groups: Vec<SourceGroup>,
    pub fonts: Vec<SourceFont>,
}

/// The manifest as a mathematical value.
pub struct SourceView {
    pub groups: Seq<SourceGroupView>,
    pub fonts: Seq<SourceFontView>,
}

impl View for Source {
    type V = SourceView;

    open spec fn view(&self) -> SourceView {
        SourceView { groups: views(self.groups@), fonts: views(self.fonts@) }
    }
}

impl Clone for Source {
    fn clone(&self) -> (r: Self)
        ensures
            r@ == self@,
    {
        Source { groups: clone_list(&self.groups), fonts: clone_list(&self.fonts) }
    }
}

/// A version number of `semver`, carried through as it is.
#[verifier::external_type_specification]
#[verifier::external_body]
pub struct ExVersion(semver::Version);

/// The compiled artifact.
#[derive(Debug, PartialEq, Eq)]
pub struct Compiled {
    pub version: semver::Version,
    pub downloads: Vec<CompiledDownloads>,
    pub groups: Vec<CompiledGroup>,
    pub fonts: Vec<CompiledFont>,
}

/// The compiled artifact as a mathematical value.
pub struct CompiledView {
    pub version: semver::Version,
    pub downloads: Seq<DownloadRecordView>,
    pub groups: Seq<CompiledGroupView>,
    pub fonts: Seq<CompiledFontView>,
}

impl View for Compiled {
    type V = CompiledView;

    open spec fn view(&self) -> CompiledView {
        CompiledView {
            version: self.version,
            downloads: views(self.downloads@),
            groups: views(self.groups@),
            fonts: views(self.fonts@),
        }
    }
}

/// A reference to a published version of the compiled artifact.
#[derive(Debug, PartialEq, Eq)]
pub struct FileFormatReference {
    pub id: Uuid,
    pub version: semver::Version,
    pub download_url: String,
}

/// The references to the published versions.
pub type FileFormatReferences = Vec<FileFormatReference>;

} // verus!
