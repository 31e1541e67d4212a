//! The ledger of published payloads and the list of published versions.

use vstd::prelude::*;
use crate::resolver::{content_hash, sha256_hex};
use crate::text::str_eq;
use crate::types::{clone_list, lemma_views_push, views, Uuid};
use crate::urls::{
    download_address, extension_fits, generate_url, generate_versions_url, version_address, BaseUrl,
};

verus! {

/// A payload that has been published: an entry of the ledger.
#[derive(Debug, PartialEq, Eq)]
pub struct Downloadable {
    pub id: Uuid,
    pub file_size: u64,
    pub hash: String,
    pub download_url: String,
}

/// An entry of the ledger as a mathematical value.
pub struct DownloadableView {
    pub id: Uuid,
    pub file_size: u64,
    pub hash: Seq<char>,
    pub download_url: Seq<char>,
}

impl View for Downloadable {
    type V = DownloadableView;

    open spec fn view(&self) -> DownloadableView {
        DownloadableView {
            id: self.id,
            file_size: self.file_size,
            hash: self.hash@,
            download_url: self.download_url@,
        }
    }
}

impl Clone for Downloadable {
    fn clone(&self) -> (r: Self)
        ensures
            r@ == self@,
    {
        Downloadable {
            id: self.id,
            file_size: self.file_size,
            hash: self.hash.clone(),
            download_url: self.download_url.clone(),
        }
    }
}

/// The ledger.
pub type DownloadsList = Vec<Downloadable>;

/// A published version of the compiled artifact.
#[derive(Debug, PartialEq, Eq)]
pub struct VersionInfo {
    pub id: Uuid,
    pub version: semver::Version,
    pub download_url: String,
    pub hash: String,
    pub file_size: u64,
}

/// A payload that has yet to be published.
#[derive(Debug, PartialEq, Eq)]
pub struct UploadableDownloadInfo {
    pub uuid: Uuid,
    pub file_path: String,
    pub hash: String,
    pub file_size: u64,
}

/// A payload to publish as a mathematical value.
pub struct UploadView {
    pub uuid: Uuid,
    pub file_path: Seq<char>,
    pub hash: Seq<char>,
    pub file_size: u64,
}

impl View for UploadableDownloadInfo {
    type V = UploadView;

    open spec fn view(&self) -> UploadView {
        UploadView {
            uuid: self.uuid,
            file_path: self.file_path@,
            hash: self.hash@,
            file_size: self.file_size,
        }
    }
}

/// The position of the first entry at or after `from` with this hash; the
/// length of the ledger if there is none.
pub open spec fn entry_position(ledger: Seq<DownloadableView>, hash: Seq<char>, from: int) -> int
    decreases ledger.len() - from,
{
    if from < 0 || from >= ledger.len() {
        ledger.len() as int
    } else if ledger[from].hash == hash {
        from
    } else {
        entry_position(ledger, hash, from + 1)
    }
}

/// The first entry of the ledger with this hash.
pub open spec fn ledger_entry(ledger: Seq<DownloadableView>, hash: Seq<char>) -> Option<
    DownloadableView,
> {
    let position = entry_position(ledger, hash, 0);
    if position < ledger.len() {
        Some(ledger[position])
    } else {
        None
    }
}

/// Looks a hash up in the ledger: the position of the first entry that has
/// it.
pub fn find_entry(ledger: &Vec<Downloadable>, hash: &str) -> (r: Option<usize>)
    ensures
        match r {
            Some(position) => position < ledger.len() && position == entry_position(
                views(ledger@),
                hash@,
                0,
            ),
            None => entry_position(views(ledger@), hash@, 0) == ledger.len(),
        },
{
    let mut i: usize = 0;
    while i < ledger.len()
        invariant
            i <= ledger.len(),
            entry_position(views(ledger@), hash@, 0) == entry_position(
                views(ledger@),
                hash@,
                i as int,
            ),
        decreases ledger.len() - i,
    {
        assert(views(ledger@)[i as int] == ledger[i as int]@);
        if str_eq(ledger[i].hash.as_str(), hash) {
            return Some(i);
        }
        i += 1;
    }
    None
}

/// Whether `entry` is the ledger entry of a payload that has been published
/// under the base address: the payload's identifier, hash and size, and its
/// address under `base` for an extension that fits the path of its file.
pub open spec fn published(entry: DownloadableView, upload: UploadView, base: Seq<char>) -> bool {
    &&& entry.id == upload.uuid
    &&& entry.file_size == upload.file_size
    &&& entry.hash == upload.hash
    &&& exists|extension: Option<Seq<char>>|
        extension_fits(upload.file_path, extension) && Some(entry.download_url)
            == #[trigger] download_address(base, extension, upload.uuid)
}

/// Whether `after` is the ledger once the payloads have been published under
/// the base address: the entries of `ledger`, then one entry for each
/// payload, in order.
pub open spec fn ledger_extended(
    ledger: Seq<DownloadableView>,
    uploads: Seq<UploadView>,
    base: Seq<char>,
    after: Seq<DownloadableView>,
) -> bool {
    &&& after.len() == ledger.len() + uploads.len()
    &&& after.subrange(0, ledger.len() as int) == ledger
    &&& forall|k: int|
        0 <= k < uploads.len() ==> published(#[trigger] after[ledger.len() + k], uploads[k], base)
}

/// Where `entry_position` points: at the first entry with the hash.
pub proof fn lemma_entry_position(ledger: Seq<DownloadableView>, hash: Seq<char>, from: int)
    requires
        0 <= from <= ledger.len(),
    ensures
        from <= entry_position(ledger, hash, from) <= ledger.len(),
        entry_position(ledger, hash, from) < ledger.len() ==> ledger[entry_position(
            ledger,
            hash,
            from,
        )].hash == hash,
        forall|k: int|
            from <= k < entry_position(ledger, hash, from) ==> (#[trigger] ledger[k]).hash != hash,
    decreases ledger.len() - from,
{
    if from < ledger.len() && ledger[from].hash != hash {
        lemma_entry_position(ledger, hash, from + 1);
    }
}

/// The ledger after the payloads have been published: the entries it had,
/// then one entry for each payload, in order.
pub fn ledger_after_uploads(
    original_downloads: &DownloadsList,
    downloads: &Vec<UploadableDownloadInfo>,
    base_url: &BaseUrl,
) -> (r: DownloadsList)
    ensures
        ledger_extended(views(original_downloads@), views(downloads@), base_url@, views(r@)),
{
    let mut ledger = clone_list(original_downloads);
    let mut i: usize = 0;
    assert(views(ledger@).subrange(0, original_downloads.len() as int) =~= views(ledger@));
    while i < downloads.len()
        invariant
            i <= downloads.len(),
            ledger.len() == original_downloads.len() + i,
            views(ledger@).subrange(0, original_downloads.len() as int) == views(
                original_downloads@,
            ),
            forall|k: int|
                0 <= k < i ==> published(
                    #[trigger] views(ledger@)[original_downloads.len() + k],
                    views(downloads@)[k],
                    base_url@,
                ),
        decreases downloads.len() - i,
    {
        let upload = &downloads[i];
        let entry = Downloadable {
            id: upload.uuid,
            file_size: upload.file_size,
            hash: upload.hash.clone(),
            download_url: generate_url(base_url, upload.file_path.as_str(), upload.uuid),
        };
        let ghost before = views(ledger@);
        proof {
            lemma_views_push(ledger@, entry);
            assert(views(downloads@)[i as int] == upload@);
        }
        ledger.push(entry);
        proof {
            assert(views(ledger@).subrange(0, original_downloads.len() as int) =~= before.subrange(
                0,
                original_downloads.len() as int,
            ));
            assert forall|k: int| 0 <= k < i + 1 implies published(
                #[trigger] views(ledger@)[original_downloads.len() + k],
                views(downloads@)[k],
                base_url@,
            ) by {
                if k < i {
                    assert(views(ledger@)[original_downloads.len() + k]
                        == before[original_downloads.len() + k]);
                }
            }
        }
        i += 1;
    }
    ledger
}

/// The entry of the list of versions for a compiled artifact that has been
/// published: its identifier and version, its address under the base address,
/// the hash and the size of its bytes.
pub fn version_info(
    id: Uuid,
    version: semver::Version,
    base_url: &BaseUrl,
    artifact: &Vec<u8>,
) -> (r: VersionInfo)
    ensures
        r.id == id,
        r.version == version,
        Some(r.download_url@) == version_address(base_url@, id),
        r.hash@ == sha256_hex(artifact@),
        r.file_size == artifact.len(),
{
    VersionInfo {
        id,
        version,
        download_url: generate_versions_url(base_url, id),
        hash: content_hash(artifact),
        file_size: artifact.len() as u64,
    }
}

} // verus!
