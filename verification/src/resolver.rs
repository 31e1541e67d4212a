//! The download resolver: one record for each distinct content, whatever the
//! number of references to it, and no new record for content that the ledger
//! knows.

use vstd::prelude::*;
use crate::identity::fresh_uuid;
use crate::ledger::{
    find_entry, ledger_entry, Downloadable, DownloadableView, UploadableDownloadInfo, UploadView,
};
use crate::text::str_eq;
use crate::types::{
    lemma_views_push, views, CompiledDownloads, DownloadRecordView, DownloadView, SourceDownload,
    Uuid,
};
use crate::urls::{download_address, download_url, extension_fits, extension_of, BaseUrl};

verus! {

/// The SHA-256 digest of the bytes, in lower-case hexadecimal.
pub uninterp spec fn sha256_hex(bytes: Seq<u8>) -> Seq<char>;

/// `sha256::digest`: the SHA-256 digest of the bytes as a hexadecimal text.
/// The contract names the result; it claims no more than that the same bytes
/// give the same digest.
#[verifier::external_body]
pub(crate) fn content_hash(bytes: &Vec<u8>) -> (r: String)
    ensures
        r@ == sha256_hex(bytes@),
{
    sha256::digest(bytes)
}

/// What the resolver has settled: the records of the artifact, the payloads
/// to publish, and for each reference resolved so far the identifier it was
/// given.
pub struct Resolution {
    pub records: Seq<DownloadRecordView>,
    pub uploads: Seq<UploadView>,
    pub assigned: Seq<Uuid>,
}

/// The position of the first record at or after `from` with this hash; the
/// number of records if there is none.
pub open spec fn record_position(records: Seq<DownloadRecordView>, hash: Seq<char>, from: int) -> int
    decreases records.len() - from,
{
    if from < 0 || from >= records.len() {
        records.len() as int
    } else if records[from].hash == hash {
        from
    } else {
        record_position(records, hash, from + 1)
    }
}

/// The state after resolving a reference to content with this hash and size.
/// Content that has a record already gets that record's identifier. Content
/// that the ledger knows gets a record with the ledger's identifier and
/// address. Other content gets a record with the identifier `minted`, and
/// with the reference's own address if it is external; if it is local, with
/// the address under `base` for the file's `extension`, and it is queued for
/// publishing.
pub open spec fn record_step(
    state: Resolution,
    reference: DownloadView,
    hash: Seq<char>,
    size: u64,
    ledger: Seq<DownloadableView>,
    base: Seq<char>,
    minted: Uuid,
    extension: Option<Seq<char>>,
) -> Resolution {
    let known = record_position(state.records, hash, 0);
    if known < state.records.len() {
        Resolution { assigned: state.assigned.push(state.records[known].id), ..state }
    } else {
        match ledger_entry(ledger, hash) {
            Some(entry) => Resolution {
                records: state.records.push(
                    DownloadRecordView {
                        id: entry.id,
                        file_size: size,
                        hash,
                        download_url: entry.download_url,
                    },
                ),
                uploads: state.uploads,
                assigned: state.assigned.push(entry.id),
            },
            None => match reference {
                DownloadView::ExternalResource(url) => Resolution {
                    records: state.records.push(
                        DownloadRecordView { id: minted, file_size: size, hash, download_url: url },
                    ),
                    uploads: state.uploads,
                    assigned: state.assigned.push(minted),
                },
                DownloadView::LocalResource(path) => Resolution {
                    records: state.records.push(
                        DownloadRecordView {
                            id: minted,
                            file_size: size,
                            hash,
                            download_url: download_address(base, extension, minted).unwrap(),
                        },
                    ),
                    uploads: state.uploads.push(
                        UploadView { uuid: minted, file_path: path, hash, file_size: size },
                    ),
                    assigned: state.assigned.push(minted),
                },
            },
        }
    }
}

/// Whether `extension` can stand for the file of the reference: it fits the
/// path of a local reference; an external reference has none.
pub open spec fn reference_fits(reference: DownloadView, extension: Option<Seq<char>>) -> bool {
    match reference {
        DownloadView::LocalResource(path) => extension_fits(path, extension),
        DownloadView::ExternalResource(_) => extension is None,
    }
}

/// The state after resolving a reference to these bytes.
pub open spec fn resolve_step(
    state: Resolution,
    reference: DownloadView,
    bytes: Seq<u8>,
    ledger: Seq<DownloadableView>,
    base: Seq<char>,
    minted: Uuid,
    extension: Option<Seq<char>>,
) -> Resolution {
    record_step(
        state,
        reference,
        sha256_hex(bytes),
        bytes.len() as u64,
        ledger,
        base,
        minted,
        extension,
    )
}

/// The download resolver.
pub struct DownloadResolver {
    pub records: Vec<CompiledDownloads>,
    pub uploads: Vec<UploadableDownloadInfo>,
    pub assigned: Vec<Uuid>,
}

impl View for DownloadResolver {
    type V = Resolution;

    open spec fn view(&self) -> Resolution {
        Resolution {
            records: views(self.records@),
            uploads: views(self.uploads@),
            assigned: self.assigned@,
        }
    }
}

/// The view of an extension that may be missing.
pub open spec fn extension_view(extension: Option<&str>) -> Option<Seq<char>> {
    match extension {
        Some(e) => Some(e@),
        None => None,
    }
}

impl DownloadResolver {
    /// A resolver that has settled nothing.
    pub fn new() -> (r: DownloadResolver)
        ensures
            r@ == (Resolution {
                records: Seq::empty(),
                uploads: Seq::empty(),
                assigned: Seq::empty(),
            }),
    {
        let r = DownloadResolver { records: Vec::new(), uploads: Vec::new(), assigned: Vec::new() };
        assert(views(r.records@) =~= Seq::empty());
        assert(views(r.uploads@) =~= Seq::empty());
        r
    }

    /// The position of the record with this hash, if there is one.
    fn find_record(&self, hash: &str) -> (r: Option<usize>)
        ensures
            match r {
                Some(position) => position < self.records.len() && position == record_position(
                    self@.records,
                    hash@,
                    0,
                ),
                None => record_position(self@.records, hash@, 0) == self.records.len(),
            },
    {
        let mut i: usize = 0;
        while i < self.records.len()
            invariant
                i <= self.records.len(),
                record_position(self@.records, hash@, 0) == record_position(
                    self@.records,
                    hash@,
                    i as int,
                ),
            decreases self.records.len() - i,
        {
            assert(self@.records[i as int] == self.records[i as int]@);
            if str_eq(self.records[i].hash.as_str(), hash) {
                return Some(i);
            }
            i += 1;
        }
        None
    }

    /// Settles a reference to content with this hash and size, with `minted`
    /// as the identifier for content that is new and `extension` as the
    /// extension of a local file.
    pub fn record(
        &mut self,
        reference: &SourceDownload,
        hash: String,
        size: u64,
        ledger: &Vec<Downloadable>,
        base_url: &BaseUrl,
        minted: Uuid,
        extension: Option<&str>,
    )
        ensures
            final(self)@ == record_step(
                old(self)@,
                reference@,
                hash@,
                size,
                views(ledger@),
                base_url@,
                minted,
                extension_view(extension),
            ),
    {
        match self.find_record(hash.as_str()) {
            Some(position) => {
                assert(self@.records[position as int] == self.records[position as int]@);
                let id = self.records[position].id;
                self.assigned.push(id);
            },
            None => {
                match find_entry(ledger, hash.as_str()) {
                    Some(position) => {
                        assert(views(ledger@)[position as int] == ledger[position as int]@);
                        let entry = &ledger[position];
                        let record = CompiledDownloads {
                            id: entry.id,
                            file_size: size,
                            hash,
                            download_url: entry.download_url.clone(),
                        };
                        proof {
                            lemma_views_push(self.records@, record);
                        }
                        self.records.push(record);
                        self.assigned.push(entry.id);
                    },
                    None => {
                        match reference {
                            SourceDownload::ExternalResource(url) => {
                                let record = CompiledDownloads {
                                    id: minted,
                                    file_size: size,
                                    hash,
                                    download_url: url.clone(),
                                };
                                proof {
                                    lemma_views_push(self.records@, record);
                                }
                                self.records.push(record);
                            },
                            SourceDownload::LocalResource(path) => {
                                let record = CompiledDownloads {
                                    id: minted,
                                    file_size: size,
                                    hash: hash.clone(),
                                    download_url: download_url(base_url, extension, minted),
                                };
                                let upload = UploadableDownloadInfo {
                                    uuid: minted,
                                    file_path: path.clone(),
                                    hash,
                                    file_size: size,
                                };
                                proof {
                                    lemma_views_push(self.records@, record);
                                    lemma_views_push(self.uploads@, upload);
                                }
                                self.records.push(record);
                                self.uploads.push(upload);
                            },
                        }
                        self.assigned.push(minted);
                    },
                }
            },
        }
    }

    /// Settles a reference to these bytes, with `minted` as the identifier
    /// for content that is new and `extension` as the extension of a local
    /// file.
    pub fn resolve_with(
        &mut self,
        reference: &SourceDownload,
        bytes: &Vec<u8>,
        ledger: &Vec<Downloadable>,
        base_url: &BaseUrl,
        minted: Uuid,
        extension: Option<&str>,
    )
        ensures
            final(self)@ == resolve_step(
                old(self)@,
                reference@,
                bytes@,
                views(ledger@),
                base_url@,
                minted,
                extension_view(extension),
            ),
    {
        let hash = content_hash(bytes);
        self.record(reference, hash, bytes.len() as u64, ledger, base_url, minted, extension);
    }

    /// Settles a reference to these bytes. Content that is new gets a random
    /// identifier; a local file's address ends in the extension that the
    /// platform finds in its path. The state is the one that `resolve_step`
    /// gives for that identifier and that extension, which fits the path.
    pub(crate) fn resolve(
        &mut self,
        reference: &SourceDownload,
        bytes: &Vec<u8>,
        ledger: &Vec<Downloadable>,
        base_url: &BaseUrl,
    ) -> (chosen: (Ghost<Uuid>, Ghost<Option<Seq<char>>>))
        ensures
            reference_fits(reference@, chosen.1@),
            final(self)@ == resolve_step(
                old(self)@,
                reference@,
                bytes@,
                views(ledger@),
                base_url@,
                chosen.0@,
                chosen.1@,
            ),
    {
        let hash = content_hash(bytes);
        let size = bytes.len() as u64;
        let is_new = self.find_record(hash.as_str()).is_none() && find_entry(
            ledger,
            hash.as_str(),
        ).is_none();
        let minted: Uuid = if is_new {
            fresh_uuid()
        } else {
            0
        };
        let extension = match reference {
            SourceDownload::LocalResource(path) => if is_new {
                extension_of(path.as_str())
            } else {
                None
            },
            SourceDownload::ExternalResource(_) => None,
        };
        match extension {
            Some(e) => {
                self.record(reference, hash, size, ledger, base_url, minted, Some(e.as_str()));
                (Ghost(minted), Ghost(Some(e@)))
            },
            None => {
                self.record(reference, hash, size, ledger, base_url, minted, None);
                (Ghost(minted), Ghost(None))
            },
        }
    }
}

} // verus!
