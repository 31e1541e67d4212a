//! What holds of every build: one record for each content, and nothing new
//! for content that the ledger knows.

use vstd::prelude::*;
use crate::builder::{
    build_result, distinct_references, lemma_reference_known, reference_position, resolved_through,
    PayloadView,
};
use crate::ledger::{
    ledger_entry, ledger_extended, lemma_entry_position, DownloadableView, UploadView,
};
use crate::resolver::{record_position, resolve_step, sha256_hex, Resolution};
use crate::types::{DownloadRecordView, DownloadView, SourceView, Uuid};

verus! {

/// Where `record_position` points: at the first record with the hash.
pub proof fn lemma_record_position(records: Seq<DownloadRecordView>, hash: Seq<char>, from: int)
    requires
        0 <= from <= records.len(),
    ensures
        from <= record_position(records, hash, from) <= records.len(),
        record_position(records, hash, from) < records.len() ==> records[record_position(
            records,
            hash,
            from,
        )].hash == hash,
        forall|k: int|
            from <= k < record_position(records, hash, from) ==> (#[trigger] records[k]).hash
                != hash,
    decreases records.len() - from,
{
    if from < records.len() && records[from].hash != hash {
        lemma_record_position(records, hash, from + 1);
    }
}

/// A record that is found is found again after another record is added.
pub proof fn lemma_record_position_stable(
    records: Seq<DownloadRecordView>,
    record: DownloadRecordView,
    hash: Seq<char>,
    from: int,
)
    requires
        0 <= from <= records.len(),
        record_position(records, hash, from) < records.len(),
    ensures
        record_position(records.push(record), hash, from) == record_position(records, hash, from),
    decreases records.len() - from,
{
    if records[from].hash != hash {
        lemma_record_position_stable(records, record, hash, from + 1);
    }
}

/// A record that is added for a hash without a record is found at the end.
pub proof fn lemma_record_position_added(
    records: Seq<DownloadRecordView>,
    record: DownloadRecordView,
    from: int,
)
    requires
        0 <= from <= records.len(),
        record_position(records, record.hash, from) == records.len(),
    ensures
        record_position(records.push(record), record.hash, from) == records.len(),
    decreases records.len() - from,
{
    if from < records.len() {
        lemma_record_position_added(records, record, from + 1);
    }
}

/// No two records have the same hash.
pub open spec fn hashes_distinct(records: Seq<DownloadRecordView>) -> bool {
    forall|a: int, b: int|
        0 <= a < b < records.len() ==> (#[trigger] records[a]).hash != (#[trigger] records[b]).hash
}

/// Every record of content that the ledger knows has the identifier and the
/// address of the ledger's first entry for that content.
pub open spec fn records_follow_ledger(
    records: Seq<DownloadRecordView>,
    ledger: Seq<DownloadableView>,
) -> bool {
    forall|a: int|
        0 <= a < records.len() ==> (ledger_entry(ledger, (#[trigger] records[a]).hash) matches Some(
            entry,
        ) ==> records[a].id == entry.id && records[a].download_url == entry.download_url)
}

/// No payload to publish has content that the ledger knows.
pub open spec fn uploads_are_new(uploads: Seq<UploadView>, ledger: Seq<DownloadableView>) -> bool {
    forall|a: int|
        0 <= a < uploads.len() ==> ledger_entry(ledger, (#[trigger] uploads[a]).hash) is None
}

/// The first `n` payloads have bytes, and the identifier assigned to each of
/// their references is that of the record of its content.
pub open spec fn assigned_by_content(state: Resolution, payloads: Seq<PayloadView>, n: int) -> bool {
    &&& state.assigned.len() == n
    &&& forall|k: int|
        0 <= k < n ==> (#[trigger] payloads[k] matches PayloadView::Content(bytes) && {
            let at = record_position(state.records, sha256_hex(bytes), 0);
            at < state.records.len() && state.assigned[k] == state.records[at].id
        })
}

/// What holds of the resolver's state after every step.
pub open spec fn settled(
    state: Resolution,
    payloads: Seq<PayloadView>,
    ledger: Seq<DownloadableView>,
    n: int,
) -> bool {
    &&& hashes_distinct(state.records)
    &&& records_follow_ledger(state.records, ledger)
    &&& uploads_are_new(state.uploads, ledger)
    &&& assigned_by_content(state, payloads, n)
}

/// The state after `n` references is settled.
pub proof fn lemma_settled(
    references: Seq<DownloadView>,
    payloads: Seq<PayloadView>,
    ledger: Seq<DownloadableView>,
    base: Seq<char>,
    minted: Seq<Uuid>,
    extensions: Seq<Option<Seq<char>>>,
    n: int,
)
    requires
        0 <= n,
        resolved_through(references, payloads, ledger, base, minted, extensions, n) is Ok,
    ensures
        resolved_through(references, payloads, ledger, base, minted, extensions, n) matches Ok(
            state,
        ) && settled(state, payloads, ledger, n),
    decreases n,
{
    if n > 0 {
        lemma_settled(references, payloads, ledger, base, minted, extensions, n - 1);
        let before = resolved_through(
            references,
            payloads,
            ledger,
            base,
            minted,
            extensions,
            n - 1,
        )->Ok_0;
        let bytes = payloads[n - 1]->Content_0;
        let hash = sha256_hex(bytes);
        let after = resolve_step(
            before,
            references[n - 1],
            bytes,
            ledger,
            base,
            minted[n - 1],
            extensions[n - 1],
        );
        let known = record_position(before.records, hash, 0);
        lemma_record_position(before.records, hash, 0);
        if known < before.records.len() {
            assert(after.records == before.records);
        } else {
            let record = after.records[before.records.len() as int];
            assert(after.records == before.records.push(record));
            assert(record.hash == hash);
            lemma_record_position_added(before.records, record, 0);
            assert forall|k: int| 0 <= k < n - 1 implies (#[trigger] payloads[k] matches PayloadView::Content(
                other,
            ) && {
                let at = record_position(after.records, sha256_hex(other), 0);
                at < after.records.len() && after.assigned[k] == after.records[at].id
            }) by {
                assert(payloads[k] is Content);
                let other = payloads[k]->Content_0;
                let at = record_position(before.records, sha256_hex(other), 0);
                assert(at < before.records.len());
                lemma_record_position(before.records, sha256_hex(other), 0);
                lemma_record_position_stable(before.records, record, sha256_hex(other), 0);
                assert(after.records[at] == before.records[at]);
                assert(after.assigned[k] == before.assigned[k]);
            }
            assert forall|a: int, b: int| 0 <= a < b < after.records.len() implies (
            #[trigger] after.records[a]).hash != (#[trigger] after.records[b]).hash by {
                if b < before.records.len() {
                    assert(after.records[a] == before.records[a]);
                    assert(after.records[b] == before.records[b]);
                } else {
                    assert(after.records[a] == before.records[a]);
                }
            }
            assert forall|a: int| 0 <= a < after.records.len() implies (ledger_entry(
                ledger,
                (#[trigger] after.records[a]).hash,
            ) matches Some(entry) ==> after.records[a].id == entry.id
                && after.records[a].download_url == entry.download_url) by {
                if a < before.records.len() {
                    assert(after.records[a] == before.records[a]);
                }
            }
            assert forall|a: int| 0 <= a < after.uploads.len() implies ledger_entry(
                ledger,
                (#[trigger] after.uploads[a]).hash,
            ) is None by {
                if a < before.uploads.len() {
                    assert(after.uploads[a] == before.uploads[a]);
                }
            }
        }
    }
}

/// One record for each content: where two references have the same bytes,
/// exactly one record has the hash of those bytes, and both references are
/// assigned that record's identifier.
pub proof fn lemma_one_record_per_content(
    references: Seq<DownloadView>,
    payloads: Seq<PayloadView>,
    ledger: Seq<DownloadableView>,
    base: Seq<char>,
    minted: Seq<Uuid>,
    extensions: Seq<Option<Seq<char>>>,
    n: int,
    first: int,
    second: int,
)
    requires
        resolved_through(references, payloads, ledger, base, minted, extensions, n) is Ok,
        0 <= first < n,
        0 <= second < n,
        payloads[first] == payloads[second],
    ensures
        ({
            let state = resolved_through(
                references,
                payloads,
                ledger,
                base,
                minted,
                extensions,
                n,
            )->Ok_0;
            let hash = sha256_hex(payloads[first]->Content_0);
            let at = record_position(state.records, hash, 0);
            &&& payloads[first] is Content
            &&& 0 <= at < state.records.len()
            &&& forall|a: int|
                0 <= a < state.records.len() ==> ((#[trigger] state.records[a]).hash == hash <==> a
                    == at)
            &&& state.assigned[first] == state.records[at].id
            &&& state.assigned[second] == state.records[at].id
        }),
{
    lemma_settled(references, payloads, ledger, base, minted, extensions, n);
    let state = resolved_through(references, payloads, ledger, base, minted, extensions, n)->Ok_0;
    assert(payloads[first] is Content);
    assert(payloads[second] is Content);
    let hash = sha256_hex(payloads[first]->Content_0);
    lemma_record_position(state.records, hash, 0);
}

/// Content that the ledger knows is not published again: its record has the
/// identifier and the address of the ledger's entry, and no payload to
/// publish has content that the ledger knows.
pub proof fn lemma_ledger_content_reused(
    references: Seq<DownloadView>,
    payloads: Seq<PayloadView>,
    ledger: Seq<DownloadableView>,
    base: Seq<char>,
    minted: Seq<Uuid>,
    extensions: Seq<Option<Seq<char>>>,
    n: int,
    k: int,
)
    requires
        resolved_through(references, payloads, ledger, base, minted, extensions, n) is Ok,
        0 <= k < n,
        payloads[k] matches PayloadView::Content(bytes) && ledger_entry(ledger, sha256_hex(bytes))
            is Some,
    ensures
        ({
            let state = resolved_through(
                references,
                payloads,
                ledger,
                base,
                minted,
                extensions,
                n,
            )->Ok_0;
            let hash = sha256_hex(payloads[k]->Content_0);
            let entry = ledger_entry(ledger, hash)->Some_0;
            let at = record_position(state.records, hash, 0);
            &&& 0 <= at < state.records.len()
            &&& state.assigned[k] == entry.id
            &&& state.records[at].id == entry.id
            &&& state.records[at].download_url == entry.download_url
            &&& forall|a: int|
                0 <= a < state.uploads.len() ==> ledger_entry(
                    ledger,
                    (#[trigger] state.uploads[a]).hash,
                ) is None
        }),
{
    lemma_settled(references, payloads, ledger, base, minted, extensions, n);
    let state = resolved_through(references, payloads, ledger, base, minted, extensions, n)->Ok_0;
    let hash = sha256_hex(payloads[k]->Content_0);
    lemma_record_position(state.records, hash, 0);
}

/// The hash of the bytes of the payload at position `k`.
pub open spec fn content_hash_at(payloads: Seq<PayloadView>, k: int) -> Seq<char> {
    sha256_hex(payloads[k]->Content_0)
}

/// Every one of the first `n` references to content with this hash is local.
pub open spec fn all_local(
    references: Seq<DownloadView>,
    payloads: Seq<PayloadView>,
    hash: Seq<char>,
    n: int,
) -> bool {
    forall|j: int|
        0 <= j < n && #[trigger] content_hash_at(payloads, j) == hash
            ==> references[j] is LocalResource
}

/// Whether a payload with this hash is to be published.
pub open spec fn queued(uploads: Seq<UploadView>, hash: Seq<char>) -> bool {
    exists|a: int| 0 <= a < uploads.len() && (#[trigger] uploads[a]).hash == hash
}

/// No two payloads to publish have the same hash.
pub open spec fn uploads_distinct(uploads: Seq<UploadView>) -> bool {
    forall|a: int, b: int|
        0 <= a < b < uploads.len() ==> (#[trigger] uploads[a]).hash != (#[trigger] uploads[b]).hash
}

/// Every payload to publish has a record with its hash, its identifier and
/// its size.
pub open spec fn uploads_recorded(state: Resolution) -> bool {
    forall|a: int|
        0 <= a < state.uploads.len() ==> {
            let at = record_position(state.records, (#[trigger] state.uploads[a]).hash, 0);
            &&& at < state.records.len()
            &&& state.records[at].id == state.uploads[a].uuid
            &&& state.records[at].file_size == state.uploads[a].file_size
        }
}

/// Whether one of the first `n` payloads has this hash.
pub open spec fn supplied(payloads: Seq<PayloadView>, hash: Seq<char>, n: int) -> bool {
    exists|j: int| 0 <= j < n && #[trigger] content_hash_at(payloads, j) == hash
}

/// Every record has the hash of one of the first `n` payloads.
pub open spec fn records_supplied(
    records: Seq<DownloadRecordView>,
    payloads: Seq<PayloadView>,
    n: int,
) -> bool {
    forall|at: int| 0 <= at < records.len() ==> supplied(payloads, (#[trigger] records[at]).hash, n)
}

/// Content that the ledger does not know and that only local references
/// refer to is to be published.
pub open spec fn local_content_queued(
    state: Resolution,
    references: Seq<DownloadView>,
    payloads: Seq<PayloadView>,
    ledger: Seq<DownloadableView>,
    n: int,
) -> bool {
    forall|k: int|
        0 <= k < n && ledger_entry(ledger, #[trigger] content_hash_at(payloads, k)) is None
            && all_local(references, payloads, content_hash_at(payloads, k), n) ==> queued(
            state.uploads,
            content_hash_at(payloads, k),
        )
}

/// What holds of the payloads to publish after every step.
pub open spec fn uploads_settled(
    state: Resolution,
    references: Seq<DownloadView>,
    payloads: Seq<PayloadView>,
    ledger: Seq<DownloadableView>,
    n: int,
) -> bool {
    &&& uploads_distinct(state.uploads)
    &&& uploads_recorded(state)
    &&& records_supplied(state.records, payloads, n)
    &&& local_content_queued(state, references, payloads, ledger, n)
}

/// The payloads to publish after `n` references are settled.
pub proof fn lemma_uploads_settled(
    references: Seq<DownloadView>,
    payloads: Seq<PayloadView>,
    ledger: Seq<DownloadableView>,
    base: Seq<char>,
    minted: Seq<Uuid>,
    extensions: Seq<Option<Seq<char>>>,
    n: int,
)
    requires
        0 <= n,
        resolved_through(references, payloads, ledger, base, minted, extensions, n) is Ok,
    ensures
        resolved_through(references, payloads, ledger, base, minted, extensions, n) matches Ok(
            state,
        ) && uploads_settled(state, references, payloads, ledger, n),
    decreases n,
{
    if n > 0 {
        lemma_uploads_settled(references, payloads, ledger, base, minted, extensions, n - 1);
        lemma_settled(references, payloads, ledger, base, minted, extensions, n - 1);
        let before = resolved_through(
            references,
            payloads,
            ledger,
            base,
            minted,
            extensions,
            n - 1,
        )->Ok_0;
        let bytes = payloads[n - 1]->Content_0;
        let hash = content_hash_at(payloads, n - 1);
        let after = resolve_step(
            before,
            references[n - 1],
            bytes,
            ledger,
            base,
            minted[n - 1],
            extensions[n - 1],
        );
        let known = record_position(before.records, hash, 0);
        lemma_record_position(before.records, hash, 0);
        let added = known >= before.records.len();
        let published = added && ledger_entry(ledger, hash) is None
            && references[n - 1] is LocalResource;
        if added {
            let record = after.records[before.records.len() as int];
            assert(after.records == before.records.push(record));
            lemma_record_position_added(before.records, record, 0);
        } else {
            assert(after.records == before.records);
        }
        if published {
            let upload = after.uploads[before.uploads.len() as int];
            assert(after.uploads == before.uploads.push(upload));
            assert(upload.hash == hash);
        } else {
            assert(after.uploads == before.uploads);
        }
        assert forall|a: int| 0 <= a < after.uploads.len() implies ({
            let at = record_position(after.records, (#[trigger] after.uploads[a]).hash, 0);
            &&& at < after.records.len()
            &&& after.records[at].id == after.uploads[a].uuid
            &&& after.records[at].file_size == after.uploads[a].file_size
        }) by {
            if a < before.uploads.len() {
                assert(after.uploads[a] == before.uploads[a]);
                let at = record_position(before.records, before.uploads[a].hash, 0);
                lemma_record_position(before.records, before.uploads[a].hash, 0);
                assert(at < before.records.len());
                if added {
                    lemma_record_position_stable(
                        before.records,
                        after.records[before.records.len() as int],
                        before.uploads[a].hash,
                        0,
                    );
                    assert(after.records[at] == before.records[at]);
                }
            }
        }
        assert forall|a: int, b: int| 0 <= a < b < after.uploads.len() implies (
        #[trigger] after.uploads[a]).hash != (#[trigger] after.uploads[b]).hash by {
            assert(after.uploads[a] == before.uploads[a]);
            if b < before.uploads.len() {
                assert(after.uploads[b] == before.uploads[b]);
            } else {
                let at = record_position(before.records, before.uploads[a].hash, 0);
                lemma_record_position(before.records, before.uploads[a].hash, 0);
                assert(before.records[at].hash == before.uploads[a].hash);
            }
        }
        assert forall|at: int| 0 <= at < after.records.len() implies supplied(
            payloads,
            (#[trigger] after.records[at]).hash,
            n,
        ) by {
            if at < before.records.len() {
                assert(after.records[at] == before.records[at]);
                assert(supplied(payloads, before.records[at].hash, n - 1));
                let j = choose|j: int|
                    0 <= j < n - 1 && #[trigger] content_hash_at(payloads, j)
                        == before.records[at].hash;
                assert(content_hash_at(payloads, j) == after.records[at].hash);
            } else {
                assert(content_hash_at(payloads, n - 1) == after.records[at].hash);
            }
        }
        assert forall|k: int|
            0 <= k < n && ledger_entry(ledger, #[trigger] content_hash_at(payloads, k)) is None
                && all_local(references, payloads, content_hash_at(payloads, k), n) implies queued(
            after.uploads,
            content_hash_at(payloads, k),
        ) by {
            let wanted = content_hash_at(payloads, k);
            assert(all_local(references, payloads, wanted, n - 1));
            if k < n - 1 {
                assert(queued(before.uploads, wanted));
                let a = choose|a: int|
                    0 <= a < before.uploads.len() && (#[trigger] before.uploads[a]).hash == wanted;
                assert(after.uploads[a].hash == wanted);
            } else if added {
                assert(content_hash_at(payloads, n - 1) == wanted);
                assert(references[n - 1] is LocalResource);
                assert(after.uploads[before.uploads.len() as int].hash == wanted);
            } else {
                assert(before.records[known].hash == wanted);
                assert(supplied(payloads, before.records[known].hash, n - 1));
                let j = choose|j: int|
                    0 <= j < n - 1 && #[trigger] content_hash_at(payloads, j) == wanted;
                assert(queued(before.uploads, content_hash_at(payloads, j)));
                let a = choose|a: int|
                    0 <= a < before.uploads.len() && (#[trigger] before.uploads[a]).hash == wanted;
                assert(after.uploads[a].hash == wanted);
            }
        }
    }
}

/// Content that is new and local is published once: where the ledger does
/// not know the content of a reference and only local references refer to
/// that content, exactly one payload to publish has its hash, and that
/// payload has the identifier assigned to the reference.
pub proof fn lemma_new_local_content_queued_once(
    references: Seq<DownloadView>,
    payloads: Seq<PayloadView>,
    ledger: Seq<DownloadableView>,
    base: Seq<char>,
    minted: Seq<Uuid>,
    extensions: Seq<Option<Seq<char>>>,
    n: int,
    k: int,
)
    requires
        resolved_through(references, payloads, ledger, base, minted, extensions, n) is Ok,
        0 <= k < n,
        ledger_entry(ledger, content_hash_at(payloads, k)) is None,
        all_local(references, payloads, content_hash_at(payloads, k), n),
    ensures
        ({
            let state = resolved_through(
                references,
                payloads,
                ledger,
                base,
                minted,
                extensions,
                n,
            )->Ok_0;
            let hash = content_hash_at(payloads, k);
            &&& queued(state.uploads, hash)
            &&& forall|a: int, b: int|
                0 <= a < state.uploads.len() && 0 <= b < state.uploads.len() && (
                #[trigger] state.uploads[a]).hash == hash && (#[trigger] state.uploads[b]).hash
                    == hash ==> a == b
            &&& forall|a: int|
                0 <= a < state.uploads.len() && (#[trigger] state.uploads[a]).hash == hash
                    ==> state.uploads[a].uuid == state.assigned[k]
        }),
{
    lemma_settled(references, payloads, ledger, base, minted, extensions, n);
    lemma_uploads_settled(references, payloads, ledger, base, minted, extensions, n);
    let state = resolved_through(references, payloads, ledger, base, minted, extensions, n)->Ok_0;
    let hash = content_hash_at(payloads, k);
    assert(payloads[k] is Content);
    assert forall|a: int, b: int|
        0 <= a < state.uploads.len() && 0 <= b < state.uploads.len() && (
        #[trigger] state.uploads[a]).hash == hash && (#[trigger] state.uploads[b]).hash
            == hash implies a == b by {
        if a < b {
            assert(state.uploads[a].hash != state.uploads[b].hash);
        } else if b < a {
            assert(state.uploads[b].hash != state.uploads[a].hash);
        }
    }
}

/// No content is published twice: no two payloads to publish have the same
/// hash, and each has the identifier of the record of its content.
pub proof fn lemma_each_content_queued_at_most_once(
    references: Seq<DownloadView>,
    payloads: Seq<PayloadView>,
    ledger: Seq<DownloadableView>,
    base: Seq<char>,
    minted: Seq<Uuid>,
    extensions: Seq<Option<Seq<char>>>,
    n: int,
)
    requires
        0 <= n,
        resolved_through(references, payloads, ledger, base, minted, extensions, n) is Ok,
    ensures
        ({
            let state = resolved_through(
                references,
                payloads,
                ledger,
                base,
                minted,
                extensions,
                n,
            )->Ok_0;
            &&& uploads_distinct(state.uploads)
            &&& uploads_recorded(state)
            &&& uploads_are_new(state.uploads, ledger)
        }),
{
    lemma_settled(references, payloads, ledger, base, minted, extensions, n);
    lemma_uploads_settled(references, payloads, ledger, base, minted, extensions, n);
}

/// The position among the distinct references of the download of an
/// installation.
pub open spec fn installation_reference(source: SourceView, font: int, installation: int) -> int {
    reference_position(
        distinct_references(source),
        source.fonts[font].installations[installation].download(),
        0,
    )
}

/// In the compiled artifact two installations whose payloads have the same
/// bytes refer to the same record, and that record is the only one with the
/// hash of those bytes.
pub proof fn lemma_same_content_one_record(
    version: semver::Version,
    source: SourceView,
    base: Seq<char>,
    ledger: Seq<DownloadableView>,
    payloads: Seq<PayloadView>,
    minted: Seq<Uuid>,
    extensions: Seq<Option<Seq<char>>>,
    font_a: int,
    installation_a: int,
    font_b: int,
    installation_b: int,
)
    requires
        build_result(version, source, base, ledger, payloads, minted, extensions) is Ok,
        0 <= font_a < source.fonts.len(),
        0 <= installation_a < source.fonts[font_a].installations.len(),
        0 <= font_b < source.fonts.len(),
        0 <= installation_b < source.fonts[font_b].installations.len(),
        payloads[installation_reference(source, font_a, installation_a)]
            == payloads[installation_reference(source, font_b, installation_b)],
    ensures
        ({
            let compiled = build_result(
                version,
                source,
                base,
                ledger,
                payloads,
                minted,
                extensions,
            )->Ok_0.1;
            let payload = payloads[installation_reference(source, font_a, installation_a)];
            let hash = sha256_hex(payload->Content_0);
            let at = record_position(compiled.downloads, hash, 0);
            &&& payload is Content
            &&& 0 <= at < compiled.downloads.len()
            &&& forall|a: int|
                0 <= a < compiled.downloads.len() ==> ((#[trigger] compiled.downloads[a]).hash
                    == hash <==> a == at)
            &&& compiled.fonts[font_a].installations[installation_a].download()
                == compiled.downloads[at].id
            &&& compiled.fonts[font_b].installations[installation_b].download()
                == compiled.downloads[at].id
        }),
{
    let references = distinct_references(source);
    lemma_reference_known(source, font_a, installation_a);
    lemma_reference_known(source, font_b, installation_b);
    lemma_one_record_per_content(
        references,
        payloads,
        ledger,
        base,
        minted,
        extensions,
        references.len() as int,
        installation_reference(source, font_a, installation_a),
        installation_reference(source, font_b, installation_b),
    );
}

/// In the compiled artifact an installation whose payload the ledger knows
/// refers to a record with the identifier and the address of the ledger's
/// entry, and no payload to publish has content that the ledger knows.
pub proof fn lemma_known_content_not_published(
    version: semver::Version,
    source: SourceView,
    base: Seq<char>,
    ledger: Seq<DownloadableView>,
    payloads: Seq<PayloadView>,
    minted: Seq<Uuid>,
    extensions: Seq<Option<Seq<char>>>,
    font: int,
    installation: int,
)
    requires
        build_result(version, source, base, ledger, payloads, minted, extensions) is Ok,
        0 <= font < source.fonts.len(),
        0 <= installation < source.fonts[font].installations.len(),
        payloads[installation_reference(source, font, installation)] matches PayloadView::Content(
            bytes,
        ) && ledger_entry(ledger, sha256_hex(bytes)) is Some,
    ensures
        ({
            let built = build_result(
                version,
                source,
                base,
                ledger,
                payloads,
                minted,
                extensions,
            )->Ok_0;
            let uploads = built.0;
            let compiled = built.1;
            let payload = payloads[installation_reference(source, font, installation)];
            let hash = sha256_hex(payload->Content_0);
            let entry = ledger_entry(ledger, hash)->Some_0;
            let at = record_position(compiled.downloads, hash, 0);
            &&& 0 <= at < compiled.downloads.len()
            &&& compiled.fonts[font].installations[installation].download() == entry.id
            &&& compiled.downloads[at].id == entry.id
            &&& compiled.downloads[at].download_url == entry.download_url
            &&& forall|a: int|
                0 <= a < uploads.len() ==> ledger_entry(ledger, (#[trigger] uploads[a]).hash)
                    is None
        }),
{
    let references = distinct_references(source);
    lemma_reference_known(source, font, installation);
    lemma_ledger_content_reused(
        references,
        payloads,
        ledger,
        base,
        minted,
        extensions,
        references.len() as int,
        installation_reference(source, font, installation),
    );
}

/// In the compiled artifact an installation of a local payload that is new,
/// and that only local references refer to, has its payload published once:
/// exactly one payload to publish has the hash of its bytes, and that payload
/// has the identifier that the installation refers to.
pub proof fn lemma_new_local_content_published_once(
    version: semver::Version,
    source: SourceView,
    base: Seq<char>,
    ledger: Seq<DownloadableView>,
    payloads: Seq<PayloadView>,
    minted: Seq<Uuid>,
    extensions: Seq<Option<Seq<char>>>,
    font: int,
    installation: int,
)
    requires
        build_result(version, source, base, ledger, payloads, minted, extensions) is Ok,
        0 <= font < source.fonts.len(),
        0 <= installation < source.fonts[font].installations.len(),
        ledger_entry(
            ledger,
            content_hash_at(payloads, installation_reference(source, font, installation)),
        ) is None,
        all_local(
            distinct_references(source),
            payloads,
            content_hash_at(payloads, installation_reference(source, font, installation)),
            distinct_references(source).len() as int,
        ),
    ensures
        ({
            let built = build_result(
                version,
                source,
                base,
                ledger,
                payloads,
                minted,
                extensions,
            )->Ok_0;
            let uploads = built.0;
            let compiled = built.1;
            let hash = content_hash_at(
                payloads,
                installation_reference(source, font, installation),
            );
            &&& queued(uploads, hash)
            &&& uploads_distinct(uploads)
            &&& uploads_are_new(uploads, ledger)
            &&& forall|a: int|
                0 <= a < uploads.len() && (#[trigger] uploads[a]).hash == hash ==> uploads[a].uuid
                    == compiled.fonts[font].installations[installation].download()
        }),
{
    let references = distinct_references(source);
    lemma_reference_known(source, font, installation);
    lemma_new_local_content_queued_once(
        references,
        payloads,
        ledger,
        base,
        minted,
        extensions,
        references.len() as int,
        installation_reference(source, font, installation),
    );
    lemma_each_content_queued_at_most_once(
        references,
        payloads,
        ledger,
        base,
        minted,
        extensions,
        references.len() as int,
    );
}

/// Once the payloads have been published, the ledger holds each of them
/// once: where no two payloads have the same hash and the ledger knew none of
/// them, exactly one entry has the hash of a payload, and that entry has the
/// payload's identifier.
pub proof fn lemma_ledger_holds_upload_once(
    ledger: Seq<DownloadableView>,
    uploads: Seq<UploadView>,
    base: Seq<char>,
    after: Seq<DownloadableView>,
    k: int,
)
    requires
        ledger_extended(ledger, uploads, base, after),
        uploads_distinct(uploads),
        uploads_are_new(uploads, ledger),
        0 <= k < uploads.len(),
    ensures
        after[ledger.len() + k].hash == uploads[k].hash,
        after[ledger.len() + k].id == uploads[k].uuid,
        forall|at: int|
            0 <= at < after.len() && (#[trigger] after[at]).hash == uploads[k].hash ==> at
                == ledger.len() + k,
{
    let hash = uploads[k].hash;
    assert(ledger_entry(ledger, uploads[k].hash) is None);
    lemma_entry_position(ledger, hash, 0);
    assert forall|at: int| 0 <= at < after.len() && (#[trigger] after[at]).hash
        == hash implies at == ledger.len() + k by {
        if at < ledger.len() {
            assert(after.subrange(0, ledger.len() as int)[at] == after[at]);
            assert(ledger[at].hash != hash);
        } else {
            let other = at - ledger.len();
            assert(after[ledger.len() + other].hash == uploads[other].hash);
            if other < k {
                assert(uploads[other].hash != uploads[k].hash);
            } else if k < other {
                assert(uploads[k].hash != uploads[other].hash);
            }
        }
    }
}

} // verus!
