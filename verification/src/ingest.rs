use vstd::prelude::*;

use crate::audit::{AuditLog, LogEntry};
use crate::bytes::copy_bytes;
use crate::store::{files_map, period_set, FileStore, StoredFile};

verus! {

/// What the ingest path does with one invocation, decided by the attachment
/// count alone.
#[derive(Debug, PartialEq, Eq, Structural)]
pub enum IngestDispatch {
    /// no attachment was supplied: nothing is stored
    NoAttachment,
    /// exactly one attachment: proceed to store it
    StoreOne,
    /// more than one attachment: the invocation is rejected
    TooManyAttachments,
}

/// Decides an invocation from its attachment count: zero is rejected as
/// missing, one is stored, two or more are rejected as too many.
pub fn dispatch_attachments(count: usize) -> (r: IngestDispatch)
    ensures
        (r == IngestDispatch::NoAttachment) <==> count == 0,
        (r == IngestDispatch::StoreOne) <==> count == 1,
        (r == IngestDispatch::TooManyAttachments) <==> count >= 2,
{
    if count == 0 {
        IngestDispatch::NoAttachment
    } else if count == 1 {
        IngestDispatch::StoreOne
    } else {
        IngestDispatch::TooManyAttachments
    }
}

/// One accepted ingest: persists the attachment under its (owner, period)
/// bucket and appends one audit record attributing the owner, the filename
/// and the date.  The store is exactly a `FileStore::store`, and the log
/// gains exactly one record with nothing prior disturbed.
pub fn ingest_attachment(
    st: &mut FileStore,
    log: &mut AuditLog,
    owner: Vec<u8>,
    period: Vec<u8>,
    name: Vec<u8>,
    data: Vec<u8>,
    date: Vec<u8>,
)
    ensures
        final(st)@ == old(st)@.push((StoredFile { owner, period, name, data })),
        files_map(final(st)@, owner@, period@) == files_map(old(st)@, owner@, period@).insert(
            name@,
            data@,
        ),
        forall|o2: Seq<u8>, p2: Seq<u8>|
            o2 != owner@ || p2 != period@ ==> files_map(final(st)@, o2, p2) == files_map(
                old(st)@,
                o2,
                p2,
            ),
        period_set(final(st)@, owner@) == period_set(old(st)@, owner@).insert(period@),
        forall|o2: Seq<u8>| o2 != owner@ ==> period_set(final(st)@, o2) == period_set(old(st)@, o2),
        final(log)@.len() == old(log)@.len() + 1,
        forall|i: int| 0 <= i < old(log)@.len() ==> final(log)@[i] == old(log)@[i],
        final(log)@.last().date@ == date@,
        final(log)@.last().author@ == owner@,
        final(log)@.last().file@ == name@,
{
    let author = copy_bytes(&owner);
    let file = copy_bytes(&name);
    st.store(owner, period, name, data);
    log.append(LogEntry { date, author, file });
}

} // verus!
