//! The transfer ledger: every send and receive, with its progress and state.
use vstd::prelude::*;
use vstd::string::StringExecFns;
use crate::routing::{names, copy_names};

verus! {

/// Where a transfer stands.
#[derive(Debug, Clone, Copy, PartialEq, Eq, Structural)]
pub enum TransferStatus {
    /// Inbound bytes are arriving; the packet had travelled `hops` hops.
    Receiving { hops: u8 },
    /// The file arrived, authenticated and was stored.
    Received { hops: u8 },
    /// The file arrived but did not authenticate; nothing was stored.
    DecryptionFailed,
    /// The file is being encrypted and sent over a route of `hops` hops.
    Sending { hops: u8 },
    /// Every byte of the file was written to the connection.
    Sent { hops: u8 },
}

/// The state changes a transfer may make: a receive ends received or failed,
/// a send ends sent, and an ended transfer stays as it is.
pub open spec fn allowed_step(from: TransferStatus, to: TransferStatus) -> bool {
    match from {
        TransferStatus::Receiving { hops } => to == (TransferStatus::Received { hops })
            || to == TransferStatus::DecryptionFailed,
        TransferStatus::Sending { hops } => to == (TransferStatus::Sent { hops }),
        _ => false,
    }
}

/// A transfer record as the contracts see it.
pub struct RecordModel {
    pub id: Seq<char>,
    pub filename: Seq<char>,
    pub size: u64,
    pub progress: u64,
    pub status: TransferStatus,
    pub from_device: Seq<char>,
    pub to_device: Seq<char>,
    pub encrypted: bool,
    pub hops: Seq<Seq<char>>,
}

/// One send or receive.
pub struct TransferRecord {
    pub id: String,
    pub filename: String,
    /// Bytes of encrypted payload that the transfer moves.
    pub size: u64,
    /// Bytes moved so far.
    pub progress: u64,
    pub status: TransferStatus,
    pub from_device: String,
    pub to_device: String,
    pub encrypted: bool,
    pub hops: Vec<String>,
}

impl View for TransferRecord {
    type V = RecordModel;

    open spec fn view(&self) -> RecordModel {
        RecordModel {
            id: self.id@,
            filename: self.filename@,
            size: self.size,
            progress: self.progress,
            status: self.status,
            from_device: self.from_device@,
            to_device: self.to_device@,
            encrypted: self.encrypted,
            hops: names(self.hops@),
        }
    }
}

impl TransferRecord {
    /// A copy of this record.
    pub fn copy(&self) -> (r: TransferRecord)
        ensures
            r@ == self@,
    {
        TransferRecord {
            id: self.id.clone(),
            filename: self.filename.clone(),
            size: self.size,
            progress: self.progress,
            status: self.status,
            from_device: self.from_device.clone(),
            to_device: self.to_device.clone(),
            encrypted: self.encrypted,
            hops: copy_names(&self.hops),
        }
    }
}

/// `k` is the first record with identifier `id`.
pub open spec fn is_first(rs: Seq<RecordModel>, id: Seq<char>, k: int) -> bool {
    &&& 0 <= k < rs.len()
    &&& rs[k].id == id
    &&& forall|j: int| 0 <= j < k ==> #[trigger] rs[j].id != id
}

/// No record has identifier `id`.
pub open spec fn absent(rs: Seq<RecordModel>, id: Seq<char>) -> bool {
    forall|j: int| 0 <= j < rs.len() ==> #[trigger] rs[j].id != id
}

/// No record has moved more bytes than it declared.
pub open spec fn progress_bounded(rs: Seq<RecordModel>) -> bool {
    forall|j: int| 0 <= j < rs.len() ==> #[trigger] rs[j].progress <= rs[j].size
}

/// `new` is a later state of the ledger `old`: records are only added at the
/// end, and each existing record keeps its identity and declared size while
/// its progress does not go down.
pub open spec fn follows(old: Seq<RecordModel>, new: Seq<RecordModel>) -> bool {
    &&& old.len() <= new.len()
    &&& forall|j: int|
        0 <= j < old.len() ==> {
            &&& (#[trigger] new[j]).id == old[j].id
            &&& new[j].size == old[j].size
            &&& old[j].progress <= new[j].progress
        }
}

/// The record `r` with its progress set to `p`.
pub open spec fn with_progress(r: RecordModel, p: u64) -> RecordModel {
    RecordModel { progress: p, ..r }
}

/// The record `r` with its state set to `s`.
pub open spec fn with_status(r: RecordModel, s: TransferStatus) -> RecordModel {
    RecordModel { status: s, ..r }
}

/// The first record with identifier `id` has only one index.
pub proof fn lemma_first_unique(rs: Seq<RecordModel>, id: Seq<char>, a: int, b: int)
    requires
        is_first(rs, id, a),
        is_first(rs, id, b),
    ensures
        a == b,
{
    if a < b {
        assert(rs[a].id != id);
    } else if b < a {
        assert(rs[b].id != id);
    }
}

/// The ledger `rs` after setting the progress of the first record with
/// identifier `id` to `p`, which happens only where `p` neither lowers its
/// progress nor passes its size.
pub open spec fn progress_applied(rs: Seq<RecordModel>, id: Seq<char>, p: u64) -> Seq<RecordModel> {
    if exists|k: int| is_first(rs, id, k) {
        let k = choose|k: int| is_first(rs, id, k);
        if rs[k].progress <= p <= rs[k].size {
            rs.update(k, with_progress(rs[k], p))
        } else {
            rs
        }
    } else {
        rs
    }
}

/// The ledger `rs` after moving the first record with identifier `id` to
/// state `s`, which happens only where its state may step there.
pub open spec fn status_applied(rs: Seq<RecordModel>, id: Seq<char>, s: TransferStatus) -> Seq<
    RecordModel,
> {
    if exists|k: int| is_first(rs, id, k) {
        let k = choose|k: int| is_first(rs, id, k);
        if allowed_step(rs[k].status, s) {
            rs.update(k, with_status(rs[k], s))
        } else {
            rs
        }
    } else {
        rs
    }
}

/// Some bound on the lengths of the identifiers in `rs`.
proof fn lemma_id_length_bound(rs: Seq<RecordModel>) -> (m: int)
    ensures
        m >= 0,
        forall|j: int| 0 <= j < rs.len() ==> #[trigger] rs[j].id.len() <= m,
    decreases rs.len(),
{
    if rs.len() == 0 {
        0
    } else {
        let m0 = lemma_id_length_bound(rs.drop_last());
        let m = if rs.last().id.len() > m0 { rs.last().id.len() as int } else { m0 };
        assert forall|j: int| 0 <= j < rs.len() implies #[trigger] rs[j].id.len() <= m by {
            if j < rs.len() - 1 {
                assert(rs.drop_last()[j] == rs[j]);
            }
        }
        m
    }
}

/// A record added under an identifier no earlier record has is the first
/// record with that identifier, so every later update by that identifier
/// reaches it.
pub proof fn lemma_pushed_record_is_first(rs: Seq<RecordModel>, r: RecordModel)
    requires
        absent(rs, r.id),
    ensures
        is_first(rs.push(r), r.id, rs.len() as int),
{
    assert forall|j: int| 0 <= j < rs.len() implies #[trigger] rs.push(r)[j].id != r.id by {
        assert(rs.push(r)[j] == rs[j]);
    }
}

/// Updates of a record leave it the first with its identifier.
pub proof fn lemma_first_kept(old: Seq<RecordModel>, new: Seq<RecordModel>, id: Seq<char>, k: int)
    requires
        is_first(old, id, k),
        follows(old, new),
    ensures
        is_first(new, id, k),
{
    assert forall|j: int| 0 <= j < k implies #[trigger] new[j].id != id by {
        assert(new[j].id == old[j].id);
    }
}

/// Setting the progress of the record that is first with its identifier.
pub proof fn lemma_progress_applied_at(rs: Seq<RecordModel>, id: Seq<char>, k: int, p: u64)
    requires
        is_first(rs, id, k),
    ensures
        progress_applied(rs, id, p) == if rs[k].progress <= p <= rs[k].size {
            rs.update(k, with_progress(rs[k], p))
        } else {
            rs
        },
{
    let c = choose|c: int| is_first(rs, id, c);
    lemma_first_unique(rs, id, k, c);
}

/// Moving the record that is first with its identifier to another state.
pub proof fn lemma_status_applied_at(rs: Seq<RecordModel>, id: Seq<char>, k: int, s: TransferStatus)
    requires
        is_first(rs, id, k),
    ensures
        status_applied(rs, id, s) == if allowed_step(rs[k].status, s) {
            rs.update(k, with_status(rs[k], s))
        } else {
            rs
        },
{
    let c = choose|c: int| is_first(rs, id, c);
    lemma_first_unique(rs, id, k, c);
}

/// Progress observed over time never goes down and never passes the declared
/// size: across any run of ledger states, each following the one before, a
/// record's progress in an earlier state is at most its progress in a later
/// one, which is at most its size.
pub proof fn lemma_progress_monotone(states: Seq<Seq<RecordModel>>, a: int, b: int, j: int)
    requires
        forall|k: int| 0 <= k < states.len() ==> progress_bounded(#[trigger] states[k]),
        forall|k: int| 0 <= k < states.len() - 1 ==> follows(#[trigger] states[k], states[k + 1]),
        0 <= a <= b < states.len(),
        0 <= j < states[a].len(),
    ensures
        j < states[b].len(),
        states[b][j].id == states[a][j].id,
        states[a][j].progress <= states[b][j].progress,
        states[b][j].progress <= states[b][j].size,
    decreases b - a,
{
    if a < b {
        assert(follows(states[a], states[a + 1]));
        lemma_progress_monotone(states, a + 1, b, j);
    }
    assert(progress_bounded(states[b]));
}

/// Every transfer this device has seen, in the order they began.
pub struct TransferLedger {
    records: Vec<TransferRecord>,
}

impl View for TransferLedger {
    type V = Seq<RecordModel>;

    closed spec fn view(&self) -> Seq<RecordModel> {
        self.records@.map_values(|r: TransferRecord| r@)
    }
}

impl TransferLedger {
    /// Progress never passes the declared size.
    pub open spec fn wf(&self) -> bool {
        progress_bounded(self@)
    }

    /// An empty ledger.
    pub fn new() -> (r: TransferLedger)
        ensures
            r@ == Seq::<RecordModel>::empty(),
            r.wf(),
    {
        let r = TransferLedger { records: Vec::new() };
        assert(r@ =~= Seq::<RecordModel>::empty());
        r
    }

    /// Number of records.
    pub fn len(&self) -> (r: usize)
        ensures
            r == self@.len(),
    {
        self.records.len()
    }

    /// Adds a record at the end.
    pub fn append(&mut self, record: TransferRecord)
        requires
            old(self).wf(),
            record.progress <= record.size,
        ensures
            final(self)@ == old(self)@.push(record@),
            final(self).wf(),
            follows(old(self)@, final(self)@),
    {
        self.records.push(record);
        assert(self@ =~= old(self)@.push(record@));
    }

    /// Index of the first record with identifier `id`.
    pub fn index_of(&self, id: &String) -> (r: Option<usize>)
        ensures
            match r {
                Some(k) => is_first(self@, id@, k as int),
                None => absent(self@, id@),
            },
    {
        let mut k: usize = 0;
        while k < self.records.len()
            invariant
                0 <= k <= self.records@.len(),
                forall|j: int| 0 <= j < k ==> #[trigger] self@[j].id != id@,
            decreases self.records@.len() - k,
        {
            if self.records[k].id == *id {
                return Some(k);
            }
            k = k + 1;
        }
        None
    }

    /// An identifier that no record has: `drawn` itself where it is new,
    /// else `drawn` lengthened with `-` until it is longer than every
    /// identifier in the ledger.
    pub fn fresh_id(&self, drawn: String) -> (r: String)
        ensures
            absent(self@, r@),
            absent(self@, drawn@) ==> r@ == drawn@,
    {
        let ghost m = lemma_id_length_bound(self@);
        let mut id = drawn;
        let mut present = self.index_of(&id).is_some();
        proof {
            reveal_strlit("-");
        }
        while present
            invariant
                present == !absent(self@, id@),
                forall|j: int| 0 <= j < self@.len() ==> #[trigger] self@[j].id.len() <= m,
                absent(self@, drawn@) ==> id@ == drawn@,
                "-"@.len() == 1,
            decreases m + 1 - id@.len(),
        {
            let ghost before = id@;
            proof {
                let j = choose|j: int| 0 <= j < self@.len() && #[trigger] self@[j].id == id@;
                assert(self@[j].id.len() <= m);
            }
            id.append("-");
            assert(id@.len() == before.len() + 1);
            present = self.index_of(&id).is_some();
        }
        id
    }

    /// Sets the progress of the first record with identifier `id` to
    /// `progress`, where that neither lowers it nor passes its size; tells
    /// whether it did.
    pub fn record_progress(&mut self, id: &String, progress: u64) -> (applied: bool)
        requires
            old(self).wf(),
        ensures
            final(self).wf(),
            follows(old(self)@, final(self)@),
            final(self)@ == progress_applied(old(self)@, id@, progress),
            absent(old(self)@, id@) ==> !applied && final(self)@ == old(self)@,
            forall|k: int|
                is_first(old(self)@, id@, k) ==> if old(self)@[k].progress <= progress
                    <= old(self)@[k].size {
                    applied && final(self)@ == old(self)@.update(
                        k,
                        with_progress(old(self)@[k], progress),
                    )
                } else {
                    !applied && final(self)@ == old(self)@
                },
    {
        let found = self.index_of(id);
        proof {
            if let Some(k) = found {
                let c = choose|c: int| is_first(self@, id@, c);
                lemma_first_unique(self@, id@, k as int, c);
            }
        }
        match found {
            None => false,
            Some(k) => {
                if self.records[k].progress <= progress && progress <= self.records[k].size {
                    let mut r = self.records[k].copy();
                    r.progress = progress;
                    self.records.set(k, r);
                    assert(self@ =~= old(self)@.update(
                        k as int,
                        with_progress(old(self)@[k as int], progress),
                    ));
                    true
                } else {
                    false
                }
            },
        }
    }

    /// Moves the first record with identifier `id` to state `status`, where
    /// its state may step there; tells whether it did.
    pub fn set_status(&mut self, id: &String, status: TransferStatus) -> (applied: bool)
        requires
            old(self).wf(),
        ensures
            final(self).wf(),
            follows(old(self)@, final(self)@),
            final(self)@ == status_applied(old(self)@, id@, status),
            absent(old(self)@, id@) ==> !applied && final(self)@ == old(self)@,
            forall|k: int|
                is_first(old(self)@, id@, k) ==> if allowed_step(old(self)@[k].status, status) {
                    applied && final(self)@ == old(self)@.update(
                        k,
                        with_status(old(self)@[k], status),
                    )
                } else {
                    !applied && final(self)@ == old(self)@
                },
    {
        let found = self.index_of(id);
        proof {
            if let Some(k) = found {
                let c = choose|c: int| is_first(self@, id@, c);
                lemma_first_unique(self@, id@, k as int, c);
            }
        }
        match found {
            None => false,
            Some(k) => {
                let allowed = match self.records[k].status {
                    TransferStatus::Receiving { hops } => status == (TransferStatus::Received {
                        hops,
                    }) || status == TransferStatus::DecryptionFailed,
                    TransferStatus::Sending { hops } => status == (TransferStatus::Sent { hops }),
                    _ => false,
                };
                if allowed {
                    let mut r = self.records[k].copy();
                    r.status = status;
                    self.records.set(k, r);
                    assert(self@ =~= old(self)@.update(
                        k as int,
                        with_status(old(self)@[k as int], status),
                    ));
                    true
                } else {
                    false
                }
            },
        }
    }

    /// A copy of every record, in order.
    pub fn snapshot(&self) -> (r: Vec<TransferRecord>)
        ensures
            r@.len() == self@.len(),
            forall|k: int| 0 <= k < r@.len() ==> (#[trigger] r@[k])@ == self@[k],
    {
        let mut out: Vec<TransferRecord> = Vec::new();
        let mut i: usize = 0;
        while i < self.records.len()
            invariant
                0 <= i <= self.records@.len(),
                out@.len() == i,
                forall|k: int| 0 <= k < i ==> (#[trigger] out@[k])@ == self@[k],
            decreases self.records@.len() - i,
        {
            out.push(self.records[i].copy());
            i = i + 1;
        }
        out
    }
}

} // verus!
