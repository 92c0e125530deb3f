//! The decisions that drive one transfer: what the sender sends and records,
//! what the receiver reads and records, and where a relay forwards.
use vstd::prelude::*;
use vstd::string::StringExecFns;
use crate::codec::{decrypt_data, encrypt_data, opens_to, CodecError, MAX_PLAIN_LEN, NONCE_LEN, TAG_LEN};
use crate::ledger::{
    absent, is_first, lemma_first_kept, lemma_progress_applied_at, lemma_pushed_record_is_first,
    lemma_status_applied_at, progress_applied, status_applied, RecordModel, TransferLedger,
    TransferRecord, TransferStatus,
};
use crate::routing::{copy_names, names, RouteModel, RouteTable};

verus! {

/// Payload bytes moved per write or read.
pub const CHUNK_SIZE: usize = 8192;

/// The packet type of a file packet.
pub open spec fn file_packet_type() -> Seq<char> {
    seq!['F', 'I', 'L', 'E']
}

/// How a record names the local device.
pub open spec fn this_device() -> Seq<char> {
    seq!['T', 'h', 'i', 's', ' ', 'D', 'e', 'v', 'i', 'c', 'e']
}

/// A packet header as the contracts see it.
pub struct HeaderModel {
    pub packet_type: Seq<char>,
    pub source: Seq<char>,
    pub destination: Seq<char>,
    pub hop_count: u8,
    pub path: Seq<Seq<char>>,
}

/// What travels ahead of the filename, size and payload.
pub struct PacketHeader {
    pub packet_type: String,
    pub source: String,
    pub destination: String,
    /// Relays this packet has passed.
    pub hop_count: u8,
    pub path: Vec<String>,
}

impl View for PacketHeader {
    type V = HeaderModel;

    open spec fn view(&self) -> HeaderModel {
        HeaderModel {
            packet_type: self.packet_type@,
            source: self.source@,
            destination: self.destination@,
            hop_count: self.hop_count,
            path: names(self.path@),
        }
    }
}

impl PacketHeader {
    /// A copy of this header.
    pub fn copy(&self) -> (r: PacketHeader)
        ensures
            r@ == self@,
    {
        PacketHeader {
            packet_type: self.packet_type.clone(),
            source: self.source.clone(),
            destination: self.destination.clone(),
            hop_count: self.hop_count,
            path: copy_names(&self.path),
        }
    }
}

fn this_device_name() -> (r: String)
    ensures
        r@ == this_device(),
{
    proof {
        reveal_strlit("This Device");
        assert("This Device"@ =~= this_device());
    }
    String::from_str("This Device")
}

/// Where a packet for `target` goes: the known route's hop count and path, or
/// else one hop straight from `me` to `target`.
pub open spec fn planned_path(table: Map<Seq<char>, RouteModel>, me: Seq<char>, target: Seq<char>) -> (
    u8,
    Seq<Seq<char>>,
) {
    if table.contains_key(target) {
        (table[target].hop_count, table[target].path)
    } else {
        (1, seq![me, target])
    }
}

/// The hop count and path a send to one destination will use.
pub struct SendPlan {
    pub hop_count: u8,
    pub path: Vec<String>,
}

/// Resolves the route to `target`, falling back to a direct delivery.
pub fn plan_send(routes: &RouteTable, target: &String) -> (r: SendPlan)
    requires
        routes.wf(),
    ensures
        (r.hop_count, names(r.path@)) == planned_path(routes@, routes.owner(), target@),
{
    match routes.lookup_route(target) {
        Some(route) => SendPlan { hop_count: route.hop_count, path: route.path },
        None => {
            let path = vec![routes.self_name().clone(), target.clone()];
            assert(names(path@) =~= seq![routes.owner(), target@]);
            SendPlan { hop_count: 1, path }
        },
    }
}

/// An outbound transfer: the encrypted payload and how much of it is written.
pub struct Outgoing {
    transfer_id: String,
    hops: u8,
    payload: Vec<u8>,
    sent: usize,
}

impl Outgoing {
    pub closed spec fn id(&self) -> Seq<char> {
        self.transfer_id@
    }

    pub closed spec fn hops(&self) -> u8 {
        self.hops
    }

    pub closed spec fn payload_bytes(&self) -> Seq<u8> {
        self.payload@
    }

    pub closed spec fn sent_bytes(&self) -> nat {
        self.sent as nat
    }

    /// The transfer's identifier in the ledger.
    pub fn transfer_id(&self) -> (r: &String)
        ensures
            r@ == self.id(),
    {
        &self.transfer_id
    }

    /// The encrypted payload.
    pub fn payload(&self) -> (r: &Vec<u8>)
        ensures
            r@ == self.payload_bytes(),
    {
        &self.payload
    }

    /// Bytes of payload written so far.
    pub fn sent(&self) -> (r: usize)
        ensures
            r == self.sent_bytes(),
    {
        self.sent
    }

    /// Whether every byte of the payload is written.
    pub fn is_done(&self) -> (r: bool)
        ensures
            r == (self.sent_bytes() >= self.payload_bytes().len()),
    {
        self.sent >= self.payload.len()
    }

    /// The part of the payload to write next: up to one chunk from where the
    /// last write ended.
    pub fn next_chunk(&self) -> (r: (usize, usize))
        requires
            self.sent_bytes() <= self.payload_bytes().len(),
        ensures
            r.0 == self.sent_bytes(),
            r.1 == if self.sent_bytes() + CHUNK_SIZE <= self.payload_bytes().len() {
                self.sent_bytes() + CHUNK_SIZE
            } else {
                self.payload_bytes().len() as int
            },
    {
        let rest = self.payload.len() - self.sent;
        if rest >= CHUNK_SIZE {
            (self.sent, self.sent + CHUNK_SIZE)
        } else {
            (self.sent, self.payload.len())
        }
    }

    /// Records that the chunk `next_chunk` gave was written: the transfer's
    /// progress becomes the bytes written so far, and once that is the whole
    /// payload the transfer is sent.
    pub fn chunk_written(&mut self, ledger: &mut TransferLedger)
        requires
            old(ledger).wf(),
            old(self).sent_bytes() < old(self).payload_bytes().len(),
        ensures
            final(ledger).wf(),
            final(self).id() == old(self).id(),
            final(self).hops() == old(self).hops(),
            final(self).payload_bytes() == old(self).payload_bytes(),
            final(self).sent_bytes() == if old(self).sent_bytes() + CHUNK_SIZE
                <= old(self).payload_bytes().len() {
                old(self).sent_bytes() + CHUNK_SIZE
            } else {
                old(self).payload_bytes().len() as int
            },
            final(ledger)@ == if final(self).sent_bytes() >= final(self).payload_bytes().len() {
                status_applied(
                    progress_applied(old(ledger)@, old(self).id(), final(self).sent_bytes() as u64),
                    old(self).id(),
                    TransferStatus::Sent { hops: old(self).hops() },
                )
            } else {
                progress_applied(old(ledger)@, old(self).id(), final(self).sent_bytes() as u64)
            },
            forall|k: int|
                is_first(old(ledger)@, old(self).id(), k) && old(ledger)@[k].progress
                    <= old(self).sent_bytes() && old(ledger)@[k].size == old(
                    self,
                ).payload_bytes().len() ==> {
                    &&& is_first(final(ledger)@, old(self).id(), k)
                    &&& final(ledger)@[k].progress == final(self).sent_bytes()
                    &&& final(ledger)@[k].size == old(ledger)@[k].size
                    &&& (final(self).sent_bytes() >= final(self).payload_bytes().len()
                        && old(ledger)@[k].status == (TransferStatus::Sending {
                        hops: old(self).hops(),
                    }) ==> final(ledger)@[k].status == (TransferStatus::Sent {
                        hops: old(self).hops(),
                    }))
                    &&& (final(self).sent_bytes() < final(self).payload_bytes().len()
                        ==> final(ledger)@[k].status == old(ledger)@[k].status)
                },
    {
        let ghost l0 = ledger@;
        let (_, end) = self.next_chunk();
        self.sent = end;
        ledger.record_progress(&self.transfer_id, end as u64);
        let ghost l1 = ledger@;
        if self.sent >= self.payload.len() {
            ledger.set_status(&self.transfer_id, TransferStatus::Sent { hops: self.hops });
        }
        proof {
            assert forall|k: int|
                is_first(l0, self.id(), k) && l0[k].progress <= old(self).sent_bytes()
                    && l0[k].size == self.payload_bytes().len() implies is_first(ledger@, self.id(), k)
                && ledger@[k].progress == self.sent_bytes() by {
                lemma_progress_applied_at(l0, self.id(), k, end as u64);
                lemma_first_kept(l0, l1, self.id(), k);
                if self.sent >= self.payload.len() {
                    lemma_status_applied_at(l1, self.id(), k, TransferStatus::Sent { hops: self.hops });
                }
                lemma_first_kept(l0, ledger@, self.id(), k);
            }
        }
    }
}

/// The record a send starts with.
pub open spec fn send_record(
    id: Seq<char>,
    filename: Seq<char>,
    size: u64,
    hops: u8,
    target: Seq<char>,
    path: Seq<Seq<char>>,
) -> RecordModel {
    RecordModel {
        id,
        filename,
        size,
        progress: 0,
        status: TransferStatus::Sending { hops },
        from_device: this_device(),
        to_device: target,
        encrypted: true,
        hops: path,
    }
}

/// Starts sending the already encrypted `payload` to `target`: resolves the
/// route, records the transfer under `transfer_id`, and returns the transfer
/// with the header to send ahead of it.
pub fn open_send(
    ledger: &mut TransferLedger,
    routes: &RouteTable,
    target: &String,
    filename: String,
    payload: Vec<u8>,
    transfer_id: String,
) -> (r: (Outgoing, PacketHeader))
    requires
        old(ledger).wf(),
        routes.wf(),
    ensures
        final(ledger).wf(),
        final(ledger)@ == old(ledger)@.push(
            send_record(
                transfer_id@,
                filename@,
                payload@.len() as u64,
                planned_path(routes@, routes.owner(), target@).0,
                target@,
                planned_path(routes@, routes.owner(), target@).1,
            ),
        ),
        r.0.id() == transfer_id@,
        r.0.hops() == planned_path(routes@, routes.owner(), target@).0,
        r.0.payload_bytes() == payload@,
        r.0.sent_bytes() == 0,
        r.1@ == (HeaderModel {
            packet_type: file_packet_type(),
            source: routes.owner(),
            destination: target@,
            hop_count: 0,
            path: planned_path(routes@, routes.owner(), target@).1,
        }),
{
    let plan = plan_send(routes, target);
    proof {
        reveal_strlit("FILE");
        assert("FILE"@ =~= file_packet_type());
    }
    let header = PacketHeader {
        packet_type: String::from_str("FILE"),
        source: routes.self_name().clone(),
        destination: target.clone(),
        hop_count: 0,
        path: copy_names(&plan.path),
    };
    let record = TransferRecord {
        id: transfer_id.clone(),
        filename,
        size: payload.len() as u64,
        progress: 0,
        status: TransferStatus::Sending { hops: plan.hop_count },
        from_device: this_device_name(),
        to_device: target.clone(),
        encrypted: true,
        hops: plan.path,
    };
    ledger.append(record);
    (Outgoing { transfer_id, hops: plan.hop_count, payload, sent: 0 }, header)
}

/// Encrypts `data` and starts sending it to `target` under a fresh
/// identifier; fails only where the file is too long to encrypt.
pub fn start_send(
    ledger: &mut TransferLedger,
    routes: &RouteTable,
    target: &String,
    filename: String,
    data: &[u8],
    key: &[u8; 32],
) -> (r: Result<(Outgoing, PacketHeader), CodecError>)
    requires
        old(ledger).wf(),
        routes.wf(),
    ensures
        final(ledger).wf(),
        r.is_ok() <==> data@.len() < MAX_PLAIN_LEN,
        r matches Err(e) ==> e == CodecError::TooLong && final(ledger)@ == old(ledger)@,
        r matches Ok(p) ==> {
            &&& absent(old(ledger)@, p.0.id())
            &&& is_first(final(ledger)@, p.0.id(), old(ledger)@.len() as int)
            &&& opens_to(key@, p.0.payload_bytes(), data@)
            &&& p.0.payload_bytes().len() == NONCE_LEN + data@.len() + TAG_LEN
            &&& p.0.sent_bytes() == 0
            &&& p.0.hops() == planned_path(routes@, routes.owner(), target@).0
            &&& final(ledger)@ == old(ledger)@.push(
                send_record(
                    p.0.id(),
                    filename@,
                    p.0.payload_bytes().len() as u64,
                    planned_path(routes@, routes.owner(), target@).0,
                    target@,
                    planned_path(routes@, routes.owner(), target@).1,
                ),
            )
            &&& p.1@ == (HeaderModel {
                packet_type: file_packet_type(),
                source: routes.owner(),
                destination: target@,
                hop_count: 0,
                path: planned_path(routes@, routes.owner(), target@).1,
            })
        },
{
    let payload = match encrypt_data(data, key) {
        Ok(b) => b,
        Err(e) => {
            return Err(e);
        },
    };
    let transfer_id = ledger.fresh_id(crate::sources::new_id());
    let ghost before = ledger@;
    let r = open_send(ledger, routes, target, filename, payload, transfer_id);
    proof {
        lemma_pushed_record_is_first(before, ledger@.last());
        assert(ledger@ == before.push(ledger@.last()));
    }
    Ok(r)
}

/// The record a receive starts with.
pub open spec fn receive_record(
    id: Seq<char>,
    filename: Seq<char>,
    declared: u64,
    header: HeaderModel,
) -> RecordModel {
    RecordModel {
        id,
        filename,
        size: declared,
        progress: 0,
        status: TransferStatus::Receiving { hops: header.hop_count },
        from_device: header.source,
        to_device: this_device(),
        encrypted: true,
        hops: header.path,
    }
}

/// An inbound transfer: the declared payload size and the bytes read so far.
pub struct Incoming {
    transfer_id: String,
    hops: u8,
    declared: u64,
    data: Vec<u8>,
}

impl Incoming {
    pub closed spec fn id(&self) -> Seq<char> {
        self.transfer_id@
    }

    pub closed spec fn hops(&self) -> u8 {
        self.hops
    }

    pub closed spec fn declared(&self) -> u64 {
        self.declared
    }

    pub closed spec fn received(&self) -> Seq<u8> {
        self.data@
    }

    /// Never more bytes than declared.
    pub closed spec fn wf(&self) -> bool {
        self.data@.len() <= self.declared
    }

    /// The transfer's identifier in the ledger.
    pub fn transfer_id(&self) -> (r: &String)
        ensures
            r@ == self.id(),
    {
        &self.transfer_id
    }

    /// How many bytes to read next: one chunk, or what is left if less.
    pub fn next_read_len(&self) -> (r: usize)
        requires
            self.wf(),
        ensures
            r as int == if self.received().len() + CHUNK_SIZE <= self.declared() {
                CHUNK_SIZE as int
            } else {
                self.declared() - self.received().len()
            },
    {
        let rest = self.declared - self.data.len() as u64;
        if rest >= CHUNK_SIZE as u64 {
            CHUNK_SIZE
        } else {
            rest as usize
        }
    }

    /// Whether every declared byte has been read.
    pub fn is_complete(&self) -> (r: bool)
        requires
            self.wf(),
        ensures
            r == (self.received().len() == self.declared()),
    {
        self.data.len() as u64 == self.declared
    }

    /// Takes bytes read from the connection and records the progress.
    pub fn accept(&mut self, ledger: &mut TransferLedger, chunk: &[u8])
        requires
            old(self).wf(),
            old(ledger).wf(),
            old(self).received().len() + chunk@.len() <= old(self).declared(),
        ensures
            final(self).wf(),
            final(ledger).wf(),
            final(self).id() == old(self).id(),
            final(self).hops() == old(self).hops(),
            final(self).declared() == old(self).declared(),
            final(self).received() == old(self).received() + chunk@,
            final(ledger)@ == progress_applied(
                old(ledger)@,
                old(self).id(),
                final(self).received().len() as u64,
            ),
            forall|k: int|
                is_first(old(ledger)@, old(self).id(), k) && old(ledger)@[k].progress <= old(
                    self,
                ).received().len() && old(ledger)@[k].size == old(self).declared() ==> {
                    &&& is_first(final(ledger)@, old(self).id(), k)
                    &&& final(ledger)@[k].progress == final(self).received().len()
                    &&& final(ledger)@[k].status == old(ledger)@[k].status
                    &&& final(ledger)@[k].size == old(ledger)@[k].size
                },
    {
        let ghost l0 = ledger@;
        crate::wire::push_all(&mut self.data, chunk);
        ledger.record_progress(&self.transfer_id, self.data.len() as u64);
        proof {
            assert forall|k: int|
                is_first(l0, self.id(), k) && l0[k].progress <= old(self).received().len()
                    && l0[k].size == self.declared() implies is_first(ledger@, self.id(), k) by {
                lemma_progress_applied_at(l0, self.id(), k, self.data@.len() as u64);
                lemma_first_kept(l0, ledger@, self.id(), k);
            }
        }
    }

    /// Decrypts the payload once every declared byte was read (a stream that
    /// ends early is a transport error, and its transfer is never finished).
    /// Where it does not authenticate, the transfer fails; where it does, the
    /// ledger waits for `mark_stored`.
    pub fn finish(&self, ledger: &mut TransferLedger, key: &[u8; 32]) -> (r: Result<
        Vec<u8>,
        CodecError,
    >)
        requires
            old(ledger).wf(),
            self.wf(),
            self.received().len() == self.declared(),
        ensures
            final(ledger).wf(),
            self.received().len() < NONCE_LEN ==> r == Err::<Vec<u8>, CodecError>(
                CodecError::Malformed),
            r matches Ok(p) ==> opens_to(key@, self.received(), p@) && final(ledger)@ == old(
                ledger,
            )@,
            forall|p: Seq<u8>| #[trigger]
                opens_to(key@, self.received(), p) ==> (r matches Ok(q) && q@ == p),
            self.received().len() >= NONCE_LEN ==> (r matches Err(e) ==> e
                == CodecError::Authentication),
            r is Err ==> final(ledger)@ == status_applied(
                old(ledger)@,
                self.id(),
                TransferStatus::DecryptionFailed,
            ),
            r matches Ok(p) ==> self.received().len() == NONCE_LEN + p@.len() + TAG_LEN,
            forall|k: int|
                is_first(old(ledger)@, self.id(), k) && old(ledger)@[k].status == (
                TransferStatus::Receiving { hops: self.hops() }) && r is Err ==> {
                    &&& final(ledger)@ == old(ledger)@.update(
                        k,
                        RecordModel { status: TransferStatus::DecryptionFailed, ..old(ledger)@[k] },
                    )
                },
    {
        let ghost l0 = ledger@;
        let r = decrypt_data(&self.data, key);
        if r.is_err() {
            ledger.set_status(&self.transfer_id, TransferStatus::DecryptionFailed);
        }
        proof {
            if r.is_err() {
                assert forall|k: int|
                    is_first(l0, self.id(), k) && l0[k].status == (TransferStatus::Receiving {
                        hops: self.hops(),
                    }) implies ledger@ == l0.update(
                    k,
                    RecordModel { status: TransferStatus::DecryptionFailed, ..l0[k] },
                ) by {
                    lemma_status_applied_at(l0, self.id(), k, TransferStatus::DecryptionFailed);
                }
            }
        }
        r
    }

    /// Records that the decrypted file of a complete payload was stored.
    pub fn mark_stored(&self, ledger: &mut TransferLedger)
        requires
            old(ledger).wf(),
            self.received().len() == self.declared(),
        ensures
            final(ledger).wf(),
            final(ledger)@ == status_applied(
                old(ledger)@,
                self.id(),
                TransferStatus::Received { hops: self.hops() },
            ),
            forall|k: int|
                is_first(old(ledger)@, self.id(), k) && old(ledger)@[k].status == (
                TransferStatus::Receiving { hops: self.hops() }) ==> final(ledger)@ == old(
                    ledger,
                )@.update(
                    k,
                    RecordModel { status: TransferStatus::Received { hops: self.hops() }, ..old(ledger)@[k] },
                ),
    {
        let ghost l0 = ledger@;
        ledger.set_status(&self.transfer_id, TransferStatus::Received { hops: self.hops });
        proof {
            assert forall|k: int|
                is_first(l0, self.id(), k) && l0[k].status == (TransferStatus::Receiving {
                    hops: self.hops(),
                }) implies ledger@ == l0.update(
                k,
                RecordModel { status: TransferStatus::Received { hops: self.hops() }, ..l0[k] },
            ) by {
                lemma_status_applied_at(l0, self.id(), k, TransferStatus::Received { hops: self.hops() });
            }
        }
    }
}

/// Starts receiving a file of `declared` payload bytes under `transfer_id`.
pub fn open_receive(
    ledger: &mut TransferLedger,
    header: &PacketHeader,
    filename: String,
    declared: u64,
    transfer_id: String,
) -> (r: Incoming)
    requires
        old(ledger).wf(),
    ensures
        final(ledger).wf(),
        final(ledger)@ == old(ledger)@.push(
            receive_record(transfer_id@, filename@, declared, header@),
        ),
        r.wf(),
        r.id() == transfer_id@,
        r.hops() == header.hop_count,
        r.declared() == declared,
        r.received() == Seq::<u8>::empty(),
{
    let record = TransferRecord {
        id: transfer_id.clone(),
        filename,
        size: declared,
        progress: 0,
        status: TransferStatus::Receiving { hops: header.hop_count },
        from_device: header.source.clone(),
        to_device: this_device_name(),
        encrypted: true,
        hops: copy_names(&header.path),
    };
    ledger.append(record);
    Incoming { transfer_id, hops: header.hop_count, declared, data: Vec::new() }
}

/// Starts receiving a file under a fresh identifier.
pub fn start_receive(
    ledger: &mut TransferLedger,
    header: &PacketHeader,
    filename: String,
    declared: u64,
) -> (r: Incoming)
    requires
        old(ledger).wf(),
    ensures
        final(ledger).wf(),
        final(ledger)@ == old(ledger)@.push(receive_record(r.id(), filename@, declared, header@)),
        absent(old(ledger)@, r.id()),
        is_first(final(ledger)@, r.id(), old(ledger)@.len() as int),
        r.wf(),
        r.hops() == header.hop_count,
        r.declared() == declared,
        r.received() == Seq::<u8>::empty(),
{
    let id = ledger.fresh_id(crate::sources::new_id());
    let ghost before = ledger@;
    let r = open_receive(ledger, header, filename, declared, id);
    proof {
        lemma_pushed_record_is_first(before, ledger@.last());
        assert(ledger@ == before.push(ledger@.last()));
    }
    r
}

/// What to do with an inbound packet.
#[derive(Debug, Clone, Copy, PartialEq, Eq, Structural)]
pub enum Delivery {
    /// The packet is for this device.
    Local,
    /// The packet is for another device and must be forwarded.
    Relay,
}

/// A packet is delivered here when its destination is this device's name,
/// and relayed otherwise.
pub fn dispatch(header: &PacketHeader, self_name: &String) -> (r: Delivery)
    ensures
        r == Delivery::Local <==> header.destination@ == self_name@,
        r == Delivery::Relay <==> header.destination@ != self_name@,
{
    if header.destination == *self_name {
        Delivery::Local
    } else {
        Delivery::Relay
    }
}

/// Why a packet cannot be relayed.
#[derive(Debug, Clone, Copy, PartialEq, Eq, Structural)]
pub enum RelayError {
    /// No route to the packet's destination is known.
    NoRoute,
    /// The hop count is at its largest and cannot be incremented.
    HopLimit,
}

/// Where a relayed packet goes and the header it carries from here.
pub struct RelayPlan {
    pub next_hop: String,
    pub header: PacketHeader,
}

/// Plans the forwarding of a packet that is not for this device: the route to
/// its destination gives the next hop, and the header goes on with one more
/// hop counted.
pub fn plan_relay(routes: &RouteTable, header: &PacketHeader) -> (r: Result<RelayPlan, RelayError>)
    requires
        routes.wf(),
    ensures
        !routes@.contains_key(header.destination@) ==> r == Err::<RelayPlan, RelayError>(
            RelayError::NoRoute),
        routes@.contains_key(header.destination@) && header.hop_count == u8::MAX ==> r == Err::<
            RelayPlan,
            RelayError,
        >(RelayError::HopLimit),
        routes@.contains_key(header.destination@) && header.hop_count < u8::MAX ==> (r matches Ok(
            p,
        ) && p.next_hop@ == routes@[header.destination@].next_hop && p.header@ == (HeaderModel {
            hop_count: (header.hop_count + 1) as u8,
            ..header@
        })),
{
    match routes.lookup_route(&header.destination) {
        None => Err(RelayError::NoRoute),
        Some(route) => {
            if header.hop_count == u8::MAX {
                return Err(RelayError::HopLimit);
            }
            let mut forwarded = header.copy();
            forwarded.hop_count = header.hop_count + 1;
            Ok(RelayPlan { next_hop: route.next_hop, header: forwarded })
        },
    }
}

} // verus!
