use fileshare_core::codec::generate_encryption_key;
use fileshare_core::ledger::{TransferLedger, TransferStatus};
use fileshare_core::routing::{Route, RouteTable};
use fileshare_core::session::{
    dispatch, open_receive, plan_relay, plan_send, start_receive, start_send, Delivery,
    PacketHeader, RelayError, CHUNK_SIZE,
};
use fileshare_core::wire::{decode_frame, encode_frame, encode_frame_prefix};

fn s(x: &str) -> String {
    x.to_string()
}

fn header(src: &str, dst: &str, hops: u8, path: &[&str]) -> PacketHeader {
    PacketHeader {
        packet_type: s("FILE"),
        source: s(src),
        destination: s(dst),
        hop_count: hops,
        path: path.iter().map(|p| s(p)).collect(),
    }
}

#[test]
fn direct_send_arrives_byte_identical() {
    let key = generate_encryption_key();
    let file: Vec<u8> = (0..100_000u32).map(|i| (i * 31 % 256) as u8).collect();

    // Device X sends with no route known to Y.
    let x_routes = RouteTable::new(s("X"));
    let mut x_ledger = TransferLedger::new();
    let (mut out, hdr) =
        start_send(&mut x_ledger, &x_routes, &s("Y"), s("report.pdf"), &file, &key).unwrap();
    assert_eq!(hdr.source, "X");
    assert_eq!(hdr.destination, "Y");
    assert_eq!(hdr.hop_count, 0);
    assert_eq!(hdr.path, vec![s("X"), s("Y")]);
    assert_eq!(out.payload().len(), 100_000 + 28);
    let header_bytes = b"{header}".to_vec();
    let mut wire = encode_frame_prefix(&header_bytes, b"report.pdf", out.payload().len() as u64);
    let mut last = 0;
    while !out.is_done() {
        let (a, b) = out.next_chunk();
        assert_eq!(a, last);
        assert!(b - a <= CHUNK_SIZE);
        wire.extend_from_slice(&out.payload()[a..b]);
        out.chunk_written(&mut x_ledger);
        last = b;
        assert_eq!(x_ledger.snapshot()[0].progress, b as u64);
    }
    let sent = &x_ledger.snapshot()[0];
    assert_eq!(sent.status, TransferStatus::Sent { hops: 1 });
    assert_eq!(sent.size, 100_028);
    assert_eq!(sent.filename, "report.pdf");
    assert_eq!(sent.to_device, "Y");
    assert_eq!(sent.from_device, "This Device");

    // Device Y reads it back.
    let frame = decode_frame(&wire).unwrap();
    assert_eq!(frame.header, header_bytes);
    assert_eq!(dispatch(&hdr, &s("Y")), Delivery::Local);
    let mut y_ledger = TransferLedger::new();
    let mut inc = start_receive(
        &mut y_ledger,
        &hdr,
        String::from_utf8(frame.filename.clone()).unwrap(),
        frame.payload.len() as u64,
    );
    let mut pos = 0;
    let mut progress = vec![];
    while !inc.is_complete() {
        let n = inc.next_read_len();
        assert!(n > 0 && n <= CHUNK_SIZE);
        inc.accept(&mut y_ledger, &frame.payload[pos..pos + n]);
        pos += n;
        progress.push(y_ledger.snapshot()[0].progress);
    }
    assert!(progress.windows(2).all(|w| w[0] <= w[1]));
    assert_eq!(*progress.last().unwrap(), 100_028);
    let plain = inc.finish(&mut y_ledger, &key).unwrap();
    assert_eq!(plain, file);
    inc.mark_stored(&mut y_ledger);
    let got = &y_ledger.snapshot()[0];
    assert_eq!(got.status, TransferStatus::Received { hops: 0 });
    assert_eq!(got.filename, "report.pdf");
    assert_eq!(got.from_device, "X");
    assert_eq!(got.to_device, "This Device");
    assert_eq!(got.id, *inc.transfer_id());
}

#[test]
fn tampered_payload_marks_the_transfer_failed() {
    let key = generate_encryption_key();
    let routes = RouteTable::new(s("X"));
    let mut lx = TransferLedger::new();
    let (out, hdr) = start_send(&mut lx, &routes, &s("Y"), s("a.txt"), b"secret", &key).unwrap();
    let mut payload = out.payload().clone();
    payload[15] ^= 0x01;
    let mut ly = TransferLedger::new();
    let mut inc = open_receive(&mut ly, &hdr, s("a.txt"), payload.len() as u64, s("id-1"));
    inc.accept(&mut ly, &payload);
    assert!(inc.finish(&mut ly, &key).is_err());
    assert_eq!(ly.snapshot()[0].status, TransferStatus::DecryptionFailed);
    inc.mark_stored(&mut ly);
    assert_eq!(ly.snapshot()[0].status, TransferStatus::DecryptionFailed);
}

#[test]
fn send_uses_the_known_route() {
    let mut routes = RouteTable::new(s("X"));
    routes.upsert_route(Route::through(&s("X"), &s("Y"), &s("Z")));
    let plan = plan_send(&routes, &s("Z"));
    assert_eq!(plan.hop_count, 2);
    assert_eq!(plan.path, vec![s("X"), s("Y"), s("Z")]);
    let fallback = plan_send(&routes, &s("W"));
    assert_eq!(fallback.hop_count, 1);
    assert_eq!(fallback.path, vec![s("X"), s("W")]);
    let key = generate_encryption_key();
    let mut l = TransferLedger::new();
    let (out, hdr) = start_send(&mut l, &routes, &s("Z"), s("z.bin"), &[1, 2, 3], &key).unwrap();
    assert_eq!(hdr.path, vec![s("X"), s("Y"), s("Z")]);
    assert_eq!(l.snapshot()[0].status, TransferStatus::Sending { hops: 2 });
    assert_eq!(l.snapshot()[0].hops, vec![s("X"), s("Y"), s("Z")]);
    assert_eq!(out.sent(), 0);
    assert_eq!(*out.transfer_id(), l.snapshot()[0].id);
}

#[test]
fn empty_file_is_sent_in_one_chunk() {
    let key = generate_encryption_key();
    let routes = RouteTable::new(s("X"));
    let mut l = TransferLedger::new();
    let (mut out, _) = start_send(&mut l, &routes, &s("Y"), s("e"), &[], &key).unwrap();
    assert_eq!(out.next_chunk(), (0, 28));
    out.chunk_written(&mut l);
    assert!(out.is_done());
    assert_eq!(l.snapshot()[0].status, TransferStatus::Sent { hops: 1 });
}

#[test]
fn relay_forwards_toward_the_destination() {
    // Device Y holds a route to Z through W.
    let mut y_routes = RouteTable::new(s("Y"));
    y_routes.upsert_route(Route::through(&s("Y"), &s("W"), &s("Z")));
    let hdr = header("X", "Z", 0, &["X", "Y", "Z"]);
    assert_eq!(dispatch(&hdr, &s("Y")), Delivery::Relay);
    let payload: Vec<u8> = (0..300u32).map(|i| i as u8).collect();
    let plan = plan_relay(&y_routes, &hdr).ok().unwrap();
    assert_eq!(plan.next_hop, "W");
    assert_eq!(plan.header.hop_count, 1);
    assert_eq!(plan.header.destination, "Z");
    assert_eq!(plan.header.source, "X");
    assert_eq!(plan.header.path, hdr.path);
    let forwarded = encode_frame(b"h1", b"f", &payload);
    assert_eq!(decode_frame(&forwarded).unwrap().payload, payload);
}

#[test]
fn relay_without_route_fails() {
    let routes = RouteTable::new(s("Y"));
    let hdr = header("X", "Z", 0, &["X", "Z"]);
    assert!(matches!(plan_relay(&routes, &hdr), Err(RelayError::NoRoute)));
}

#[test]
fn relay_at_largest_hop_count_fails() {
    let mut routes = RouteTable::new(s("Y"));
    routes.upsert_route(Route::direct(&s("Y"), &s("Z")));
    let hdr = header("X", "Z", 255, &["X", "Z"]);
    assert!(matches!(plan_relay(&routes, &hdr), Err(RelayError::HopLimit)));
    let ok = plan_relay(&routes, &header("X", "Z", 254, &["X", "Z"])).ok().unwrap();
    assert_eq!(ok.header.hop_count, 255);
    assert_eq!(ok.next_hop, "Z");
}

#[test]
fn receive_reads_in_chunks_of_at_most_eight_kib() {
    let mut l = TransferLedger::new();
    let hdr = header("X", "Y", 3, &["X", "A", "B", "Y"]);
    let mut inc = open_receive(&mut l, &hdr, s("big"), 20_000, s("r1"));
    assert_eq!(inc.next_read_len(), 8192);
    inc.accept(&mut l, &[0u8; 8192]);
    inc.accept(&mut l, &[0u8; 8192]);
    assert_eq!(inc.next_read_len(), 20_000 - 16_384);
    assert_eq!(l.snapshot()[0].progress, 16_384);
    assert_eq!(l.snapshot()[0].status, TransferStatus::Receiving { hops: 3 });
    assert!(!inc.is_complete());
}

#[test]
fn each_transfer_gets_its_own_record() {
    let key = generate_encryption_key();
    let routes = RouteTable::new(s("X"));
    let mut l = TransferLedger::new();
    let (mut a, _) = start_send(&mut l, &routes, &s("Y"), s("a"), &[1; 10], &key).unwrap();
    let (b, _) = start_send(&mut l, &routes, &s("Y"), s("b"), &[2; 20], &key).unwrap();
    assert_ne!(a.transfer_id(), b.transfer_id());
    a.chunk_written(&mut l);
    let snap = l.snapshot();
    assert_eq!((snap[0].progress, snap[0].status), (38, TransferStatus::Sent { hops: 1 }));
    assert_eq!((snap[1].progress, snap[1].status), (0, TransferStatus::Sending { hops: 1 }));
    let hdr = header("X", "Y", 0, &["X", "Y"]);
    let r = start_receive(&mut l, &hdr, s("c"), 5);
    assert_eq!(l.index_of(r.transfer_id()), Some(2));
}

#[test]
fn decrypted_file_is_28_bytes_shorter_than_its_payload() {
    let key = generate_encryption_key();
    let routes = RouteTable::new(s("X"));
    let mut l = TransferLedger::new();
    let (out, hdr) = start_send(&mut l, &routes, &s("Y"), s("a"), &[5; 100], &key).unwrap();
    let mut inc = start_receive(&mut l, &hdr, s("a"), out.payload().len() as u64);
    inc.accept(&mut l, out.payload());
    assert_eq!(inc.finish(&mut l, &key).unwrap().len() + 28, out.payload().len());
}
