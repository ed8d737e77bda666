use gossip_membership::message::{
    build_ack, build_gossip, build_leave, build_ping, flags, DecodeError, EncodeError, Message,
    MessagePayload, NodeAddr, WireNodeEntry, HEADER_LEN, OFF_COMPRESSION, OFF_FLAGS, OFF_TYPE,
};

fn entry(id: u64) -> WireNodeEntry {
    WireNodeEntry {
        node_id: id,
        heartbeat: 7,
        incarnation: 3,
        status: 2,
        addr: NodeAddr { ip: [10, 1, 2, 3], port: 4242 },
    }
}

#[test]
fn entry_layout_on_the_wire() {
    let e = WireNodeEntry {
        node_id: 0x0102030405060708,
        heartbeat: 0x11223344,
        incarnation: 0x55667788,
        status: 9,
        addr: NodeAddr { ip: [192, 168, 0, 1], port: 0x1f90 },
    };
    let bytes = build_gossip(0x0a0b, 5, 6, vec![e]).encode().unwrap();
    assert_eq!(bytes.len(), HEADER_LEN + 24);
    assert_eq!(
        &bytes[..HEADER_LEN],
        &[1, 1, 0, 0, 0x0b, 0x0a, 0, 0, 0, 0, 0, 0, 5, 0, 0, 0, 6, 0, 0, 0, 24, 0]
    );
    assert_eq!(
        &bytes[HEADER_LEN..],
        &[
            8, 7, 6, 5, 4, 3, 2, 1, 0x44, 0x33, 0x22, 0x11, 0x88, 0x77, 0x66, 0x55, 9, 4, 192,
            168, 0, 1, 0x90, 0x1f
        ]
    );
    let m = Message::decode(&bytes).unwrap();
    assert_eq!(m.sender_id, 0x0a0b);
    assert_eq!(m.incarnation, 5);
    assert_eq!(m.sequence, 6);
    match m.payload {
        MessagePayload::Gossip(v) => assert_eq!(v, vec![e]),
        _ => panic!("expected gossip payload"),
    }
}

#[test]
fn every_kind_roundtrips() {
    let msgs = vec![
        build_gossip(1, 2, 3, vec![entry(1), entry(2)]),
        build_ping(4, 5, 6, vec![entry(3)]),
        build_ack(7, 8, 9, vec![]),
        build_leave(10, 11, 12),
    ];
    for (i, m) in msgs.into_iter().enumerate() {
        for algo in [0u8, 1] {
            let m2 = m.clone().with_compression(algo);
            let bytes = m2.encode().unwrap();
            assert_eq!(bytes[OFF_TYPE] as usize, i + 1);
            let d = Message::decode(&bytes).unwrap();
            assert_eq!(d.sender_id, m.sender_id);
            assert_eq!(d.incarnation, m.incarnation);
            assert_eq!(d.sequence, m.sequence);
            assert_eq!(d.payload.kind(), m.payload.kind());
            assert_eq!(d.payload.entry_count(), m.payload.entry_count());
            let expect_compressed = algo == 1 && i != 3;
            assert_eq!(d.is_compressed(), expect_compressed);
            assert_eq!(d.compression_algo(), if expect_compressed { 1 } else { 0 });
        }
    }
}

#[test]
fn unknown_compression_code_encodes_plain() {
    let m = build_gossip(1, 1, 1, vec![entry(5)]).with_compression(7);
    assert!(!m.is_compressed());
    let bytes = m.encode().unwrap();
    assert_eq!(bytes[OFF_FLAGS], 0);
    assert_eq!(bytes[OFF_COMPRESSION], 0);
}

#[test]
fn leave_ignores_compression_request() {
    let m = build_leave(1, 1, 1).with_compression(1);
    assert!(!m.is_compressed());
    let bytes = m.encode().unwrap();
    assert_eq!(bytes.len(), HEADER_LEN);
    assert_eq!(bytes[OFF_FLAGS] & flags::COMPRESSED, 0);
}

#[test]
fn oversized_messages_are_refused() {
    // 60 distinct entries do not fit a datagram uncompressed
    let entries: Vec<WireNodeEntry> = (0..60)
        .map(|i| WireNodeEntry {
            node_id: i * 0x0101010101010101,
            heartbeat: (i * 0x01030507) as u32,
            incarnation: (i * 0x0b0d1113) as u32,
            status: i as u8,
            addr: NodeAddr { ip: [i as u8, (i * 3) as u8, (i * 7) as u8, (i * 11) as u8], port: (i * 257) as u16 },
        })
        .collect();
    assert_eq!(build_gossip(1, 1, 1, entries).encode(), Err(EncodeError::TooLarge));
    // more than the payload limit, even if it would compress
    let many = vec![entry(1); 2731];
    assert_eq!(
        build_gossip(1, 1, 1, many).with_compression(1).encode(),
        Err(EncodeError::TooLarge)
    );
}

#[test]
fn decode_errors() {
    let good = build_gossip(1, 1, 1, vec![entry(1)]).encode().unwrap();
    assert_eq!(Message::decode(&good[..10]).err(), Some(DecodeError::Truncated));
    let mut b = good.clone();
    b[0] = 2;
    assert_eq!(Message::decode(&b).err(), Some(DecodeError::BadVersion));
    let mut b = good.clone();
    b[OFF_TYPE] = 9;
    assert_eq!(Message::decode(&b).err(), Some(DecodeError::UnknownType));
    let mut b = good.clone();
    b.push(0);
    assert_eq!(Message::decode(&b).err(), Some(DecodeError::LengthMismatch));
    let mut b = good.clone();
    b[OFF_FLAGS] = 0x80;
    assert_eq!(Message::decode(&b).err(), Some(DecodeError::BadFlags));
    let mut b = good.clone();
    b[HEADER_LEN + 17] = 6;
    assert_eq!(Message::decode(&b).err(), Some(DecodeError::BadEntries));
    // a compressed payload that announces too much
    let mut b = build_gossip(1, 1, 1, vec![]).encode().unwrap();
    b[OFF_FLAGS] = flags::COMPRESSED;
    b[OFF_COMPRESSION] = 1;
    b[20] = 5;
    b.extend_from_slice(&[0xff, 0xff, 0x01, 0x00, 0x00]);
    assert_eq!(Message::decode(&b).err(), Some(DecodeError::PayloadTooLarge));
    // a compressed payload that does not decompress
    b[HEADER_LEN + 1] = 0;
    b[HEADER_LEN + 2] = 0;
    b[HEADER_LEN + 3] = 0;
    b[HEADER_LEN] = 5;
    b[HEADER_LEN + 4] = 0xf0;
    assert_eq!(Message::decode(&b).err(), Some(DecodeError::Decompress));
    // a leave message with entries
    let mut b = good.clone();
    b[OFF_TYPE] = 4;
    assert_eq!(Message::decode(&b).err(), Some(DecodeError::UnexpectedPayload));
}

#[test]
fn frame_puts_header_before_payload() {
    let m = build_gossip(3, 4, 5, vec![]).with_compression(1);
    let framed = m.frame(&[9, 8, 7]).unwrap();
    assert_eq!(framed.len(), HEADER_LEN + 3);
    assert_eq!(framed[OFF_FLAGS], flags::COMPRESSED);
    assert_eq!(framed[OFF_COMPRESSION], 1);
    assert_eq!(&framed[20..22], &[3, 0]);
    assert_eq!(&framed[HEADER_LEN..], &[9, 8, 7]);
    let big = vec![0u8; 1400 - HEADER_LEN + 1];
    assert_eq!(m.frame(&big), Err(EncodeError::TooLarge));
    assert!(m.frame(&big[1..]).is_ok());
}
