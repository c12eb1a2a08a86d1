use mosaic::binder::wire::{
    frame_length, is_binder_prefix, ArgumentRef, Message, WireError, MAGIC, MAX_FRAME,
};

#[test]
fn a_negative_status_survives_the_header() {
    let reply = Message::Reply {
        id: 8,
        status: -38,
        data: b"nope".to_vec(),
        objects: vec![4, 28],
    };
    let (decoded, fds) = Message::decode(&reply.encode(0)).unwrap();
    assert_eq!(decoded, reply);
    assert_eq!(fds, 0);
}

#[test]
fn the_magic_tells_the_planes_apart() {
    assert!(is_binder_prefix(&MAGIC));
    // A control plane length prefix is at most MAX_FRAME, so the magic read
    // as a length would have been refused long before this.
    assert!(!is_binder_prefix(&(4096u32.to_be_bytes())));
}

#[test]
fn a_transaction_with_objects_comes_back_whole() {
    let sent = Message::Transaction {
        id: 5,
        handle: 12,
        code: 3,
        flags: 1,
        data: b"parcel".to_vec(),
        objects: vec![ArgumentRef { offset: 8, node: 0x1_0000_0002 }],
    };
    let bytes = sent.encode(2);
    assert_eq!(Message::fd_count(&bytes), Some(2));
    assert_eq!(Message::decode(&bytes).unwrap(), (sent, 2));
}

#[test]
fn every_reference_message_comes_back() {
    for message in [
        Message::Acquire { handle: 3 },
        Message::Release { handle: 3 },
        Message::IncRefs { handle: 4 },
        Message::DecRefs { handle: 4 },
        Message::Dead { handle: 4 },
        Message::LinkToDeath { handle: 5 },
        Message::UnlinkToDeath { handle: 5 },
        Message::Bye,
        Message::Export { name: "svc".to_string(), node: 9 },
        Message::Lookup { id: 2, name: "svc".to_string() },
        Message::Found { id: 2, handle: 7, node: 9, owner: 1000 },
        Message::Incoming { id: 1, node: 9, code: 4, flags: 1, data: vec![1, 2, 3, 4], objects: vec![0] },
        Message::IncomingReply { id: 1, node: 9, status: 0, data: vec![5], objects: vec![] },
    ] {
        let bytes = message.encode(0);
        assert_eq!(Message::decode(&bytes).unwrap(), (message, 0));
    }
}

#[test]
fn a_frame_is_refused_for_what_is_wrong_with_it() {
    assert_eq!(Message::decode(&[0u8; 10]), Err(WireError::Short { len: 10 }));
    let mut bytes = Message::Bye.encode(0);
    bytes[1] = 2;
    assert_eq!(Message::decode(&bytes), Err(WireError::Version { version: 2 }));
    let mut bytes = Message::Bye.encode(0);
    bytes.push(0);
    assert_eq!(Message::decode(&bytes), Err(WireError::Length { said: 0, has: 1 }));
    let bytes = Message::Bye.encode(33);
    assert_eq!(Message::decode(&bytes), Err(WireError::TooManyFds { count: 33 }));
    let mut bytes = Message::Bye.encode(0);
    bytes[0] = 99;
    assert_eq!(Message::decode(&bytes), Err(WireError::UnknownKind { kind: 99 }));
    let mut bytes = Message::Export { name: "a".to_string(), node: 1 }.encode(0);
    let last = bytes.len() - 1;
    bytes[last] = 0xff;
    assert_eq!(Message::decode(&bytes), Err(WireError::NotUtf8));
    assert_eq!(WireError::Short { len: 10 }.message(), "short frame: 10 bytes");
    assert_eq!(WireError::TooManyFds { count: 33 }.message(), "too many descriptors: 33");
}

#[test]
fn a_hostile_length_is_refused_before_the_body_arrives() {
    let mut header = vec![0u8; 32];
    header[1] = 1;
    header[24..28].copy_from_slice(&((MAX_FRAME + 1) as u32).to_be_bytes());
    assert_eq!(frame_length(&header), Err(WireError::TooLarge { len: MAX_FRAME + 1 }));
    let bytes = Message::Acquire { handle: 1 }.encode(0);
    assert_eq!(frame_length(&bytes[..10]), Ok(None));
    assert_eq!(frame_length(&bytes), Ok(Some(32)));
}

#[test]
fn a_transaction_roundtrips() {
    let sent = Message::Transaction {
        id: 5,
        handle: 12,
        code: 3,
        flags: 0,
        data: b"parcel".to_vec(),
        objects: Vec::new(),
    };
    let (message, fds) = Message::decode(&sent.encode(0)).unwrap();
    assert_eq!(message, sent);
    assert_eq!(fds, 0);
}

#[test]
fn reference_messages_roundtrip() {
    for message in [
        Message::Acquire { handle: 3 },
        Message::Release { handle: 3 },
        Message::IncRefs { handle: 4 },
        Message::DecRefs { handle: 4 },
        Message::Dead { handle: 4 },
        Message::Bye,
    ] {
        assert_eq!(Message::decode(&message.encode(0)).unwrap().0, message);
    }
}
