use mosaic::binder::broker::{BinderBroker, BrokerError, DeathNotice};
use mosaic::binder::service::BinderObject;
use mosaic::binder::table::Target;
use mosaic::binder::transport::{
    death_messages, relay_reply, session_step, Outgoing, Recipient, SessionError, Step, EX_TRANSACTION_FAILED,
};
use mosaic::binder::wire::{ArgumentRef, Message, NO_HANDLE, TF_ONE_WAY};
use mosaic::binder::Answer;

/// Answers with the code and then the data.
struct CodeEcho;

impl BinderObject for CodeEcho {
    fn transact(&mut self, code: u32, data: &[u8]) -> Result<Answer, String> {
        let mut out = code.to_be_bytes().to_vec();
        out.extend_from_slice(data);
        Ok(Answer::of(out))
    }
}

fn node_for(pid: u32, counter: u32) -> u64 {
    ((pid as u64) << 32) | counter as u64
}

/// A handle object word as libbinder flattens one: the type, flags, the
/// handle in the first pointer, a cookie, and the stability word.
fn handle_word(handle: u32) -> Vec<u8> {
    let mut word = vec![0u8; 28];
    word[..4].copy_from_slice(&0x73682a85u32.to_le_bytes());
    word[8..12].copy_from_slice(&handle.to_le_bytes());
    word
}

#[test]
fn a_call_on_another_processs_object_is_forwarded_to_its_owner() {
    let mut broker: BinderBroker<CodeEcho> = BinderBroker::new();
    let owner = broker.connect(1000);
    let caller = broker.connect(2000);
    let node = node_for(1000, 3);
    broker.export(owner, "svc", node).unwrap();
    let (handle, _, _) = broker.lookup(caller, "svc").unwrap();

    let step = session_step(
        &mut broker,
        caller,
        Message::Transaction {
            id: 9,
            handle,
            code: 5,
            flags: 0,
            data: vec![1, 2, 3],
            objects: vec![ArgumentRef { offset: 4, node: 0 }],
        },
    );
    match step {
        Step::Forward { owner: o, node: n, id, oneway, message } => {
            assert_eq!(o, owner);
            assert_eq!(n, node);
            assert_eq!(id, 9);
            assert!(!oneway);
            assert_eq!(
                message,
                Message::Incoming { id: 9, node, code: 5, flags: 0, data: vec![1, 2, 3], objects: vec![4] }
            );
        }
        other => panic!("expected a forward, got {:?}", other),
    }
}

#[test]
fn a_call_on_a_handle_the_caller_does_not_hold_fails_and_the_session_goes_on() {
    let mut broker: BinderBroker<CodeEcho> = BinderBroker::new();
    let caller = broker.connect(2000);
    let step = session_step(
        &mut broker,
        caller,
        Message::Transaction { id: 4, handle: 77, code: 1, flags: 0, data: vec![], objects: vec![] },
    );
    let reason = BrokerError::NoHandleIn { handle: 77, client: caller }.message();
    match step {
        Step::Send(out) => {
            assert_eq!(
                out,
                vec![Outgoing {
                    to: Recipient::Client(caller),
                    message: Message::Reply {
                        id: 4,
                        status: EX_TRANSACTION_FAILED,
                        data: reason.into_bytes(),
                        objects: vec![],
                    },
                }]
            );
        }
        other => panic!("expected a failed reply, got {:?}", other),
    }

    // The same call one-way is answered with nothing.
    let step = session_step(
        &mut broker,
        caller,
        Message::Transaction { id: 5, handle: 77, code: 1, flags: TF_ONE_WAY, data: vec![], objects: vec![] },
    );
    assert!(matches!(step, Step::Send(out) if out.is_empty()));
}

#[test]
fn a_hosted_service_is_answered_by_the_broker_itself() {
    let mut broker: BinderBroker<CodeEcho> = BinderBroker::new();
    broker.host("echo", CodeEcho);
    let caller = broker.connect(2000);
    let (handle, _, _) = broker.lookup(caller, "echo").unwrap();
    let step = session_step(
        &mut broker,
        caller,
        Message::Transaction { id: 1, handle, code: 7, flags: 0, data: vec![9], objects: vec![] },
    );
    match step {
        Step::Send(out) => {
            assert_eq!(out.len(), 1);
            assert_eq!(out[0].to, Recipient::Client(caller));
            assert_eq!(
                out[0].message,
                Message::Reply { id: 1, status: 0, data: vec![0, 0, 0, 7, 9], objects: vec![] }
            );
        }
        other => panic!("expected an answer, got {:?}", other),
    }
}

#[test]
fn a_lookup_is_answered_on_the_connection_that_asked() {
    let mut broker: BinderBroker<CodeEcho> = BinderBroker::new();
    let owner = broker.connect(1000);
    let caller = broker.connect(2000);
    let node = node_for(1000, 1);
    broker.export(owner, "svc", node).unwrap();

    let step = session_step(&mut broker, caller, Message::Lookup { id: 3, name: "svc".to_string() });
    match step {
        Step::Send(out) => {
            assert_eq!(out.len(), 1);
            assert_eq!(out[0].to, Recipient::Asker);
            match out[0].message {
                Message::Found { id, handle, node: n, owner: o } => {
                    assert_eq!(id, 3);
                    assert_eq!(n, node);
                    assert_eq!(o, owner);
                    assert_eq!(broker.target_of(caller, handle), Some(Target::Remote { node, owner }));
                }
                ref other => panic!("expected found, got {:?}", other),
            }
        }
        other => panic!("expected an answer, got {:?}", other),
    }

    let step = session_step(&mut broker, caller, Message::Lookup { id: 4, name: "nothing".to_string() });
    match step {
        Step::Send(out) => assert_eq!(
            out[0].message,
            Message::Found { id: 4, handle: NO_HANDLE, node: 0, owner: 0 }
        ),
        other => panic!("expected an answer, got {:?}", other),
    }
}

#[test]
fn goodbye_ends_the_session_and_a_broker_message_is_refused() {
    let mut broker: BinderBroker<CodeEcho> = BinderBroker::new();
    let client = broker.connect(1000);
    assert!(matches!(session_step(&mut broker, client, Message::Bye), Step::End));
    let step = session_step(&mut broker, client, Message::Dead { handle: 1 });
    match step {
        Step::Refused(e) => {
            assert_eq!(e, SessionError::NotAllowed(Message::Dead { handle: 1 }));
            assert_eq!(e.message(), "a client may not send Dead { handle: 1 }");
        }
        other => panic!("expected a refusal, got {:?}", other),
    }
}

#[test]
fn a_reference_on_a_missing_handle_ends_the_session() {
    let mut broker: BinderBroker<CodeEcho> = BinderBroker::new();
    let client = broker.connect(1000);
    let step = session_step(&mut broker, client, Message::Acquire { handle: 12 });
    assert!(matches!(step, Step::Refused(SessionError::Broker(_))));
    let step = session_step(&mut broker, client, Message::UnlinkToDeath { handle: 12 });
    assert!(matches!(step, Step::Send(out) if out.is_empty()));
}

#[test]
fn an_owners_answer_is_handed_on_as_it_came() {
    let mut broker: BinderBroker<CodeEcho> = BinderBroker::new();
    let owner = broker.connect(1000);
    let step = session_step(
        &mut broker,
        owner,
        Message::IncomingReply { id: 2, node: node_for(1000, 1), status: -1, data: vec![5], objects: vec![] },
    );
    match step {
        Step::Answered { node, id, status, data, objects } => {
            assert_eq!((node, id, status), (node_for(1000, 1), 2, -1));
            assert_eq!(data, vec![5]);
            assert!(objects.is_empty());
        }
        other => panic!("expected an answer, got {:?}", other),
    }
}

#[test]
fn a_handle_in_an_answer_becomes_the_askers_own() {
    let mut broker: BinderBroker<CodeEcho> = BinderBroker::new();
    let callee = broker.connect(1000);
    let caller = broker.connect(2000);
    let third = broker.connect(3000);
    let node = node_for(3000, 4);
    broker.export(third, "svc.third", node).unwrap();
    // The callee holds a handle for the third process's object, and its
    // answer carries that handle.
    let (in_callee, _, _) = broker.lookup(callee, "svc.third").unwrap();
    // Give the caller a few handles first so its numbering differs.
    broker.host("one", CodeEcho);
    broker.host("two", CodeEcho);
    broker.lookup(caller, "one").unwrap();
    broker.lookup(caller, "two").unwrap();

    let mut data = vec![0xaa; 4];
    data.extend_from_slice(&handle_word(in_callee));
    let reply = relay_reply(&mut broker, callee, caller, 8, 0, data, vec![4]);
    match reply {
        Message::Reply { id, status, data, objects } => {
            assert_eq!((id, status), (8, 0));
            assert_eq!(objects, vec![4]);
            assert_eq!(&data[..4], &[0xaa; 4]);
            let handle = u32::from_le_bytes(data[12..16].try_into().unwrap());
            let carried = u64::from_le_bytes(data[20..28].try_into().unwrap());
            assert_eq!(carried, node);
            assert_eq!(broker.target_of(caller, handle), Some(Target::Remote { node, owner: third }));
        }
        other => panic!("expected a reply, got {:?}", other),
    }
}

#[test]
fn an_object_naming_nothing_is_left_out_of_the_answer() {
    let mut broker: BinderBroker<CodeEcho> = BinderBroker::new();
    let callee = broker.connect(1000);
    let caller = broker.connect(2000);
    let data = handle_word(55);
    let reply = relay_reply(&mut broker, callee, caller, 1, 0, data.clone(), vec![0, 100]);
    assert_eq!(reply, Message::Reply { id: 1, status: 0, data, objects: vec![] });
}

#[test]
fn a_departure_is_told_to_each_client_linked_to_it() {
    let notices = vec![
        DeathNotice { client: 4, handle: 2 },
        DeathNotice { client: 6, handle: 9 },
    ];
    assert_eq!(
        death_messages(&notices),
        vec![
            Outgoing { to: Recipient::Client(4), message: Message::Dead { handle: 2 } },
            Outgoing { to: Recipient::Client(6), message: Message::Dead { handle: 9 } },
        ]
    );
}

#[test]
fn a_refusal_names_the_message_as_its_debugging_form_does() {
    let sent = [
        Message::Reply { id: 7, status: -129, data: vec![1, 0, 255], objects: vec![8] },
        Message::Incoming { id: 1, node: 1 << 40, code: 3, flags: 1, data: vec![], objects: vec![0, 28] },
        Message::Found { id: 2, handle: 5, node: 9, owner: 4 },
        Message::Dead { handle: 0 },
    ];
    for m in sent {
        let mut broker: BinderBroker<CodeEcho> = BinderBroker::new();
        let client = broker.connect(1000);
        let expected = format!("a client may not send {:?}", m);
        match session_step(&mut broker, client, m) {
            Step::Refused(e) => assert_eq!(e.message(), expected),
            other => panic!("expected a refusal, got {:?}", other),
        }
    }
}
