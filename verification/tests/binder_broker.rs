use mosaic::binder::broker::{reply_of, BinderBroker, DeathNotice, Dispatch, HOSTED_NODE_BASE};
use mosaic::binder::service::{BinderObject, ServiceRegistry};
use mosaic::binder::table::Target;
use mosaic::binder::{Answer, SERVICE_MANAGER};
use mosaic::binder::parcel::{INTERFACE_TRANSACTION, PING_TRANSACTION};

struct Echo(u32);

impl BinderObject for Echo {
    fn transact(&mut self, code: u32, data: &[u8]) -> Result<Answer, String> {
        Ok(Answer::of([&self.0.to_be_bytes()[..], &code.to_be_bytes()[..], data].concat()))
    }
}

/// The registry's echo: the code, then the data.
struct CodeEcho;

impl BinderObject for CodeEcho {
    fn transact(&mut self, code: u32, data: &[u8]) -> Result<Answer, String> {
        let mut out = code.to_be_bytes().to_vec();
        out.extend_from_slice(data);
        Ok(Answer::of(out))
    }
}

fn node_for(pid: u32, counter: u32) -> u64 {
    ((pid as u64) << 32) | counter as u64
}

#[test]
fn a_registered_name_is_found_by_name() {
    let mut broker: BinderBroker<Echo> = BinderBroker::new();
    let client = broker.connect(4242);
    let node = node_for(4242, 1);
    broker
        .export(client, "android.frameworks.stats.IStats/default", node)
        .unwrap();

    assert_eq!(
        broker.names(),
        vec!["android.frameworks.stats.IStats/default".to_string()]
    );

    let (handle, found_node, owner) = broker
        .lookup(client, "android.frameworks.stats.IStats/default")
        .unwrap();
    assert_eq!(found_node, node);
    assert_eq!(owner, client);
    assert_ne!(handle, 0, "the service manager keeps handle 0");

    assert!(broker.lookup(client, "nothing").is_none());
}

#[test]
fn a_name_can_only_be_exported_once() {
    let mut broker: BinderBroker<Echo> = BinderBroker::new();
    let client = broker.connect(1000);
    broker.export(client, "svc", node_for(1000, 1)).unwrap();
    assert!(broker.export(client, "svc", node_for(1000, 2)).is_err());
}

#[test]
fn a_client_cannot_export_another_processs_node() {
    let mut broker: BinderBroker<Echo> = BinderBroker::new();
    let client = broker.connect(1000);
    let err = broker
        .export(client, "stolen", node_for(2000, 1))
        .unwrap_err();
    assert!(err.message().contains("does not belong"));
}

#[test]
fn handles_are_per_process() {
    let mut broker: BinderBroker<Echo> = BinderBroker::new();
    let owner = broker.connect(1000);
    let other = broker.connect(2000);
    let node = node_for(1000, 7);
    broker.export(owner, "svc", node).unwrap();

    let (mine, _, _) = broker.lookup(owner, "svc").unwrap();
    let (theirs, _, _) = broker.lookup(other, "svc").unwrap();
    assert_eq!(
        broker.target_of(owner, mine),
        Some(Target::Local(node)),
        "the owner reaches its own object directly"
    );
    assert_eq!(
        broker.target_of(other, theirs),
        Some(Target::Remote { node, owner }),
        "another process reaches a proxy of it"
    );
    assert_eq!(broker.owner_of(node), Some(owner));
}

#[test]
fn a_hosted_service_answers_in_place() {
    let mut broker = BinderBroker::new();
    let client = broker.connect(1000);
    broker.host("system_suspend", Echo(9));

    let (handle, _, owner) = broker.lookup(client, "system_suspend").unwrap();
    assert_eq!(owner, SERVICE_MANAGER);

    match broker
        .transact(client, handle, 4, 0, b"in".to_vec())
        .unwrap()
    {
        Dispatch::Reply { status, data } => {
            assert_eq!(status, 0);
            assert_eq!(&data[..4], &9u32.to_be_bytes());
            assert_eq!(&data[4..8], &4u32.to_be_bytes());
            assert_eq!(&data[8..], b"in");
        }
        other => panic!("expected an in-place answer, got {:?}", other),
    }
}

#[test]
fn a_transaction_for_another_process_is_forwarded() {
    let mut broker: BinderBroker<Echo> = BinderBroker::new();
    let owner = broker.connect(1000);
    let caller = broker.connect(2000);
    let node = node_for(1000, 3);
    broker.export(owner, "remote.svc", node).unwrap();

    let (handle, _, _) = broker.lookup(caller, "remote.svc").unwrap();
    match broker
        .transact(caller, handle, 11, 0, b"parcel".to_vec())
        .unwrap()
    {
        Dispatch::Forward {
            owner: routed,
            node: routed_node,
            code,
            data,
            ..
        } => {
            assert_eq!(routed, owner);
            assert_eq!(routed_node, node);
            assert_eq!(code, 11);
            assert_eq!(data, b"parcel");
        }
        other => panic!("expected a forward, got {:?}", other),
    }
}

#[test]
fn a_local_handle_is_dispatched_by_its_owner() {
    let mut broker: BinderBroker<Echo> = BinderBroker::new();
    let client = broker.connect(1000);
    let node = node_for(1000, 5);
    broker.export(client, "local.svc", node).unwrap();
    let (handle, _, _) = broker.lookup(client, "local.svc").unwrap();
    match broker.transact(client, handle, 1, 0, Vec::new()).unwrap() {
        Dispatch::Local { node: got } => assert_eq!(got, node),
        other => panic!("expected a local dispatch, got {:?}", other),
    }
}

#[test]
fn references_keep_a_node_alive() {
    let mut broker: BinderBroker<Echo> = BinderBroker::new();
    let owner = broker.connect(1000);
    let caller = broker.connect(2000);
    let node = node_for(1000, 9);
    broker.export(owner, "svc", node).unwrap();

    let (handle, _, _) = broker.lookup(caller, "svc").unwrap();
    assert_eq!(broker.handle_count(caller), 2, "handle 0 and svc");

    broker.acquire(caller, handle).unwrap();
    broker.release(caller, handle).unwrap();
    assert_eq!(
        broker.handle_count(caller),
        2,
        "a reference remains, so the handle stays"
    );
    assert!(broker.transact(caller, handle, 1, 0, Vec::new()).is_ok());

    broker.release(caller, handle).unwrap();
    assert_eq!(
        broker.handle_count(caller),
        1,
        "the last reference went, so the handle is gone"
    );

    // The owner still holds its own object, so the name still resolves.
    assert_eq!(broker.owner_of(node), Some(owner));
    assert!(broker.lookup(caller, "svc").is_some());

    // The owner going away takes it with it.
    broker.disconnect(owner);
    assert_eq!(broker.owner_of(node), None);
    assert!(broker.lookup(caller, "svc").is_none());
}

#[test]
fn a_dead_owner_notifies_the_processes_using_it() {
    let mut broker: BinderBroker<Echo> = BinderBroker::new();
    let owner = broker.connect(1000);
    let caller = broker.connect(2000);
    let node = node_for(1000, 11);
    broker.export(owner, "svc", node).unwrap();

    let (handle, _, _) = broker.lookup(caller, "svc").unwrap();
    broker.link_to_death(caller, handle).unwrap();

    let notices = broker.disconnect(owner);
    assert_eq!(
        notices,
        vec![DeathNotice {
            client: caller,
            handle
        }]
    );
    assert!(
        broker.transact(caller, handle, 1, 0, Vec::new()).is_err(),
        "a handle to a dead process must not resolve"
    );
}

#[test]
fn an_unlinked_client_is_not_notified() {
    let mut broker: BinderBroker<Echo> = BinderBroker::new();
    let owner = broker.connect(1000);
    let caller = broker.connect(2000);
    let node = node_for(1000, 12);
    broker.export(owner, "svc", node).unwrap();
    let (handle, _, _) = broker.lookup(caller, "svc").unwrap();

    assert!(broker.disconnect(owner).is_empty(), "nobody asked");
    assert!(broker.transact(caller, handle, 1, 0, Vec::new()).is_err());

    // And unlink means the linker stops hearing about it too.
    let owner = broker.connect(1001);
    let node = node_for(1001, 13);
    broker.export(owner, "svc2", node).unwrap();
    let (handle, _, _) = broker.lookup(caller, "svc2").unwrap();
    broker.link_to_death(caller, handle).unwrap();
    broker.unlink_to_death(caller, handle).unwrap();
    assert!(broker.disconnect(owner).is_empty());
}

#[test]
fn an_answer_is_only_taken_from_the_owner() {
    let mut broker: BinderBroker<Echo> = BinderBroker::new();
    let owner = broker.connect(1000);
    let stranger = broker.connect(3000);
    let node = node_for(1000, 14);
    broker.export(owner, "svc", node).unwrap();
    assert!(broker.accepts(owner, node));
    assert!(!broker.accepts(stranger, node));
    assert!(!broker.accepts(owner, node_for(1000, 15)));
}

#[test]
fn disconnect_settles_the_accounts() {
    let mut broker: BinderBroker<Echo> = BinderBroker::new();
    let owner = broker.connect(1000);
    let caller = broker.connect(2000);
    let node = node_for(1000, 16);
    broker.export(owner, "svc", node).unwrap();
    let (handle, _, _) = broker.lookup(caller, "svc").unwrap();
    assert!(broker.transact(caller, handle, 1, 0, Vec::new()).is_ok());

    broker.disconnect(caller);
    assert_eq!(
        broker.owner_of(node),
        Some(owner),
        "the owner keeps its own"
    );
    assert!(broker.transact(caller, handle, 1, 0, Vec::new()).is_err());
}

#[test]
fn a_weak_reference_does_not_outlive_a_strong_one() {
    let mut broker: BinderBroker<Echo> = BinderBroker::new();
    let owner = broker.connect(1000);
    let caller = broker.connect(2000);
    let node = node_for(1000, 17);
    broker.export(owner, "svc", node).unwrap();
    let (handle, _, _) = broker.lookup(caller, "svc").unwrap();

    broker.inc_refs(caller, handle).unwrap();
    broker.dec_refs(caller, handle).unwrap();
    assert_eq!(broker.handle_count(caller), 2);
    broker.release(caller, handle).unwrap();
    assert_eq!(broker.handle_count(caller), 1, "only the service manager");
}

#[test]
fn a_hosted_service_is_not_collected() {
    let mut broker = BinderBroker::new();
    let client = broker.connect(1000);
    broker.host("svc", Echo(1));
    let (handle, _, _) = broker.lookup(client, "svc").unwrap();
    broker.release(client, handle).unwrap();
    broker.disconnect(client);
    let next = broker.connect(1001);
    assert!(broker.lookup(next, "svc").is_some());
}

#[test]
fn registry_dispatches_transactions() {
    let mut registry = ServiceRegistry::new();
    assert!(!registry.contains("echo"));
    registry.register("echo", CodeEcho);
    assert!(registry.contains("echo"));
    assert_eq!(registry.names(), vec!["echo".to_string()]);

    let out = registry.transact("echo", 7, b"hi").unwrap();
    assert_eq!(&out.data[..4], &7u32.to_be_bytes());
    assert_eq!(&out.data[4..], b"hi");
}

#[test]
fn unknown_service_is_an_error() {
    let mut registry: ServiceRegistry<CodeEcho> = ServiceRegistry::new();
    assert!(registry.transact("nope", 1, b"").is_err());
    assert_eq!(registry.transact("nope", 1, b"").unwrap_err(), "no such service: nope");
}

#[test]
fn every_object_answers_a_ping_and_an_interface_query() {
    let mut registry = ServiceRegistry::new();
    registry.register("echo", Echo(3));
    let ping = registry.transact("echo", PING_TRANSACTION, b"ignored").unwrap();
    assert!(ping.data.is_empty());
    // The default descriptor is empty: a count of zero, a terminator, padding.
    let interface = registry.transact("echo", INTERFACE_TRANSACTION, b"").unwrap();
    assert_eq!(interface.data, vec![0, 0, 0, 0, 0, 0, 0, 0]);
}

#[test]
fn registering_a_name_again_replaces_the_object() {
    let mut registry = ServiceRegistry::new();
    registry.register("b", Echo(1));
    registry.register("a", Echo(2));
    registry.register("b", Echo(3));
    assert_eq!(registry.names(), vec!["a".to_string(), "b".to_string()]);
    let out = registry.transact("b", 1, b"").unwrap();
    assert_eq!(&out.data[..4], &3u32.to_be_bytes());
}

#[test]
fn hosted_nodes_start_above_every_client_node() {
    let mut broker = BinderBroker::new();
    let first = broker.host("one", Echo(1));
    let second = broker.host("two", Echo(2));
    assert_eq!(first, HOSTED_NODE_BASE);
    assert_eq!(second, HOSTED_NODE_BASE + 1);
    assert_eq!(broker.names(), vec!["one".to_string(), "two".to_string()]);
    assert_eq!(broker.node_count(), 2);
}

#[test]
fn a_hosted_node_with_no_object_reports_it() {
    let mut broker: BinderBroker<Echo> = BinderBroker::new();
    let client = broker.connect(5);
    // Handle 0 is the service manager, which the shim answers.
    let err = broker.transact(client, 0, 1, 0, Vec::new()).unwrap_err();
    assert_eq!(err.message(), "the service manager is the shim's to answer");
    let err = broker.transact(client, 9, 1, 0, Vec::new()).unwrap_err();
    assert_eq!(err.message(), format!("no handle 9 in client {}", client));
    let err = broker.transact(77, 9, 1, 0, Vec::new()).unwrap_err();
    assert_eq!(err.message(), "no such client: 77");
}

#[test]
fn a_hosted_answer_becomes_the_reply() {
    match reply_of(Ok(Answer::of(vec![1, 2, 3]))) {
        Dispatch::Reply { status, data } => assert_eq!((status, data), (0, vec![1, 2, 3])),
        other => panic!("not a reply: {:?}", other),
    }
    match reply_of(Err("no such call".to_string())) {
        Dispatch::Reply { status, data } => assert_eq!((status, data), (-1, b"no such call".to_vec())),
        other => panic!("not a reply: {:?}", other),
    }
}
