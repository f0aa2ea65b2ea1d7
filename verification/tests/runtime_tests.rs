use servant::adapter::{dispatch, out_of_service, Adapter, AdapterRegister};
use servant::client::Client;
use servant::codec::{decode_outcome, encode_outcome};
use servant::config::{ClientConfig, ServerConfig};
use servant::echo::{ChannelNotify, CountingReport, EchoCreator, EchoEntity, EchoRehydrator, FixedWatch};
use servant::factory::FactoryEntity;
use servant::freeze::{Freeze, MemoryDb, Storage};
use servant::gateway::GatewayEntity;
use servant::help::{Help, HelpData, HelpEntity};
use servant::oid::{Context, Oid, RemoteError, ServantError};
use servant::registry::ServantRegister;
use servant::servant::Record;
use servant::terminal::{Received, Terminal};
use servant::utilities::BoolToOption;

type Register = ServantRegister<CountingReport, FixedWatch, EchoRehydrator>;

fn fresh_register(max: usize, evict_on_add: bool) -> Register {
    let mut sr: Register = ServantRegister::new(max, evict_on_add);
    sr.enroll_in_freeze("Echo", EchoRehydrator {}).expect("enroll");
    sr
}

fn live_names(sr: &Register) -> Vec<String> {
    sr.servants().iter().map(|o| o.name().to_string()).collect()
}

#[test]
fn round_trip_through_dispatch() {
    // a registered echo servant answers a request with its own bytes
    let mut sr = fresh_register(5, true);
    sr.add_servant("Echo", EchoEntity::new("foo", vec![])).expect("add");
    let req = Record::Request {
        id: 1,
        ctx: None,
        oid: Some(Oid::new("foo", "Echo")),
        req: vec![1, 2, 3],
    };
    match dispatch(&mut sr, req) {
        Some(Record::Response { id, oid, ret }) => {
            assert_eq!(id, 1);
            assert_eq!(oid, Some(Oid::new("foo", "Echo")));
            assert_eq!(decode_outcome(&ret), Some(Ok(vec![1, 2, 3])));
        }
        _ => panic!("no response"),
    }
}

#[test]
fn missing_servant_is_reported() {
    let mut sr = fresh_register(5, true);
    sr.add_servant("Echo", EchoEntity::new("foo", vec![])).expect("add");
    let req = Record::Request {
        id: 2,
        ctx: None,
        oid: Some(Oid::new("bar", "Echo")),
        req: vec![],
    };
    match dispatch(&mut sr, req) {
        Some(Record::Response { ret, .. }) => {
            assert_eq!(
                decode_outcome(&ret),
                Some(Err(ServantError::Other(String::from(
                    "Oid(bar: Echo) doesn't exist."
                ))))
            );
        }
        _ => panic!("no response"),
    }
}

#[test]
fn watch_fallback() {
    let mut sr = fresh_register(5, true);
    // without a watch servant the request with no id is refused
    let req = Record::Request { id: 3, ctx: None, oid: None, req: vec![] };
    match dispatch(&mut sr, req) {
        Some(Record::Response { ret, .. }) => {
            assert_eq!(
                decode_outcome(&ret),
                Some(Err(ServantError::Other(String::from(
                    "watch servant doesn't exist."
                ))))
            );
        }
        _ => panic!("no response"),
    }
    // with one installed, the request reaches it
    sr.set_watch_servant(FixedWatch { answer: vec![9] });
    assert!(sr.has_watch_servant());
    let req = Record::Request { id: 4, ctx: None, oid: None, req: vec![] };
    match dispatch(&mut sr, req) {
        Some(Record::Response { ret, .. }) => {
            assert_eq!(decode_outcome(&ret), Some(Ok(vec![9])));
        }
        _ => panic!("no response"),
    }
}

#[test]
fn admission_is_bounded() {
    let mut a = Adapter::new(1);
    assert_eq!(a.available(), 1);
    assert!(a.acquire());
    assert!(!a.acquire());
    // the refused request gets the synthesized reply
    let req = Record::Request { id: 5, ctx: None, oid: None, req: vec![] };
    match out_of_service(&req) {
        Some(Record::Response { id, ret, .. }) => {
            assert_eq!(id, 5);
            assert_eq!(
                decode_outcome(&ret),
                Some(Err(ServantError::Other(String::from("serve count is 0"))))
            );
        }
        _ => panic!("no synthesized response"),
    }
    // a report is dropped instead
    let rep = Record::Report { id: 1, oid: Oid::new("r", "R"), msg: vec![] };
    assert!(out_of_service(&rep).is_none());
    a.release();
    assert!(a.acquire());
}

#[test]
fn lru_passivation() {
    // capacity two, eviction on registration
    let mut sr = fresh_register(2, true);
    sr.add_servant("Echo", EchoEntity::new("a", vec![1])).expect("add a");
    sr.add_servant("Echo", EchoEntity::new("b", vec![2])).expect("add b");
    sr.add_servant("Echo", EchoEntity::new("c", vec![3])).expect("add c");
    // a was the least recently used: passivated; the live set stays at
    // the configured capacity
    let names = live_names(&sr);
    assert!(names.len() <= 2);
    assert!(!names.contains(&String::from("a")));
    assert!(names.contains(&String::from("b")));
    assert!(names.contains(&String::from("c")));
    // finding a rehydrates it and passivates b
    assert!(sr.find_servant(&Oid::new("a", "Echo")));
    let names = live_names(&sr);
    assert!(names.contains(&String::from("a")));
    assert!(!names.contains(&String::from("b")));
    // the rehydrated servant still answers, with its dumped state intact
    let out = sr.serve_request(&Oid::new("a", "Echo"), None, vec![42]);
    assert_eq!(out, Some(vec![42]));
    // promoting a, then inserting one more, evicts c
    assert!(sr.find_servant(&Oid::new("a", "Echo")));
    sr.add_servant("Echo", EchoEntity::new("d", vec![4])).expect("add d");
    let names = live_names(&sr);
    assert!(names.len() <= 2);
    assert!(names.contains(&String::from("a")));
    assert!(!names.contains(&String::from("c")));
    assert!(names.contains(&String::from("d")));
}

#[test]
fn duplicate_registration_is_refused() {
    let mut sr = fresh_register(5, true);
    sr.add_servant("Echo", EchoEntity::new("foo", vec![])).expect("add");
    match sr.add_servant("Echo", EchoEntity::new("foo", vec![])) {
        Err(ServantError::DuplicateOid) => {}
        _ => panic!("duplicate was not refused"),
    }
}

#[test]
fn reports_reach_their_servant() {
    let mut sr = fresh_register(5, true);
    sr.add_report_servant("R", CountingReport::new("log")).expect("add report");
    let rep = Record::Report { id: 1, oid: Oid::new("log", "R"), msg: vec![1] };
    assert!(dispatch(&mut sr, rep).is_none());
    // an unknown report id is dropped without a reply
    let rep = Record::Report { id: 2, oid: Oid::new("nobody", "R"), msg: vec![] };
    assert!(dispatch(&mut sr, rep).is_none());
}

#[test]
fn notice_broadcast_reaches_every_connection() {
    let mut ar = AdapterRegister::new();
    let (tx1, mut rx1) = futures::channel::mpsc::unbounded::<Record>();
    let (tx2, mut rx2) = futures::channel::mpsc::unbounded::<Record>();
    ar.insert(String::from("peer-1"), tx1);
    ar.insert(String::from("peer-2"), tx2);
    assert_eq!(ar.count(), 2);
    ar.send(vec![7]);
    ar.send(vec![8]);
    for rx in [&mut rx1, &mut rx2] {
        match rx.try_next().expect("first notice").expect("open") {
            Record::Notice { id, msg } => {
                assert_eq!(id, 1);
                assert_eq!(msg, vec![7]);
            }
            _ => panic!("not a notice"),
        }
        match rx.try_next().expect("second notice").expect("open") {
            Record::Notice { id, msg } => {
                assert_eq!(id, 2);
                assert_eq!(msg, vec![8]);
            }
            _ => panic!("not a notice"),
        }
    }
    ar.remove(&String::from("peer-1"));
    assert_eq!(ar.count(), 1);
    assert_eq!(ar.list(), vec![String::from("peer-2")]);
    ar.clean();
    assert_eq!(ar.count(), 0);
}

#[test]
fn connection_cap_is_respected() {
    let mut ar = AdapterRegister::new();
    let max = 2;
    for peer in ["p1", "p2"] {
        assert!(ar.may_accept(max));
        let (tx, _rx) = futures::channel::mpsc::unbounded::<Record>();
        ar.insert(String::from(peer), tx);
    }
    assert!(!ar.may_accept(max));
    assert!(ar.count() <= max);
}

#[test]
fn sync_invoke_restores_the_pool() {
    let mut t: Terminal<ChannelNotify> = Terminal::new(String::from("addr"), 200, 2, 2);
    assert_eq!(t.pool_size(), 2);
    let (id, timeout_ms) = t.begin_invoke(&None).expect("token");
    assert_eq!(id, 1);
    assert_eq!(timeout_ms, 200);
    assert_eq!(t.pool_size(), 1);
    // no channel is installed: sending fails, the caller gives up waiting
    assert!(!t.send_request(id, None, None, vec![1]));
    t.finish_invoke(id);
    assert_eq!(t.pool_size(), 2);
    // a late response matches nothing and is dropped
    let late = Record::Response { id, oid: None, ret: encode_outcome(&Ok(vec![])) };
    match t.received(late) {
        Received::Unmatched { id: lid } => assert_eq!(lid, id),
        _ => panic!("late response was not dropped"),
    }
}

#[test]
fn empty_token_pool_refuses_the_call() {
    let mut t: Terminal<ChannelNotify> = Terminal::new(String::from("addr"), 200, 1, 2);
    let (id, _) = t.begin_invoke(&None).expect("token");
    match t.begin_invoke(&None) {
        Err(ServantError::Other(msg)) => assert_eq!(msg, String::from("token pool is empty.")),
        _ => panic!("second call was not refused"),
    }
    t.finish_invoke(id);
    assert!(t.begin_invoke(&None).is_ok());
}

#[test]
fn response_wakes_the_waiting_token() {
    let mut t: Terminal<ChannelNotify> = Terminal::new(String::from("addr"), 200, 2, 2);
    let (tx, mut rx) = futures::channel::mpsc::unbounded::<Record>();
    t.set_tx(Some(tx));
    assert!(t.is_connected());
    let (id, _) = t.begin_invoke(&None).expect("token");
    assert!(t.send_request(id, None, Some(Oid::new("foo", "Echo")), vec![1]));
    // the request really went out on the channel
    match rx.try_next().expect("request").expect("open") {
        Record::Request { id: rid, oid, req, .. } => {
            assert_eq!(rid, id);
            assert_eq!(oid, Some(Oid::new("foo", "Echo")));
            assert_eq!(req, vec![1]);
        }
        _ => panic!("not a request"),
    }
    let resp = Record::Response { id, oid: None, ret: encode_outcome(&Ok(vec![5])) };
    match t.received(resp) {
        Received::WakeToken { id: rid, ret } => {
            assert_eq!(rid, id);
            assert_eq!(ret, Ok(vec![5]));
        }
        _ => panic!("token was not woken"),
    }
    t.finish_invoke(id);
    assert_eq!(t.pool_size(), 2);
}

#[test]
fn async_callback_times_out_on_tick() {
    let mut t: Terminal<ChannelNotify> = Terminal::new(String::from("addr"), 5000, 2, 2);
    let (tx, _rx) = futures::channel::mpsc::unbounded::<Record>();
    t.set_tx(Some(tx));
    let ctx = Context {
        timeout_millisecond: Some(1500),
        user_cookie: None,
        connection_id: None,
        attributes: vec![],
    };
    let id = t
        .invoke_with_callback(Some(ctx), Some(Oid::new("slow", "Echo")), vec![], 1000)
        .expect("registered");
    assert_eq!(t.pending_callbacks(), 1);
    // before the timeout nothing fires
    assert!(t.tick(2000).is_empty());
    assert_eq!(t.pending_callbacks(), 1);
    // at 1000 + 1500 the callback fires with its id
    let fired = t.tick(2600);
    assert_eq!(fired.len(), 1);
    assert_eq!(fired[0].0, id);
    assert_eq!(fired[0].1, Some(Oid::new("slow", "Echo")));
    assert_eq!(t.pending_callbacks(), 0);
}

#[test]
fn failed_send_unregisters_the_callback() {
    let mut t: Terminal<ChannelNotify> = Terminal::new(String::from("addr"), 100, 2, 2);
    let (tx, rx) = futures::channel::mpsc::unbounded::<Record>();
    t.set_tx(Some(tx));
    drop(rx);
    // the receiving side is gone: the send fails and the record leaves
    // the table again
    match t.invoke_with_callback(None, None, vec![], 0) {
        Err(ServantError::Other(msg)) => assert_eq!(msg, String::from("send failed.")),
        _ => panic!("failed send was not reported"),
    }
    assert_eq!(t.pending_callbacks(), 0);
    assert_eq!(t.requests_made(), 1);
}

#[test]
fn full_callback_map_refuses_the_call() {
    let mut t: Terminal<ChannelNotify> = Terminal::new(String::from("addr"), 100, 2, 1);
    let (tx, _rx) = futures::channel::mpsc::unbounded::<Record>();
    t.set_tx(Some(tx));
    t.invoke_with_callback(None, None, vec![], 0).expect("first");
    match t.invoke_with_callback(None, None, vec![], 0) {
        Err(ServantError::Other(msg)) => assert_eq!(msg, String::from("callback map is full.")),
        _ => panic!("full map was not refused"),
    }
}

#[test]
fn response_completes_the_callback() {
    let mut t: Terminal<ChannelNotify> = Terminal::new(String::from("addr"), 100, 2, 2);
    let (tx, _rx) = futures::channel::mpsc::unbounded::<Record>();
    t.set_tx(Some(tx));
    let id = t
        .invoke_with_callback(None, Some(Oid::new("foo", "Echo")), vec![], 0)
        .expect("registered");
    let resp = Record::Response { id, oid: None, ret: encode_outcome(&Ok(vec![6])) };
    match t.received(resp) {
        Received::RunCallback { id: rid, oid, ret } => {
            assert_eq!(rid, id);
            assert_eq!(oid, Some(Oid::new("foo", "Echo")));
            assert_eq!(ret, Ok(vec![6]));
        }
        _ => panic!("callback was not completed"),
    }
    assert_eq!(t.pending_callbacks(), 0);
}

#[test]
fn notices_reach_the_receiver() {
    let mut t: Terminal<ChannelNotify> = Terminal::new(String::from("addr"), 100, 2, 2);
    let (tx, mut rx) = futures::channel::mpsc::unbounded::<Vec<u8>>();
    t.set_receiver(ChannelNotify { tx });
    match t.received(Record::Notice { id: 1, msg: vec![7] }) {
        Received::Handled => {}
        _ => panic!("notice was not handled"),
    }
    assert_eq!(rx.try_next().expect("notice").expect("open"), vec![7]);
    // a request at the terminal is a protocol violation
    match t.received(Record::Request { id: 1, ctx: None, oid: None, req: vec![] }) {
        Received::Fatal => {}
        _ => panic!("protocol violation was not fatal"),
    }
}

#[test]
fn report_needs_a_connection() {
    let mut t: Terminal<ChannelNotify> = Terminal::new(String::from("addr"), 100, 2, 2);
    match t.report(Oid::new("log", "R"), vec![1]) {
        Err(ServantError::Other(msg)) => assert_eq!(msg, String::from("sender is none.")),
        _ => panic!("unconnected report was not refused"),
    }
    let (tx, mut rx) = futures::channel::mpsc::unbounded::<Record>();
    t.set_tx(Some(tx));
    t.report(Oid::new("log", "R"), vec![1]).expect("sent");
    match rx.try_next().expect("report").expect("open") {
        Record::Report { id, oid, msg } => {
            assert_eq!(id, 2);
            assert_eq!(oid, Oid::new("log", "R"));
            assert_eq!(msg, vec![1]);
        }
        _ => panic!("not a report"),
    }
}

#[test]
fn freeze_consumes_on_load() {
    let mut f: Freeze<MemoryDb, EchoRehydrator> = Freeze::new(MemoryDb::new());
    f.enroll("Echo", EchoRehydrator {}).expect("enroll");
    assert!(f.enroll("Echo", EchoRehydrator {}).is_err());
    assert!(f.is_enrolled("Echo"));
    assert!(!f.is_enrolled("Other"));
    let oid = Oid::new("a", "Echo");
    f.store(&oid, &vec![1, 2]).expect("store");
    assert!(f.has_frozen(&oid));
    let servant = f.load(&oid).expect("rehydrated");
    assert_eq!(servant.payload, vec![1, 2]);
    assert!(!f.has_frozen(&oid));
    assert!(f.load(&oid).is_none());
    // a category without a rehydrator keeps its bytes
    let other = Oid::new("x", "Other");
    f.store(&other, &vec![9]).expect("store");
    assert!(f.load(&other).is_none());
    assert!(f.has_frozen(&other));
}

#[test]
fn memory_db_holds_bytes() {
    let mut db = MemoryDb::new();
    let oid = Oid::new("a", "Echo");
    assert!(!db.has(&oid));
    db.store(&oid, &vec![3, 4]).expect("store");
    assert!(db.has(&oid));
    assert_eq!(db.load(&oid), Ok(vec![3, 4]));
    assert!(!db.has(&oid));
    assert!(db.load(&oid).is_err());
}

#[test]
fn help_catalogue() {
    let h = HelpEntity::new(HelpData {
        name: String::from("help"),
        about: String::from("about text"),
        readme: String::from("readme text"),
        version: String::from("1.0"),
        context: vec![(String::from("topic"), String::from("body"))],
    });
    assert_eq!(h.about(), String::from("about text"));
    assert_eq!(h.readme(), String::from("readme text"));
    assert_eq!(h.version(), String::from("1.0"));
    assert_eq!(h.list(), vec![String::from("topic")]);
    assert_eq!(h.help(String::from("topic")), Some(String::from("body")));
    assert_eq!(h.help(String::from("missing")), None);
}

#[test]
fn gateway_exports_and_login() {
    let mut sr = fresh_register(5, true);
    sr.add_servant("Echo", EchoEntity::new("foo", vec![])).expect("add");
    sr.add_report_servant("R", CountingReport::new("log")).expect("add report");
    let g = GatewayEntity::new();
    let names: Vec<String> =
        g.export_servants(&sr).iter().map(|o| o.name().to_string()).collect();
    assert_eq!(names, vec![String::from("foo")]);
    let rnames: Vec<String> =
        g.export_report_servants(&sr).iter().map(|o| o.name().to_string()).collect();
    assert_eq!(rnames, vec![String::from("log")]);
    assert_eq!(g.login(String::from("any"), String::from("pw")), 238);
    assert_eq!(g.version(), String::from("Version 1.0"));
}

#[test]
fn factory_builds_and_registers() {
    let mut sr: ServantRegister<CountingReport, FixedWatch, EchoRehydrator> =
        ServantRegister::new(5, true);
    let mut fac: FactoryEntity<EchoCreator> = FactoryEntity::new();
    fac.enroll("Echo", EchoCreator {}).expect("enroll");
    assert!(fac.enroll("Echo", EchoCreator {}).is_err());
    let oid = fac.create(&mut sr, "made", "Echo").expect("created");
    assert_eq!(oid, Oid::new("made", "Echo"));
    assert!(sr.find_servant(&Oid::new("made", "Echo")));
    assert!(fac.create(&mut sr, "x", "Unknown").is_err());
}

#[test]
fn client_builds_terminals() {
    let c = Client::new();
    let t: Terminal<ChannelNotify> = c.terminal(String::from("addr"));
    assert_eq!(t.pool_size(), 2);
    assert_eq!(t.address(), "addr");
    let cfg = ClientConfig::new();
    assert_eq!(cfg.token_count_by_terminal, 2);
    assert_eq!(cfg.callback_count_by_terminal, 2);
    assert_eq!(cfg.invoke_timeout_in_terminal, 5000);
    let sc = ServerConfig::new();
    assert_eq!(sc.max_count_of_evictor_list, 5);
    assert_eq!(sc.max_count_of_connection, 10);
    assert_eq!(sc.serve_count_by_adapter, 3);
}

#[test]
fn context_defaults_and_timeout_choice() {
    let t: Terminal<ChannelNotify> = Terminal::new(String::from("addr"), 700, 2, 2);
    assert_eq!(t.timeout_value_in_context(&None), 700);
    let ctx = Context::new();
    assert!(ctx.timeout_millisecond.is_none());
    assert!(ctx.user_cookie.is_none());
    assert!(ctx.connection_id.is_none());
    assert!(ctx.attributes.is_empty());
    assert_eq!(t.timeout_value_in_context(&Some(ctx)), 700);
    let mut ctx = Context::new();
    ctx.timeout_millisecond = Some(50);
    assert_eq!(t.timeout_value_in_context(&Some(ctx)), 50);
}

#[test]
fn small_helpers() {
    assert_eq!(true.then_some2(5), Some(5));
    assert_eq!(false.then_some2(5), None);
    assert_eq!(true.then2(|| 7), Some(7));
    assert_eq!(false.then2(|| 7), None);
    let e = RemoteError::new(String::from("file.rs"), 10, String::from("boom"));
    let _ = e.clone();
    let err = ServantError::other("text");
    assert_eq!(err.to_text(), String::from("text"));
    assert_eq!(err, ServantError::Other(String::from("text")));
    let _db = servant::db::SqliteDb::new("ignored.db");
    let oid = Oid::new("n", "c");
    assert_eq!(oid.name(), "n");
    assert_eq!(oid.category(), "c");
}
