use node_bridge::{
    decode, encode_response, receive_result, send_line, Action, BridgeClosedError, Dispatcher,
    Event,
};

fn line(d: &mut Dispatcher, text: &str) -> Option<Action> {
    let m = decode(text).expect("line decodes");
    d.step(Event::Line(m))
}

fn receive(d: &mut Dispatcher, channel: &str, ticket: u64) {
    assert!(d.step(Event::Receive { channel: channel.to_string(), ticket }).is_none());
}

fn register(d: &mut Dispatcher, name: &str) {
    assert!(d.step(Event::Register { name: name.to_string() }).is_none());
}

fn fulfilled(a: Option<Action>) -> (u64, String) {
    match a {
        Some(Action::Fulfill { ticket, payload }) => (ticket, payload),
        _ => panic!("expected a fulfilled waiter"),
    }
}

fn invoked(a: Option<Action>) -> (String, String, Vec<String>) {
    match a {
        Some(Action::Invoke { function, call_id, args }) => (function, call_id, args),
        _ => panic!("expected a call"),
    }
}

#[test]
fn delivery_fulfills_the_waiter_of_its_channel() {
    let mut d = Dispatcher::new();
    receive(&mut d, "a", 1);
    receive(&mut d, "b", 2);
    let (t, p) = fulfilled(line(&mut d, "torust__bridge_name[b]_end_namebar"));
    assert_eq!((t, p.as_str()), (2, "bar"));
    assert!(line(&mut d, "torust__bridge_name[b]_end_nameagain").is_none());
    let (t, p) = fulfilled(line(&mut d, "torust__bridge_name[a]_end_namefoo"));
    assert_eq!((t, p.as_str()), (1, "foo"));
}

#[test]
fn delivery_without_waiter_is_dropped() {
    let mut d = Dispatcher::new();
    assert!(line(&mut d, "torust__bridge_name[a]_end_namefoo").is_none());
    receive(&mut d, "a", 3);
    let (t, _) = fulfilled(line(&mut d, "torust__bridge_name[a]_end_namelater"));
    assert_eq!(t, 3);
}

#[test]
fn newer_receive_abandons_older_one() {
    let mut d = Dispatcher::new();
    receive(&mut d, "c", 10);
    receive(&mut d, "c", 11);
    let (t, p) = fulfilled(line(&mut d, "torust__bridge_name[c]_end_namev1"));
    assert_eq!((t, p.as_str()), (11, "v1"));
    assert!(line(&mut d, "torust__bridge_name[c]_end_namev2").is_none());
    assert!(matches!(d.step(Event::Close), Some(Action::Stop { announce: true })));
    assert!(d.is_closed());
}

#[test]
fn chunked_call_is_invoked_once_with_all_chunks() {
    let mut d = Dispatcher::new();
    register(&mut d, "join");
    assert!(line(&mut d, "function__bridge_name[join]_end_name_bridge_id[42]_end_id_bridge_arg[a]_end_arg").is_none());
    assert!(line(&mut d, "param_42_b").is_none());
    let (f, id, args) = invoked(line(&mut d, "param_42_c[bridgeendline]"));
    assert_eq!(f, "join");
    assert_eq!(id, "42");
    assert_eq!(args, vec!["a".to_string(), "b".to_string(), "c".to_string()]);
    assert!(line(&mut d, "param_42_d[bridgeendline]").is_none());
}

#[test]
fn add_call_gets_its_response() {
    let mut d = Dispatcher::new();
    register(&mut d, "add");
    assert!(line(&mut d, "function__bridge_name[add]_end_name_bridge_id[7]_end_id_bridge_arg[10]_end_arg").is_none());
    let (f, id, args) = invoked(line(&mut d, "param_7_20[bridgeendline]"));
    assert_eq!(f, "add");
    let nums: Vec<i32> = args.iter().map(|a| a.parse().unwrap()).collect();
    let sum = nums[0] + nums[1];
    assert_eq!(encode_response(&id, &sum.to_string()), "fnresponse_7_30[_bridgeendline]");
}

#[test]
fn call_without_argument_and_single_chunk_call() {
    let mut d = Dispatcher::new();
    register(&mut d, "ping");
    let (f, id, args) = invoked(line(&mut d, "function__bridge_name[ping]_end_name_bridge_id[1]_end_id_bridge_arg[noarg]_end_arg"));
    assert_eq!((f.as_str(), id.as_str()), ("ping", "1"));
    assert!(args.is_empty());
    let (_, id, args) = invoked(line(&mut d, "function__bridge_name[ping]_end_name_bridge_id[2]_end_id_bridge_arg[x[bridgeendline]]_end_arg"));
    assert_eq!(id, "2");
    assert_eq!(args, vec!["x".to_string()]);
}

#[test]
fn calls_of_unknown_functions_are_dropped() {
    let mut d = Dispatcher::new();
    assert!(line(&mut d, "function__bridge_name[nope]_end_name_bridge_id[1]_end_id_bridge_arg[noarg]_end_arg").is_none());
    assert!(line(&mut d, "function__bridge_name[nope]_end_name_bridge_id[2]_end_id_bridge_arg[a]_end_arg").is_none());
    assert!(line(&mut d, "param_2_b[bridgeendline]").is_none());
    assert!(line(&mut d, "param_99_b[bridgeendline]").is_none());
}

#[test]
fn registering_again_keeps_one_function() {
    let mut d = Dispatcher::new();
    register(&mut d, "f");
    register(&mut d, "f");
    let (f, _, _) = invoked(line(&mut d, "function__bridge_name[f]_end_name_bridge_id[1]_end_id_bridge_arg[noarg]_end_arg"));
    assert_eq!(f, "f");
}

#[test]
fn send_and_receive_fail_after_close() {
    let mut d = Dispatcher::new();
    assert_eq!(d.check_open(), Ok(()));
    assert_eq!(
        send_line(d.is_closed(), "channel_foo", "bar"),
        Ok("tonode__bridge_name[channel_foo]_end_namebar[_bridgeendline]".to_string())
    );
    assert!(matches!(d.step(Event::Close), Some(Action::Stop { announce: true })));
    assert_eq!(d.check_open(), Err(BridgeClosedError));
    assert_eq!(send_line(d.is_closed(), "channel_foo", "bar"), Err(BridgeClosedError));
    assert_eq!(receive_result(None), Err(BridgeClosedError));
    assert!(d.step(Event::Receive { channel: "x".to_string(), ticket: 1 }).is_none());
    assert!(d.step(Event::Close).is_none());
}

#[test]
fn peer_exit_closes_the_bridge() {
    let mut d = Dispatcher::new();
    receive(&mut d, "a", 1);
    assert!(matches!(line(&mut d, "[bridgeexit]_"), Some(Action::Stop { announce: false })));
    assert!(d.is_closed());
    assert!(line(&mut d, "torust__bridge_name[a]_end_namelate").is_none());
    assert_eq!(d.check_open(), Err(BridgeClosedError));
}

#[test]
fn receive_result_passes_value_through() {
    assert_eq!(receive_result(Some("v".to_string())), Ok("v".to_string()));
}
