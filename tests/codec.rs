use node_bridge::{
    decode, encode_channel_send, encode_exit, encode_registration, encode_response, is_exit_line,
    decode_outgoing, Arg, Incoming, Outgoing,
};

fn delivery(line: &str) -> (String, String) {
    match decode(line) {
        Some(Incoming::ChannelDelivery { channel, payload }) => (channel, payload),
        _ => panic!("not a delivery: {}", line),
    }
}

fn invoke(line: &str) -> (String, String, Arg) {
    match decode(line) {
        Some(Incoming::FunctionInvoke { name, call_id, arg }) => (name, call_id, arg),
        _ => panic!("not a call: {}", line),
    }
}

fn param(line: &str) -> (String, String, bool) {
    match decode(line) {
        Some(Incoming::ParamChunk { call_id, chunk, is_final }) => (call_id, chunk, is_final),
        _ => panic!("not a parameter: {}", line),
    }
}

#[test]
fn decodes_channel_delivery() {
    let (c, p) = delivery("torust__bridge_name[channel_a]_end_nameSent this from node!");
    assert_eq!(c, "channel_a");
    assert_eq!(p, "Sent this from node!");
}

#[test]
fn delivery_payload_keeps_markers_and_brackets() {
    let (c, p) = delivery("torust__bridge_name[c]_end_name[1,2]_end_name x");
    assert_eq!(c, "c");
    assert_eq!(p, "[1,2]_end_name x");
}

#[test]
fn decodes_call_without_argument() {
    let (n, id, a) = invoke("function__bridge_name[ping]_end_name_bridge_id[5]_end_id_bridge_arg[noarg]_end_arg");
    assert_eq!(n, "ping");
    assert_eq!(id, "5");
    assert!(matches!(a, Arg::NoArg));
}

#[test]
fn decodes_single_chunk_call() {
    let (n, id, a) = invoke("function__bridge_name[echo]_end_name_bridge_id[9]_end_id_bridge_arg[hi[bridgeendline]]_end_arg");
    assert_eq!(n, "echo");
    assert_eq!(id, "9");
    match a {
        Arg::Chunk { text, is_final } => {
            assert_eq!(text, "hi");
            assert!(is_final);
        }
        Arg::NoArg => panic!("expected a chunk"),
    }
}

#[test]
fn decodes_first_chunk_of_long_argument() {
    let (_, id, a) = invoke("function_x_bridge_name[add]_end_name_bridge_id[42]_end_id_bridge_arg[a]_end_arg");
    assert_eq!(id, "42");
    match a {
        Arg::Chunk { text, is_final } => {
            assert_eq!(text, "a");
            assert!(!is_final);
        }
        Arg::NoArg => panic!("expected a chunk"),
    }
}

#[test]
fn decodes_parameter_chunks() {
    assert_eq!(param("param_42_b"), ("42".to_string(), "b".to_string(), false));
    assert_eq!(param("param_42_c[bridgeendline]"), ("42".to_string(), "c".to_string(), true));
    assert_eq!(param("param_7_x_y"), ("7".to_string(), "x_y".to_string(), false));
}

#[test]
fn decodes_shutdown() {
    assert!(matches!(decode("[bridgeexit]_"), Some(Incoming::Shutdown)));
    assert!(is_exit_line("[bridgeexit]_"));
    assert!(!is_exit_line("[bridgeexit]"));
    assert!(!is_exit_line("torust__bridge_name[a]_end_namex"));
}

#[test]
fn drops_malformed_lines() {
    assert!(decode("").is_none());
    assert!(decode("no underscore").is_none());
    assert!(decode("unknown_tag").is_none());
    assert!(decode("torust__bridge_name[open").is_none());
    assert!(decode("torust_nothing").is_none());
    assert!(decode("function__bridge_name[f]_end_name_bridge_id[1]_end_id").is_none());
    assert!(decode("function__bridge_name[f]_end_name_bridge_arg[1]_end_arg").is_none());
    assert!(decode("param_noseparator").is_none());
}

fn round_trip(m: Incoming) {
    let line = m.to_record();
    let back = decode(&line).expect("record decodes");
    assert_eq!(back.to_record(), line);
    match (&m, &back) {
        (
            Incoming::ChannelDelivery { channel: c1, payload: v1 },
            Incoming::ChannelDelivery { channel: c2, payload: v2 },
        ) => assert!(c1 == c2 && v1 == v2),
        (
            Incoming::FunctionInvoke { name: n1, call_id: i1, arg: a1 },
            Incoming::FunctionInvoke { name: n2, call_id: i2, arg: a2 },
        ) => {
            assert!(n1 == n2 && i1 == i2);
            match (a1, a2) {
                (Arg::NoArg, Arg::NoArg) => {}
                (Arg::Chunk { text: t1, is_final: f1 }, Arg::Chunk { text: t2, is_final: f2 }) => {
                    assert!(t1 == t2 && f1 == f2)
                }
                _ => panic!("argument changed"),
            }
        }
        (
            Incoming::ParamChunk { call_id: i1, chunk: c1, is_final: f1 },
            Incoming::ParamChunk { call_id: i2, chunk: c2, is_final: f2 },
        ) => assert!(i1 == i2 && c1 == c2 && f1 == f2),
        (Incoming::Shutdown, Incoming::Shutdown) => {}
        _ => panic!("record kind changed"),
    }
}

#[test]
fn every_record_kind_round_trips() {
    round_trip(Incoming::ChannelDelivery { channel: "ch".to_string(), payload: "v [x] _y".to_string() });
    round_trip(Incoming::FunctionInvoke { name: "f".to_string(), call_id: "1".to_string(), arg: Arg::NoArg });
    round_trip(Incoming::FunctionInvoke {
        name: "f".to_string(),
        call_id: "2".to_string(),
        arg: Arg::Chunk { text: "a b".to_string(), is_final: true },
    });
    round_trip(Incoming::FunctionInvoke {
        name: "f".to_string(),
        call_id: "3".to_string(),
        arg: Arg::Chunk { text: "first".to_string(), is_final: false },
    });
    round_trip(Incoming::ParamChunk { call_id: "3".to_string(), chunk: "mid".to_string(), is_final: false });
    round_trip(Incoming::ParamChunk { call_id: "3".to_string(), chunk: "end".to_string(), is_final: true });
    round_trip(Incoming::Shutdown);
}

#[test]
fn records_have_the_wire_shape() {
    let m = Incoming::FunctionInvoke {
        name: "add".to_string(),
        call_id: "7".to_string(),
        arg: Arg::Chunk { text: "10".to_string(), is_final: true },
    };
    assert_eq!(
        m.to_record(),
        "function__bridge_name[add]_end_name_bridge_id[7]_end_id_bridge_arg[10[bridgeendline]]_end_arg"
    );
    let p = Incoming::ParamChunk { call_id: "7".to_string(), chunk: "20".to_string(), is_final: true };
    assert_eq!(p.to_record(), "param_7_20[bridgeendline]");
}

#[test]
fn encodes_outgoing_records() {
    assert_eq!(
        encode_channel_send("channel_foo", "bar"),
        "tonode__bridge_name[channel_foo]_end_namebar[_bridgeendline]"
    );
    assert_eq!(encode_registration("addition"), "fnregister_addition[_bridgeendline]");
    assert_eq!(encode_response("12", "30"), "fnresponse_12_30[_bridgeendline]");
    assert_eq!(encode_exit(), "_bridge_exit[_bridgeendline]");
}

#[test]
fn handles_non_ascii_text() {
    let (c, p) = delivery("torust__bridge_name[kanäl]_end_nameé→ü");
    assert_eq!(c, "kanäl");
    assert_eq!(p, "é→ü");
}

fn out_round_trip(o: Outgoing) {
    let line = o.to_record();
    let back = decode_outgoing(&line).expect("outgoing record decodes");
    match (&o, &back) {
        (
            Outgoing::ChannelSend { channel: c1, data: d1 },
            Outgoing::ChannelSend { channel: c2, data: d2 },
        ) => assert!(c1 == c2 && d1 == d2),
        (Outgoing::Registered { name: n1 }, Outgoing::Registered { name: n2 }) => assert_eq!(n1, n2),
        (
            Outgoing::Response { call_id: i1, result: r1 },
            Outgoing::Response { call_id: i2, result: r2 },
        ) => assert!(i1 == i2 && r1 == r2),
        (Outgoing::Exit, Outgoing::Exit) => {}
        _ => panic!("record kind changed"),
    }
}

#[test]
fn every_outgoing_record_kind_round_trips() {
    out_round_trip(Outgoing::ChannelSend { channel: "channel_foo".to_string(), data: "bar [x]_y".to_string() });
    out_round_trip(Outgoing::Registered { name: "find_longer".to_string() });
    out_round_trip(Outgoing::Response { call_id: "12".to_string(), result: "a_b".to_string() });
    out_round_trip(Outgoing::Response { call_id: "13".to_string(), result: String::new() });
    out_round_trip(Outgoing::Exit);
}

#[test]
fn reads_outgoing_lines() {
    match decode_outgoing("fnresponse_7_30[_bridgeendline]") {
        Some(Outgoing::Response { call_id, result }) => {
            assert_eq!(call_id, "7");
            assert_eq!(result, "30");
        }
        _ => panic!("expected a response"),
    }
    assert!(matches!(decode_outgoing("_bridge_exit[_bridgeendline]"), Some(Outgoing::Exit)));
    assert!(decode_outgoing("fnresponse_7_30").is_none());
    assert!(decode_outgoing("other_x[_bridgeendline]").is_none());
    assert!(decode_outgoing("fnresponse_nothing[_bridgeendline]").is_none());
}
