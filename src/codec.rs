use vstd::prelude::*;
use vstd::string::*;
use crate::text::{
    closed_field, ends_with, ends_with_exec, lemma_closed_by_first_char, lemma_find_prefix,
    lemma_split_field, same_text, split_first, split_once,
};

verus! {

/// The argument part of a function call record.
pub enum Arg {
    /// The call takes no argument.
    NoArg,
    /// One argument; `is_final` is false when more arrive in parameter records.
    Chunk { text: String, is_final: bool },
}

pub enum ArgView {
    NoArg,
    Chunk { text: Seq<char>, is_final: bool },
}

/// A record sent by the peer, as read from one input line.
pub enum Incoming {
    /// A value published on a named channel.
    ChannelDelivery { channel: String, payload: String },
    /// A call of a registered function, with its first argument chunk.
    FunctionInvoke { name: String, call_id: String, arg: Arg },
    /// A further argument of a call that is still being assembled.
    ParamChunk { call_id: String, chunk: String, is_final: bool },
    /// The peer shuts the bridge down.
    Shutdown,
}

pub enum IncomingView {
    ChannelDelivery { channel: Seq<char>, payload: Seq<char> },
    FunctionInvoke { name: Seq<char>, call_id: Seq<char>, arg: ArgView },
    ParamChunk { call_id: Seq<char>, chunk: Seq<char>, is_final: bool },
    Shutdown,
}

impl View for Arg {
    type V = ArgView;

    open spec fn view(&self) -> ArgView {
        match self {
            Arg::NoArg => ArgView::NoArg,
            Arg::Chunk { text, is_final } => ArgView::Chunk { text: text@, is_final: *is_final },
        }
    }
}

impl View for Incoming {
    type V = IncomingView;

    open spec fn view(&self) -> IncomingView {
        match self {
            Incoming::ChannelDelivery { channel, payload } => IncomingView::ChannelDelivery {
                channel: channel@,
                payload: payload@,
            },
            Incoming::FunctionInvoke { name, call_id, arg } => IncomingView::FunctionInvoke {
                name: name@,
                call_id: call_id@,
                arg: arg@,
            },
            Incoming::ParamChunk { call_id, chunk, is_final } => IncomingView::ParamChunk {
                call_id: call_id@,
                chunk: chunk@,
                is_final: *is_final,
            },
            Incoming::Shutdown => IncomingView::Shutdown,
        }
    }
}

/// Marks the last chunk of an argument.
pub open spec fn final_mark() -> Seq<char> {
    "[bridgeendline]"@
}

/// The text between the first `open` and the next `close`, and what follows `close`.
pub open spec fn field(s: Seq<char>, open: Seq<char>, close: Seq<char>) -> Option<(Seq<char>, Seq<char>)> {
    match split_once(s, open) {
        Some((_, after)) => split_once(after, close),
        None => None,
    }
}

pub open spec fn strip_final(s: Seq<char>) -> Seq<char> {
    if ends_with(s, final_mark()) {
        s.subrange(0, s.len() - final_mark().len())
    } else {
        s
    }
}

pub open spec fn arg_of(a: Seq<char>) -> ArgView {
    if a == "noarg"@ {
        ArgView::NoArg
    } else {
        ArgView::Chunk { text: strip_final(a), is_final: ends_with(a, final_mark()) }
    }
}

pub open spec fn decode_delivery(rest: Seq<char>) -> Option<IncomingView> {
    match field(rest, "_bridge_name["@, "]_end_name"@) {
        Some((channel, payload)) => Some(IncomingView::ChannelDelivery { channel, payload }),
        None => None,
    }
}

pub open spec fn decode_invoke(rest: Seq<char>) -> Option<IncomingView> {
    match field(rest, "_bridge_name["@, "]_end_name"@) {
        Some((name, r1)) => match field(r1, "_bridge_id["@, "]_end_id"@) {
            Some((call_id, r2)) => match field(r2, "_bridge_arg["@, "]_end_arg"@) {
                Some((a, _)) => Some(IncomingView::FunctionInvoke { name, call_id, arg: arg_of(a) }),
                None => None,
            },
            None => None,
        },
        None => None,
    }
}

pub open spec fn decode_param(rest: Seq<char>) -> Option<IncomingView> {
    match split_once(rest, "_"@) {
        Some((call_id, v)) => Some(IncomingView::ParamChunk {
            call_id,
            chunk: strip_final(v),
            is_final: ends_with(v, final_mark()),
        }),
        None => None,
    }
}

/// What a line means: the text up to its first `_` names the kind of record,
/// and a line that fits no kind means nothing.
pub open spec fn decode_spec(line: Seq<char>) -> Option<IncomingView> {
    match split_once(line, "_"@) {
        Some((tag, rest)) => if tag == "torust"@ {
            decode_delivery(rest)
        } else if tag == "function"@ {
            decode_invoke(rest)
        } else if tag == "param"@ {
            decode_param(rest)
        } else if tag == "[bridgeexit]"@ {
            Some(IncomingView::Shutdown)
        } else {
            None
        },
        None => None,
    }
}

fn field_exec<'a>(s: &'a str, open: &str, close: &str) -> (r: Option<(&'a str, &'a str)>)
    ensures
        match r {
            Some((a, b)) => field(s@, open@, close@) == Some((a@, b@)),
            None => field(s@, open@, close@) is None,
        },
{
    match split_first(s, open) {
        Some((_, after)) => split_first(after, close),
        None => None,
    }
}

/// An argument with the final-chunk mark taken off its end, and whether it was there.
fn strip_final_exec(a: &str) -> (r: (String, bool))
    ensures
        r.0@ == strip_final(a@),
        r.1 == ends_with(a@, final_mark()),
{
    let fin = ends_with_exec(a, "[bridgeendline]");
    if fin {
        proof {
            reveal_strlit("[bridgeendline]");
        }
        let n = a.unicode_len();
        (String::from_str(a.substring_char(0, n - 15)), true)
    } else {
        (String::from_str(a), false)
    }
}

fn arg_of_exec(a: &str) -> (r: Arg)
    ensures
        r@ == arg_of(a@),
{
    if same_text(a, "noarg") {
        Arg::NoArg
    } else {
        let (text, is_final) = strip_final_exec(a);
        Arg::Chunk { text, is_final }
    }
}

/// Reads one input line. A line that fits no record kind gives `None`: it is
/// dropped, and reading goes on with the next one.
pub fn decode(line: &str) -> (r: Option<Incoming>)
    ensures
        match r {
            Some(m) => decode_spec(line@) == Some(m@),
            None => decode_spec(line@) is None,
        },
{
    let (tag, rest) = match split_first(line, "_") {
        Some(parts) => parts,
        None => return None,
    };
    if same_text(tag, "torust") {
        match field_exec(rest, "_bridge_name[", "]_end_name") {
            Some((channel, payload)) => Some(
                Incoming::ChannelDelivery {
                    channel: String::from_str(channel),
                    payload: String::from_str(payload),
                },
            ),
            None => None,
        }
    } else if same_text(tag, "function") {
        let (name, r1) = match field_exec(rest, "_bridge_name[", "]_end_name") {
            Some(parts) => parts,
            None => return None,
        };
        let (call_id, r2) = match field_exec(r1, "_bridge_id[", "]_end_id") {
            Some(parts) => parts,
            None => return None,
        };
        match field_exec(r2, "_bridge_arg[", "]_end_arg") {
            Some((a, _)) => Some(
                Incoming::FunctionInvoke {
                    name: String::from_str(name),
                    call_id: String::from_str(call_id),
                    arg: arg_of_exec(a),
                },
            ),
            None => None,
        }
    } else if same_text(tag, "param") {
        match split_first(rest, "_") {
            Some((call_id, v)) => {
                let (chunk, is_final) = strip_final_exec(v);
                Some(Incoming::ParamChunk { call_id: String::from_str(call_id), chunk, is_final })
            },
            None => None,
        }
    } else if same_text(tag, "[bridgeexit]") {
        Some(Incoming::Shutdown)
    } else {
        None
    }
}

pub open spec fn arg_text(a: ArgView) -> Seq<char> {
    match a {
        ArgView::NoArg => "noarg"@,
        ArgView::Chunk { text, is_final } => if is_final {
            text + final_mark()
        } else {
            text
        },
    }
}

/// The line by which the peer sends `m`.
pub open spec fn record(m: IncomingView) -> Seq<char> {
    match m {
        IncomingView::ChannelDelivery { channel, payload } => "torust"@ + "_"@ + (
        "_bridge_name["@ + channel + "]_end_name"@ + payload),
        IncomingView::FunctionInvoke { name, call_id, arg } => "function"@ + "_"@ + (
        "_bridge_name["@ + name + "]_end_name"@ + ("_bridge_id["@ + call_id + "]_end_id"@ + (
        "_bridge_arg["@ + arg_text(arg) + "]_end_arg"@))),
        IncomingView::ParamChunk { call_id, chunk, is_final } => "param"@ + "_"@ + (call_id
            + "_"@ + if is_final {
            chunk + final_mark()
        } else {
            chunk
        }),
        IncomingView::Shutdown => "[bridgeexit]"@ + "_"@,
    }
}

/// The fields of `m` can be told apart again in `record(m)`: no field holds
/// the marker that closes it, a call id of a parameter record holds no `_`,
/// and a chunk that is not the last neither ends with the final mark nor
/// reads as the no-argument word.
pub open spec fn record_ok(m: IncomingView) -> bool {
    match m {
        IncomingView::ChannelDelivery { channel, payload } => closed_field(channel, "]_end_name"@),
        IncomingView::FunctionInvoke { name, call_id, arg } => {
            &&& closed_field(name, "]_end_name"@)
            &&& closed_field(call_id, "]_end_id"@)
            &&& closed_field(arg_text(arg), "]_end_arg"@)
            &&& match arg {
                ArgView::Chunk { text, is_final } => !is_final ==> (text != "noarg"@ && !ends_with(
                    text,
                    final_mark(),
                )),
                ArgView::NoArg => true,
            }
        },
        IncomingView::ParamChunk { call_id, chunk, is_final } => {
            &&& closed_field(call_id, "_"@)
            &&& !is_final ==> !ends_with(chunk, final_mark())
        },
        IncomingView::Shutdown => true,
    }
}

proof fn lemma_field(open: Seq<char>, f: Seq<char>, close: Seq<char>, rest: Seq<char>)
    requires
        closed_field(f, close),
    ensures
        field(open + f + close + rest, open, close) == Some((f, rest)),
{
    assert(open + f + close + rest =~= open + (f + close + rest));
    lemma_find_prefix(open, f + close + rest);
    lemma_split_field(f, close, rest);
}

proof fn lemma_tag(tag: Seq<char>, rest: Seq<char>)
    requires
        forall|j: int| 0 <= j < tag.len() ==> tag[j] != '_',
    ensures
        split_once(tag + "_"@ + rest, "_"@) == Some((tag, rest)),
{
    reveal_strlit("_");
    lemma_closed_by_first_char(tag, "_"@);
    lemma_split_field(tag, "_"@, rest);
}

proof fn lemma_strip_final(t: Seq<char>)
    ensures
        ends_with(t + final_mark(), final_mark()),
        strip_final(t + final_mark()) == t,
{
    let s = t + final_mark();
    assert(s.subrange(s.len() - final_mark().len(), s.len() as int) =~= final_mark());
    assert(s.subrange(0, s.len() - final_mark().len()) =~= t);
}

/// Decoding the line of any record whose fields can be told apart gives the
/// record back.
pub proof fn lemma_decode_record(m: IncomingView)
    requires
        record_ok(m),
    ensures
        decode_spec(record(m)) == Some(m),
{
    reveal_strlit("torust");
    reveal_strlit("function");
    reveal_strlit("param");
    reveal_strlit("[bridgeexit]");
    reveal_strlit("noarg");
    reveal_strlit("[bridgeendline]");
    match m {
        IncomingView::ChannelDelivery { channel, payload } => {
            let rest = "_bridge_name["@ + channel + "]_end_name"@ + payload;
            lemma_tag("torust"@, rest);
            lemma_field("_bridge_name["@, channel, "]_end_name"@, payload);
        },
        IncomingView::FunctionInvoke { name, call_id, arg } => {
            let r2 = "_bridge_arg["@ + arg_text(arg) + "]_end_arg"@;
            let r1 = "_bridge_id["@ + call_id + "]_end_id"@ + r2;
            let rest = "_bridge_name["@ + name + "]_end_name"@ + r1;
            lemma_tag("function"@, rest);
            lemma_field("_bridge_name["@, name, "]_end_name"@, r1);
            lemma_field("_bridge_id["@, call_id, "]_end_id"@, r2);
            assert(r2 =~= r2 + Seq::<char>::empty());
            lemma_field("_bridge_arg["@, arg_text(arg), "]_end_arg"@, Seq::<char>::empty());
            match arg {
                ArgView::Chunk { text, is_final } => {
                    if is_final {
                        lemma_strip_final(text);
                        assert(arg_text(arg).len() != 5);
                    }
                },
                ArgView::NoArg => {},
            }
            assert(arg_of(arg_text(arg)) == arg);
        },
        IncomingView::ParamChunk { call_id, chunk, is_final } => {
            let v = if is_final {
                chunk + final_mark()
            } else {
                chunk
            };
            lemma_tag("param"@, call_id + "_"@ + v);
            reveal_strlit("_");
            lemma_split_field(call_id, "_"@, v);
            if is_final {
                lemma_strip_final(chunk);
            }
        },
        IncomingView::Shutdown => {
            assert("[bridgeexit]"@ + "_"@ =~= "[bridgeexit]"@ + "_"@ + Seq::<char>::empty());
            lemma_tag("[bridgeexit]"@, Seq::<char>::empty());
        },
    }
}

impl Arg {
    fn text(&self) -> (r: String)
        ensures
            r@ == arg_text(self@),
    {
        match self {
            Arg::NoArg => String::from_str("noarg"),
            Arg::Chunk { text, is_final } => if *is_final {
                text.clone().concat("[bridgeendline]")
            } else {
                text.clone()
            },
        }
    }
}

impl Incoming {
    /// The line by which the peer sends this record.
    pub fn to_record(&self) -> (r: String)
        ensures
            r@ == record(self@),
    {
        match self {
            Incoming::ChannelDelivery { channel, payload } => {
                let r = String::from_str("torust__bridge_name[").concat(channel.as_str()).concat(
                    "]_end_name",
                ).concat(payload.as_str());
                proof {
                    reveal_strlit("torust__bridge_name[");
                    reveal_strlit("torust");
                    reveal_strlit("_");
                    reveal_strlit("_bridge_name[");
                    assert(r@ =~= record(self@));
                }
                r
            },
            Incoming::FunctionInvoke { name, call_id, arg } => {
                let a = arg.text();
                let r = String::from_str("function__bridge_name[").concat(name.as_str()).concat(
                    "]_end_name_bridge_id[",
                ).concat(call_id.as_str()).concat("]_end_id_bridge_arg[").concat(
                    a.as_str(),
                ).concat("]_end_arg");
                proof {
                    reveal_strlit("function__bridge_name[");
                    reveal_strlit("function");
                    reveal_strlit("_");
                    reveal_strlit("_bridge_name[");
                    reveal_strlit("]_end_name_bridge_id[");
                    reveal_strlit("]_end_name");
                    reveal_strlit("_bridge_id[");
                    reveal_strlit("]_end_id_bridge_arg[");
                    reveal_strlit("]_end_id");
                    reveal_strlit("_bridge_arg[");
                    assert(r@ =~= record(self@));
                }
                r
            },
            Incoming::ParamChunk { call_id, chunk, is_final } => {
                let r0 = String::from_str("param_").concat(call_id.as_str()).concat("_").concat(
                    chunk.as_str(),
                );
                let r = if *is_final {
                    r0.concat("[bridgeendline]")
                } else {
                    r0
                };
                proof {
                    reveal_strlit("param_");
                    reveal_strlit("param");
                    reveal_strlit("_");
                    assert(r@ =~= record(self@));
                }
                r
            },
            Incoming::Shutdown => {
                let r = String::from_str("[bridgeexit]_");
                proof {
                    reveal_strlit("[bridgeexit]_");
                    reveal_strlit("[bridgeexit]");
                    reveal_strlit("_");
                    assert(r@ =~= record(self@));
                }
                r
            },
        }
    }
}

/// Whether the reader has just read the peer's shutdown line and must stop.
pub fn is_exit_line(line: &str) -> (r: bool)
    ensures
        r == (line@ == record(IncomingView::Shutdown)),
{
    let r = same_text(line, "[bridgeexit]_");
    proof {
        reveal_strlit("[bridgeexit]_");
        reveal_strlit("[bridgeexit]");
        reveal_strlit("_");
        assert("[bridgeexit]_"@ =~= record(IncomingView::Shutdown));
    }
    r
}

/// The line that publishes `data` on `channel` to the peer.
pub open spec fn channel_send_record(channel: Seq<char>, data: Seq<char>) -> Seq<char> {
    "tonode__bridge_name["@ + channel + "]_end_name"@ + data + "[_bridgeendline]"@
}

/// The line that tells the peer that function `name` can be called.
pub open spec fn registration_record(name: Seq<char>) -> Seq<char> {
    "fnregister_"@ + name + "[_bridgeendline]"@
}

/// The line that answers call `call_id` with `result`.
pub open spec fn response_record(call_id: Seq<char>, result: Seq<char>) -> Seq<char> {
    "fnresponse_"@ + call_id + "_"@ + result + "[_bridgeendline]"@
}

/// The line that tells the peer that this side closes the bridge.
pub open spec fn exit_record() -> Seq<char> {
    "_bridge_exit[_bridgeendline]"@
}

pub fn encode_channel_send(channel: &str, data: &str) -> (r: String)
    ensures
        r@ == channel_send_record(channel@, data@),
{
    String::from_str("tonode__bridge_name[").concat(channel).concat("]_end_name").concat(
        data,
    ).concat("[_bridgeendline]")
}

pub fn encode_registration(name: &str) -> (r: String)
    ensures
        r@ == registration_record(name@),
{
    String::from_str("fnregister_").concat(name).concat("[_bridgeendline]")
}

pub fn encode_response(call_id: &str, result: &str) -> (r: String)
    ensures
        r@ == response_record(call_id@, result@),
{
    String::from_str("fnresponse_").concat(call_id).concat("_").concat(result).concat(
        "[_bridgeendline]",
    )
}

pub fn encode_exit() -> (r: String)
    ensures
        r@ == exit_record(),
{
    String::from_str("_bridge_exit[_bridgeendline]")
}

/// A record that this side sends to the peer.
pub enum Outgoing {
    /// `data` published on `channel`.
    ChannelSend { channel: String, data: String },
    /// Function `name` can now be called.
    Registered { name: String },
    /// The answer `result` to call `call_id`.
    Response { call_id: String, result: String },
    /// This side closes the bridge.
    Exit,
}

pub enum OutgoingView {
    ChannelSend { channel: Seq<char>, data: Seq<char> },
    Registered { name: Seq<char> },
    Response { call_id: Seq<char>, result: Seq<char> },
    Exit,
}

impl View for Outgoing {
    type V = OutgoingView;

    open spec fn view(&self) -> OutgoingView {
        match self {
            Outgoing::ChannelSend { channel, data } => OutgoingView::ChannelSend {
                channel: channel@,
                data: data@,
            },
            Outgoing::Registered { name } => OutgoingView::Registered { name: name@ },
            Outgoing::Response { call_id, result } => OutgoingView::Response {
                call_id: call_id@,
                result: result@,
            },
            Outgoing::Exit => OutgoingView::Exit,
        }
    }
}

/// Ends every record that this side sends.
pub open spec fn end_mark() -> Seq<char> {
    "[_bridgeendline]"@
}

pub open spec fn out_record(o: OutgoingView) -> Seq<char> {
    match o {
        OutgoingView::ChannelSend { channel, data } => channel_send_record(channel, data),
        OutgoingView::Registered { name } => registration_record(name),
        OutgoingView::Response { call_id, result } => response_record(call_id, result),
        OutgoingView::Exit => exit_record(),
    }
}

/// What the peer reads in a line from this side: the line must end with the
/// end mark; what stands before it is the exit word, or starts with the kind
/// of record up to its first `_`.
pub open spec fn decode_outgoing_spec(line: Seq<char>) -> Option<OutgoingView> {
    if !ends_with(line, end_mark()) {
        None
    } else {
        let body = line.subrange(0, line.len() - end_mark().len());
        if body == "_bridge_exit"@ {
            Some(OutgoingView::Exit)
        } else {
            match split_once(body, "_"@) {
                Some((tag, rest)) => if tag == "tonode"@ {
                    match field(rest, "_bridge_name["@, "]_end_name"@) {
                        Some((channel, data)) => Some(OutgoingView::ChannelSend { channel, data }),
                        None => None,
                    }
                } else if tag == "fnregister"@ {
                    Some(OutgoingView::Registered { name: rest })
                } else if tag == "fnresponse"@ {
                    match split_once(rest, "_"@) {
                        Some((call_id, result)) => Some(OutgoingView::Response { call_id, result }),
                        None => None,
                    }
                } else {
                    None
                },
                None => None,
            }
        }
    }
}

/// The fields of `o` can be told apart again in its line: a channel name
/// holds no marker that closes it, and a call id holds no `_`.
pub open spec fn out_record_ok(o: OutgoingView) -> bool {
    match o {
        OutgoingView::ChannelSend { channel, data } => closed_field(channel, "]_end_name"@),
        OutgoingView::Response { call_id, result } => closed_field(call_id, "_"@),
        _ => true,
    }
}

proof fn lemma_strip_end(body: Seq<char>)
    ensures
        ends_with(body + end_mark(), end_mark()),
        (body + end_mark()).subrange(0, (body + end_mark()).len() - end_mark().len()) == body,
{
    let s = body + end_mark();
    assert(s.subrange(s.len() - end_mark().len(), s.len() as int) =~= end_mark());
    assert(s.subrange(0, s.len() - end_mark().len()) =~= body);
}

/// Reading the line of any outgoing record whose fields can be told apart
/// gives the record back.
pub proof fn lemma_decode_outgoing(o: OutgoingView)
    requires
        out_record_ok(o),
    ensures
        decode_outgoing_spec(out_record(o)) == Some(o),
{
    reveal_strlit("_bridge_exit");
    reveal_strlit("_bridge_exit[_bridgeendline]");
    reveal_strlit("[_bridgeendline]");
    reveal_strlit("tonode__bridge_name[");
    reveal_strlit("tonode");
    reveal_strlit("_");
    reveal_strlit("_bridge_name[");
    reveal_strlit("fnregister_");
    reveal_strlit("fnregister");
    reveal_strlit("fnresponse_");
    reveal_strlit("fnresponse");
    match o {
        OutgoingView::ChannelSend { channel, data } => {
            let rest = "_bridge_name["@ + channel + "]_end_name"@ + data;
            let body = "tonode"@ + "_"@ + rest;
            assert(channel_send_record(channel, data) =~= body + end_mark());
            lemma_strip_end(body);
            assert(body[0] != "_bridge_exit"@[0]);
            lemma_tag("tonode"@, rest);
            lemma_field("_bridge_name["@, channel, "]_end_name"@, data);
        },
        OutgoingView::Registered { name } => {
            let body = "fnregister"@ + "_"@ + name;
            assert(registration_record(name) =~= body + end_mark());
            lemma_strip_end(body);
            assert(body[0] != "_bridge_exit"@[0]);
            lemma_tag("fnregister"@, name);
        },
        OutgoingView::Response { call_id, result } => {
            let rest = call_id + "_"@ + result;
            let body = "fnresponse"@ + "_"@ + rest;
            assert(response_record(call_id, result) =~= body + end_mark());
            lemma_strip_end(body);
            assert(body[0] != "_bridge_exit"@[0]);
            lemma_tag("fnresponse"@, rest);
            lemma_split_field(call_id, "_"@, result);
            assert("fnresponse"@[4] != "fnregister"@[4]);
        },
        OutgoingView::Exit => {
            assert(exit_record() =~= "_bridge_exit"@ + end_mark());
            lemma_strip_end("_bridge_exit"@);
        },
    }
}

impl Outgoing {
    /// The line by which this record goes to the peer.
    pub fn to_record(&self) -> (r: String)
        ensures
            r@ == out_record(self@),
    {
        match self {
            Outgoing::ChannelSend { channel, data } => encode_channel_send(channel.as_str(), data.as_str()),
            Outgoing::Registered { name } => encode_registration(name.as_str()),
            Outgoing::Response { call_id, result } => encode_response(call_id.as_str(), result.as_str()),
            Outgoing::Exit => encode_exit(),
        }
    }
}

/// Reads a line that this side sent, as the peer does; `None` for a line of
/// no outgoing kind.
pub fn decode_outgoing(line: &str) -> (r: Option<Outgoing>)
    ensures
        match r {
            Some(o) => decode_outgoing_spec(line@) == Some(o@),
            None => decode_outgoing_spec(line@) is None,
        },
{
    if !ends_with_exec(line, "[_bridgeendline]") {
        return None;
    }
    proof {
        reveal_strlit("[_bridgeendline]");
    }
    let n = line.unicode_len();
    let body = line.substring_char(0, n - 16);
    if same_text(body, "_bridge_exit") {
        return Some(Outgoing::Exit);
    }
    let (tag, rest) = match split_first(body, "_") {
        Some(parts) => parts,
        None => return None,
    };
    if same_text(tag, "tonode") {
        match field_exec(rest, "_bridge_name[", "]_end_name") {
            Some((channel, data)) => Some(
                Outgoing::ChannelSend {
                    channel: String::from_str(channel),
                    data: String::from_str(data),
                },
            ),
            None => None,
        }
    } else if same_text(tag, "fnregister") {
        Some(Outgoing::Registered { name: String::from_str(rest) })
    } else if same_text(tag, "fnresponse") {
        match split_first(rest, "_") {
            Some((call_id, result)) => Some(
                Outgoing::Response {
                    call_id: String::from_str(call_id),
                    result: String::from_str(result),
                },
            ),
            None => None,
        }
    } else {
        None
    }
}

} // verus!
