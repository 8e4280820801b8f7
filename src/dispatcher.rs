use vstd::prelude::*;
use crate::codec::{Arg, ArgView, Incoming, IncomingView};
use crate::error::BridgeClosedError;
use crate::table::Table;

verus! {

/// The text of each string, in order.
pub open spec fn texts(v: Seq<String>) -> Seq<Seq<char>> {
    v.map_values(|s: String| s@)
}

/// A call whose argument arrives in several records; its chunks so far.
pub struct PendingCall {
    pub function: String,
    pub args: Vec<String>,
}

pub struct PendingView {
    pub function: Seq<char>,
    pub args: Seq<Seq<char>>,
}

impl View for PendingCall {
    type V = PendingView;

    open spec fn view(&self) -> PendingView {
        PendingView { function: self.function@, args: texts(self.args@) }
    }
}

/// What the dispatcher is handed, one at a time and in order.
pub enum Event {
    /// A record read from the peer.
    Line(Incoming),
    /// A local caller waits for the next value on `channel`; `ticket` names its waiter.
    Receive { channel: String, ticket: u64 },
    /// A local function becomes callable under `name`.
    Register { name: String },
    /// The local side closes the bridge.
    Close,
}

pub enum EventView {
    Line(IncomingView),
    Receive { channel: Seq<char>, ticket: u64 },
    Register { name: Seq<char> },
    Close,
}

impl View for Event {
    type V = EventView;

    open spec fn view(&self) -> EventView {
        match self {
            Event::Line(m) => EventView::Line(m@),
            Event::Receive { channel, ticket } => EventView::Receive { channel: channel@, ticket: *ticket },
            Event::Register { name } => EventView::Register { name: name@ },
            Event::Close => EventView::Close,
        }
    }
}

/// What the dispatcher asks of the code around it.
pub enum Action {
    /// Hand `payload` to the waiter named `ticket`.
    Fulfill { ticket: u64, payload: String },
    /// Run function `function` on `args` and answer call `call_id`.
    Invoke { function: String, call_id: String, args: Vec<String> },
    /// Shut down: drop every waiter and worker; when `announce` holds, first
    /// tell the peer with the exit record.
    Stop { announce: bool },
}

pub enum ActionView {
    Fulfill { ticket: u64, payload: Seq<char> },
    Invoke { function: Seq<char>, call_id: Seq<char>, args: Seq<Seq<char>> },
    Stop { announce: bool },
}

impl View for Action {
    type V = ActionView;

    open spec fn view(&self) -> ActionView {
        match self {
            Action::Fulfill { ticket, payload } => ActionView::Fulfill { ticket: *ticket, payload: payload@ },
            Action::Invoke { function, call_id, args } => ActionView::Invoke {
                function: function@,
                call_id: call_id@,
                args: texts(args@),
            },
            Action::Stop { announce } => ActionView::Stop { announce: *announce },
        }
    }
}

pub open spec fn action_view(a: Option<Action>) -> Option<ActionView> {
    match a {
        Some(a) => Some(a@),
        None => None,
    }
}

/// The dispatcher's state: the waiter of each channel, the registered
/// functions, the calls still being assembled, and whether the bridge is shut.
pub struct DispatcherView {
    pub waiters: Map<Seq<char>, u64>,
    pub functions: Set<Seq<char>>,
    pub pending: Map<Seq<char>, PendingView>,
    pub closed: bool,
}

pub open spec fn initial_state() -> DispatcherView {
    DispatcherView {
        waiters: Map::empty(),
        functions: Set::empty(),
        pending: Map::empty(),
        closed: false,
    }
}

pub open spec fn closed_state() -> DispatcherView {
    DispatcherView {
        waiters: Map::empty(),
        functions: Set::empty(),
        pending: Map::empty(),
        closed: true,
    }
}

/// A call of `f` when `f` is registered; none otherwise.
pub open spec fn invoke_if(
    s: DispatcherView,
    f: Seq<char>,
    call_id: Seq<char>,
    args: Seq<Seq<char>>,
) -> Option<ActionView> {
    if s.functions.contains(f) {
        Some(ActionView::Invoke { function: f, call_id, args })
    } else {
        None
    }
}

pub open spec fn with_waiters(s: DispatcherView, w: Map<Seq<char>, u64>) -> DispatcherView {
    DispatcherView { waiters: w, functions: s.functions, pending: s.pending, closed: s.closed }
}

pub open spec fn with_pending(s: DispatcherView, p: Map<Seq<char>, PendingView>) -> DispatcherView {
    DispatcherView { waiters: s.waiters, functions: s.functions, pending: p, closed: s.closed }
}

pub open spec fn on_record(s: DispatcherView, m: IncomingView) -> (DispatcherView, Option<ActionView>) {
    match m {
        IncomingView::ChannelDelivery { channel, payload } => if s.waiters.contains_key(channel) {
            (
                with_waiters(s, s.waiters.remove(channel)),
                Some(ActionView::Fulfill { ticket: s.waiters[channel], payload }),
            )
        } else {
            (s, None)
        },
        IncomingView::FunctionInvoke { name, call_id, arg } => match arg {
            ArgView::NoArg => (s, invoke_if(s, name, call_id, Seq::empty())),
            ArgView::Chunk { text, is_final } => if is_final {
                (s, invoke_if(s, name, call_id, seq![text]))
            } else {
                (
                    with_pending(
                        s,
                        s.pending.insert(call_id, PendingView { function: name, args: seq![text] }),
                    ),
                    None,
                )
            },
        },
        IncomingView::ParamChunk { call_id, chunk, is_final } => if s.pending.contains_key(call_id) {
            let p = s.pending[call_id];
            if is_final {
                (
                    with_pending(s, s.pending.remove(call_id)),
                    invoke_if(s, p.function, call_id, p.args.push(chunk)),
                )
            } else {
                (
                    with_pending(
                        s,
                        s.pending.insert(
                            call_id,
                            PendingView { function: p.function, args: p.args.push(chunk) },
                        ),
                    ),
                    None,
                )
            }
        } else {
            (s, None)
        },
        IncomingView::Shutdown => (closed_state(), Some(ActionView::Stop { announce: false })),
    }
}

/// One move of the dispatcher: the state after `e`, and what it asks for.
/// Once shut, it ignores everything.
pub open spec fn step_spec(s: DispatcherView, e: EventView) -> (DispatcherView, Option<ActionView>) {
    if s.closed {
        (s, None)
    } else {
        match e {
            EventView::Line(m) => on_record(s, m),
            EventView::Receive { channel, ticket } => (
                with_waiters(s, s.waiters.insert(channel, ticket)),
                None,
            ),
            EventView::Register { name } => (
                DispatcherView {
                    waiters: s.waiters,
                    functions: s.functions.insert(name),
                    pending: s.pending,
                    closed: s.closed,
                },
                None,
            ),
            EventView::Close => (closed_state(), Some(ActionView::Stop { announce: true })),
        }
    }
}

/// Owns the waiters, the registered functions and the calls in assembly, and
/// changes them one event at a time.
pub struct Dispatcher {
    waiters: Table<u64>,
    functions: Table<()>,
    pending: Table<PendingCall>,
    closed: bool,
}

impl View for Dispatcher {
    type V = DispatcherView;

    closed spec fn view(&self) -> DispatcherView {
        DispatcherView {
            waiters: self.waiters.view(),
            functions: self.functions.view().dom(),
            pending: self.pending.view().map_values(|p: PendingCall| p@),
            closed: self.closed,
        }
    }
}

impl Dispatcher {
    /// Each of its tables is well formed.
    pub closed spec fn wf(&self) -> bool {
        self.waiters.wf() && self.functions.wf() && self.pending.wf()
    }

    pub fn new() -> (d: Dispatcher)
        ensures
            d.wf(),
            d@ == initial_state(),
    {
        let d = Dispatcher {
            waiters: Table::new(),
            functions: Table::new(),
            pending: Table::new(),
            closed: false,
        };
        proof {
            assert(d@.functions =~= Set::<Seq<char>>::empty());
            assert(d@.pending =~= Map::<Seq<char>, PendingView>::empty());
        }
        d
    }

    pub fn is_closed(&self) -> (r: bool)
        ensures
            r == self@.closed,
    {
        self.closed
    }

    /// Fails once the bridge is shut.
    pub fn check_open(&self) -> (r: Result<(), BridgeClosedError>)
        ensures
            r is Err <==> self@.closed,
    {
        if self.closed {
            Err(BridgeClosedError)
        } else {
            Ok(())
        }
    }

    fn shut(&mut self)
        requires
            old(self).wf(),
        ensures
            final(self).wf(),
            final(self)@ == closed_state(),
    {
        self.waiters.clear();
        self.functions.clear();
        self.pending.clear();
        self.closed = true;
        proof {
            assert(self@.functions =~= Set::<Seq<char>>::empty());
            assert(self@.pending =~= Map::<Seq<char>, PendingView>::empty());
        }
    }
    fn invoke_if(&self, function: String, call_id: String, args: Vec<String>) -> (r: Option<Action>)
        requires
            self.wf(),
        ensures
            action_view(r) == invoke_if(self@, function@, call_id@, texts(args@)),
    {
        if self.functions.contains(function.as_str()) {
            Some(Action::Invoke { function, call_id, args })
        } else {
            None
        }
    }

    fn on_delivery(&mut self, channel: String, payload: String) -> (r: Option<Action>)
        requires
            old(self).wf(),
            !old(self)@.closed,
        ensures
            final(self).wf(),
            (final(self)@, action_view(r)) == on_record(
                old(self)@,
                IncomingView::ChannelDelivery { channel: channel@, payload: payload@ },
            ),
    {
        match self.waiters.remove(channel.as_str()) {
            Some(ticket) => Some(Action::Fulfill { ticket, payload }),
            None => {
                assert(self@.waiters =~= old(self)@.waiters);
                None
            },
        }
    }

    fn on_invoke(&mut self, name: String, call_id: String, arg: Arg) -> (r: Option<Action>)
        requires
            old(self).wf(),
            !old(self)@.closed,
        ensures
            final(self).wf(),
            (final(self)@, action_view(r)) == on_record(
                old(self)@,
                IncomingView::FunctionInvoke { name: name@, call_id: call_id@, arg: arg@ },
            ),
    {
        match arg {
            Arg::NoArg => {
                let args: Vec<String> = Vec::new();
                assert(texts(args@) =~= Seq::<Seq<char>>::empty());
                self.invoke_if(name, call_id, args)
            },
            Arg::Chunk { text, is_final } => {
                let ghost t = text@;
                let mut args: Vec<String> = Vec::new();
                args.push(text);
                assert(texts(args@) =~= seq![t]);
                if is_final {
                    self.invoke_if(name, call_id, args)
                } else {
                    let ghost old_pending = self.pending.view();
                    let ghost pv = PendingView { function: name@, args: seq![t] };
                    let ghost id = call_id@;
                    self.pending.insert(call_id, PendingCall { function: name, args });
                    assert(self@.pending =~= old(self)@.pending.insert(id, pv));
                    None
                }
            },
        }
    }

    fn on_param(&mut self, call_id: String, chunk: String, is_final: bool) -> (r: Option<Action>)
        requires
            old(self).wf(),
            !old(self)@.closed,
        ensures
            final(self).wf(),
            (final(self)@, action_view(r)) == on_record(
                old(self)@,
                IncomingView::ParamChunk { call_id: call_id@, chunk: chunk@, is_final },
            ),
    {
        let ghost id = call_id@;
        match self.pending.remove(call_id.as_str()) {
            Some(p) => {
                let ghost old_p = p@;
                assert(old(self)@.pending.contains_key(id));
                assert(old(self)@.pending[id] == old_p);
                let PendingCall { function, mut args } = p;
                let ghost c = chunk@;
                args.push(chunk);
                assert(texts(args@) =~= old_p.args.push(c));
                if is_final {
                    assert(self@.pending =~= old(self)@.pending.remove(id));
                    self.invoke_if(function, call_id, args)
                } else {
                    let ghost pv = PendingView { function: function@, args: texts(args@) };
                    self.pending.insert(call_id, PendingCall { function, args });
                    assert(self@.pending =~= old(self)@.pending.insert(id, pv));
                    None
                }
            },
            None => {
                assert(self@.pending =~= old(self)@.pending);
                None
            },
        }
    }

    /// Takes one event and returns what it asks for.
    pub fn step(&mut self, e: Event) -> (r: Option<Action>)
        requires
            old(self).wf(),
        ensures
            final(self).wf(),
            (final(self)@, action_view(r)) == step_spec(old(self)@, e@),
    {
        if self.closed {
            return None;
        }
        match e {
            Event::Line(m) => match m {
                Incoming::ChannelDelivery { channel, payload } => self.on_delivery(channel, payload),
                Incoming::FunctionInvoke { name, call_id, arg } => self.on_invoke(name, call_id, arg),
                Incoming::ParamChunk { call_id, chunk, is_final } => self.on_param(
                    call_id,
                    chunk,
                    is_final,
                ),
                Incoming::Shutdown => {
                    self.shut();
                    Some(Action::Stop { announce: false })
                },
            },
            Event::Receive { channel, ticket } => {
                self.waiters.insert(channel, ticket);
                None
            },
            Event::Register { name } => {
                let ghost n = name@;
                self.functions.insert(name, ());
                assert(self@.functions =~= old(self)@.functions.insert(n));
                None
            },
            Event::Close => {
                self.shut();
                Some(Action::Stop { announce: true })
            },
        }
    }
}

/// The state after the events `es`, in order.
pub open spec fn run(s: DispatcherView, es: Seq<EventView>) -> DispatcherView
    decreases es.len(),
{
    if es.len() == 0 {
        s
    } else {
        step_spec(run(s, es.drop_last()), es.last()).0
    }
}

/// What the `i`-th of the events `es` asks for.
pub open spec fn action_at(s: DispatcherView, es: Seq<EventView>, i: int) -> Option<ActionView> {
    step_spec(run(s, es.take(i)), es[i]).1
}

pub open spec fn fulfills(a: Option<ActionView>, t: u64) -> bool {
    match a {
        Some(ActionView::Fulfill { ticket, payload }) => ticket == t,
        _ => false,
    }
}

pub open spec fn holds_ticket(s: DispatcherView, t: u64) -> bool {
    exists|k: Seq<char>| s.waiters.contains_key(k) && s.waiters[k] == t
}

pub open spec fn gives_ticket(e: EventView, t: u64) -> bool {
    match e {
        EventView::Receive { channel, ticket } => ticket == t,
        _ => false,
    }
}

/// Whether `e` may change who waits on `c`: a receive or a delivery on `c`,
/// or a shutdown.
pub open spec fn touches(e: EventView, c: Seq<char>) -> bool {
    match e {
        EventView::Receive { channel, ticket } => channel == c,
        EventView::Line(IncomingView::ChannelDelivery { channel, payload }) => channel == c,
        EventView::Line(IncomingView::Shutdown) => true,
        EventView::Close => true,
        _ => false,
    }
}

proof fn lemma_step_keeps_unheld(s: DispatcherView, e: EventView, t: u64)
    requires
        !holds_ticket(s, t),
        !gives_ticket(e, t),
    ensures
        !holds_ticket(step_spec(s, e).0, t),
        !fulfills(step_spec(s, e).1, t),
{
    let n = step_spec(s, e).0;
    if holds_ticket(n, t) {
        let k = choose|k: Seq<char>| n.waiters.contains_key(k) && n.waiters[k] == t;
        assert(s.waiters.contains_key(k) && s.waiters[k] == t);
    }
}

proof fn lemma_run_keeps_unheld(s: DispatcherView, es: Seq<EventView>, t: u64)
    requires
        !holds_ticket(s, t),
        forall|i: int| 0 <= i < es.len() ==> !gives_ticket(#[trigger] es[i], t),
    ensures
        !holds_ticket(run(s, es), t),
    decreases es.len(),
{
    if es.len() > 0 {
        let d = es.drop_last();
        assert forall|i: int| 0 <= i < d.len() implies !gives_ticket(#[trigger] d[i], t) by {
            assert(d[i] == es[i]);
        }
        lemma_run_keeps_unheld(s, d, t);
        lemma_step_keeps_unheld(run(s, d), es.last(), t);
    }
}

/// A waiter that a newer receive on the same channel replaced is abandoned:
/// no later event fulfills it, whatever arrives, as long as no later receive
/// reuses its ticket. It ends only when the bridge shuts.
pub proof fn lemma_replaced_waiter_abandoned(
    s: DispatcherView,
    c: Seq<char>,
    old_ticket: u64,
    new_ticket: u64,
    es: Seq<EventView>,
)
    requires
        !holds_ticket(s, old_ticket),
        old_ticket != new_ticket,
        forall|i: int| 0 <= i < es.len() ==> !gives_ticket(#[trigger] es[i], old_ticket),
    ensures
        ({
            let s1 = step_spec(
                step_spec(s, EventView::Receive { channel: c, ticket: old_ticket }).0,
                EventView::Receive { channel: c, ticket: new_ticket },
            ).0;
            forall|i: int| 0 <= i < es.len() ==> !fulfills(#[trigger] action_at(s1, es, i), old_ticket)
        }),
{
    let s0 = step_spec(s, EventView::Receive { channel: c, ticket: old_ticket }).0;
    let s1 = step_spec(s0, EventView::Receive { channel: c, ticket: new_ticket }).0;
    if holds_ticket(s1, old_ticket) {
        let k = choose|k: Seq<char>| s1.waiters.contains_key(k) && s1.waiters[k] == old_ticket;
        if !s.closed {
            assert(k != c);
            assert(s.waiters.contains_key(k) && s.waiters[k] == old_ticket);
        }
    }
    assert forall|i: int| 0 <= i < es.len() implies !fulfills(#[trigger] action_at(s1, es, i), old_ticket) by {
        let p = es.take(i);
        assert forall|j: int| 0 <= j < p.len() implies !gives_ticket(#[trigger] p[j], old_ticket) by {
            assert(p[j] == es[j]);
        }
        lemma_run_keeps_unheld(s1, p, old_ticket);
        lemma_step_keeps_unheld(run(s1, p), es[i], old_ticket);
    }
}

proof fn lemma_run_keeps_waiter(s: DispatcherView, es: Seq<EventView>, c: Seq<char>, t: u64)
    requires
        !s.closed,
        s.waiters.contains_key(c),
        s.waiters[c] == t,
        forall|i: int| 0 <= i < es.len() ==> !touches(#[trigger] es[i], c),
    ensures
        !run(s, es).closed,
        run(s, es).waiters.contains_key(c),
        run(s, es).waiters[c] == t,
    decreases es.len(),
{
    if es.len() > 0 {
        let d = es.drop_last();
        assert forall|i: int| 0 <= i < d.len() implies !touches(#[trigger] d[i], c) by {
            assert(d[i] == es[i]);
        }
        lemma_run_keeps_waiter(s, d, c, t);
        assert(!touches(es[es.len() - 1], c));
    }
}

/// The latest receive on a channel is the one that its next delivery
/// fulfills: once a receive on `c` is registered, and none of the events that
/// follow is another receive or delivery on `c` or a shutdown, a delivery of
/// `p` on `c` hands `p` to that waiter, and `c` is left without a waiter, so
/// no other waiter gets `p`.
pub proof fn lemma_delivery_fulfills_latest(
    s: DispatcherView,
    c: Seq<char>,
    t: u64,
    es: Seq<EventView>,
    p: Seq<char>,
)
    requires
        !s.closed,
        forall|i: int| 0 <= i < es.len() ==> !touches(#[trigger] es[i], c),
    ensures
        ({
            let s1 = run(step_spec(s, EventView::Receive { channel: c, ticket: t }).0, es);
            let (s2, a) = step_spec(
                s1,
                EventView::Line(IncomingView::ChannelDelivery { channel: c, payload: p }),
            );
            &&& a == Some(ActionView::Fulfill { ticket: t, payload: p })
            &&& s2.waiters == s1.waiters.remove(c)
            &&& !s2.waiters.contains_key(c)
        }),
{
    let s0 = step_spec(s, EventView::Receive { channel: c, ticket: t }).0;
    lemma_run_keeps_waiter(s0, es, c, t);
}

/// A call whose argument comes in three chunks, the first with the call and
/// two in parameter records, reaches its function once, after the last chunk,
/// with the three chunks in order; the call is then no longer pending.
pub proof fn lemma_chunked_call(
    s: DispatcherView,
    f: Seq<char>,
    id: Seq<char>,
    a: Seq<char>,
    b: Seq<char>,
    c: Seq<char>,
)
    requires
        !s.closed,
        s.functions.contains(f),
    ensures
        ({
            let (s1, r1) = step_spec(
                s,
                EventView::Line(
                    IncomingView::FunctionInvoke {
                        name: f,
                        call_id: id,
                        arg: ArgView::Chunk { text: a, is_final: false },
                    },
                ),
            );
            let (s2, r2) = step_spec(
                s1,
                EventView::Line(IncomingView::ParamChunk { call_id: id, chunk: b, is_final: false }),
            );
            let (s3, r3) = step_spec(
                s2,
                EventView::Line(IncomingView::ParamChunk { call_id: id, chunk: c, is_final: true }),
            );
            &&& r1 is None
            &&& r2 is None
            &&& r3 == Some(ActionView::Invoke { function: f, call_id: id, args: seq![a, b, c] })
            &&& s3.pending == s.pending.remove(id)
        }),
{
    assert(seq![a].push(b).push(c) =~= seq![a, b, c]);
    let s1 = step_spec(
        s,
        EventView::Line(
            IncomingView::FunctionInvoke {
                name: f,
                call_id: id,
                arg: ArgView::Chunk { text: a, is_final: false },
            },
        ),
    ).0;
    assert(s1.pending.insert(id, PendingView { function: f, args: seq![a].push(b) }).remove(id)
        =~= s.pending.remove(id));
}

/// Once the bridge is shut it stays shut: whatever follows changes nothing
/// and asks for nothing.
pub proof fn lemma_shut_is_final(s: DispatcherView, es: Seq<EventView>)
    requires
        s.closed,
    ensures
        run(s, es) == s,
        forall|i: int| 0 <= i < es.len() ==> #[trigger] action_at(s, es, i) is None,
    decreases es.len(),
{
    if es.len() > 0 {
        lemma_shut_is_final(s, es.drop_last());
    }
    assert forall|i: int| 0 <= i < es.len() implies #[trigger] action_at(s, es, i) is None by {
        lemma_shut_is_final(s, es.take(i));
    }
}

/// Closing, from either side, shuts the bridge and drops every waiter.
pub proof fn lemma_close_shuts(s: DispatcherView)
    requires
        !s.closed,
    ensures
        step_spec(s, EventView::Close) == (closed_state(), Some(ActionView::Stop { announce: true })),
        step_spec(s, EventView::Line(IncomingView::Shutdown)) == (
            closed_state(),
            Some(ActionView::Stop { announce: false }),
        ),
        closed_state().waiters.is_empty(),
{
}

} // verus!
