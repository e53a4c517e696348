//! The forwarder: one request, one fresh upstream connection, one response.
//!
//! An [`Exchange`] is the state of one forwarded request. A driver performs
//! the actions it is handed and reports what the upstream did as events. The
//! exchange keeps no part of a body: every chunk that arrives is handed on
//! in the same step.

use crate::config::{TargetModel, UpstreamTarget};
use crate::request::{header_lines, Header, ProxyRequest, RequestModel};
use crate::response::{
    connect_failed_model, connect_failed_response, handshake_failed_model,
    handshake_failed_response, send_failed_model, send_failed_response, FixedResponse,
    ResponseModel,
};
use vstd::prelude::*;

verus! {

/// How the client side of the upstream connection writes header names.
#[derive(Clone, Copy, Debug, PartialEq, Eq, Structural)]
pub struct ClientOptions {
    pub preserve_header_case: bool,
    pub title_case_headers: bool,
}

/// The options of every upstream connection: header names keep the case
/// they arrived in, and names without a recorded case are written in title
/// case.
pub open spec fn client_options() -> ClientOptions {
    ClientOptions { preserve_header_case: true, title_case_headers: true }
}

/// What the upstream side of an exchange reports.
#[derive(Clone, Debug, PartialEq, Eq)]
pub enum UpstreamEvent {
    /// The transport connection is open.
    Connected,
    /// The transport connection could not be opened.
    ConnectFailed,
    /// The protocol handshake over the connection is complete.
    HandshakeDone,
    /// The protocol handshake failed.
    HandshakeFailed,
    /// The response head arrived.
    Head { status: u16, headers: Vec<Header> },
    /// The request could not be sent, or the connection ended before a head.
    SendFailed,
    /// A piece of the response body arrived.
    Chunk(Vec<u8>),
    /// The response body is complete.
    BodyEnd,
    /// The connection closed or failed before the body was complete.
    BodyFailed,
}

/// The mathematical value of an [`UpstreamEvent`].
pub enum EventModel {
    Connected,
    ConnectFailed,
    HandshakeDone,
    HandshakeFailed,
    Head { status: u16, headers: Seq<(Seq<char>, Seq<u8>)> },
    SendFailed,
    Chunk(Seq<u8>),
    BodyEnd,
    BodyFailed,
}

impl View for UpstreamEvent {
    type V = EventModel;

    open spec fn view(&self) -> EventModel {
        match self {
            UpstreamEvent::Connected => EventModel::Connected,
            UpstreamEvent::ConnectFailed => EventModel::ConnectFailed,
            UpstreamEvent::HandshakeDone => EventModel::HandshakeDone,
            UpstreamEvent::HandshakeFailed => EventModel::HandshakeFailed,
            UpstreamEvent::Head { status, headers } => EventModel::Head {
                status: *status,
                headers: header_lines(headers@),
            },
            UpstreamEvent::SendFailed => EventModel::SendFailed,
            UpstreamEvent::Chunk(bytes) => EventModel::Chunk(bytes@),
            UpstreamEvent::BodyEnd => EventModel::BodyEnd,
            UpstreamEvent::BodyFailed => EventModel::BodyFailed,
        }
    }
}

/// What a driver has to do for an exchange.
#[derive(Clone, Debug, PartialEq, Eq)]
pub enum ForwardAction {
    /// Open a new transport connection to the target.
    Connect(UpstreamTarget),
    /// Perform the client side of the protocol handshake with these options.
    Handshake(ClientOptions),
    /// Run the connection's own I/O as a task of its own until it ends.
    DriveConnection,
    /// Send this request, followed by the inbound body as it arrives.
    Send(ProxyRequest),
    /// Start the response to the client with this head.
    RelayHead { status: u16, headers: Vec<Header> },
    /// Hand this piece of the body on to the client.
    RelayChunk(Vec<u8>),
    /// End the response body in good order.
    FinishBody,
    /// Terminate the response to the client as failed.
    AbortBody,
    /// Answer the client with this response.
    Respond(FixedResponse),
    /// Release the upstream connection.
    CloseUpstream,
}

/// The mathematical value of a [`ForwardAction`].
pub enum ActionModel {
    Connect(TargetModel),
    Handshake(ClientOptions),
    DriveConnection,
    Send(RequestModel),
    RelayHead { status: u16, headers: Seq<(Seq<char>, Seq<u8>)> },
    RelayChunk(Seq<u8>),
    FinishBody,
    AbortBody,
    Respond(ResponseModel),
    CloseUpstream,
}

impl View for ForwardAction {
    type V = ActionModel;

    open spec fn view(&self) -> ActionModel {
        match self {
            ForwardAction::Connect(target) => ActionModel::Connect(target@),
            ForwardAction::Handshake(options) => ActionModel::Handshake(*options),
            ForwardAction::DriveConnection => ActionModel::DriveConnection,
            ForwardAction::Send(request) => ActionModel::Send(request@),
            ForwardAction::RelayHead { status, headers } => ActionModel::RelayHead {
                status: *status,
                headers: header_lines(headers@),
            },
            ForwardAction::RelayChunk(bytes) => ActionModel::RelayChunk(bytes@),
            ForwardAction::FinishBody => ActionModel::FinishBody,
            ForwardAction::AbortBody => ActionModel::AbortBody,
            ForwardAction::Respond(response) => ActionModel::Respond(response@),
            ForwardAction::CloseUpstream => ActionModel::CloseUpstream,
        }
    }
}

/// The values of a list of actions, in order.
pub open spec fn action_models(actions: Seq<ForwardAction>) -> Seq<ActionModel> {
    Seq::new(actions.len(), |i: int| actions[i]@)
}

/// The state of one forwarded request.
#[derive(Clone, Debug, PartialEq, Eq)]
pub enum Exchange {
    /// The connection is being opened; the request waits.
    Connecting(ProxyRequest),
    /// The connection is open and the handshake is in flight.
    Handshaking(ProxyRequest),
    /// The request is with the connection; no response head has come yet.
    AwaitingHead,
    /// The head has been relayed; the body passes through chunk by chunk.
    Streaming,
    /// The response is complete.
    Done,
    /// The exchange was given up.
    Failed,
}

/// The mathematical value of an [`Exchange`].
pub enum ExchangeModel {
    Connecting(RequestModel),
    Handshaking(RequestModel),
    AwaitingHead,
    Streaming,
    Done,
    Failed,
}

impl View for Exchange {
    type V = ExchangeModel;

    open spec fn view(&self) -> ExchangeModel {
        match self {
            Exchange::Connecting(request) => ExchangeModel::Connecting(request@),
            Exchange::Handshaking(request) => ExchangeModel::Handshaking(request@),
            Exchange::AwaitingHead => ExchangeModel::AwaitingHead,
            Exchange::Streaming => ExchangeModel::Streaming,
            Exchange::Done => ExchangeModel::Done,
            Exchange::Failed => ExchangeModel::Failed,
        }
    }
}

impl ExchangeModel {
    /// Whether the exchange is over.
    pub open spec fn is_terminal(self) -> bool {
        self is Done || self is Failed
    }

    /// Whether the exchange holds an open upstream connection.
    pub open spec fn holds_upstream(self) -> bool {
        self is Handshaking || self is AwaitingHead || self is Streaming
    }
}

/// The exchange for a request and its first actions.
pub open spec fn begin_model(target: TargetModel, request: RequestModel) -> (
    ExchangeModel,
    Seq<ActionModel>,
) {
    (ExchangeModel::Connecting(request), seq![ActionModel::Connect(target)])
}

/// One step of an exchange: the next state and the actions the event calls
/// for. An event that is out of place in a state changes nothing.
pub open spec fn step_model(state: ExchangeModel, event: EventModel) -> (
    ExchangeModel,
    Seq<ActionModel>,
) {
    match (state, event) {
        (ExchangeModel::Connecting(request), EventModel::Connected) => (
            ExchangeModel::Handshaking(request),
            seq![ActionModel::Handshake(client_options())],
        ),
        (ExchangeModel::Connecting(_), EventModel::ConnectFailed) => (
            ExchangeModel::Failed,
            seq![ActionModel::Respond(connect_failed_model())],
        ),
        (ExchangeModel::Handshaking(request), EventModel::HandshakeDone) => (
            ExchangeModel::AwaitingHead,
            seq![ActionModel::DriveConnection, ActionModel::Send(request)],
        ),
        (ExchangeModel::Handshaking(_), EventModel::HandshakeFailed) => (
            ExchangeModel::Failed,
            seq![ActionModel::Respond(handshake_failed_model()), ActionModel::CloseUpstream],
        ),
        (ExchangeModel::AwaitingHead, EventModel::Head { status, headers }) => (
            ExchangeModel::Streaming,
            seq![ActionModel::RelayHead { status, headers }],
        ),
        (ExchangeModel::AwaitingHead, EventModel::SendFailed) => (
            ExchangeModel::Failed,
            seq![ActionModel::Respond(send_failed_model()), ActionModel::CloseUpstream],
        ),
        (ExchangeModel::Streaming, EventModel::Chunk(bytes)) => (
            ExchangeModel::Streaming,
            seq![ActionModel::RelayChunk(bytes)],
        ),
        (ExchangeModel::Streaming, EventModel::BodyEnd) => (
            ExchangeModel::Done,
            seq![ActionModel::FinishBody, ActionModel::CloseUpstream],
        ),
        (ExchangeModel::Streaming, EventModel::BodyFailed) => (
            ExchangeModel::Failed,
            seq![ActionModel::AbortBody, ActionModel::CloseUpstream],
        ),
        _ => (state, Seq::empty()),
    }
}

/// A list without actions.
fn no_actions() -> (actions: Vec<ForwardAction>)
    ensures
        action_models(actions@) == Seq::<ActionModel>::empty(),
{
    let actions = Vec::new();
    assert(action_models(actions@) =~= Seq::<ActionModel>::empty());
    actions
}

/// A list of one action.
fn one_action(first: ForwardAction) -> (actions: Vec<ForwardAction>)
    ensures
        action_models(actions@) == seq![first@],
{
    let mut actions = Vec::new();
    actions.push(first);
    assert(action_models(actions@) =~= seq![first@]);
    actions
}

/// A list of two actions.
fn two_actions(first: ForwardAction, second: ForwardAction) -> (actions: Vec<ForwardAction>)
    ensures
        action_models(actions@) == seq![first@, second@],
{
    let mut actions = Vec::new();
    actions.push(first);
    actions.push(second);
    assert(action_models(actions@) =~= seq![first@, second@]);
    actions
}

impl Exchange {
    /// Begins the exchange for a request: the request waits while a new
    /// connection to the target is opened.
    pub fn begin(target: UpstreamTarget, request: ProxyRequest) -> (started: (
        Exchange,
        Vec<ForwardAction>,
    ))
        ensures
            (started.0@, action_models(started.1@)) == begin_model(target@, request@),
    {
        (Exchange::Connecting(request), one_action(ForwardAction::Connect(target)))
    }

    /// Whether the exchange is over.
    pub fn is_terminal(&self) -> (over: bool)
        ensures
            over == self@.is_terminal(),
    {
        match self {
            Exchange::Done => true,
            Exchange::Failed => true,
            _ => false,
        }
    }

    /// Whether the exchange holds an open upstream connection.
    pub fn holds_upstream(&self) -> (held: bool)
        ensures
            held == self@.holds_upstream(),
    {
        match self {
            Exchange::Handshaking(_) => true,
            Exchange::AwaitingHead => true,
            Exchange::Streaming => true,
            _ => false,
        }
    }

    /// Takes one event: returns the next state and the actions to perform.
    ///
    /// The request is sent as it came. The head and every chunk of the
    /// response are handed on as they came, in the step in which they
    /// arrive. A failure before the head answers the client with a gateway
    /// failure; a failure after it aborts the response. Every step that ends
    /// the exchange releases the upstream connection if one is open.
    pub fn step(self, event: UpstreamEvent) -> (next: (Exchange, Vec<ForwardAction>))
        ensures
            (next.0@, action_models(next.1@)) == step_model(self@, event@),
    {
        match self {
            Exchange::Connecting(request) => match event {
                UpstreamEvent::Connected => (
                    Exchange::Handshaking(request),
                    one_action(
                        ForwardAction::Handshake(
                            ClientOptions { preserve_header_case: true, title_case_headers: true },
                        ),
                    ),
                ),
                UpstreamEvent::ConnectFailed => (
                    Exchange::Failed,
                    one_action(ForwardAction::Respond(connect_failed_response())),
                ),
                _ => (Exchange::Connecting(request), no_actions()),
            },
            Exchange::Handshaking(request) => match event {
                UpstreamEvent::HandshakeDone => (
                    Exchange::AwaitingHead,
                    two_actions(ForwardAction::DriveConnection, ForwardAction::Send(request)),
                ),
                UpstreamEvent::HandshakeFailed => (
                    Exchange::Failed,
                    two_actions(
                        ForwardAction::Respond(handshake_failed_response()),
                        ForwardAction::CloseUpstream,
                    ),
                ),
                _ => (Exchange::Handshaking(request), no_actions()),
            },
            Exchange::AwaitingHead => match event {
                UpstreamEvent::Head { status, headers } => (
                    Exchange::Streaming,
                    one_action(ForwardAction::RelayHead { status, headers }),
                ),
                UpstreamEvent::SendFailed => (
                    Exchange::Failed,
                    two_actions(
                        ForwardAction::Respond(send_failed_response()),
                        ForwardAction::CloseUpstream,
                    ),
                ),
                _ => (Exchange::AwaitingHead, no_actions()),
            },
            Exchange::Streaming => match event {
                UpstreamEvent::Chunk(bytes) => (
                    Exchange::Streaming,
                    one_action(ForwardAction::RelayChunk(bytes)),
                ),
                UpstreamEvent::BodyEnd => (
                    Exchange::Done,
                    two_actions(ForwardAction::FinishBody, ForwardAction::CloseUpstream),
                ),
                UpstreamEvent::BodyFailed => (
                    Exchange::Failed,
                    two_actions(ForwardAction::AbortBody, ForwardAction::CloseUpstream),
                ),
                _ => (Exchange::Streaming, no_actions()),
            },
            Exchange::Done => (Exchange::Done, no_actions()),
            Exchange::Failed => (Exchange::Failed, no_actions()),
        }
    }
}

/// The state after a list of events, taken in order, and the actions they
/// called for, in order.
pub open spec fn run_model(state: ExchangeModel, events: Seq<EventModel>) -> (
    ExchangeModel,
    Seq<ActionModel>,
)
    decreases events.len(),
{
    if events.len() == 0 {
        (state, Seq::empty())
    } else {
        let (mid, first) = step_model(state, events[0]);
        let (end, rest) = run_model(mid, events.drop_first());
        (end, first + rest)
    }
}

/// The values of a list of events, in order.
pub open spec fn event_models(events: Seq<UpstreamEvent>) -> Seq<EventModel> {
    Seq::new(events.len(), |i: int| events[i]@)
}

/// Taking one event after some others is one more step.
pub proof fn lemma_run_then_step(state: ExchangeModel, events: Seq<EventModel>, last: EventModel)
    ensures
        ({
            let (mid, first) = run_model(state, events);
            let (end, rest) = step_model(mid, last);
            run_model(state, events.push(last)) == (end, first + rest)
        }),
{
    let (mid, first) = run_model(state, events);
    let one = seq![last];
    lemma_run_concat(state, events, one);
    reveal_with_fuel(run_model, 2);
    assert(one.drop_first() =~= Seq::<EventModel>::empty());
    assert(events + one =~= events.push(last));
    let (end, rest) = step_model(mid, last);
    assert(rest + Seq::<ActionModel>::empty() =~= rest);
}

impl Exchange {
    /// Takes a list of events in order: returns the state after the last of
    /// them and the actions they called for, in order.
    pub fn run(self, events: Vec<UpstreamEvent>) -> (end: (Exchange, Vec<ForwardAction>))
        ensures
            (end.0@, action_models(end.1@)) == run_model(self@, event_models(events@)),
    {
        let ghost start = self@;
        let ghost given = event_models(events@);
        let mut state = self;
        let mut all: Vec<ForwardAction> = Vec::new();
        proof {
            assert(action_models(all@) =~= Seq::<ActionModel>::empty());
            assert(given.take(0) =~= Seq::<EventModel>::empty());
        }
        for event in it: events.into_iter()
            invariant
                it.seq() == events@,
                given == event_models(events@),
                (state@, action_models(all@)) == run_model(start, given.take(it.index() as int)),
        {
            let ghost done = given.take(it.index() as int);
            let ghost before = action_models(all@);
            let (next, mut actions) = state.step(event);
            let ghost added = action_models(actions@);
            state = next;
            all.append(&mut actions);
            proof {
                lemma_run_then_step(start, done, event@);
                assert(done.push(event@) =~= given.take(it.index() + 1));
                assert(action_models(all@) =~= before + added);
            }
        }
        proof {
            assert(given.take(given.len() as int) =~= given);
        }
        (state, all)
    }
}

/// The events of a body that arrives in the given chunks.
pub open spec fn chunk_events(chunks: Seq<Seq<u8>>) -> Seq<EventModel> {
    Seq::new(chunks.len(), |i: int| EventModel::Chunk(chunks[i]))
}

/// The actions that hand the given chunks on.
pub open spec fn chunk_relays(chunks: Seq<Seq<u8>>) -> Seq<ActionModel> {
    Seq::new(chunks.len(), |i: int| ActionModel::RelayChunk(chunks[i]))
}

/// What a reachable upstream reports for a response with the given head
/// whose body arrives in the given chunks.
pub open spec fn response_events(
    status: u16,
    headers: Seq<(Seq<char>, Seq<u8>)>,
    chunks: Seq<Seq<u8>>,
) -> Seq<EventModel> {
    seq![EventModel::Connected, EventModel::HandshakeDone, EventModel::Head { status, headers }]
        + chunk_events(chunks)
}

/// How many times a list of actions releases the upstream connection.
pub open spec fn releases(actions: Seq<ActionModel>) -> nat
    decreases actions.len(),
{
    if actions.len() == 0 {
        0
    } else {
        releases(actions.drop_last()) + if actions.last() is CloseUpstream {
            1nat
        } else {
            0nat
        }
    }
}

/// How many upstream connections a state holds: one or none.
pub open spec fn held(state: ExchangeModel) -> nat {
    if state.holds_upstream() {
        1
    } else {
        0
    }
}

/// How many upstream connections are opened while the events are taken.
pub open spec fn opened(state: ExchangeModel, events: Seq<EventModel>) -> nat
    decreases events.len(),
{
    if events.len() == 0 {
        0
    } else {
        let now: nat = if state is Connecting && events[0] is Connected {
            1
        } else {
            0
        };
        now + opened(step_model(state, events[0]).0, events.drop_first())
    }
}

/// Taking two lists of events one after the other is taking their
/// concatenation.
pub proof fn lemma_run_concat(state: ExchangeModel, front: Seq<EventModel>, back: Seq<EventModel>)
    ensures
        ({
            let (mid, first) = run_model(state, front);
            let (end, rest) = run_model(mid, back);
            run_model(state, front + back) == (end, first + rest)
        }),
    decreases front.len(),
{
    if front.len() == 0 {
        assert(front + back =~= back);
        let (end, rest) = run_model(state, back);
        assert(Seq::<ActionModel>::empty() + rest =~= rest);
    } else {
        let (next, head) = step_model(state, front[0]);
        assert((front + back)[0] == front[0]);
        assert((front + back).drop_first() =~= front.drop_first() + back);
        lemma_run_concat(next, front.drop_first(), back);
        let (mid, first) = run_model(next, front.drop_first());
        let (end, rest) = run_model(mid, back);
        assert(head + (first + rest) =~= (head + first) + rest);
    }
}

/// While the body streams, every chunk is handed on as it came, in order,
/// and the exchange keeps streaming.
pub proof fn lemma_chunks_pass_through(chunks: Seq<Seq<u8>>)
    ensures
        run_model(ExchangeModel::Streaming, chunk_events(chunks)) == (
            ExchangeModel::Streaming,
            chunk_relays(chunks),
        ),
    decreases chunks.len(),
{
    let events = chunk_events(chunks);
    if chunks.len() == 0 {
        assert(chunk_relays(chunks) =~= Seq::<ActionModel>::empty());
    } else {
        let tail = chunks.drop_first();
        lemma_chunks_pass_through(tail);
        assert(events.drop_first() =~= chunk_events(tail));
        assert(seq![ActionModel::RelayChunk(chunks[0])] + chunk_relays(tail) =~= chunk_relays(
            chunks,
        ));
    }
}

/// Forwarding is verbatim. Against an upstream that is reachable and
/// answers, the exchange sends the request as it came to the target it was
/// begun with, and hands on the status, the header lines and every chunk of
/// the body as they came, in order; when the body ends it finishes the
/// response and releases the connection.
pub proof fn lemma_forward_is_verbatim(
    target: TargetModel,
    request: RequestModel,
    status: u16,
    headers: Seq<(Seq<char>, Seq<u8>)>,
    chunks: Seq<Seq<u8>>,
)
    ensures
        ({
            let (start, first) = begin_model(target, request);
            let (end, rest) = run_model(
                start,
                response_events(status, headers, chunks) + seq![EventModel::BodyEnd],
            );
            &&& end == ExchangeModel::Done
            &&& first + rest == seq![
                ActionModel::Connect(target),
                ActionModel::Handshake(client_options()),
                ActionModel::DriveConnection,
                ActionModel::Send(request),
                ActionModel::RelayHead { status, headers },
            ] + chunk_relays(chunks) + seq![ActionModel::FinishBody, ActionModel::CloseUpstream]
        }),
{
    lemma_head_is_relayed(target, request, status, headers, chunks);
    let (start, first) = begin_model(target, request);
    let last = seq![EventModel::BodyEnd];
    lemma_run_concat(start, response_events(status, headers, chunks), last);
    reveal_with_fuel(run_model, 2);
    assert(last.drop_first() =~= Seq::<EventModel>::empty());
    let (mid, so_far) = run_model(start, response_events(status, headers, chunks));
    let (end, rest) = run_model(mid, last);
    assert(rest =~= seq![ActionModel::FinishBody, ActionModel::CloseUpstream]);
    assert(first + (so_far + rest) =~= (first + so_far) + rest);
}

/// Up to any point of the body, the exchange has sent the request as it came
/// and handed on the head and the chunks so far, and is still streaming.
pub proof fn lemma_head_is_relayed(
    target: TargetModel,
    request: RequestModel,
    status: u16,
    headers: Seq<(Seq<char>, Seq<u8>)>,
    chunks: Seq<Seq<u8>>,
)
    ensures
        ({
            let (start, first) = begin_model(target, request);
            let (end, rest) = run_model(start, response_events(status, headers, chunks));
            &&& end == ExchangeModel::Streaming
            &&& first + rest == seq![
                ActionModel::Connect(target),
                ActionModel::Handshake(client_options()),
                ActionModel::DriveConnection,
                ActionModel::Send(request),
                ActionModel::RelayHead { status, headers },
            ] + chunk_relays(chunks)
        }),
{
    let (start, first) = begin_model(target, request);
    let opening = seq![
        EventModel::Connected,
        EventModel::HandshakeDone,
        EventModel::Head { status, headers },
    ];
    lemma_run_concat(start, opening, chunk_events(chunks));
    lemma_chunks_pass_through(chunks);
    reveal_with_fuel(run_model, 4);
    let one = opening.drop_first();
    let two = one.drop_first();
    assert(two.drop_first() =~= Seq::<EventModel>::empty());
    let (mid, so_far) = run_model(start, opening);
    assert(mid == ExchangeModel::Streaming);
    assert(so_far =~= seq![
        ActionModel::Handshake(client_options()),
        ActionModel::DriveConnection,
        ActionModel::Send(request),
        ActionModel::RelayHead { status, headers },
    ]);
    assert(first + (so_far + chunk_relays(chunks)) =~= seq![
        ActionModel::Connect(target),
        ActionModel::Handshake(client_options()),
        ActionModel::DriveConnection,
        ActionModel::Send(request),
        ActionModel::RelayHead { status, headers },
    ] + chunk_relays(chunks));
}

/// When the upstream closes the connection in the middle of the body, the
/// response to the client is terminated in the same step, after every chunk
/// that did arrive, and the connection is released: the exchange is over and
/// holds nothing.
pub proof fn lemma_upstream_loss_aborts_response(
    target: TargetModel,
    request: RequestModel,
    status: u16,
    headers: Seq<(Seq<char>, Seq<u8>)>,
    chunks: Seq<Seq<u8>>,
)
    ensures
        ({
            let (start, first) = begin_model(target, request);
            let (end, rest) = run_model(
                start,
                response_events(status, headers, chunks) + seq![EventModel::BodyFailed],
            );
            &&& end == ExchangeModel::Failed
            &&& end.is_terminal()
            &&& !end.holds_upstream()
            &&& first + rest == seq![
                ActionModel::Connect(target),
                ActionModel::Handshake(client_options()),
                ActionModel::DriveConnection,
                ActionModel::Send(request),
                ActionModel::RelayHead { status, headers },
            ] + chunk_relays(chunks) + seq![ActionModel::AbortBody, ActionModel::CloseUpstream]
        }),
{
    lemma_head_is_relayed(target, request, status, headers, chunks);
    let (start, first) = begin_model(target, request);
    let last = seq![EventModel::BodyFailed];
    lemma_run_concat(start, response_events(status, headers, chunks), last);
    reveal_with_fuel(run_model, 2);
    assert(last.drop_first() =~= Seq::<EventModel>::empty());
    let (mid, so_far) = run_model(start, response_events(status, headers, chunks));
    let (end, rest) = run_model(mid, last);
    assert(rest =~= seq![ActionModel::AbortBody, ActionModel::CloseUpstream]);
    assert(first + (so_far + rest) =~= (first + so_far) + rest);
}

/// An exchange that is over stays as it is and asks for nothing more,
/// whatever is reported to it.
pub proof fn lemma_finished_exchange_is_inert(state: ExchangeModel, events: Seq<EventModel>)
    requires
        state.is_terminal(),
    ensures
        run_model(state, events) == (state, Seq::<ActionModel>::empty()),
    decreases events.len(),
{
    if events.len() > 0 {
        lemma_finished_exchange_is_inert(state, events.drop_first());
        assert(Seq::<ActionModel>::empty() + Seq::<ActionModel>::empty() =~= Seq::<
            ActionModel,
        >::empty());
    }
}

/// Releases add up over concatenation.
pub proof fn lemma_releases_concat(front: Seq<ActionModel>, back: Seq<ActionModel>)
    ensures
        releases(front + back) == releases(front) + releases(back),
    decreases back.len(),
{
    if back.len() == 0 {
        assert(front + back =~= front);
    } else {
        assert((front + back).drop_last() =~= front + back.drop_last());
        lemma_releases_concat(front, back.drop_last());
    }
}

/// Handing chunks on releases nothing.
pub proof fn lemma_relays_release_nothing(chunks: Seq<Seq<u8>>)
    ensures
        releases(chunk_relays(chunks)) == 0,
    decreases chunks.len(),
{
    if chunks.len() > 0 {
        lemma_relays_release_nothing(chunks.drop_last());
        assert(chunk_relays(chunks).drop_last() =~= chunk_relays(chunks.drop_last()));
    }
}

/// One step keeps the connection count: what the state held before, plus
/// what the step opened, is what the next state holds plus what the step
/// released.
pub proof fn lemma_step_keeps_count(state: ExchangeModel, event: EventModel)
    ensures
        ({
            let (next, actions) = step_model(state, event);
            held(state) + opened(state, seq![event]) == held(next) + releases(actions)
        }),
{
    let (next, actions) = step_model(state, event);
    reveal_with_fuel(releases, 3);
    reveal_with_fuel(opened, 2);
    assert(seq![event].drop_first() =~= Seq::<EventModel>::empty());
    if actions.len() == 2 {
        assert(actions.drop_last().drop_last() =~= Seq::<ActionModel>::empty());
    } else if actions.len() == 1 {
        assert(actions.drop_last() =~= Seq::<ActionModel>::empty());
    }
}

/// Connections are accounted for. Over any events from any state, what was
/// held at first plus what was opened equals what is held at the end plus
/// what was released. So an exchange that is over has released every
/// connection it opened.
pub proof fn lemma_connections_are_released(state: ExchangeModel, events: Seq<EventModel>)
    ensures
        ({
            let (end, actions) = run_model(state, events);
            &&& held(state) + opened(state, events) == held(end) + releases(actions)
            &&& end.is_terminal() ==> releases(actions) == held(state) + opened(state, events)
        }),
    decreases events.len(),
{
    if events.len() > 0 {
        let (mid, first) = step_model(state, events[0]);
        let (end, rest) = run_model(mid, events.drop_first());
        lemma_step_keeps_count(state, events[0]);
        lemma_connections_are_released(mid, events.drop_first());
        lemma_releases_concat(first, rest);
        reveal_with_fuel(opened, 2);
        assert(seq![events[0]].drop_first() =~= Seq::<EventModel>::empty());
    }
}

/// Exchanges share nothing. A second exchange for the same request begins
/// in the state the first began in and, against an upstream that behaves the
/// same, asks for the same actions and ends as the first did; the first,
/// once over, takes no part in it.
pub proof fn lemma_repeated_exchange_is_equivalent(
    target: TargetModel,
    request: RequestModel,
    events: Seq<EventModel>,
)
    requires
        run_model(begin_model(target, request).0, events).0.is_terminal(),
    ensures
        ({
            let first = run_model(begin_model(target, request).0, events);
            let second = run_model(begin_model(target, request).0, events);
            &&& second == first
            &&& run_model(first.0, events) == (first.0, Seq::<ActionModel>::empty())
            &&& run_model(begin_model(target, request).0, events + events) == first
        }),
{
    let start = begin_model(target, request).0;
    let first = run_model(start, events);
    lemma_finished_exchange_is_inert(first.0, events);
    lemma_run_concat(start, events, events);
    assert(first.1 + Seq::<ActionModel>::empty() =~= first.1);
}

/// The request that an exchange still has to send, if it has not sent it.
pub open spec fn waiting_request(state: ExchangeModel) -> Option<RequestModel> {
    match state {
        ExchangeModel::Connecting(request) => Some(request),
        ExchangeModel::Handshaking(request) => Some(request),
        _ => None,
    }
}

/// Nothing is retried. Whatever is reported to an exchange, it never asks
/// for a second connection, and it sends at most one request: the one it
/// was begun with, as it came.
pub proof fn lemma_nothing_is_retried(state: ExchangeModel, events: Seq<EventModel>)
    ensures
        ({
            let (end, actions) = run_model(state, events);
            &&& forall|i: int| 0 <= i < actions.len() ==> !(#[trigger] actions[i] is Connect)
            &&& forall|i: int|
                0 <= i < actions.len() && #[trigger] actions[i] is Send ==> waiting_request(state)
                    == Some(actions[i]->Send_0)
            &&& forall|i: int, j: int|
                0 <= i < j < actions.len() ==> !(#[trigger] actions[i] is Send
                    && #[trigger] actions[j] is Send)
            &&& waiting_request(end) is Some ==> waiting_request(end) == waiting_request(state)
            &&& waiting_request(end) is Some ==> forall|i: int|
                0 <= i < actions.len() ==> !(#[trigger] actions[i] is Send)
        }),
    decreases events.len(),
{
    if events.len() > 0 {
        let (mid, first) = step_model(state, events[0]);
        let (end, rest) = run_model(mid, events.drop_first());
        lemma_nothing_is_retried(mid, events.drop_first());
        let actions = first + rest;
        assert forall|i: int| 0 <= i < actions.len() implies !(#[trigger] actions[i] is Connect) by {
            if i >= first.len() {
                assert(actions[i] == rest[i - first.len()]);
            }
        }
        assert forall|i: int| 0 <= i < actions.len() && #[trigger] actions[i] is Send implies
            waiting_request(state) == Some(actions[i]->Send_0) by {
            if i >= first.len() {
                assert(actions[i] == rest[i - first.len()]);
            }
        }
        assert forall|i: int, j: int| 0 <= i < j < actions.len() implies !(#[trigger] actions[i]
            is Send && #[trigger] actions[j] is Send) by {
            if i >= first.len() {
                assert(actions[i] == rest[i - first.len()]);
                assert(actions[j] == rest[j - first.len()]);
            } else if j >= first.len() {
                assert(actions[j] == rest[j - first.len()]);
            }
        }
        if waiting_request(end) is Some {
            assert forall|i: int| 0 <= i < actions.len() implies !(#[trigger] actions[i] is Send) by {
                if i >= first.len() {
                    assert(actions[i] == rest[i - first.len()]);
                }
            }
        }
    }
}

} // verus!
