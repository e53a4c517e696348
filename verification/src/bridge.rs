//! The WebSocket bridge: one inbound socket paired with one outbound socket.
//!
//! A [`Bridge`] is the state of one bridged session. While it is bridging,
//! the two directions are independent: a message from either side is handed
//! to the other side in the step in which it arrives, whatever the other
//! direction is doing. When either direction ends, both sockets are
//! released in the same step.

use crate::config::{TargetModel, UpstreamTarget};
use crate::dispatch::reload_path;
use crate::response::{bad_upgrade_model, bad_upgrade_response, FixedResponse, ResponseModel};
use crate::text::{decimal, format_decimal};
use vstd::prelude::*;
use vstd::string::StringExecFns;

verus! {

/// One end of a bridged session.
#[derive(Clone, Copy, Debug, PartialEq, Eq, Structural)]
pub enum Side {
    /// The browser, on the inbound socket.
    Client,
    /// The development server, on the outbound socket.
    Upstream,
}

impl Side {
    /// The opposite end.
    pub open spec fn other(self) -> Side {
        match self {
            Side::Client => Side::Upstream,
            Side::Upstream => Side::Client,
        }
    }

    /// The opposite end.
    pub fn peer(self) -> (side: Side)
        ensures
            side == self.other(),
    {
        match self {
            Side::Client => Side::Upstream,
            Side::Upstream => Side::Client,
        }
    }
}

/// Why a session is closed: the status code of the close frame and its
/// reason text.
#[derive(Clone, Debug, PartialEq, Eq)]
pub struct CloseReason {
    pub code: u16,
    pub reason: String,
}

/// A WebSocket message.
#[derive(Clone, Debug, PartialEq, Eq)]
pub enum Message {
    /// A text message.
    Text(String),
    /// A binary message.
    Binary(Vec<u8>),
    /// A ping with its payload.
    Ping(Vec<u8>),
    /// A pong with its payload.
    Pong(Vec<u8>),
    /// A close message, with or without a reason.
    Close(Option<CloseReason>),
}

/// The mathematical value of a [`Message`].
pub enum MessageModel {
    Text(Seq<char>),
    Binary(Seq<u8>),
    Ping(Seq<u8>),
    Pong(Seq<u8>),
    Close(Option<(u16, Seq<char>)>),
}

impl View for Message {
    type V = MessageModel;

    open spec fn view(&self) -> MessageModel {
        match self {
            Message::Text(text) => MessageModel::Text(text@),
            Message::Binary(bytes) => MessageModel::Binary(bytes@),
            Message::Ping(bytes) => MessageModel::Ping(bytes@),
            Message::Pong(bytes) => MessageModel::Pong(bytes@),
            Message::Close(reason) => MessageModel::Close(
                match reason {
                    Some(why) => Some((why.code, why.reason@)),
                    None => None,
                },
            ),
        }
    }
}

impl Message {
    /// Whether this message closes the session.
    pub fn is_close(&self) -> (close: bool)
        ensures
            close == (self@ is Close),
    {
        match self {
            Message::Close(_) => true,
            _ => false,
        }
    }
}

/// What the two sockets of a session report.
#[derive(Clone, Debug, PartialEq, Eq)]
pub enum BridgeEvent {
    /// The inbound connection has become a WebSocket.
    InboundReady,
    /// The inbound upgrade request is malformed.
    InboundRejected,
    /// The inbound upgrade did not complete.
    InboundFailed,
    /// The outbound WebSocket is connected.
    OutboundReady,
    /// The outbound WebSocket could not be connected.
    OutboundFailed,
    /// A message arrived from one side.
    Received { from: Side, message: Message },
    /// The stream of one side ended or failed.
    Ended { side: Side },
    /// A message could not be delivered to one side.
    SendFailed { side: Side },
}

/// The mathematical value of a [`BridgeEvent`].
pub enum BridgeEventModel {
    InboundReady,
    InboundRejected,
    InboundFailed,
    OutboundReady,
    OutboundFailed,
    Received { from: Side, message: MessageModel },
    Ended { side: Side },
    SendFailed { side: Side },
}

impl View for BridgeEvent {
    type V = BridgeEventModel;

    open spec fn view(&self) -> BridgeEventModel {
        match self {
            BridgeEvent::InboundReady => BridgeEventModel::InboundReady,
            BridgeEvent::InboundRejected => BridgeEventModel::InboundRejected,
            BridgeEvent::InboundFailed => BridgeEventModel::InboundFailed,
            BridgeEvent::OutboundReady => BridgeEventModel::OutboundReady,
            BridgeEvent::OutboundFailed => BridgeEventModel::OutboundFailed,
            BridgeEvent::Received { from, message } => BridgeEventModel::Received {
                from: *from,
                message: message@,
            },
            BridgeEvent::Ended { side } => BridgeEventModel::Ended { side: *side },
            BridgeEvent::SendFailed { side } => BridgeEventModel::SendFailed { side: *side },
        }
    }
}

/// What a driver has to do for a session.
#[derive(Clone, Debug, PartialEq, Eq)]
pub enum BridgeAction {
    /// Accept the upgrade of the inbound connection and answer the client
    /// that the protocol is switched.
    AcceptInbound,
    /// Open a WebSocket connection to this address.
    ConnectOutbound { url: String },
    /// Send this message to one side.
    Deliver { to: Side, message: Message },
    /// Release the inbound socket.
    CloseInbound,
    /// Release the outbound socket.
    CloseOutbound,
    /// Answer the client with this response.
    Respond(FixedResponse),
}

/// The mathematical value of a [`BridgeAction`].
pub enum BridgeActionModel {
    AcceptInbound,
    ConnectOutbound { url: Seq<char> },
    Deliver { to: Side, message: MessageModel },
    CloseInbound,
    CloseOutbound,
    Respond(ResponseModel),
}

impl View for BridgeAction {
    type V = BridgeActionModel;

    open spec fn view(&self) -> BridgeActionModel {
        match self {
            BridgeAction::AcceptInbound => BridgeActionModel::AcceptInbound,
            BridgeAction::ConnectOutbound { url } => BridgeActionModel::ConnectOutbound {
                url: url@,
            },
            BridgeAction::Deliver { to, message } => BridgeActionModel::Deliver {
                to: *to,
                message: message@,
            },
            BridgeAction::CloseInbound => BridgeActionModel::CloseInbound,
            BridgeAction::CloseOutbound => BridgeActionModel::CloseOutbound,
            BridgeAction::Respond(response) => BridgeActionModel::Respond(response@),
        }
    }
}

/// The values of a list of actions, in order.
pub open spec fn bridge_action_models(actions: Seq<BridgeAction>) -> Seq<BridgeActionModel> {
    Seq::new(actions.len(), |i: int| actions[i]@)
}

/// The state of one bridged session.
#[derive(Clone, Debug, PartialEq, Eq)]
pub enum Bridge {
    /// Handshaking: the inbound upgrade is in flight.
    AwaitingInbound(UpstreamTarget),
    /// Handshaking: the inbound socket is open, the outbound one is
    /// connecting.
    AwaitingOutbound,
    /// Both sockets are open and both directions relay.
    Bridging,
    /// The session ended after bridging; both sockets are released.
    Closed,
    /// A handshake failed; nothing is held.
    Failed,
}

/// The mathematical value of a [`Bridge`].
pub enum BridgeModel {
    AwaitingInbound(TargetModel),
    AwaitingOutbound,
    Bridging,
    Closed,
    Failed,
}

impl View for Bridge {
    type V = BridgeModel;

    open spec fn view(&self) -> BridgeModel {
        match self {
            Bridge::AwaitingInbound(target) => BridgeModel::AwaitingInbound(target@),
            Bridge::AwaitingOutbound => BridgeModel::AwaitingOutbound,
            Bridge::Bridging => BridgeModel::Bridging,
            Bridge::Closed => BridgeModel::Closed,
            Bridge::Failed => BridgeModel::Failed,
        }
    }
}

impl BridgeModel {
    /// Whether a handshake is still in flight.
    pub open spec fn is_handshaking(self) -> bool {
        self is AwaitingInbound || self is AwaitingOutbound
    }

    /// Whether the session is over.
    pub open spec fn is_terminal(self) -> bool {
        self is Closed || self is Failed
    }

    /// Whether the session holds the socket of a side.
    pub open spec fn holds(self, side: Side) -> bool {
        match side {
            Side::Client => self is AwaitingOutbound || self is Bridging,
            Side::Upstream => self is Bridging,
        }
    }
}

/// The address of the reload socket of a target.
pub open spec fn reload_url_model(target: TargetModel) -> Seq<char> {
    "ws://"@ + target.host + ":"@ + decimal(target.port as nat) + reload_path()
}

/// The action that releases the socket of a side.
pub open spec fn close_of(side: Side) -> BridgeActionModel {
    match side {
        Side::Client => BridgeActionModel::CloseInbound,
        Side::Upstream => BridgeActionModel::CloseOutbound,
    }
}

/// The session for an upgrade request and its first actions.
pub open spec fn begin_bridge_model(target: TargetModel) -> (BridgeModel, Seq<BridgeActionModel>) {
    (BridgeModel::AwaitingInbound(target), seq![BridgeActionModel::AcceptInbound])
}

/// One step of a session: the next state and the actions the event calls
/// for. An event that is out of place in a state changes nothing.
pub open spec fn bridge_step_model(state: BridgeModel, event: BridgeEventModel) -> (
    BridgeModel,
    Seq<BridgeActionModel>,
) {
    match (state, event) {
        (BridgeModel::AwaitingInbound(target), BridgeEventModel::InboundReady) => (
            BridgeModel::AwaitingOutbound,
            seq![BridgeActionModel::ConnectOutbound { url: reload_url_model(target) }],
        ),
        (BridgeModel::AwaitingInbound(_), BridgeEventModel::InboundRejected) => (
            BridgeModel::Failed,
            seq![BridgeActionModel::Respond(bad_upgrade_model())],
        ),
        (BridgeModel::AwaitingInbound(_), BridgeEventModel::InboundFailed) => (
            BridgeModel::Failed,
            Seq::empty(),
        ),
        (BridgeModel::AwaitingOutbound, BridgeEventModel::OutboundReady) => (
            BridgeModel::Bridging,
            Seq::empty(),
        ),
        (BridgeModel::AwaitingOutbound, BridgeEventModel::OutboundFailed) => (
            BridgeModel::Failed,
            seq![BridgeActionModel::CloseInbound],
        ),
        (BridgeModel::Bridging, BridgeEventModel::Received { from, message }) => {
            if message is Close {
                (
                    BridgeModel::Closed,
                    seq![
                        BridgeActionModel::Deliver { to: from.other(), message },
                        BridgeActionModel::CloseInbound,
                        BridgeActionModel::CloseOutbound,
                    ],
                )
            } else {
                (
                    BridgeModel::Bridging,
                    seq![BridgeActionModel::Deliver { to: from.other(), message }],
                )
            }
        },
        (BridgeModel::Bridging, BridgeEventModel::Ended { side }) => (
            BridgeModel::Closed,
            seq![BridgeActionModel::CloseInbound, BridgeActionModel::CloseOutbound],
        ),
        (BridgeModel::Bridging, BridgeEventModel::SendFailed { side }) => (
            BridgeModel::Closed,
            seq![BridgeActionModel::CloseInbound, BridgeActionModel::CloseOutbound],
        ),
        _ => (state, Seq::empty()),
    }
}

/// The address of the reload socket of a target: the `ws` scheme, the
/// target's host and port, and the reload path.
pub fn reload_url(target: &UpstreamTarget) -> (url: String)
    ensures
        url@ == reload_url_model(target@),
{
    let mut url = String::from_str("ws://");
    url.append(target.host.as_str());
    url.append(":");
    let port = format_decimal(target.port);
    url.append(port.as_str());
    url.append("/_next/webpack-hmr");
    url
}

/// A list without actions.
fn no_actions() -> (actions: Vec<BridgeAction>)
    ensures
        bridge_action_models(actions@) == Seq::<BridgeActionModel>::empty(),
{
    let actions = Vec::new();
    assert(bridge_action_models(actions@) =~= Seq::<BridgeActionModel>::empty());
    actions
}

/// A list of one action.
fn one_action(first: BridgeAction) -> (actions: Vec<BridgeAction>)
    ensures
        bridge_action_models(actions@) == seq![first@],
{
    let mut actions = Vec::new();
    actions.push(first);
    assert(bridge_action_models(actions@) =~= seq![first@]);
    actions
}

/// The actions that release both sockets, after the given delivery if
/// there is one.
fn closing_actions(delivery: Option<BridgeAction>) -> (actions: Vec<BridgeAction>)
    ensures
        bridge_action_models(actions@) == match delivery {
            Some(first) => seq![
                first@,
                BridgeActionModel::CloseInbound,
                BridgeActionModel::CloseOutbound,
            ],
            None => seq![BridgeActionModel::CloseInbound, BridgeActionModel::CloseOutbound],
        },
{
    let mut actions = Vec::new();
    let ghost mut models = Seq::<BridgeActionModel>::empty();
    if let Some(first) = delivery {
        proof {
            models = seq![first@];
        }
        actions.push(first);
    }
    actions.push(BridgeAction::CloseInbound);
    actions.push(BridgeAction::CloseOutbound);
    assert(bridge_action_models(actions@) =~= models + seq![
        BridgeActionModel::CloseInbound,
        BridgeActionModel::CloseOutbound,
    ]);
    actions
}

impl Bridge {
    /// Begins the session for an upgrade request: the inbound upgrade is
    /// accepted first.
    pub fn begin(target: UpstreamTarget) -> (started: (Bridge, Vec<BridgeAction>))
        ensures
            (started.0@, bridge_action_models(started.1@)) == begin_bridge_model(target@),
    {
        (Bridge::AwaitingInbound(target), one_action(BridgeAction::AcceptInbound))
    }

    /// Whether the session is over.
    pub fn is_terminal(&self) -> (over: bool)
        ensures
            over == self@.is_terminal(),
    {
        match self {
            Bridge::Closed => true,
            Bridge::Failed => true,
            _ => false,
        }
    }

    /// Whether both directions relay.
    pub fn is_bridging(&self) -> (bridging: bool)
        ensures
            bridging == (self@ is Bridging),
    {
        match self {
            Bridge::Bridging => true,
            _ => false,
        }
    }

    /// Whether the session holds the socket of a side.
    pub fn holds(&self, side: Side) -> (held: bool)
        ensures
            held == self@.holds(side),
    {
        match self {
            Bridge::AwaitingOutbound => match side {
                Side::Client => true,
                Side::Upstream => false,
            },
            Bridge::Bridging => true,
            _ => false,
        }
    }

    /// Takes one event: returns the next state and the actions to perform.
    ///
    /// Once the inbound socket is open, the outbound one is connected to
    /// the reload path of the target; if that fails, the inbound socket is
    /// closed at once. While bridging, a message from one side is delivered
    /// to the other side as it came. A close message is delivered and then
    /// ends the session; so does the end of either stream and a failed
    /// delivery. The step that ends the session releases both sockets.
    pub fn step(self, event: BridgeEvent) -> (next: (Bridge, Vec<BridgeAction>))
        ensures
            (next.0@, bridge_action_models(next.1@)) == bridge_step_model(self@, event@),
    {
        match self {
            Bridge::AwaitingInbound(target) => match event {
                BridgeEvent::InboundReady => {
                    let url = reload_url(&target);
                    (
                        Bridge::AwaitingOutbound,
                        one_action(BridgeAction::ConnectOutbound { url }),
                    )
                },
                BridgeEvent::InboundRejected => (
                    Bridge::Failed,
                    one_action(BridgeAction::Respond(bad_upgrade_response())),
                ),
                BridgeEvent::InboundFailed => (Bridge::Failed, no_actions()),
                _ => (Bridge::AwaitingInbound(target), no_actions()),
            },
            Bridge::AwaitingOutbound => match event {
                BridgeEvent::OutboundReady => (Bridge::Bridging, no_actions()),
                BridgeEvent::OutboundFailed => (
                    Bridge::Failed,
                    one_action(BridgeAction::CloseInbound),
                ),
                _ => (Bridge::AwaitingOutbound, no_actions()),
            },
            Bridge::Bridging => match event {
                BridgeEvent::Received { from, message } => {
                    if message.is_close() {
                        (
                            Bridge::Closed,
                            closing_actions(
                                Some(BridgeAction::Deliver { to: from.peer(), message }),
                            ),
                        )
                    } else {
                        (
                            Bridge::Bridging,
                            one_action(BridgeAction::Deliver { to: from.peer(), message }),
                        )
                    }
                },
                BridgeEvent::Ended { side } => (
                    Bridge::Closed,
                    closing_actions(None),
                ),
                BridgeEvent::SendFailed { side } => (
                    Bridge::Closed,
                    closing_actions(None),
                ),
                _ => (Bridge::Bridging, no_actions()),
            },
            Bridge::Closed => (Bridge::Closed, no_actions()),
            Bridge::Failed => (Bridge::Failed, no_actions()),
        }
    }
}

/// The state after a list of events, taken in order, and the actions they
/// called for, in order.
pub open spec fn bridge_run_model(state: BridgeModel, events: Seq<BridgeEventModel>) -> (
    BridgeModel,
    Seq<BridgeActionModel>,
)
    decreases events.len(),
{
    if events.len() == 0 {
        (state, Seq::empty())
    } else {
        let (mid, first) = bridge_step_model(state, events[0]);
        let (end, rest) = bridge_run_model(mid, events.drop_first());
        (end, first + rest)
    }
}

/// The values of a list of events, in order.
pub open spec fn bridge_event_models(events: Seq<BridgeEvent>) -> Seq<BridgeEventModel> {
    Seq::new(events.len(), |i: int| events[i]@)
}

/// Taking one event after some others is one more step.
pub proof fn lemma_bridge_run_then_step(
    state: BridgeModel,
    events: Seq<BridgeEventModel>,
    last: BridgeEventModel,
)
    ensures
        ({
            let (mid, first) = bridge_run_model(state, events);
            let (end, rest) = bridge_step_model(mid, last);
            bridge_run_model(state, events.push(last)) == (end, first + rest)
        }),
{
    let (mid, first) = bridge_run_model(state, events);
    let one = seq![last];
    lemma_bridge_run_concat(state, events, one);
    reveal_with_fuel(bridge_run_model, 2);
    assert(one.drop_first() =~= Seq::<BridgeEventModel>::empty());
    assert(events + one =~= events.push(last));
    let (end, rest) = bridge_step_model(mid, last);
    assert(rest + Seq::<BridgeActionModel>::empty() =~= rest);
}

impl Bridge {
    /// Takes a list of events in order: returns the state after the last of
    /// them and the actions they called for, in order.
    pub fn run(self, events: Vec<BridgeEvent>) -> (end: (Bridge, Vec<BridgeAction>))
        ensures
            (end.0@, bridge_action_models(end.1@)) == bridge_run_model(
                self@,
                bridge_event_models(events@),
            ),
    {
        let ghost start = self@;
        let ghost given = bridge_event_models(events@);
        let mut state = self;
        let mut all: Vec<BridgeAction> = Vec::new();
        proof {
            assert(bridge_action_models(all@) =~= Seq::<BridgeActionModel>::empty());
            assert(given.take(0) =~= Seq::<BridgeEventModel>::empty());
        }
        for event in it: events.into_iter()
            invariant
                it.seq() == events@,
                given == bridge_event_models(events@),
                (state@, bridge_action_models(all@)) == bridge_run_model(
                    start,
                    given.take(it.index() as int),
                ),
        {
            let ghost done = given.take(it.index() as int);
            let ghost before = bridge_action_models(all@);
            let (next, mut actions) = state.step(event);
            let ghost added = bridge_action_models(actions@);
            state = next;
            all.append(&mut actions);
            proof {
                lemma_bridge_run_then_step(start, done, event@);
                assert(done.push(event@) =~= given.take(it.index() + 1));
                assert(bridge_action_models(all@) =~= before + added);
            }
        }
        proof {
            assert(given.take(given.len() as int) =~= given);
        }
        (state, all)
    }
}

/// Whether an event is the arrival of a message that does not close the
/// session.
pub open spec fn is_relayed(event: BridgeEventModel) -> bool {
    event is Received && !(event->message is Close)
}

/// Whether an event ends a session that is bridging: a close message, the
/// end of a stream, or a failed delivery.
pub open spec fn ends_session(event: BridgeEventModel) -> bool {
    ||| event is Received && event->message is Close
    ||| event is Ended
    ||| event is SendFailed
}

/// Whether every event of a list is the arrival of a message that does not
/// close the session.
pub open spec fn all_relayed(events: Seq<BridgeEventModel>) -> bool {
    forall|i: int| 0 <= i < events.len() ==> is_relayed(#[trigger] events[i])
}

/// The delivery that the arrival of a message calls for: the same message,
/// to the opposite side.
pub open spec fn delivery_of(event: BridgeEventModel) -> BridgeActionModel {
    BridgeActionModel::Deliver { to: event->from.other(), message: event->message }
}

/// The deliveries that a list of arrivals calls for, one for each, in order.
pub open spec fn deliveries(events: Seq<BridgeEventModel>) -> Seq<BridgeActionModel> {
    Seq::new(events.len(), |i: int| delivery_of(events[i]))
}

/// The messages that arrived from a side, in the order they arrived.
pub open spec fn received(events: Seq<BridgeEventModel>, from: Side) -> Seq<MessageModel>
    decreases events.len(),
{
    if events.len() == 0 {
        Seq::empty()
    } else {
        let before = received(events.drop_last(), from);
        let last = events.last();
        if last is Received && last->from == from {
            before.push(last->message)
        } else {
            before
        }
    }
}

/// The messages that were delivered to a side, in the order of delivery.
pub open spec fn delivered(actions: Seq<BridgeActionModel>, to: Side) -> Seq<MessageModel>
    decreases actions.len(),
{
    if actions.len() == 0 {
        Seq::empty()
    } else {
        let before = delivered(actions.drop_last(), to);
        let last = actions.last();
        if last is Deliver && last->to == to {
            before.push(last->message)
        } else {
            before
        }
    }
}

/// How many times a list of actions releases the socket of a side.
pub open spec fn released(actions: Seq<BridgeActionModel>, side: Side) -> nat
    decreases actions.len(),
{
    if actions.len() == 0 {
        0
    } else {
        released(actions.drop_last(), side) + if actions.last() == close_of(side) {
            1nat
        } else {
            0nat
        }
    }
}

/// How many sockets of a side a state holds: one or none.
pub open spec fn held(state: BridgeModel, side: Side) -> nat {
    if state.holds(side) {
        1
    } else {
        0
    }
}

/// Whether an event opens the socket of a side in a state.
pub open spec fn opens(state: BridgeModel, event: BridgeEventModel, side: Side) -> bool {
    match side {
        Side::Client => state is AwaitingInbound && event is InboundReady,
        Side::Upstream => state is AwaitingOutbound && event is OutboundReady,
    }
}

/// How many sockets of a side are opened while the events are taken.
pub open spec fn opened(state: BridgeModel, events: Seq<BridgeEventModel>, side: Side) -> nat
    decreases events.len(),
{
    if events.len() == 0 {
        0
    } else {
        let now: nat = if opens(state, events[0], side) {
            1
        } else {
            0
        };
        now + opened(bridge_step_model(state, events[0]).0, events.drop_first(), side)
    }
}

/// Taking two lists of events one after the other is taking their
/// concatenation.
pub proof fn lemma_bridge_run_concat(
    state: BridgeModel,
    front: Seq<BridgeEventModel>,
    back: Seq<BridgeEventModel>,
)
    ensures
        ({
            let (mid, first) = bridge_run_model(state, front);
            let (end, rest) = bridge_run_model(mid, back);
            bridge_run_model(state, front + back) == (end, first + rest)
        }),
    decreases front.len(),
{
    if front.len() == 0 {
        assert(front + back =~= back);
        let (end, rest) = bridge_run_model(state, back);
        assert(Seq::<BridgeActionModel>::empty() + rest =~= rest);
    } else {
        let (next, head) = bridge_step_model(state, front[0]);
        assert((front + back)[0] == front[0]);
        assert((front + back).drop_first() =~= front.drop_first() + back);
        lemma_bridge_run_concat(next, front.drop_first(), back);
        let (mid, first) = bridge_run_model(next, front.drop_first());
        let (end, rest) = bridge_run_model(mid, back);
        assert(head + (first + rest) =~= (head + first) + rest);
    }
}

/// A genuine upgrade request is accepted and then a WebSocket is opened to
/// the reload path of the same target; when both sockets are open the
/// session is bridging.
pub proof fn lemma_bridge_is_established(target: TargetModel)
    ensures
        ({
            let (start, first) = begin_bridge_model(target);
            let (end, rest) = bridge_run_model(
                start,
                seq![BridgeEventModel::InboundReady, BridgeEventModel::OutboundReady],
            );
            &&& start.is_handshaking()
            &&& end == BridgeModel::Bridging
            &&& first + rest == seq![
                BridgeActionModel::AcceptInbound,
                BridgeActionModel::ConnectOutbound { url: reload_url_model(target) },
            ]
            &&& end.holds(Side::Client) && end.holds(Side::Upstream)
        }),
{
    let (start, first) = begin_bridge_model(target);
    let events = seq![BridgeEventModel::InboundReady, BridgeEventModel::OutboundReady];
    reveal_with_fuel(bridge_run_model, 3);
    assert(events.drop_first().drop_first() =~= Seq::<BridgeEventModel>::empty());
    let (end, rest) = bridge_run_model(start, events);
    assert(first + rest =~= seq![
        BridgeActionModel::AcceptInbound,
        BridgeActionModel::ConnectOutbound { url: reload_url_model(target) },
    ]);
}

/// When the outbound socket cannot be opened, the inbound socket, whose
/// upgrade cannot be taken back, is closed at once and the session has
/// failed with nothing held.
pub proof fn lemma_outbound_failure_closes_inbound(target: TargetModel)
    ensures
        ({
            let (start, first) = begin_bridge_model(target);
            let (end, rest) = bridge_run_model(
                start,
                seq![BridgeEventModel::InboundReady, BridgeEventModel::OutboundFailed],
            );
            &&& end == BridgeModel::Failed
            &&& rest == seq![
                BridgeActionModel::ConnectOutbound { url: reload_url_model(target) },
                BridgeActionModel::CloseInbound,
            ]
            &&& !end.holds(Side::Client) && !end.holds(Side::Upstream)
        }),
{
    let (start, first) = begin_bridge_model(target);
    let events = seq![BridgeEventModel::InboundReady, BridgeEventModel::OutboundFailed];
    reveal_with_fuel(bridge_run_model, 3);
    assert(events.drop_first().drop_first() =~= Seq::<BridgeEventModel>::empty());
    let (end, rest) = bridge_run_model(start, events);
    assert(rest =~= seq![
        BridgeActionModel::ConnectOutbound { url: reload_url_model(target) },
        BridgeActionModel::CloseInbound,
    ]);
}

/// While bridging, every message that arrives is delivered once, as it
/// came, to the opposite side, in the order of arrival and whatever the
/// interleaving of the two directions; the session keeps bridging.
pub proof fn lemma_relay_is_faithful(events: Seq<BridgeEventModel>)
    requires
        all_relayed(events),
    ensures
        bridge_run_model(BridgeModel::Bridging, events) == (
            BridgeModel::Bridging,
            deliveries(events),
        ),
    decreases events.len(),
{
    if events.len() == 0 {
        assert(deliveries(events) =~= Seq::<BridgeActionModel>::empty());
    } else {
        let tail = events.drop_first();
        assert(is_relayed(events[0]));
        assert forall|i: int| 0 <= i < tail.len() implies is_relayed(#[trigger] tail[i]) by {
            assert(tail[i] == events[i + 1]);
        }
        lemma_relay_is_faithful(tail);
        assert(seq![delivery_of(events[0])] + deliveries(tail) =~= deliveries(events));
    }
}

/// The deliveries for a list of arrivals hand to each side exactly the
/// messages that arrived from the opposite side, in the same order.
pub proof fn lemma_deliveries_match_arrivals(events: Seq<BridgeEventModel>, from: Side)
    requires
        all_relayed(events),
    ensures
        delivered(deliveries(events), from.other()) == received(events, from),
        deliveries(events).len() == events.len(),
    decreases events.len(),
{
    if events.len() > 0 {
        let front = events.drop_last();
        assert forall|i: int| 0 <= i < front.len() implies is_relayed(#[trigger] front[i]) by {
            assert(front[i] == events[i]);
        }
        lemma_deliveries_match_arrivals(front, from);
        assert(deliveries(events).drop_last() =~= deliveries(front));
        assert(deliveries(events).last() == delivery_of(events.last()));
        assert(is_relayed(events[events.len() - 1]));
    }
}

/// Each direction of a bridging session is a faithful channel. Of any
/// number of messages that do not close the session, arriving from the two
/// sides in any interleaving, each side is handed exactly those that
/// arrived from the other side, as many and in the same order, and as many
/// deliveries are made as messages arrived.
pub proof fn lemma_messages_cross_in_order(events: Seq<BridgeEventModel>)
    requires
        all_relayed(events),
    ensures
        ({
            let (end, actions) = bridge_run_model(BridgeModel::Bridging, events);
            &&& end == BridgeModel::Bridging
            &&& actions.len() == events.len()
            &&& delivered(actions, Side::Upstream) == received(events, Side::Client)
            &&& delivered(actions, Side::Client) == received(events, Side::Upstream)
        }),
{
    lemma_relay_is_faithful(events);
    lemma_deliveries_match_arrivals(events, Side::Client);
    lemma_deliveries_match_arrivals(events, Side::Upstream);
}

/// When either direction of a bridging session ends, by a close message,
/// by the end of a stream or by a failed delivery, the session is closed in
/// the same step and both sockets are released, each once; a close message
/// is first handed to the opposite side.
pub proof fn lemma_either_end_closes_both(event: BridgeEventModel)
    requires
        ends_session(event),
    ensures
        ({
            let (next, actions) = bridge_step_model(BridgeModel::Bridging, event);
            &&& next == BridgeModel::Closed
            &&& !next.holds(Side::Client) && !next.holds(Side::Upstream)
            &&& released(actions, Side::Client) == 1
            &&& released(actions, Side::Upstream) == 1
            &&& event is Received ==> actions[0] == delivery_of(event) && actions.len() == 3
            &&& !(event is Received) ==> actions.len() == 2
        }),
{
    let (next, actions) = bridge_step_model(BridgeModel::Bridging, event);
    reveal_with_fuel(released, 4);
    if actions.len() == 3 {
        assert(actions.drop_last().drop_last().drop_last() =~= Seq::<BridgeActionModel>::empty());
    } else {
        assert(actions.drop_last().drop_last() =~= Seq::<BridgeActionModel>::empty());
    }
}

/// A session that is over stays as it is and asks for nothing more,
/// whatever is reported to it.
pub proof fn lemma_finished_bridge_is_inert(state: BridgeModel, events: Seq<BridgeEventModel>)
    requires
        state.is_terminal(),
    ensures
        bridge_run_model(state, events) == (state, Seq::<BridgeActionModel>::empty()),
    decreases events.len(),
{
    if events.len() > 0 {
        lemma_finished_bridge_is_inert(state, events.drop_first());
        assert(Seq::<BridgeActionModel>::empty() + Seq::<BridgeActionModel>::empty() =~= Seq::<
            BridgeActionModel,
        >::empty());
    }
}

/// Releases add up over concatenation.
pub proof fn lemma_released_concat(
    front: Seq<BridgeActionModel>,
    back: Seq<BridgeActionModel>,
    side: Side,
)
    ensures
        released(front + back, side) == released(front, side) + released(back, side),
    decreases back.len(),
{
    if back.len() == 0 {
        assert(front + back =~= front);
    } else {
        assert((front + back).drop_last() =~= front + back.drop_last());
        lemma_released_concat(front, back.drop_last(), side);
    }
}

/// One step keeps the socket count of each side: what the state held
/// before, plus what the step opened, is what the next state holds plus
/// what the step released.
pub proof fn lemma_bridge_step_keeps_count(
    state: BridgeModel,
    event: BridgeEventModel,
    side: Side,
)
    ensures
        ({
            let (next, actions) = bridge_step_model(state, event);
            let now: nat = if opens(state, event, side) {
                1
            } else {
                0
            };
            held(state, side) + now == held(next, side) + released(actions, side)
        }),
{
    let (next, actions) = bridge_step_model(state, event);
    reveal_with_fuel(released, 4);
    if actions.len() == 3 {
        assert(actions.drop_last().drop_last().drop_last() =~= Seq::<BridgeActionModel>::empty());
    } else if actions.len() == 2 {
        assert(actions.drop_last().drop_last() =~= Seq::<BridgeActionModel>::empty());
    } else if actions.len() == 1 {
        assert(actions.drop_last() =~= Seq::<BridgeActionModel>::empty());
    }
}

/// Sockets are accounted for. Over any events from any state, and for each
/// side, what was held at first plus what was opened equals what is held at
/// the end plus what was released. So a session that is over has released
/// every socket it opened, and no half of a bridge outlives the other.
pub proof fn lemma_sockets_are_released(
    state: BridgeModel,
    events: Seq<BridgeEventModel>,
    side: Side,
)
    ensures
        ({
            let (end, actions) = bridge_run_model(state, events);
            &&& held(state, side) + opened(state, events, side) == held(end, side) + released(
                actions,
                side,
            )
            &&& end.is_terminal() ==> released(actions, side) == held(state, side) + opened(
                state,
                events,
                side,
            )
        }),
    decreases events.len(),
{
    if events.len() > 0 {
        let (mid, first) = bridge_step_model(state, events[0]);
        let (end, rest) = bridge_run_model(mid, events.drop_first());
        lemma_bridge_step_keeps_count(state, events[0], side);
        lemma_sockets_are_released(mid, events.drop_first(), side);
        lemma_released_concat(first, rest, side);
    }
}

/// A bridging session relays until it ends and not beyond. Of the events
/// of a session, the messages before the first event that ends it are
/// delivered as they came; that event closes both sockets, after handing
/// its close message on if it is one; whatever is reported after it has no
/// effect.
pub proof fn lemma_session_relays_until_it_ends(
    before: Seq<BridgeEventModel>,
    ending: BridgeEventModel,
    after: Seq<BridgeEventModel>,
)
    requires
        all_relayed(before),
        ends_session(ending),
    ensures
        bridge_run_model(BridgeModel::Bridging, before + seq![ending] + after) == (
            BridgeModel::Closed,
            deliveries(before) + bridge_step_model(BridgeModel::Bridging, ending).1,
        ),
{
    let last = seq![ending];
    lemma_relay_is_faithful(before);
    lemma_finished_bridge_is_inert(BridgeModel::Closed, after);
    lemma_bridge_run_concat(BridgeModel::Bridging, before, last);
    lemma_bridge_run_concat(BridgeModel::Bridging, before + last, after);
    reveal_with_fuel(bridge_run_model, 2);
    assert(last.drop_first() =~= Seq::<BridgeEventModel>::empty());
    let closing = bridge_step_model(BridgeModel::Bridging, ending).1;
    assert(closing + Seq::<BridgeActionModel>::empty() =~= closing);
    assert(deliveries(before) + closing + Seq::<BridgeActionModel>::empty() =~= deliveries(before)
        + closing);
}

} // verus!
