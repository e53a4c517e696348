//! What holds of the proxy as a whole: of the dispatcher together with the
//! exchanges and sessions it starts.

use crate::bridge::{
    all_relayed, begin_bridge_model, bridge_run_model, delivered, lemma_bridge_is_established,
    lemma_bridge_run_concat, lemma_messages_cross_in_order, received, reload_url_model,
    BridgeActionModel, BridgeEventModel, BridgeModel, Side,
};
use crate::config::{port_of, upstream_host, Mode, ProxyConfig, TargetModel};
use crate::dispatch::{bridges, reload_path, route_of, RouteModel};
use crate::forward::{
    begin_model, chunk_relays, client_options, held, lemma_connections_are_released,
    lemma_forward_is_verbatim, lemma_relays_release_nothing, lemma_releases_concat,
    lemma_repeated_exchange_is_equivalent, lemma_upstream_loss_aborts_response, opened, releases,
    response_events, run_model,
    ActionModel, EventModel, ExchangeModel,
};
use crate::request::RequestModel;
use crate::response::no_mode_model;
use vstd::prelude::*;

verus! {

/// The target that an active mode selects.
pub open spec fn active_target(config: ProxyConfig) -> TargetModel {
    TargetModel {
        host: upstream_host(),
        port: port_of(config.mode->0, config.dev_port, config.prod_port),
    }
}

/// Without an active mode every request is answered with the same
/// not-found response, whatever its path and headers; the route names no
/// target, so nothing is contacted.
pub proof fn lemma_without_mode_every_request_is_not_found(
    config: ProxyConfig,
    request: RequestModel,
    upgrade: bool,
)
    requires
        config.mode is None,
    ensures
        route_of(config, request.path, upgrade) == RouteModel::Unavailable(no_mode_model()),
        no_mode_model().status == 404,
{
}

/// Forwarding is transparent. With an active mode, a request that is not
/// bridged goes to the port of the mode on the local host; against an
/// upstream that is reachable and answers, the request is sent as it came,
/// and the status, the header lines and the body of the answer are handed
/// to the client as they came, in order.
pub proof fn lemma_forwarding_is_transparent(
    config: ProxyConfig,
    request: RequestModel,
    upgrade: bool,
    status: u16,
    headers: Seq<(Seq<char>, Seq<u8>)>,
    chunks: Seq<Seq<u8>>,
)
    requires
        config.mode is Some,
        !bridges(config, request.path, upgrade),
    ensures
        ({
            let target = active_target(config);
            let (start, first) = begin_model(target, request);
            let (end, rest) = run_model(
                start,
                response_events(status, headers, chunks) + seq![EventModel::BodyEnd],
            );
            &&& route_of(config, request.path, upgrade) == RouteModel::Forward(target)
            &&& end == ExchangeModel::Done
            &&& first + rest == seq![
                ActionModel::Connect(target),
                ActionModel::Handshake(client_options()),
                ActionModel::DriveConnection,
                ActionModel::Send(request),
                ActionModel::RelayHead { status, headers },
            ] + chunk_relays(chunks) + seq![ActionModel::FinishBody, ActionModel::CloseUpstream]
        }),
{
    lemma_forward_is_verbatim(active_target(config), request, status, headers, chunks);
}

/// The reload socket is bridged faithfully. In the development mode an
/// upgrade request on the reload path is accepted, and a WebSocket is opened
/// to the same path on the development port. Then, of any number of
/// messages that do not close the session, arriving from the two sides in
/// any interleaving, each side is handed exactly those that arrived from
/// the other side, as many and in the same order.
pub proof fn lemma_reload_socket_is_bridged(config: ProxyConfig, events: Seq<BridgeEventModel>)
    requires
        config.mode == Some(Mode::Dev),
        all_relayed(events),
    ensures
        ({
            let target = TargetModel { host: upstream_host(), port: config.dev_port };
            let (start, first) = begin_bridge_model(target);
            let (end, rest) = bridge_run_model(
                start,
                seq![BridgeEventModel::InboundReady, BridgeEventModel::OutboundReady] + events,
            );
            let handshake = seq![
                BridgeActionModel::AcceptInbound,
                BridgeActionModel::ConnectOutbound { url: reload_url_model(target) },
            ];
            let relayed = (first + rest).skip(2);
            &&& route_of(config, reload_path(), true) == RouteModel::Bridge(target)
            &&& end == BridgeModel::Bridging
            &&& (first + rest).take(2) == handshake
            &&& relayed.len() == events.len()
            &&& delivered(relayed, Side::Upstream) == received(events, Side::Client)
            &&& delivered(relayed, Side::Client) == received(events, Side::Upstream)
        }),
{
    let target = TargetModel { host: upstream_host(), port: config.dev_port };
    let (start, first) = begin_bridge_model(target);
    let opening = seq![BridgeEventModel::InboundReady, BridgeEventModel::OutboundReady];
    lemma_bridge_is_established(target);
    lemma_messages_cross_in_order(events);
    lemma_bridge_run_concat(start, opening, events);
    let (ready, connect) = bridge_run_model(start, opening);
    let (end, actions) = bridge_run_model(ready, events);
    let all = first + (connect + actions);
    assert(all =~= (first + connect) + actions);
    assert(all.take(2) =~= first + connect);
    assert(all.skip(2) =~= actions);
}

/// Exchanges are independent. When the same request is forwarded a second
/// time against an upstream that behaves as before, the second exchange
/// asks for the same actions as the first and ends as the first did; the
/// first, once over, takes no part in it.
pub proof fn lemma_forwarding_twice_is_forwarding_afresh(
    config: ProxyConfig,
    request: RequestModel,
    events: Seq<EventModel>,
)
    requires
        config.mode is Some,
        run_model(begin_model(active_target(config), request).0, events).0.is_terminal(),
    ensures
        ({
            let start = begin_model(active_target(config), request).0;
            let first = run_model(start, events);
            let second = run_model(start, events);
            &&& second == first
            &&& run_model(first.0, events) == (first.0, Seq::<ActionModel>::empty())
            &&& run_model(start, events + events) == first
        }),
{
    lemma_repeated_exchange_is_equivalent(active_target(config), request, events);
}

/// An upstream that goes away in the middle of a body leaves nothing
/// behind. The response to the client is terminated in the step in which
/// the loss is reported, after every chunk that did arrive; the exchange is
/// over, and the one connection it opened has been released, once.
pub proof fn lemma_upstream_loss_leaves_nothing_behind(
    config: ProxyConfig,
    request: RequestModel,
    status: u16,
    headers: Seq<(Seq<char>, Seq<u8>)>,
    chunks: Seq<Seq<u8>>,
)
    requires
        config.mode is Some,
    ensures
        ({
            let target = active_target(config);
            let (start, first) = begin_model(target, request);
            let events = response_events(status, headers, chunks) + seq![EventModel::BodyFailed];
            let (end, rest) = run_model(start, events);
            &&& end == ExchangeModel::Failed
            &&& end.is_terminal()
            &&& held(end) == 0
            &&& rest.last() == ActionModel::CloseUpstream
            &&& rest[rest.len() - 2] == ActionModel::AbortBody
            &&& opened(start, events) == 1
            &&& releases(rest) == 1
        }),
{
    let target = active_target(config);
    let (start, first) = begin_model(target, request);
    let events = response_events(status, headers, chunks) + seq![EventModel::BodyFailed];
    lemma_upstream_loss_aborts_response(target, request, status, headers, chunks);
    lemma_connections_are_released(start, events);
    let (end, rest) = run_model(start, events);
    let expected = seq![
        ActionModel::Connect(target),
        ActionModel::Handshake(client_options()),
        ActionModel::DriveConnection,
        ActionModel::Send(request),
        ActionModel::RelayHead { status, headers },
    ] + chunk_relays(chunks) + seq![ActionModel::AbortBody, ActionModel::CloseUpstream];
    assert(first + rest == expected);
    assert(first.len() == 1);
    assert(rest.len() == expected.len() - 1);
    assert(rest.last() == (first + rest)[expected.len() - 1]);
    assert(rest[rest.len() - 2] == (first + rest)[expected.len() - 2]);
    let head = seq![
        ActionModel::Handshake(client_options()),
        ActionModel::DriveConnection,
        ActionModel::Send(request),
        ActionModel::RelayHead { status, headers },
    ];
    let tail = seq![ActionModel::AbortBody, ActionModel::CloseUpstream];
    assert(rest =~= head + chunk_relays(chunks) + tail) by {
        assert forall|i: int| 0 <= i < rest.len() implies rest[i] == (head + chunk_relays(chunks)
            + tail)[i] by {
            assert(rest[i] == (first + rest)[i + 1]);
        }
    }
    lemma_relays_release_nothing(chunks);
    lemma_releases_concat(head, chunk_relays(chunks));
    lemma_releases_concat(head + chunk_relays(chunks), tail);
    reveal_with_fuel(releases, 5);
    assert(head.drop_last().drop_last().drop_last().drop_last() =~= Seq::<ActionModel>::empty());
    assert(tail.drop_last().drop_last() =~= Seq::<ActionModel>::empty());
}

} // verus!
