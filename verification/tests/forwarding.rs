use ssr_proxy::config::{ProxyConfig, UpstreamTarget};
use ssr_proxy::dispatch::{dispatch, Route};
use ssr_proxy::forward::{ClientOptions, Exchange, ForwardAction, UpstreamEvent};
use ssr_proxy::request::{Header, ProxyRequest};
use ssr_proxy::response::FixedResponse;

fn header(name: &str, value: &str) -> Header {
    Header { name: name.to_string(), value: value.as_bytes().to_vec() }
}

fn sample_request() -> ProxyRequest {
    ProxyRequest {
        method: "GET".to_string(),
        path: "/foo/bar".to_string(),
        query: None,
        headers: vec![header("X-Test", "1")],
    }
}

fn local(port: u16) -> UpstreamTarget {
    UpstreamTarget { host: "localhost".to_string(), port }
}

fn options() -> ClientOptions {
    ClientOptions { preserve_header_case: true, title_case_headers: true }
}

fn run(state: Exchange, events: Vec<UpstreamEvent>) -> (Exchange, Vec<ForwardAction>) {
    state.run(events)
}

fn stepwise(mut state: Exchange, events: Vec<UpstreamEvent>) -> (Exchange, Vec<ForwardAction>) {
    let mut all = Vec::new();
    for event in events {
        let (next, actions) = state.step(event);
        state = next;
        all.extend(actions);
    }
    (state, all)
}

fn releases(actions: &[ForwardAction]) -> usize {
    actions.iter().filter(|a| matches!(a, ForwardAction::CloseUpstream)).count()
}

fn every_event() -> Vec<UpstreamEvent> {
    vec![
        UpstreamEvent::Connected,
        UpstreamEvent::ConnectFailed,
        UpstreamEvent::HandshakeDone,
        UpstreamEvent::HandshakeFailed,
        UpstreamEvent::Head { status: 200, headers: vec![header("A", "b")] },
        UpstreamEvent::SendFailed,
        UpstreamEvent::Chunk(vec![1, 2, 3]),
        UpstreamEvent::BodyEnd,
        UpstreamEvent::BodyFailed,
    ]
}

#[test]
fn begin_opens_a_connection_to_the_target() {
    let (state, actions) = Exchange::begin(local(4000), sample_request());
    assert_eq!(state, Exchange::Connecting(sample_request()));
    assert_eq!(actions, vec![ForwardAction::Connect(local(4000))]);
    assert!(!state.is_terminal());
    assert!(!state.holds_upstream());
}

#[test]
fn dev_request_is_forwarded_verbatim() {
    let config = ProxyConfig::new(Some("DEV"), 4000, 5000);
    let req = sample_request();
    let target = match dispatch(&config, &req) {
        Route::Forward(target) => target,
        other => panic!("expected a forward, got {:?}", other),
    };
    assert_eq!(target.host, "localhost");
    assert_eq!(target.port, 4000);
    let (state, first) = Exchange::begin(target, req);
    assert_eq!(first, vec![ForwardAction::Connect(local(4000))]);
    let body_one = b"hello ".to_vec();
    let body_two = b"world".to_vec();
    let (state, actions) = run(
        state,
        vec![
            UpstreamEvent::Connected,
            UpstreamEvent::HandshakeDone,
            UpstreamEvent::Head {
                status: 418,
                headers: vec![header("Content-Type", "text/plain"), header("X-Up", "yes")],
            },
            UpstreamEvent::Chunk(body_one.clone()),
            UpstreamEvent::Chunk(body_two.clone()),
            UpstreamEvent::BodyEnd,
        ],
    );
    assert_eq!(state, Exchange::Done);
    assert_eq!(
        actions,
        vec![
            ForwardAction::Handshake(options()),
            ForwardAction::DriveConnection,
            ForwardAction::Send(ProxyRequest {
                method: "GET".to_string(),
                path: "/foo/bar".to_string(),
                query: None,
                headers: vec![header("X-Test", "1")],
            }),
            ForwardAction::RelayHead {
                status: 418,
                headers: vec![header("Content-Type", "text/plain"), header("X-Up", "yes")],
            },
            ForwardAction::RelayChunk(body_one),
            ForwardAction::RelayChunk(body_two),
            ForwardAction::FinishBody,
            ForwardAction::CloseUpstream,
        ]
    );
}

#[test]
fn request_is_sent_with_its_headers_in_order_and_case() {
    let req = ProxyRequest {
        method: "PoSt".to_string(),
        path: "/a/B".to_string(),
        query: Some("x=1&y=2".to_string()),
        headers: vec![
            header("X-b", "2"),
            header("x-A", "1"),
            header("X-b", "3"),
            Header { name: "X-Bin".to_string(), value: vec![0xff, 0x00] },
        ],
    };
    let (state, _) = Exchange::begin(local(5000), req.clone());
    let (state, actions) = run(state, vec![UpstreamEvent::Connected, UpstreamEvent::HandshakeDone]);
    assert_eq!(state, Exchange::AwaitingHead);
    assert_eq!(
        actions,
        vec![
            ForwardAction::Handshake(options()),
            ForwardAction::DriveConnection,
            ForwardAction::Send(req),
        ]
    );
}

#[test]
fn connect_failure_answers_with_a_gateway_failure() {
    let (state, _) = Exchange::begin(local(4000), sample_request());
    let (state, actions) = state.step(UpstreamEvent::ConnectFailed);
    assert_eq!(state, Exchange::Failed);
    assert_eq!(
        actions,
        vec![ForwardAction::Respond(FixedResponse {
            status: 502,
            body: "Failed to connect to dev server".to_string(),
        })]
    );
    assert!(state.is_terminal());
    assert!(!state.holds_upstream());
}

#[test]
fn handshake_failure_answers_and_releases() {
    let (state, _) = Exchange::begin(local(4000), sample_request());
    let (state, actions) =
        run(state, vec![UpstreamEvent::Connected, UpstreamEvent::HandshakeFailed]);
    assert_eq!(state, Exchange::Failed);
    assert_eq!(
        actions,
        vec![
            ForwardAction::Handshake(options()),
            ForwardAction::Respond(FixedResponse {
                status: 502,
                body: "Failed to handshake with dev server".to_string(),
            }),
            ForwardAction::CloseUpstream,
        ]
    );
}

#[test]
fn send_failure_answers_and_releases() {
    let (state, _) = Exchange::begin(local(4000), sample_request());
    let (state, actions) = run(
        state,
        vec![UpstreamEvent::Connected, UpstreamEvent::HandshakeDone, UpstreamEvent::SendFailed],
    );
    assert_eq!(state, Exchange::Failed);
    assert_eq!(
        actions[3..],
        [
            ForwardAction::Respond(FixedResponse {
                status: 502,
                body: "Failed to send request to dev server".to_string(),
            }),
            ForwardAction::CloseUpstream,
        ]
    );
}

#[test]
fn upstream_loss_in_the_body_aborts_the_response() {
    let (state, _) = Exchange::begin(local(4000), sample_request());
    let (state, actions) = run(
        state,
        vec![
            UpstreamEvent::Connected,
            UpstreamEvent::HandshakeDone,
            UpstreamEvent::Head { status: 200, headers: vec![] },
            UpstreamEvent::Chunk(vec![1, 2]),
            UpstreamEvent::BodyFailed,
        ],
    );
    assert_eq!(state, Exchange::Failed);
    assert!(state.is_terminal());
    assert!(!state.holds_upstream());
    assert_eq!(
        actions[3..],
        [
            ForwardAction::RelayHead { status: 200, headers: vec![] },
            ForwardAction::RelayChunk(vec![1, 2]),
            ForwardAction::AbortBody,
            ForwardAction::CloseUpstream,
        ]
    );
    assert_eq!(releases(&actions), 1);
}

#[test]
fn empty_body_is_finished_at_once() {
    let (state, _) = Exchange::begin(local(4000), sample_request());
    let (state, actions) = run(
        state,
        vec![
            UpstreamEvent::Connected,
            UpstreamEvent::HandshakeDone,
            UpstreamEvent::Head { status: 204, headers: vec![] },
            UpstreamEvent::BodyEnd,
        ],
    );
    assert_eq!(state, Exchange::Done);
    assert_eq!(
        actions[3..],
        [
            ForwardAction::RelayHead { status: 204, headers: vec![] },
            ForwardAction::FinishBody,
            ForwardAction::CloseUpstream,
        ]
    );
}

#[test]
fn chunks_pass_through_one_by_one() {
    let mut state = Exchange::Streaming;
    for n in 0..50u8 {
        let chunk = vec![n; n as usize];
        let (next, actions) = state.step(UpstreamEvent::Chunk(chunk.clone()));
        assert_eq!(next, Exchange::Streaming);
        assert_eq!(actions, vec![ForwardAction::RelayChunk(chunk)]);
        state = next;
    }
}

#[test]
fn events_out_of_place_change_nothing() {
    let starts = vec![
        Exchange::Connecting(sample_request()),
        Exchange::Handshaking(sample_request()),
        Exchange::AwaitingHead,
        Exchange::Streaming,
    ];
    for start in starts {
        for event in every_event() {
            let in_place = matches!(
                (&start, &event),
                (Exchange::Connecting(_), UpstreamEvent::Connected)
                    | (Exchange::Connecting(_), UpstreamEvent::ConnectFailed)
                    | (Exchange::Handshaking(_), UpstreamEvent::HandshakeDone)
                    | (Exchange::Handshaking(_), UpstreamEvent::HandshakeFailed)
                    | (Exchange::AwaitingHead, UpstreamEvent::Head { .. })
                    | (Exchange::AwaitingHead, UpstreamEvent::SendFailed)
                    | (Exchange::Streaming, UpstreamEvent::Chunk(_))
                    | (Exchange::Streaming, UpstreamEvent::BodyEnd)
                    | (Exchange::Streaming, UpstreamEvent::BodyFailed)
            );
            let (next, actions) = start.clone().step(event);
            if !in_place {
                assert_eq!(next, start);
                assert!(actions.is_empty());
            } else {
                assert!(!actions.is_empty());
            }
        }
    }
}

#[test]
fn finished_exchange_is_inert() {
    for end in [Exchange::Done, Exchange::Failed] {
        assert!(end.is_terminal());
        let (state, actions) = run(end.clone(), every_event());
        assert_eq!(state, end);
        assert!(actions.is_empty());
    }
}

#[test]
fn exchange_holds_the_upstream_between_connect_and_end() {
    assert!(!Exchange::Connecting(sample_request()).holds_upstream());
    assert!(Exchange::Handshaking(sample_request()).holds_upstream());
    assert!(Exchange::AwaitingHead.holds_upstream());
    assert!(Exchange::Streaming.holds_upstream());
    assert!(!Exchange::Done.holds_upstream());
    assert!(!Exchange::Failed.holds_upstream());
    assert!(!Exchange::Streaming.is_terminal());
    assert!(!Exchange::AwaitingHead.is_terminal());
}

#[test]
fn every_opened_connection_is_released_once() {
    let traces: Vec<Vec<UpstreamEvent>> = vec![
        vec![UpstreamEvent::ConnectFailed],
        vec![UpstreamEvent::Connected, UpstreamEvent::HandshakeFailed],
        vec![UpstreamEvent::Connected, UpstreamEvent::HandshakeDone, UpstreamEvent::SendFailed],
        vec![
            UpstreamEvent::Connected,
            UpstreamEvent::Connected,
            UpstreamEvent::HandshakeDone,
            UpstreamEvent::Head { status: 200, headers: vec![] },
            UpstreamEvent::Chunk(vec![9]),
            UpstreamEvent::BodyEnd,
            UpstreamEvent::BodyFailed,
            UpstreamEvent::Connected,
        ],
    ];
    for (index, trace) in traces.into_iter().enumerate() {
        let (state, _) = Exchange::begin(local(4000), sample_request());
        let (state, actions) = run(state, trace);
        assert!(state.is_terminal());
        let expected = if index == 0 { 0 } else { 1 };
        assert_eq!(releases(&actions), expected);
    }
}

#[test]
fn repeated_exchange_is_equivalent() {
    let events = || {
        vec![
            UpstreamEvent::Connected,
            UpstreamEvent::HandshakeDone,
            UpstreamEvent::Head { status: 200, headers: vec![header("A", "1")] },
            UpstreamEvent::Chunk(b"same".to_vec()),
            UpstreamEvent::BodyEnd,
        ]
    };
    let (first_state, first_begin) = Exchange::begin(local(4000), sample_request());
    let first = run(first_state, events());
    let (second_state, second_begin) = Exchange::begin(local(4000), sample_request());
    let second = run(second_state, events());
    assert_eq!(first_begin, second_begin);
    assert_eq!(first, second);
    let replay = run(first.0.clone(), events());
    assert_eq!(replay.0, first.0);
    assert!(replay.1.is_empty());
}

#[test]
fn run_is_step_after_step() {
    let mut events = every_event();
    events.extend(every_event());
    for start in [
        Exchange::Connecting(sample_request()),
        Exchange::Handshaking(sample_request()),
        Exchange::AwaitingHead,
        Exchange::Streaming,
        Exchange::Done,
        Exchange::Failed,
    ] {
        for skip in 0..events.len() {
            let trace: Vec<UpstreamEvent> = events[skip..].to_vec();
            assert_eq!(start.clone().run(trace.clone()), stepwise(start.clone(), trace));
        }
    }
    let (state, actions) = Exchange::Streaming.run(vec![]);
    assert_eq!(state, Exchange::Streaming);
    assert!(actions.is_empty());
}
