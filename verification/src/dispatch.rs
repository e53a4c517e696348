//! The entry point: one decision for each inbound request.

use crate::config::{port_of, upstream_host, Mode, ProxyConfig, TargetModel, UpstreamTarget};
use crate::request::{is_upgrade_request, upgrade_requested, ProxyRequest};
use crate::response::{no_mode_model, no_mode_response, FixedResponse, ResponseModel};
use vstd::prelude::*;
use vstd::string::StringExecFns;

verus! {

/// The one path on which upgrade requests are bridged.
pub open spec fn reload_path() -> Seq<char> {
    "/_next/webpack-hmr"@
}

/// Where a request goes.
#[derive(Clone, Debug, PartialEq, Eq)]
pub enum Route {
    /// No mode is active: answer with the given response and contact nothing.
    Unavailable(FixedResponse),
    /// Forward the request unchanged to the target.
    Forward(UpstreamTarget),
    /// Bridge a WebSocket session to the reload path of the target.
    Bridge(UpstreamTarget),
}

/// The mathematical value of a [`Route`].
pub enum RouteModel {
    Unavailable(ResponseModel),
    Forward(TargetModel),
    Bridge(TargetModel),
}

impl View for Route {
    type V = RouteModel;

    open spec fn view(&self) -> RouteModel {
        match self {
            Route::Unavailable(response) => RouteModel::Unavailable(response@),
            Route::Forward(target) => RouteModel::Forward(target@),
            Route::Bridge(target) => RouteModel::Bridge(target@),
        }
    }
}

/// Whether a request is bridged: only in the development mode, only on the
/// reload path, and only when it asks for the upgrade.
pub open spec fn bridges(config: ProxyConfig, path: Seq<char>, upgrade: bool) -> bool {
    config.mode == Some(Mode::Dev) && path == reload_path() && upgrade
}

/// The route of a request under a configuration.
pub open spec fn route_of(config: ProxyConfig, path: Seq<char>, upgrade: bool) -> RouteModel {
    match config.target() {
        None => RouteModel::Unavailable(no_mode_model()),
        Some(target) => if bridges(config, path, upgrade) {
            RouteModel::Bridge(target)
        } else {
            RouteModel::Forward(target)
        },
    }
}

/// Whether a path is the reload path.
pub fn is_reload_path(path: &str) -> (matches: bool)
    ensures
        matches == (path@ == reload_path()),
{
    String::from_str(path) == String::from_str("/_next/webpack-hmr")
}

/// Routes a request of which it is already known whether it asks for an
/// upgrade to the WebSocket protocol.
pub fn route(config: &ProxyConfig, path: &str, upgrade: bool) -> (route: Route)
    ensures
        route@ == route_of(*config, path@, upgrade),
{
    match config.resolve() {
        None => Route::Unavailable(no_mode_response()),
        Some(target) => {
            let dev = match config.mode {
                Some(Mode::Dev) => true,
                _ => false,
            };
            if dev && upgrade && is_reload_path(path) {
                Route::Bridge(target)
            } else {
                Route::Forward(target)
            }
        },
    }
}

/// Routes an inbound request: to the fixed not-found response where no mode
/// is active, to the bridge for an upgrade request on the reload path in the
/// development mode, and to the forwarder otherwise.
pub fn dispatch(config: &ProxyConfig, request: &ProxyRequest) -> (route: Route)
    ensures
        route@ == route_of(*config, request@.path, upgrade_requested(request@.headers)),
        config.mode is None ==> route@ == RouteModel::Unavailable(no_mode_model()),
{
    let dev = match config.mode {
        Some(Mode::Dev) => true,
        _ => false,
    };
    if dev && is_reload_path(request.path.as_str()) {
        let upgrade = is_upgrade_request(&request.headers);
        route(config, request.path.as_str(), upgrade)
    } else {
        route(config, request.path.as_str(), false)
    }
}

/// With an active mode every request reaches the port of that mode on the
/// local host, bridged or forwarded.
pub proof fn lemma_active_mode_reaches_its_port(
    config: ProxyConfig,
    path: Seq<char>,
    upgrade: bool,
)
    requires
        config.mode is Some,
    ensures
        ({
            let target = TargetModel {
                host: upstream_host(),
                port: port_of(config.mode->0, config.dev_port, config.prod_port),
            };
            route_of(config, path, upgrade) == if bridges(config, path, upgrade) {
                RouteModel::Bridge(target)
            } else {
                RouteModel::Forward(target)
            }
        }),
{
}

/// Outside the development mode, and off the reload path, an upgrade request
/// is forwarded like any other request.
pub proof fn lemma_only_reload_path_bridges(config: ProxyConfig, path: Seq<char>, upgrade: bool)
    requires
        config.mode != Some(Mode::Dev) || path != reload_path() || !upgrade,
    ensures
        !(route_of(config, path, upgrade) is Bridge),
{
}

} // verus!
