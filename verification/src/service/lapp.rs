//! The service that runs a lapp: where the routes it returns go.

use vstd::prelude::*;

use crate::error::ServerError;
use crate::route::Route;
use crate::route::gossipsub::MessageOut as GossipsubMessageOut;
use crate::route::websocket::MessageOut as WsMessageOut;

verus! {

/// What becomes of one route.
pub enum RouteAction {
    /// A lapp may not answer a websocket or gossipsub message with HTTP.
    UnexpectedHttp(crate::route::http::Message),
    SendWebsocket(WsMessageOut),
    /// The lapp has no websocket connection to send on.
    WebsocketMissing(WsMessageOut),
    SendGossipsub(GossipsubMessageOut),
    /// The lapp has no gossipsub service to send to.
    GossipsubMissing(GossipsubMessageOut),
}

pub open spec fn route_action(route: Route, has_websocket: bool, has_gossipsub: bool) -> RouteAction {
    match route {
        Route::Http(m) => RouteAction::UnexpectedHttp(m),
        Route::Websocket(m) => if has_websocket {
            RouteAction::SendWebsocket(m)
        } else {
            RouteAction::WebsocketMissing(m)
        },
        Route::Gossipsub(m) => if has_gossipsub {
            RouteAction::SendGossipsub(m)
        } else {
            RouteAction::GossipsubMissing(m)
        },
    }
}

/// Where each route goes, in order.
pub fn process_routes(routes: Vec<Route>, has_websocket: bool, has_gossipsub: bool) -> (r: Vec<RouteAction>)
    ensures
        r@.len() == routes@.len(),
        forall|i: int| 0 <= i < r@.len() ==> #[trigger] r@[i] == route_action(routes@[i], has_websocket, has_gossipsub),
{
    let ghost all = routes@;
    let mut routes = routes;
    let mut r: Vec<RouteAction> = Vec::new();
    while routes.len() > 0
        invariant
            r@.len() + routes@.len() == all.len(),
            routes@ == all.subrange(r@.len() as int, all.len() as int),
            forall|i: int| 0 <= i < r@.len() ==> #[trigger] r@[i] == route_action(all[i], has_websocket, has_gossipsub),
        decreases routes@.len(),
    {
        let route = routes.remove(0);
        let action = match route {
            Route::Http(m) => RouteAction::UnexpectedHttp(m),
            Route::Websocket(m) => if has_websocket {
                RouteAction::SendWebsocket(m)
            } else {
                RouteAction::WebsocketMissing(m)
            },
            Route::Gossipsub(m) => if has_gossipsub {
                RouteAction::SendGossipsub(m)
            } else {
                RouteAction::GossipsubMissing(m)
            },
        };
        r.push(action);
        assert(routes@ =~= all.subrange(r@.len() as int, all.len() as int));
    }
    r
}

/// What reaches a lapp's service.
#[derive(Debug, Clone, Copy, PartialEq, Eq, Structural)]
pub enum ServiceEvent {
    Stop,
    Http,
    NewWebsocket,
    Websocket,
    NewGossipsub,
    Gossipsub,
}

/// What the service does with it.
#[derive(Debug, Clone, Copy, PartialEq, Eq, Structural)]
pub enum ServiceAction {
    /// Leave the loop.
    Stop,
    /// Hand the request to the lapp and send back its answer.
    ProcessHttp,
    /// Hand the websocket message to the lapp and carry out its routes.
    RouteWebsocket,
    /// Hand the gossipsub message to the lapp and carry out its routes.
    RouteGossipsub,
    /// Only remember the new connection.
    Connect,
    /// Handle nothing: the lapp's instance did not start, or the service stopped.
    Ignore,
}

/// A lapp's service: whether it handles messages (its instance started and
/// it was not stopped) and which connections are open.
#[derive(Debug, Clone, Copy, PartialEq, Eq, Structural)]
pub struct ServiceState {
    pub running: bool,
    pub has_websocket: bool,
    pub has_gossipsub: bool,
}

impl ServiceState {
    /// The service once its lapp's instance was started: it handles messages
    /// only where that succeeded.
    pub fn new(instantiated: bool) -> (r: Self)
        ensures
            r.running == instantiated,
            !r.has_websocket && !r.has_gossipsub,
    {
        ServiceState { running: instantiated, has_websocket: false, has_gossipsub: false }
    }

    /// The service's next state and what it does for `event`: nothing while it
    /// does not run; a `Stop` ends it.
    pub fn step(self, event: ServiceEvent) -> (r: (ServiceState, ServiceAction))
        ensures
            !self.running ==> r == (self, ServiceAction::Ignore),
            self.running ==> {
                &&& r.0.running == (event != ServiceEvent::Stop)
                &&& r.0.has_websocket == (self.has_websocket || event == ServiceEvent::NewWebsocket)
                &&& r.0.has_gossipsub == (self.has_gossipsub || event == ServiceEvent::NewGossipsub)
                &&& r.1 == match event {
                    ServiceEvent::Stop => ServiceAction::Stop,
                    ServiceEvent::Http => ServiceAction::ProcessHttp,
                    ServiceEvent::Websocket => ServiceAction::RouteWebsocket,
                    ServiceEvent::Gossipsub => ServiceAction::RouteGossipsub,
                    ServiceEvent::NewWebsocket => ServiceAction::Connect,
                    ServiceEvent::NewGossipsub => ServiceAction::Connect,
                }
            },
    {
        if !self.running {
            return (self, ServiceAction::Ignore);
        }
        match event {
            ServiceEvent::Stop => (ServiceState { running: false, ..self }, ServiceAction::Stop),
            ServiceEvent::Http => (self, ServiceAction::ProcessHttp),
            ServiceEvent::Websocket => (self, ServiceAction::RouteWebsocket),
            ServiceEvent::Gossipsub => (self, ServiceAction::RouteGossipsub),
            ServiceEvent::NewWebsocket => (ServiceState { has_websocket: true, ..self }, ServiceAction::Connect),
            ServiceEvent::NewGossipsub => (ServiceState { has_gossipsub: true, ..self }, ServiceAction::Connect),
        }
    }
}

/// What starting a lapp's service comes to: the result of starting its
/// instance, or, where no result came because the service was dropped,
/// `LappInitError` saying so.
pub fn service_result(instantiation: Option<Result<(), ServerError>>, lapp_name: &str) -> (r: Result<(), ServerError>)
    ensures
        match instantiation {
            Some(res) => r == res,
            None => r matches Err(ServerError::LappInitError(t))
                && t@ == "Lapp service for lapp \""@ + lapp_name@ + "\" is dropped"@,
        },
{
    match instantiation {
        Some(res) => res,
        None => {
            let mut text = "Lapp service for lapp \"".to_owned();
            text.append(lapp_name);
            text.append("\" is dropped");
            Err(ServerError::LappInitError(text))
        },
    }
}

/// A gossipsub route goes out exactly where the lapp has a gossipsub
/// service, whatever its websocket; a websocket route goes out exactly
/// where it has a websocket, whatever its gossipsub service; an HTTP route
/// never goes out.
pub proof fn lemma_route_goes_to_its_service(route: Route, w1: bool, w2: bool, g1: bool, g2: bool)
    ensures
        route matches Route::Gossipsub(m) ==> route_action(route, w1, g1) == if g1 {
            RouteAction::SendGossipsub(m)
        } else {
            RouteAction::GossipsubMissing(m)
        },
        route matches Route::Websocket(m) ==> route_action(route, w1, g1) == if w1 {
            RouteAction::SendWebsocket(m)
        } else {
            RouteAction::WebsocketMissing(m)
        },
        route matches Route::Http(m) ==> route_action(route, w1, g1) == RouteAction::UnexpectedHttp(m),
        route is Gossipsub ==> route_action(route, w1, g1) == route_action(route, w2, g1),
        route is Websocket ==> route_action(route, w1, g1) == route_action(route, w1, g2),
{
}

} // verus!
