//! The runtime core of an application gateway: the packet codec of its WebSocket
//! transports, the session of each client connection, the dev-mode uplink, the
//! validation of upgrade requests, and the projection of the application descriptor.
use vstd::prelude::*;

pub mod wire;
pub mod server_transport;
pub mod gateway_transport;
pub mod socket;
pub mod gateway;
pub mod server;
pub mod codec;

use crate::socket::{Action, ActionSendMessage};

verus! {

/// Where a message from the host goes.
pub enum Route {
    /// To the dev-mode uplink, which frames it for the relay.
    Uplink { socket_id: String, payload: Vec<u8> },
    /// Onto the action queue of the local socket with that id.
    Local(Action),
    /// Neither exists: the message is dropped.
    Dropped,
}

/// What a non-blocking read of the host's read pipe found.
#[allow(non_camel_case_types)]
pub enum TryReadRes {
    DATA(Vec<u8>),
    EMPTY,
    CLOSED,
}

/// Routes a message from the host: to the dev-mode uplink where there is one, else to
/// the local socket `socket_id` where there is one, else nowhere.
pub fn send_message(uplink_open: bool, socket_known: bool, socket_id: String, payload: Vec<u8>) -> (r:
    Route)
    ensures
        uplink_open ==> (r matches Route::Uplink { socket_id: s, payload: p } && s@ == socket_id@
            && p@ == payload@),
        !uplink_open && socket_known ==> (r matches Route::Local(Action::SendMessage(m))
            && m.payload@ == payload@),
        !uplink_open && !socket_known ==> r is Dropped,
{
    if uplink_open {
        Route::Uplink { socket_id, payload }
    } else if socket_known {
        Route::Local(Action::SendMessage(ActionSendMessage { payload }))
    } else {
        Route::Dropped
    }
}

/// What a blocking read hands the host: the next message of the read pipe, or no
/// bytes once the pipe has closed.
pub fn read(next: Option<Vec<u8>>) -> (r: Vec<u8>)
    ensures
        match next {
            Some(b) => r@ == b@,
            None => r@.len() == 0,
        },
{
    match next {
        Some(b) => b,
        None => Vec::new(),
    }
}

/// The descriptor to load: the path from the environment, else the one in the init
/// arguments; `None` stands for `hfn.json` in the working directory.
pub fn choose_config_path(env_path: Option<String>, arg_path: Option<String>) -> (r: Option<
    String,
>)
    ensures
        env_path is Some ==> (r matches Some(p) && p@ == env_path->0@),
        env_path is None && arg_path is Some ==> (r matches Some(p) && p@ == arg_path->0@),
        env_path is None && arg_path is None ==> r is None,
{
    match env_path {
        Some(p) => Some(p),
        None => arg_path,
    }
}

/// The id that names this core to the relay: the one given at init, else `fresh`.
pub fn choose_upstream_id(given: Option<String>, fresh: String) -> (r: String)
    ensures
        given is Some ==> r@ == given->0@,
        given is None ==> r@ == fresh@,
{
    match given {
        Some(id) => id,
        None => fresh,
    }
}

} // verus!
