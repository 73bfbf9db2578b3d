//! Requests and responses of the GM (admin) interface.
use vstd::prelude::*;

verus! {

/// A GM request.
#[derive(Debug)]
pub enum GmRequest {
    Status,
    ListPlayers,
    Execute { player_uid: String, command: String },
}

/// A GM response: `retcode` 0 means success.
#[derive(Debug)]
pub struct GmResponse {
    pub retcode: i32,
    pub message: String,
    pub online: usize,
    pub players: Vec<String>,
}

impl GmResponse {
    /// A success response carrying `message`.
    pub fn ok(message: String) -> (r: Self)
        ensures
            r.retcode == 0,
            r.message == message,
            r.online == 0,
            r.players@.len() == 0,
    {
        GmResponse { retcode: 0, message, online: 0, players: Vec::new() }
    }

    /// A failure response with code `retcode` carrying `message`.
    pub fn err(retcode: i32, message: String) -> (r: Self)
        ensures
            r.retcode == retcode,
            r.message == message,
            r.online == 0,
            r.players@.len() == 0,
    {
        GmResponse { retcode, message, online: 0, players: Vec::new() }
    }
}

} // verus!
