use vstd::prelude::*;

verus! {

/// How often heartbeat pings are sent, in seconds.
pub const HEARTBEAT_INTERVAL_SECS: u64 = 5;

/// How long a client may stay silent before it is dropped, in nanoseconds
/// (ten seconds).
pub const CLIENT_TIMEOUT_NANOS: u128 = 10_000_000_000;

/// The largest websocket frame accepted, in bytes.
pub const MAX_FRAME_SIZE: usize = 1024 * 1024 * 6;

/// The state of one websocket session. Times are nanoseconds since an
/// instant that the caller fixes for the session.
pub struct MyWebSocket {
    /// The identifier the server gave the session.
    pub id: usize,
    /// When the client was last heard from.
    pub hb: u128,
    /// The room the session joined.
    pub room: String,
    /// The peer's name.
    pub name: Option<String>,
}

/// A message from the client, or a failure to read one.
pub enum WsEvent {
    Ping,
    Pong,
    Text(String),
    Binary,
    Close,
    Continuation,
    Nop,
    ProtocolError,
}

/// What the session does in answer to a client message.
pub enum WsAction {
    /// Nothing.
    Ignore,
    /// Answer a ping with a pong that carries the same bytes.
    Pong,
    /// Pass the text to the strategy server.
    Forward(String),
    /// Close the connection with the client's reason and stop.
    CloseAndStop,
    /// Stop the session.
    Stop,
}

/// What the heartbeat timer does.
pub enum HeartbeatAction {
    /// Tell the server the session is gone, and stop.
    Disconnect,
    /// Send a ping.
    Ping,
}

/// How long ago `since` was at `now`, zero if `since` is later.
pub open spec fn elapsed(since: u128, now: u128) -> int {
    if now >= since {
        now - since
    } else {
        0
    }
}

/// A client heard from at `hb` is kept at every time up to ten seconds
/// later.
pub proof fn lemma_heartbeat_grace(hb: u128, now: u128)
    requires
        now <= hb + CLIENT_TIMEOUT_NANOS,
    ensures
        elapsed(hb, now) <= CLIENT_TIMEOUT_NANOS,
{
}

impl MyWebSocket {
    /// A session opened at `now`, in room `Main`, not yet given an
    /// identifier.
    pub fn new(now: u128) -> (res: MyWebSocket)
        ensures
            res.id == 0,
            res.hb == now,
            res.room@ == "Main"@,
            res.name is None,
    {
        MyWebSocket { id: 0, hb: now, room: String::from_str("Main"), name: None }
    }

    /// The server answered the registration: the session takes the
    /// identifier, or, without one, must stop. Returns whether it stops.
    pub fn connected(&mut self, id: Option<usize>) -> (stop: bool)
        ensures
            stop == id is None,
            id matches Some(i) ==> final(self).id == i,
            id is None ==> final(self).id == old(self).id,
            final(self).hb == old(self).hb,
            final(self).room == old(self).room,
            final(self).name == old(self).name,
    {
        match id {
            Some(i) => {
                self.id = i;
                false
            },
            None => true,
        }
    }

    /// The heartbeat timer fired at `now`.
    pub fn heartbeat(&self, now: u128) -> (res: HeartbeatAction)
        ensures
            elapsed(self.hb, now) > CLIENT_TIMEOUT_NANOS ==> res == HeartbeatAction::Disconnect,
            elapsed(self.hb, now) <= CLIENT_TIMEOUT_NANOS ==> res == HeartbeatAction::Ping,
    {
        let gap = if now >= self.hb {
            now - self.hb
        } else {
            0
        };
        if gap > CLIENT_TIMEOUT_NANOS {
            HeartbeatAction::Disconnect
        } else {
            HeartbeatAction::Ping
        }
    }

    /// A message from the client arrived at `now`. Pings and pongs count as
    /// signs of life.
    pub fn handle(&mut self, event: WsEvent, now: u128) -> (res: WsAction)
        ensures
            final(self).id == old(self).id,
            final(self).room == old(self).room,
            final(self).name == old(self).name,
            final(self).hb == match event {
                WsEvent::Ping | WsEvent::Pong => now,
                _ => old(self).hb,
            },
            res == match event {
                WsEvent::Ping => WsAction::Pong,
                WsEvent::Pong | WsEvent::Binary | WsEvent::Nop => WsAction::Ignore,
                WsEvent::Text(t) => WsAction::Forward(t),
                WsEvent::Close => WsAction::CloseAndStop,
                WsEvent::Continuation | WsEvent::ProtocolError => WsAction::Stop,
            },
    {
        match event {
            WsEvent::Ping => {
                self.hb = now;
                WsAction::Pong
            },
            WsEvent::Pong => {
                self.hb = now;
                WsAction::Ignore
            },
            WsEvent::Text(t) => WsAction::Forward(t),
            WsEvent::Binary => WsAction::Ignore,
            WsEvent::Close => WsAction::CloseAndStop,
            WsEvent::Continuation => WsAction::Stop,
            WsEvent::Nop => WsAction::Ignore,
            WsEvent::ProtocolError => WsAction::Stop,
        }
    }

    /// The session is stopping: the identifier to tell the server is gone.
    pub fn stopping(&self) -> (res: usize)
        ensures
            res == self.id,
    {
        self.id
    }
}

} // verus!
