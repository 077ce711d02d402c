use vstd::prelude::*;

verus! {

/// How often the transport pings its client, in milliseconds.
pub const HEARTBEAT_INTERVAL_MS: u64 = 5000;

/// How long a client may stay silent before the connection is dropped, in milliseconds.
pub const CLIENT_TIMEOUT_MS: u64 = 10000;

/// A frame received on a subscription websocket, or a protocol failure.
pub enum WsMessage {
    Ping(Vec<u8>),
    Pong,
    Text(String),
    Binary,
    Close,
    Continuation,
    Nop,
    ProtocolError,
}

/// What the transport does next.
#[derive(Debug, PartialEq)]
pub enum WsAction {
    Nothing,
    /// Answer a ping with these bytes.
    Pong(Vec<u8>),
    /// Hand this text to the subscription stream; the stream is busy until
    /// the transport reports how the send went.
    Forward(String),
    /// Send a keep-alive ping.
    Ping,
    /// Stop the connection.
    Stop,
}

/// What one heartbeat tick does: it always pings the client, and it also
/// stops the connection when the client has been silent too long.
#[derive(Debug, PartialEq)]
pub struct Tick {
    pub stop: bool,
    pub ping: bool,
}

/// The decisions of one subscription websocket: when the client was last
/// heard from, and whether the subscription stream can take a message now.
pub struct WsSession {
    pub last_seen_ms: u64,
    pub stream_ready: bool,
}

impl WsSession {
    /// A session whose stream is not yet attached, opened at `now_ms`.
    pub fn new(now_ms: u64) -> (r: WsSession)
        ensures
            r.last_seen_ms == now_ms,
            !r.stream_ready,
    {
        WsSession { last_seen_ms: now_ms, stream_ready: false }
    }

    /// The subscription stream is attached and can take messages.
    pub fn started(&mut self)
        ensures
            final(self).stream_ready,
            final(self).last_seen_ms == old(self).last_seen_ms,
    {
        self.stream_ready = true;
    }

    /// The periodic heartbeat at `now_ms`: every tick pings the client, and
    /// the tick also stops the connection once the client has been silent
    /// for strictly longer than the timeout.
    pub fn heartbeat(&self, now_ms: u64) -> (r: Tick)
        ensures
            r.ping,
            r.stop <==> (now_ms > self.last_seen_ms && now_ms - self.last_seen_ms > CLIENT_TIMEOUT_MS),
    {
        let stop = now_ms > self.last_seen_ms && now_ms - self.last_seen_ms > CLIENT_TIMEOUT_MS;
        Tick { stop, ping: true }
    }

    /// One incoming frame at `now_ms`. Pings and pongs show the client is
    /// alive; text goes to the subscription stream when it is free and is
    /// dropped otherwise; binary, close and continuation frames and protocol
    /// failures end the connection.
    pub fn on_message(&mut self, msg: WsMessage, now_ms: u64) -> (r: WsAction)
        ensures
            match msg {
                WsMessage::Ping(bytes) => r == WsAction::Pong(bytes) && final(self).last_seen_ms == now_ms
                    && final(self).stream_ready == old(self).stream_ready,
                WsMessage::Pong => r is Nothing && final(self).last_seen_ms == now_ms
                    && final(self).stream_ready == old(self).stream_ready,
                WsMessage::Text(s) => if old(self).stream_ready {
                    r == WsAction::Forward(s) && !final(self).stream_ready
                        && final(self).last_seen_ms == old(self).last_seen_ms
                } else {
                    r is Nothing && *final(self) == *old(self)
                },
                WsMessage::Nop => r is Nothing && *final(self) == *old(self),
                _ => r is Stop && *final(self) == *old(self),
            },
    {
        match msg {
            WsMessage::Ping(bytes) => {
                self.last_seen_ms = now_ms;
                WsAction::Pong(bytes)
            },
            WsMessage::Pong => {
                self.last_seen_ms = now_ms;
                WsAction::Nothing
            },
            WsMessage::Text(s) => {
                if self.stream_ready {
                    self.stream_ready = false;
                    WsAction::Forward(s)
                } else {
                    WsAction::Nothing
                }
            },
            WsMessage::Nop => WsAction::Nothing,
            _ => WsAction::Stop,
        }
    }

    /// How the send of a forwarded text went: on success the stream takes
    /// messages again, on failure the connection stops.
    pub fn on_forwarded(&mut self, sent: bool) -> (r: WsAction)
        ensures
            sent ==> r is Nothing && final(self).stream_ready,
            !sent ==> r is Stop && !final(self).stream_ready,
            final(self).last_seen_ms == old(self).last_seen_ms,
    {
        self.stream_ready = sent;
        if sent {
            WsAction::Nothing
        } else {
            WsAction::Stop
        }
    }
}

} // verus!
