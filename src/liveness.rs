//! The heartbeat state machine of one connection. The connection's loop
//! hands it each event with the current time and performs the action it
//! returns.
use vstd::prelude::*;

verus! {

/// How often the connection's loop checks the peer, in milliseconds.
pub const HEARTBEAT_INTERVAL_MS: u64 = 15000;

/// The longest gap without a liveness response before the peer is dead, in milliseconds.
pub const HEARTBEAT_TIMEOUT_MS: u64 = 25000;

pub enum LinkState {
    Connected,
    AwaitingPong,
    Disconnected,
}

/// What the connection's loop observed.
pub enum Inbound {
    /// The heartbeat interval elapsed.
    Tick,
    /// A text frame.
    Text(String),
    /// A protocol-level ping, with its payload.
    Ping(Vec<u8>),
    /// A protocol-level pong.
    Pong,
    /// The peer closed the connection.
    Close,
    /// Reading from the connection failed.
    Failure,
    /// The stream of frames ended.
    End,
    /// Sending to the peer failed.
    SendFailed,
    /// Any other frame.
    Other,
}

/// What the connection's loop must do next.
pub enum Outbound {
    Nothing,
    /// Send the text `"ping"`.
    SendPing,
    /// Send the text `"pong"`.
    SendPongText,
    /// Send a protocol-level pong with this payload.
    SendPong(Vec<u8>),
    /// Hand this text to the message dispatcher.
    Dispatch(String),
    /// Tear the connection down and unregister it.
    Disconnect,
}

/// The application-level liveness tokens.
pub enum Token {
    Ping,
    Pong,
}

/// The heartbeat state of one connection.
pub struct Liveness {
    pub state: LinkState,
    /// When the last liveness response arrived, in milliseconds on the loop's clock.
    pub last_response_ms: u64,
}

/// The text with leading and trailing white space removed.
pub uninterp spec fn trim_of(s: Seq<char>) -> Seq<char>;

/// Relies on `str::trim`: the result depends on the text alone.
#[verifier::external_body]
fn trim_text(s: &str) -> (r: &str)
    ensures
        r@ == trim_of(s@),
{
    s.trim()
}

/// The token that an already trimmed text is, if any.
pub open spec fn token_of(t: Seq<char>) -> Option<Token> {
    if t == "ping"@ {
        Some(Token::Ping)
    } else if t == "pong"@ {
        Some(Token::Pong)
    } else {
        None
    }
}

/// Recognises the liveness tokens in a trimmed text.
pub fn liveness_token(trimmed: &str) -> (r: Option<Token>)
    ensures
        r == token_of(trimmed@),
{
    let t = trimmed.to_owned();
    if t == "ping".to_owned() {
        Some(Token::Ping)
    } else if t == "pong".to_owned() {
        Some(Token::Pong)
    } else {
        None
    }
}

/// Milliseconds from `last` to `now`; a clock that went back counts as none.
pub open spec fn elapsed(last: u64, now: u64) -> int {
    if now >= last {
        now - last
    } else {
        0
    }
}

/// A live connection whose last response came at `now`.
pub open spec fn answered(now: u64) -> Liveness {
    Liveness { state: LinkState::Connected, last_response_ms: now }
}

/// The next state and the action, for a token already recognised (or not) in a text.
pub open spec fn on_text(l: Liveness, now: u64, text: String, token: Option<Token>) -> (
    Liveness,
    Outbound,
) {
    match token {
        Some(Token::Ping) => (answered(now), Outbound::SendPongText),
        Some(Token::Pong) => (answered(now), Outbound::Nothing),
        None => (l, Outbound::Dispatch(text)),
    }
}

/// The transition of the heartbeat state machine. A disconnected link stays so.
pub open spec fn stepped(l: Liveness, now: u64, event: Inbound) -> (Liveness, Outbound) {
    let dead = Liveness { state: LinkState::Disconnected, last_response_ms: l.last_response_ms };
    if l.state is Disconnected {
        (l, Outbound::Disconnect)
    } else {
        match event {
            Inbound::Tick => if elapsed(l.last_response_ms, now) > HEARTBEAT_TIMEOUT_MS {
                (dead, Outbound::Disconnect)
            } else {
                (
                    Liveness { state: LinkState::AwaitingPong, last_response_ms: l.last_response_ms },
                    Outbound::SendPing,
                )
            },
            Inbound::Text(t) => on_text(l, now, t, token_of(trim_of(t@))),
            Inbound::Ping(payload) => (answered(now), Outbound::SendPong(payload)),
            Inbound::Pong => (answered(now), Outbound::Nothing),
            Inbound::Other => (l, Outbound::Nothing),
            _ => (dead, Outbound::Disconnect),
        }
    }
}

impl Liveness {
    /// A connection that has just opened at `now`.
    pub fn new(now_ms: u64) -> (r: Liveness)
        ensures
            r == answered(now_ms),
    {
        Liveness { state: LinkState::Connected, last_response_ms: now_ms }
    }

    /// Takes one event, observed at `now_ms`, and says what to do.
    pub fn step(&mut self, now_ms: u64, event: Inbound) -> (r: Outbound)
        ensures
            (*final(self), r) == stepped(*old(self), now_ms, event),
    {
        let dead = Liveness { state: LinkState::Disconnected, last_response_ms: self.last_response_ms };
        if let LinkState::Disconnected = self.state {
            return Outbound::Disconnect;
        }
        match event {
            Inbound::Tick => {
                let gap: u64 = if now_ms >= self.last_response_ms {
                    now_ms - self.last_response_ms
                } else {
                    0
                };
                if gap > HEARTBEAT_TIMEOUT_MS {
                    *self = dead;
                    Outbound::Disconnect
                } else {
                    self.state = LinkState::AwaitingPong;
                    Outbound::SendPing
                }
            },
            Inbound::Text(t) => {
                let token = liveness_token(trim_text(t.as_str()));
                match token {
                    Some(Token::Ping) => {
                        *self = Liveness::new(now_ms);
                        Outbound::SendPongText
                    },
                    Some(Token::Pong) => {
                        *self = Liveness::new(now_ms);
                        Outbound::Nothing
                    },
                    None => Outbound::Dispatch(t),
                }
            },
            Inbound::Ping(payload) => {
                *self = Liveness::new(now_ms);
                Outbound::SendPong(payload)
            },
            Inbound::Pong => {
                *self = Liveness::new(now_ms);
                Outbound::Nothing
            },
            Inbound::Other => Outbound::Nothing,
            _ => {
                *self = dead;
                Outbound::Disconnect
            },
        }
    }
}

} // verus!
