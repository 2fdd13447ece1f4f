use vstd::prelude::*;

use crate::auth::CurrentUser;
use crate::signals::{valid_signal, valid_signal_name, SignalBus, SignalError};
use crate::text::str_eq;

verus! {

/// The most signals one socket may subscribe to.
pub const MAX_SUBSCRIPTIONS_PER_SOCKET: usize = 32;

/// The module serving the signal socket at `/ws/`.
#[derive(Debug, Clone, Copy)]
pub struct ChannelsModule;

/// The channels module.
pub fn module() -> ChannelsModule {
    ChannelsModule
}

impl ChannelsModule {
    /// The module's name.
    pub fn name(&self) -> (s: &'static str)
        ensures s@ == "channels"@,
    {
        "channels"
    }
}

/// A frame sent by the client: `signal`, or its older name `channel`,
/// names the signal.
#[derive(Debug, Clone)]
pub enum ClientFrame {
    Subscribe { signal: Option<String>, channel: Option<String> },
    Unsubscribe { signal: Option<String>, channel: Option<String> },
}

/// A frame sent back to the client.
#[derive(Debug, Clone, PartialEq, Eq)]
pub enum Reply {
    Subscribed(String),
    Unsubscribed(String),
    Error { code: &'static str, detail: &'static str },
}

/// What a client frame asks for.
#[derive(Debug, Clone, PartialEq, Eq)]
pub enum FrameRequest {
    Subscribe(String),
    Unsubscribe(String),
}

/// `signal`, or else `channel`.
pub open spec fn named_signal(signal: Option<String>, channel: Option<String>) -> Option<String> {
    match signal {
        Some(s) => Some(s),
        None => channel,
    }
}

/// What `frame` asks for; a frame that names no signal is answered with an
/// `invalid_frame` error.
pub fn frame_request(frame: ClientFrame) -> (r: Result<FrameRequest, Reply>)
    ensures
        match frame {
            ClientFrame::Subscribe { signal, channel } => match named_signal(signal, channel) {
                Some(s) => r == Ok::<FrameRequest, Reply>(FrameRequest::Subscribe(s)),
                None => r matches Err(Reply::Error { code, detail })
                    && code@ == "invalid_frame"@ && detail@ == "subscribe requires signal"@,
            },
            ClientFrame::Unsubscribe { signal, channel } => match named_signal(signal, channel) {
                Some(s) => r == Ok::<FrameRequest, Reply>(FrameRequest::Unsubscribe(s)),
                None => r matches Err(Reply::Error { code, detail })
                    && code@ == "invalid_frame"@ && detail@ == "unsubscribe requires signal"@,
            },
        },
{
    match frame {
        ClientFrame::Subscribe { signal, channel } => {
            let named = match signal {
                Some(s) => Some(s),
                None => channel,
            };
            match named {
                Some(s) => Ok(FrameRequest::Subscribe(s)),
                None => Err(Reply::Error { code: "invalid_frame", detail: "subscribe requires signal" }),
            }
        },
        ClientFrame::Unsubscribe { signal, channel } => {
            let named = match signal {
                Some(s) => Some(s),
                None => channel,
            };
            match named {
                Some(s) => Ok(FrameRequest::Unsubscribe(s)),
                None => Err(Reply::Error { code: "invalid_frame", detail: "unsubscribe requires signal" }),
            }
        },
    }
}

/// What a subscription request comes to: the reply, and whether events of
/// the signal must now be relayed to the socket.
#[derive(Debug, Clone, PartialEq, Eq)]
pub struct SubscribeOutcome {
    pub start_relay: bool,
    pub reply: Reply,
}

/// The signals one socket is subscribed to.
pub struct SocketSession {
    subscriptions: Vec<String>,
}

/// The error reply for a refused subscription.
pub open spec fn error_reply(r: Reply, code: Seq<char>, detail: Seq<char>) -> bool {
    r matches Reply::Error { code: c, detail: d } && c@ == code && d@ == detail
}

/// The error frame of a signal error.
pub open spec fn signal_error_reply(r: Reply, e: SignalError) -> bool {
    match e {
        SignalError::Unknown => error_reply(r, "unknown_signal"@, "unknown signal"@),
        SignalError::Unauthorized => error_reply(r, "unauthorized"@, "authentication required"@),
        SignalError::Forbidden => error_reply(r, "forbidden"@, "signal subscription is forbidden"@),
    }
}

impl SocketSession {
    /// The subscribed signals.
    pub closed spec fn signals(&self) -> Set<Seq<char>> {
        Set::new(|s: Seq<char>| exists|i: int| 0 <= i < self.subscriptions@.len() && (#[trigger] self.subscriptions@[i])@ == s)
    }

    /// The number of subscriptions.
    pub closed spec fn count(&self) -> nat {
        self.subscriptions@.len()
    }

    /// Each signal is subscribed once, and no more than the limit.
    pub closed spec fn wf(&self) -> bool {
        &&& self.subscriptions@.len() <= MAX_SUBSCRIPTIONS_PER_SOCKET
        &&& forall|i: int, j: int| 0 <= i < j < self.subscriptions@.len() ==> self.subscriptions@[i]@ != self.subscriptions@[j]@
    }

    /// A socket without subscriptions.
    pub fn new() -> (s: SocketSession)
        ensures s.wf(), s.signals() == Set::<Seq<char>>::empty(), s.count() == 0,
    {
        let s = SocketSession { subscriptions: Vec::new() };
        proof { assert(s.signals() =~= Set::<Seq<char>>::empty()); }
        s
    }

    fn position(&self, signal: &str) -> (r: Option<usize>)
        ensures
            match r {
                Some(i) => i < self.subscriptions@.len() && self.subscriptions@[i as int]@ == signal@,
                None => !self.signals().contains(signal@),
            },
    {
        let mut i: usize = 0;
        while i < self.subscriptions.len()
            invariant
                i <= self.subscriptions@.len(),
                forall|j: int| 0 <= j < i ==> (#[trigger] self.subscriptions@[j])@ != signal@,
            decreases self.subscriptions.len() - i,
        {
            if str_eq(self.subscriptions[i].as_str(), signal) {
                return Some(i);
            }
            i += 1;
        }
        None
    }

    /// Handles a subscription request for `signal` from `user`: the name
    /// must be valid and `user` allowed by `bus`; a signal already
    /// subscribed is confirmed again; a socket holds at most
    /// `MAX_SUBSCRIPTIONS_PER_SOCKET` subscriptions.
    pub fn subscribe(&mut self, bus: &SignalBus, user: Option<&CurrentUser>, signal: String) -> (r: SubscribeOutcome)
        requires
            old(self).wf(),
            bus.wf(),
        ensures
            final(self).wf(),
            !r.start_relay ==> final(self).count() == old(self).count(),
            ({
                let u = match user { Some(u) => Some(*u), None => None };
                if !valid_signal(signal@) {
                    !r.start_relay && error_reply(r.reply, "invalid_signal"@, "invalid signal name"@)
                        && final(self).signals() == old(self).signals()
                } else if bus.access_decision(signal@, u) is Err {
                    !r.start_relay && signal_error_reply(r.reply, bus.access_decision(signal@, u)->Err_0)
                        && final(self).signals() == old(self).signals()
                } else if old(self).signals().contains(signal@) {
                    !r.start_relay && r.reply == Reply::Subscribed(signal)
                        && final(self).signals() == old(self).signals()
                } else if old(self).count() >= MAX_SUBSCRIPTIONS_PER_SOCKET {
                    !r.start_relay && error_reply(r.reply, "too_many_subscriptions"@, "too many subscriptions"@)
                        && final(self).signals() == old(self).signals()
                } else {
                    r.start_relay && r.reply == Reply::Subscribed(signal)
                        && final(self).signals() == old(self).signals().insert(signal@)
                        && final(self).count() == old(self).count() + 1
                }
            }),
    {
        if !valid_signal_name(signal.as_str()) {
            return SubscribeOutcome { start_relay: false, reply: Reply::Error { code: "invalid_signal", detail: "invalid signal name" } };
        }
        match bus.check_access(signal.as_str(), user) {
            Err(e) => {
                return SubscribeOutcome { start_relay: false, reply: Reply::Error { code: e.code(), detail: e.detail() } };
            },
            Ok(()) => {},
        }
        if let Some(i) = self.position(signal.as_str()) {
            proof { assert(self.signals().contains(signal@)); }
            return SubscribeOutcome { start_relay: false, reply: Reply::Subscribed(signal) };
        }
        if self.subscriptions.len() >= MAX_SUBSCRIPTIONS_PER_SOCKET {
            return SubscribeOutcome {
                start_relay: false,
                reply: Reply::Error { code: "too_many_subscriptions", detail: "too many subscriptions" },
            };
        }
        let ghost before = self.subscriptions@;
        let ghost old_set = self.signals();
        self.subscriptions.push(signal.clone());
        proof {
            assert forall|x: Seq<char>| self.signals().contains(x) <==> old_set.insert(signal@).contains(x) by {
                if self.signals().contains(x) {
                    let k = choose|k: int| 0 <= k < self.subscriptions@.len() && (#[trigger] self.subscriptions@[k])@ == x;
                    if k < before.len() { assert(before[k] == self.subscriptions@[k]); }
                }
                if old_set.contains(x) {
                    let k = choose|k: int| 0 <= k < before.len() && (#[trigger] before[k])@ == x;
                    assert(self.subscriptions@[k] == before[k]);
                }
                if x == signal@ {
                    assert(self.subscriptions@[before.len() as int]@ == x);
                }
            }
            assert(self.signals() =~= old_set.insert(signal@));
            assert forall|i: int, j: int| 0 <= i < j < self.subscriptions@.len() implies self.subscriptions@[i]@ != self.subscriptions@[j]@ by {
                if j == before.len() {
                    assert(self.subscriptions@[i] == before[i]);
                    assert(old_set.contains(before[i]@));
                }
            }
        }
        SubscribeOutcome { start_relay: true, reply: Reply::Subscribed(signal) }
    }

    /// Handles an unsubscription request for `signal`: it is dropped if it
    /// was subscribed (then its relay must stop), and confirmed either way.
    pub fn unsubscribe(&mut self, signal: String) -> (r: (bool, Reply))
        requires old(self).wf(),
        ensures
            final(self).wf(),
            r.0 == old(self).signals().contains(signal@),
            r.1 == Reply::Unsubscribed(signal),
            final(self).signals() == old(self).signals().remove(signal@),
            r.0 ==> final(self).count() == old(self).count() - 1,
            !r.0 ==> final(self).count() == old(self).count(),
    {
        match self.position(signal.as_str()) {
            None => {
                proof { assert(self.signals().remove(signal@) =~= self.signals()); }
                (false, Reply::Unsubscribed(signal))
            },
            Some(i) => {
                let ghost before = self.subscriptions@;
                let ghost old_set = self.signals();
                proof { assert(old_set.contains(before[i as int]@)); }
                self.subscriptions.remove(i);
                proof {
                    assert(self.subscriptions@ == before.remove(i as int));
                    assert forall|x: Seq<char>| self.signals().contains(x) <==> old_set.remove(signal@).contains(x) by {
                        if self.signals().contains(x) {
                            let k = choose|k: int| 0 <= k < self.subscriptions@.len() && (#[trigger] self.subscriptions@[k])@ == x;
                            if k < i {
                                assert(self.subscriptions@[k] == before[k]);
                            } else {
                                assert(self.subscriptions@[k] == before[k + 1]);
                            }
                        }
                        if old_set.remove(signal@).contains(x) {
                            let k = choose|k: int| 0 <= k < before.len() && (#[trigger] before[k])@ == x;
                            if k < i {
                                assert(self.subscriptions@[k] == before[k]);
                            } else if k > i {
                                assert(self.subscriptions@[k - 1] == before[k]);
                            }
                        }
                    }
                    assert(self.signals() =~= old_set.remove(signal@));
                    assert forall|a: int, b: int| 0 <= a < b < self.subscriptions@.len() implies self.subscriptions@[a]@ != self.subscriptions@[b]@ by {
                        let a0 = if a < i { a } else { a + 1 };
                        let b0 = if b < i { b } else { b + 1 };
                        assert(self.subscriptions@[a] == before[a0]);
                        assert(self.subscriptions@[b] == before[b0]);
                    }
                }
                (true, Reply::Unsubscribed(signal))
            },
        }
    }
}

/// Law: a socket never holds more than `MAX_SUBSCRIPTIONS_PER_SOCKET`
/// subscriptions.
pub proof fn law_subscription_limit(s: SocketSession)
    requires s.wf(),
    ensures s.count() <= MAX_SUBSCRIPTIONS_PER_SOCKET,
{
}

} // verus!
