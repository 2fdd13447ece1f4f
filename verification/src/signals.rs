use vstd::prelude::*;
use vstd::string::*;

use crate::auth::CurrentUser;
use crate::json::{json_str, obj3, Json, JsonView};
use crate::num::{
    all_digits, decimal, decimal_signed, i64_to_decimal, lemma_decimal, lemma_parse_decimal_i64,
    parse_i64_chars, parse_i64_spec,
};
use crate::text::{
    chars_lt, chars_of, char_is_alnum, is_alnum, is_digit, lemma_seq_lt_irreflexive,
    lemma_seq_lt_total, lemma_seq_lt_transitive, owned, push_char, push_str, seq_eq, seq_lt,
    starts_with, has_at,
};

verus! {

/// Who may subscribe to a declared signal.
#[derive(Debug, Clone, Copy, PartialEq, Eq, Structural)]
pub enum SignalAccess {
    Public,
    Authenticated,
    Admin,
}

/// Why a subscription was refused.
#[derive(Debug, Clone, Copy, PartialEq, Eq, Structural)]
pub enum SignalError {
    Unknown,
    Unauthorized,
    Forbidden,
}

impl SignalError {
    /// The `code` field of the error frame sent to the client.
    pub fn code(self) -> (s: &'static str)
        ensures
            self == SignalError::Unknown ==> s@ == "unknown_signal"@,
            self == SignalError::Unauthorized ==> s@ == "unauthorized"@,
            self == SignalError::Forbidden ==> s@ == "forbidden"@,
    {
        match self {
            SignalError::Unknown => "unknown_signal",
            SignalError::Unauthorized => "unauthorized",
            SignalError::Forbidden => "forbidden",
        }
    }

    /// The `detail` field of the error frame sent to the client.
    pub fn detail(self) -> (s: &'static str)
        ensures
            self == SignalError::Unknown ==> s@ == "unknown signal"@,
            self == SignalError::Unauthorized ==> s@ == "authentication required"@,
            self == SignalError::Forbidden ==> s@ == "signal subscription is forbidden"@,
    {
        match self {
            SignalError::Unknown => "unknown signal",
            SignalError::Unauthorized => "authentication required",
            SignalError::Forbidden => "signal subscription is forbidden",
        }
    }
}

/// A character allowed in a signal name.
pub open spec fn signal_char(c: char) -> bool {
    is_alnum(c) || c == ':' || c == '-' || c == '_' || c == '.'
}

/// A non-empty name of ASCII letters, digits, `:`, `-`, `_` and `.`.
pub open spec fn valid_signal(s: Seq<char>) -> bool {
    s.len() > 0 && forall|i: int| 0 <= i < s.len() ==> #[trigger] signal_char(s[i])
}

/// Whether a signal name may be subscribed to at all.
pub fn valid_signal_name(signal: &str) -> (r: bool)
    ensures r == valid_signal(signal@),
{
    let s = chars_of(signal);
    if s.len() == 0 {
        return false;
    }
    let mut i: usize = 0;
    while i < s.len()
        invariant
            s@ == signal@,
            i <= s.len(),
            forall|j: int| 0 <= j < i ==> signal_char(#[trigger] s@[j]),
        decreases s.len() - i,
    {
        let c = s[i];
        if !(char_is_alnum(c) || c == ':' || c == '-' || c == '_' || c == '.') {
            assert(!signal_char(s@[i as int]));
            return false;
        }
        i += 1;
    }
    true
}

/// The first position at or after `from` of `c` in `s`, or -1.
pub open spec fn find_char(s: Seq<char>, c: char, from: int) -> int
    decreases s.len() - from,
{
    if from < 0 || from >= s.len() {
        -1
    } else if s[from] == c {
        from
    } else {
        find_char(s, c, from + 1)
    }
}

pub open spec fn user_prefix() -> Seq<char> {
    seq!['u', 's', 'e', 'r', ':']
}

/// The owner of a private user signal `user:{id}:{name}`, if `signal` is one.
pub open spec fn private_owner(signal: Seq<char>) -> Option<i64> {
    if starts_with(signal, user_prefix()) {
        let rest = signal.skip(5);
        let c = find_char(rest, ':', 0);
        if c < 0 { None } else { parse_i64_spec(rest.take(c)) }
    } else {
        None
    }
}

/// The owner of a private user signal `user:{id}:{name}`, if `signal` is one.
pub fn private_user_id(signal: &str) -> (r: Option<i64>)
    ensures r == private_owner(signal@),
{
    let s = chars_of(signal);
    let prefix = vec!['u', 's', 'e', 'r', ':'];
    proof { assert(prefix@ == user_prefix()); assert(s@.subrange(0, s@.len() as int) =~= s@); }
    if !has_at(&s, 0, &prefix) {
        return None;
    }
    let ghost rest = s@.skip(5);
    let mut i: usize = 5;
    while i < s.len() && s[i] != ':'
        invariant
            5 <= i <= s.len(),
            rest == s@.skip(5),
            find_char(rest, ':', 0) == find_char(rest, ':', i - 5),
        decreases s.len() - i,
    {
        assert(rest[i - 5] == s@[i as int]);
        i += 1;
    }
    if i >= s.len() {
        return None;
    }
    proof { assert(rest[i - 5] == s@[i as int]); }
    let mut id: Vec<char> = Vec::new();
    let mut j: usize = 5;
    while j < i
        invariant
            5 <= j <= i < s.len(),
            id@ == s@.subrange(5, j as int),
        decreases i - j,
    {
        id.push(s[j]);
        proof { assert(s@.subrange(5, j + 1) =~= s@.subrange(5, j as int).push(s@[j as int])); }
        j += 1;
    }
    proof { assert(id@ =~= rest.take(i - 5)); }
    parse_i64_chars(&id)
}

/// The name of the private signal `signal` of user `user_id`.
pub open spec fn private_signal(user_id: i64, signal: Seq<char>) -> Seq<char> {
    user_prefix() + decimal_signed(user_id as int) + seq![':'] + signal
}

/// The name under which `publish_user` publishes: `user:{user_id}:{signal}`.
pub fn user_signal_name(user_id: i64, signal: &str) -> (r: String)
    ensures r@ == private_signal(user_id, signal@),
{
    let mut r = String::new();
    push_str(&mut r, "user:");
    let id = i64_to_decimal(user_id);
    push_str(&mut r, id.as_str());
    push_char(&mut r, ':');
    push_str(&mut r, signal);
    proof {
        reveal_strlit("user:");
        assert("user:"@ =~= user_prefix());
        assert(r@ =~= private_signal(user_id, signal@));
    }
    r
}

/// The registry of public signals: the access declared for each signal and
/// the set of signals that have a channel (declared, published to, or
/// subscribed to).
pub struct SignalBus {
    access: Vec<(String, SignalAccess)>,
    channels: Vec<String>,
}

impl SignalBus {
    /// No signal is declared twice and no channel exists twice; every
    /// declared signal has a channel.
    pub closed spec fn wf(&self) -> bool {
        &&& forall|i: int, j: int| 0 <= i < j < self.access@.len() ==> self.access@[i].0@ != self.access@[j].0@
        &&& forall|i: int, j: int| 0 <= i < j < self.channels@.len() ==> self.channels@[i]@ != self.channels@[j]@
        &&& forall|i: int| 0 <= i < self.access@.len() ==> self.has_channel(#[trigger] self.access@[i].0@)
    }

    /// `signal` was declared.
    pub closed spec fn declared(&self, signal: Seq<char>) -> bool {
        exists|i: int| 0 <= i < self.access@.len() && (#[trigger] self.access@[i]).0@ == signal
    }

    /// The access declared for `signal`.
    pub closed spec fn access_of(&self, signal: Seq<char>) -> SignalAccess {
        self.access@[choose|i: int| 0 <= i < self.access@.len() && (#[trigger] self.access@[i]).0@ == signal].1
    }

    /// `signal` has a channel.
    pub closed spec fn has_channel(&self, signal: Seq<char>) -> bool {
        exists|i: int| 0 <= i < self.channels@.len() && (#[trigger] self.channels@[i])@ == signal
    }

    /// The number of declared signals.
    pub closed spec fn declared_count(&self) -> nat {
        self.access@.len()
    }

    /// An empty registry.
    pub fn new() -> (b: SignalBus)
        ensures
            b.wf(),
            forall|s: Seq<char>| !b.declared(s) && !b.has_channel(s),
            b.declared_count() == 0,
    {
        SignalBus { access: Vec::new(), channels: Vec::new() }
    }

    fn find_access(&self, signal: &Vec<char>) -> (r: Option<usize>)
        requires self.wf(),
        ensures
            match r {
                Some(i) => i < self.access@.len() && self.access@[i as int].0@ == signal@,
                None => !self.declared(signal@),
            },
    {
        let mut i: usize = 0;
        while i < self.access.len()
            invariant
                i <= self.access@.len(),
                forall|j: int| 0 <= j < i ==> self.access@[j].0@ != signal@,
            decreases self.access.len() - i,
        {
            let name = chars_of(self.access[i].0.as_str());
            if seq_eq(&name, signal) {
                return Some(i);
            }
            i += 1;
        }
        None
    }

    fn find_channel(&self, signal: &Vec<char>) -> (r: bool)
        ensures r == self.has_channel(signal@),
    {
        let mut i: usize = 0;
        while i < self.channels.len()
            invariant
                i <= self.channels@.len(),
                forall|j: int| 0 <= j < i ==> self.channels@[j]@ != signal@,
            decreases self.channels.len() - i,
        {
            let name = chars_of(self.channels[i].as_str());
            if seq_eq(&name, signal) {
                return true;
            }
            i += 1;
        }
        false
    }

    /// Creates the channel of `signal` unless it exists (what publishing to
    /// or subscribing to a signal does to the registry).
    pub fn open_channel(&mut self, signal: &str)
        requires old(self).wf(),
        ensures
            final(self).wf(),
            forall|s: Seq<char>| #[trigger] final(self).has_channel(s) == (old(self).has_channel(s) || s == signal@),
            forall|s: Seq<char>| #[trigger] final(self).declared(s) == old(self).declared(s),
            forall|s: Seq<char>| old(self).declared(s) ==> #[trigger] final(self).access_of(s) == old(self).access_of(s),
            final(self).declared_count() == old(self).declared_count(),
    {
        let s = chars_of(signal);
        if self.find_channel(&s) {
            return;
        }
        let ghost old_self = *self;
        self.channels.push(owned(signal));
        proof {
            assert forall|t: Seq<char>| #[trigger] self.has_channel(t) == (old_self.has_channel(t) || t == signal@) by {
                if old_self.has_channel(t) {
                    let i = choose|i: int| 0 <= i < old_self.channels@.len() && (#[trigger] old_self.channels@[i])@ == t;
                    assert(self.channels@[i]@ == t);
                }
                if t == signal@ {
                    assert(self.channels@[self.channels@.len() - 1]@ == t);
                }
                if self.has_channel(t) {
                    let i = choose|i: int| 0 <= i < self.channels@.len() && (#[trigger] self.channels@[i])@ == t;
                    if i < old_self.channels@.len() {
                        assert(old_self.channels@[i]@ == t);
                    }
                }
            }
            assert forall|i: int| 0 <= i < self.access@.len() implies self.has_channel(#[trigger] self.access@[i].0@) by {
                assert(old_self.has_channel(old_self.access@[i].0@));
            }
        }
    }

    /// Declares `signal` with `access` and creates its channel. Declaring a
    /// signal again with another access is a programming error.
    /// The access `signal` was declared with, if it was.
    pub fn declared_access(&self, signal: &str) -> (r: Option<SignalAccess>)
        requires self.wf(),
        ensures
            match r {
                Some(a) => self.declared(signal@) && self.access_of(signal@) == a,
                None => !self.declared(signal@),
            },
    {
        let s = chars_of(signal);
        match self.find_access(&s) {
            Some(i) => {
                proof {
                    assert(self.declared(signal@));
                    let j = choose|j: int| 0 <= j < self.access@.len() && (#[trigger] self.access@[j]).0@ == signal@;
                    if j != i {
                        if j < i { assert(self.access@[j].0@ != self.access@[i as int].0@); }
                        else { assert(self.access@[i as int].0@ != self.access@[j].0@); }
                    }
                }
                Some(self.access[i].1)
            },
            None => None,
        }
    }

    pub fn declare(&mut self, signal: String, access: SignalAccess)
        requires
            old(self).wf(),
            old(self).declared(signal@) ==> old(self).access_of(signal@) == access,
        ensures
            final(self).wf(),
            forall|s: Seq<char>| #[trigger] final(self).declared(s) == (old(self).declared(s) || s == signal@),
            final(self).access_of(signal@) == access,
            forall|s: Seq<char>| old(self).declared(s) && s != signal@ ==> #[trigger] final(self).access_of(s) == old(self).access_of(s),
            forall|s: Seq<char>| #[trigger] final(self).has_channel(s) == (old(self).has_channel(s) || s == signal@),
    {
        let s = chars_of(signal.as_str());
        self.open_channel(signal.as_str());
        let ghost mid = *self;
        proof { assert(mid.has_channel(s@)); }
        match self.find_access(&s) {
            Some(i) => {
                proof {
                    assert(self.access@[i as int].0@ == s@);
                    assert(mid.declared(s@));
                    assert(old(self).declared(s@));
                    assert(mid.access_of(s@) == old(self).access_of(s@));
                    let j = choose|j: int| 0 <= j < self.access@.len() && (#[trigger] self.access@[j]).0@ == signal@;
                    if j != i {
                        if j < i { assert(self.access@[j].0@ != self.access@[i as int].0@); }
                        else { assert(self.access@[i as int].0@ != self.access@[j].0@); }
                    }
                }
            },
            None => {
                let ghost old_self = *self;
                self.access.push((signal, access));
                proof {
                    let n = old_self.access@.len() as int;
                    assert(self.access@[n].0@ == s@);
                    assert forall|t: Seq<char>| #[trigger] self.declared(t) == (old_self.declared(t) || t == s@) by {
                        if old_self.declared(t) {
                            let i = choose|i: int| 0 <= i < old_self.access@.len() && (#[trigger] old_self.access@[i]).0@ == t;
                            assert(self.access@[i].0@ == t);
                        }
                        if self.declared(t) {
                            let i = choose|i: int| 0 <= i < self.access@.len() && (#[trigger] self.access@[i]).0@ == t;
                            if i < n { assert(old_self.access@[i].0@ == t); }
                        }
                    }
                    let k = choose|j: int| 0 <= j < self.access@.len() && (#[trigger] self.access@[j]).0@ == s@;
                    if k < n {
                        assert(old_self.access@[k].0@ == s@);
                    }
                    assert forall|t: Seq<char>| old_self.declared(t) && t != s@ implies #[trigger] self.access_of(t) == old_self.access_of(t) by {
                        let i = choose|i: int| 0 <= i < old_self.access@.len() && (#[trigger] old_self.access@[i]).0@ == t;
                        let k2 = choose|j: int| 0 <= j < self.access@.len() && (#[trigger] self.access@[j]).0@ == t;
                        assert(self.access@[i].0@ == t);
                        if k2 != i {
                            if k2 < n {
                                if k2 < i { assert(old_self.access@[k2].0@ != old_self.access@[i].0@); }
                                else { assert(old_self.access@[i].0@ != old_self.access@[k2].0@); }
                            }
                        }
                    }
                    assert forall|a: int, b: int| 0 <= a < b < self.access@.len() implies self.access@[a].0@ != self.access@[b].0@ by {
                        if b == n {
                            assert(old_self.access@[a].0@ == self.access@[a].0@);
                        }
                    }
                    assert forall|t: Seq<char>| #[trigger] self.has_channel(t) == old_self.has_channel(t) by {
                        assert(self.channels@ == old_self.channels@);
                    }
                    assert forall|i: int| 0 <= i < self.access@.len() implies self.has_channel(#[trigger] self.access@[i].0@) by {
                        if i < n { assert(old_self.has_channel(old_self.access@[i].0@)); }
                        else { assert(old_self.has_channel(s@)); }
                    }
                }
            },
        }
    }

    /// Whether `user` may subscribe to `signal`.
    pub open spec fn access_decision(&self, signal: Seq<char>, user: Option<CurrentUser>) -> Result<(), SignalError> {
        match private_owner(signal) {
            Some(owner) => if !self.has_channel(signal) {
                Err(SignalError::Unknown)
            } else {
                match user {
                    Some(u) => if u.id == owner { Ok(()) } else { Err(SignalError::Forbidden) },
                    None => Err(SignalError::Unauthorized),
                }
            },
            None => if !self.declared(signal) {
                Err(SignalError::Unknown)
            } else {
                match self.access_of(signal) {
                    SignalAccess::Public => Ok(()),
                    SignalAccess::Authenticated => if user is Some { Ok(()) } else { Err(SignalError::Unauthorized) },
                    SignalAccess::Admin => match user {
                        Some(u) => if u.is_admin || u.is_superuser { Ok(()) } else { Err(SignalError::Forbidden) },
                        None => Err(SignalError::Unauthorized),
                    },
                }
            },
        }
    }

    /// Decides whether `user` may subscribe to `signal`: a private user
    /// signal must exist and belongs to its user only; any other signal must
    /// be declared and is open according to its access.
    pub fn check_access(&self, signal: &str, user: Option<&CurrentUser>) -> (r: Result<(), SignalError>)
        requires self.wf(),
        ensures r == self.access_decision(signal@, match user { Some(u) => Some(*u), None => None }),
    {
        let s = chars_of(signal);
        if let Some(owner_id) = private_user_id(signal) {
            if !self.find_channel(&s) {
                return Err(SignalError::Unknown);
            }
            return match user {
                Some(u) => if u.id == owner_id { Ok(()) } else { Err(SignalError::Forbidden) },
                None => Err(SignalError::Unauthorized),
            };
        }
        match self.find_access(&s) {
            None => Err(SignalError::Unknown),
            Some(i) => {
                proof {
                    let k = choose|j: int| 0 <= j < self.access@.len() && (#[trigger] self.access@[j]).0@ == s@;
                    if k != i {
                        if k < i { assert(self.access@[k].0@ != self.access@[i as int].0@); }
                        else { assert(self.access@[i as int].0@ != self.access@[k].0@); }
                    }
                }
                match self.access[i].1 {
                    SignalAccess::Public => Ok(()),
                    SignalAccess::Authenticated => match user {
                        Some(_) => Ok(()),
                        None => Err(SignalError::Unauthorized),
                    },
                    SignalAccess::Admin => match user {
                        Some(u) => if u.is_admin || u.is_superuser { Ok(()) } else { Err(SignalError::Forbidden) },
                        None => Err(SignalError::Unauthorized),
                    },
                }
            },
        }
    }

    /// The declared signals with their access, ordered by name.
    pub fn public_signals(&self) -> (r: Vec<(String, SignalAccess)>)
        requires self.wf(),
        ensures
            r@.len() == self.declared_count(),
            sorted_by_name(r@),
            forall|i: int| 0 <= i < r@.len() ==> self.declared(#[trigger] r@[i].0@) && self.access_of(r@[i].0@) == r@[i].1,
            forall|s: Seq<char>| self.declared(s) ==> exists|i: int| 0 <= i < r@.len() && (#[trigger] r@[i]).0@ == s,
    {
        let mut r: Vec<(String, SignalAccess)> = Vec::new();
        let mut n: usize = 0;
        while n < self.access.len()
            invariant
                self.wf(),
                n <= self.access@.len(),
                r@.len() == n,
                sorted_by_name(r@),
                forall|i: int| #![trigger r@[i]] 0 <= i < r@.len() ==> exists|k: int| 0 <= k < n && self.access@[k] == r@[i],
                forall|k: int| #![trigger self.access@[k]] 0 <= k < n ==> exists|i: int| 0 <= i < r@.len() && r@[i] == self.access@[k],
            decreases self.access.len() - n,
        {
            let entry = (self.access[n].0.clone(), self.access[n].1);
            proof {
                assert(entry == self.access@[n as int]);
                assert forall|i: int| 0 <= i < r@.len() implies r@[i].0@ != entry.0@ by {
                    let k = choose|k: int| 0 <= k < n && self.access@[k] == r@[i];
                    assert(self.access@[k].0@ != self.access@[n as int].0@);
                }
            }
            let ghost old_r = r@;
            insert_sorted(&mut r, entry);
            proof {
                assert forall|i: int| #![trigger r@[i]] 0 <= i < r@.len() implies exists|k: int| 0 <= k < n + 1 && self.access@[k] == r@[i] by {
                    if r@[i] != entry {
                        let j = choose|j: int| 0 <= j < old_r.len() && old_r[j] == r@[i];
                        let k = choose|k: int| 0 <= k < n && self.access@[k] == old_r[j];
                        assert(self.access@[k] == r@[i]);
                    } else {
                        assert(self.access@[n as int] == r@[i]);
                    }
                }
                assert forall|k: int| #![trigger self.access@[k]] 0 <= k < n + 1 implies exists|i: int| 0 <= i < r@.len() && r@[i] == self.access@[k] by {
                    if k < n {
                        let i = choose|i: int| 0 <= i < old_r.len() && old_r[i] == self.access@[k];
                        assert(exists|j: int| 0 <= j < r@.len() && r@[j] == old_r[i]);
                    }
                }
            }
            n += 1;
        }
        proof {
            assert forall|i: int| 0 <= i < r@.len() implies self.declared(#[trigger] r@[i].0@) && self.access_of(r@[i].0@) == r@[i].1 by {
                let k = choose|k: int| 0 <= k < n && self.access@[k] == r@[i];
                assert(self.access@[k].0@ == r@[i].0@);
                let c = choose|j: int| 0 <= j < self.access@.len() && (#[trigger] self.access@[j]).0@ == r@[i].0@;
                if c != k {
                    if c < k { assert(self.access@[c].0@ != self.access@[k].0@); }
                    else { assert(self.access@[k].0@ != self.access@[c].0@); }
                }
            }
            assert forall|s: Seq<char>| self.declared(s) implies exists|i: int| 0 <= i < r@.len() && (#[trigger] r@[i]).0@ == s by {
                let k = choose|j: int| 0 <= j < self.access@.len() && (#[trigger] self.access@[j]).0@ == s;
                let i = choose|i: int| 0 <= i < r@.len() && r@[i] == self.access@[k];
                assert(r@[i].0@ == s);
            }
        }
        r
    }
}

/// Entries ordered strictly by name.
pub open spec fn sorted_by_name(r: Seq<(String, SignalAccess)>) -> bool {
    forall|i: int, j: int| 0 <= i < j < r.len() ==> seq_lt(r[i].0@, r[j].0@)
}

fn name_before(r: &Vec<(String, SignalAccess)>, p: usize, name: &Vec<char>) -> (b: bool)
    requires p < r@.len(),
    ensures b == seq_lt(r@[p as int].0@, name@),
{
    let other = chars_of(r[p].0.as_str());
    chars_lt(&other, name)
}

/// Inserts an entry with a new name into entries ordered by name.
fn insert_sorted(r: &mut Vec<(String, SignalAccess)>, entry: (String, SignalAccess))
    requires
        sorted_by_name(old(r)@),
        forall|i: int| 0 <= i < old(r)@.len() ==> old(r)@[i].0@ != entry.0@,
    ensures
        sorted_by_name(final(r)@),
        final(r)@.len() == old(r)@.len() + 1,
        exists|j: int| 0 <= j < final(r)@.len() && final(r)@[j] == entry,
        forall|i: int| #![trigger old(r)@[i]] 0 <= i < old(r)@.len() ==> exists|j: int| 0 <= j < final(r)@.len() && final(r)@[j] == old(r)@[i],
        forall|j: int| #![trigger final(r)@[j]] 0 <= j < final(r)@.len() ==> final(r)@[j] == entry || exists|i: int| 0 <= i < old(r)@.len() && old(r)@[i] == final(r)@[j],
{
    let name = chars_of(entry.0.as_str());
    let mut p: usize = 0;
    while p < r.len() && name_before(r, p, &name)
        invariant
            p <= r@.len(),
            r@ == old(r)@,
            name@ == entry.0@,
            forall|i: int| 0 <= i < p ==> seq_lt(r@[i].0@, name@),
        decreases r.len() - p,
    {
        p += 1;
    }
    proof {
        if p < r@.len() {
            lemma_seq_lt_total(r@[p as int].0@, name@);
            assert(seq_lt(name@, r@[p as int].0@));
        }
    }
    let ghost old_r = r@;
    r.insert(p, entry);
    proof {
        assert forall|i: int, j: int| 0 <= i < j < r@.len() implies seq_lt(r@[i].0@, r@[j].0@) by {
            if j < p {
                assert(r@[i] == old_r[i] && r@[j] == old_r[j]);
            } else if j == p {
                assert(r@[i] == old_r[i]);
            } else if i == p {
                assert(r@[j] == old_r[j - 1]);
                if j - 1 > p { lemma_seq_lt_transitive(name@, old_r[p as int].0@, old_r[j - 1].0@); }
            } else if i < p {
                assert(r@[i] == old_r[i] && r@[j] == old_r[j - 1]);
                if j - 1 > p { lemma_seq_lt_transitive(name@, old_r[p as int].0@, old_r[j - 1].0@); }
                lemma_seq_lt_transitive(old_r[i].0@, name@, old_r[j - 1].0@);
            } else {
                assert(r@[i] == old_r[i - 1] && r@[j] == old_r[j - 1]);
            }
        }
        assert(r@[p as int] == entry);
        assert forall|i: int| #![trigger old_r[i]] 0 <= i < old_r.len() implies exists|j: int| 0 <= j < r@.len() && r@[j] == old_r[i] by {
            if i < p { assert(r@[i] == old_r[i]); } else { assert(r@[i + 1] == old_r[i]); }
        }
        assert forall|j: int| #![trigger r@[j]] 0 <= j < r@.len() implies r@[j] == entry || exists|i: int| 0 <= i < old_r.len() && old_r[i] == r@[j] by {
            if j < p { assert(old_r[j] == r@[j]); } else if j > p { assert(old_r[j - 1] == r@[j]); }
        }
    }
}

/// The owner read back from a private signal name is the user it was made for.
pub proof fn lemma_private_owner(user_id: i64, signal: Seq<char>)
    ensures private_owner(private_signal(user_id, signal)) == Some(user_id),
{
    let d = decimal_signed(user_id as int);
    let full = private_signal(user_id, signal);
    assert(full.take(5) =~= user_prefix());
    let rest = full.skip(5);
    assert(rest =~= d + seq![':'] + signal);
    lemma_parse_decimal_i64(user_id);
    let m = if user_id < 0 { (0 - user_id) as nat } else { user_id as nat };
    lemma_decimal(m);
    // the id has no `:`, so the first `:` ends it
    assert forall|k: int| 0 <= k < d.len() implies rest[k] != ':' by {
        assert(rest[k] == d[k]);
        if user_id < 0 {
            if k > 0 {
                assert(d[k] == decimal(m)[k - 1]);
                assert(is_digit(decimal(m)[k - 1]));
            }
        } else {
            assert(is_digit(decimal(m)[k]));
        }
    }
    lemma_find_char_skips(rest, ':', 0, d.len() as int);
    assert(rest[d.len() as int] == ':');
    assert(rest.take(d.len() as int) =~= d);
}

proof fn lemma_find_char_skips(s: Seq<char>, c: char, from: int, to: int)
    requires
        0 <= from <= to < s.len(),
        s[to] == c,
        forall|k: int| from <= k < to ==> s[k] != c,
    ensures find_char(s, c, from) == to,
    decreases to - from,
{
    if from < to {
        lemma_find_char_skips(s, c, from + 1, to);
    }
}

/// Law: a private user signal can only be subscribed to once it exists, and
/// then only by its own user.
pub proof fn law_private_signal_owner_only(bus: SignalBus, user_id: i64, signal: Seq<char>, user: Option<CurrentUser>)
    requires bus.wf(),
    ensures
        !bus.has_channel(private_signal(user_id, signal)) ==>
            bus.access_decision(private_signal(user_id, signal), user) == Err::<(), SignalError>(SignalError::Unknown),
        bus.has_channel(private_signal(user_id, signal)) ==>
            bus.access_decision(private_signal(user_id, signal), user) == match user {
                Some(u) => if u.id == user_id { Ok::<(), SignalError>(()) } else { Err(SignalError::Forbidden) },
                None => Err(SignalError::Unauthorized),
            },
{
    lemma_private_owner(user_id, signal);
}

/// Law: a signal that is neither declared nor a private user signal cannot
/// be subscribed to.
pub proof fn law_undeclared_signal_is_unknown(bus: SignalBus, signal: Seq<char>, user: Option<CurrentUser>)
    requires
        bus.wf(),
        private_owner(signal) is None,
        !bus.declared(signal),
    ensures
        bus.access_decision(signal, user) == Err::<(), SignalError>(SignalError::Unknown),
{
}

/// Law: a declared signal that is not a private user signal is open as its
/// declared access says: to anyone when public, to any user when
/// authenticated, to administrators and superusers when admin.
pub proof fn law_declared_signal_access(bus: SignalBus, signal: Seq<char>, user: Option<CurrentUser>)
    requires
        bus.wf(),
        private_owner(signal) is None,
        bus.declared(signal),
    ensures
        bus.access_decision(signal, user) == match bus.access_of(signal) {
            SignalAccess::Public => Ok::<(), SignalError>(()),
            SignalAccess::Authenticated => if user is Some { Ok::<(), SignalError>(()) } else { Err(SignalError::Unauthorized) },
            SignalAccess::Admin => match user {
                Some(u) => if u.is_admin || u.is_superuser { Ok::<(), SignalError>(()) } else { Err(SignalError::Forbidden) },
                None => Err(SignalError::Unauthorized),
            },
        },
{
}

/// Law: declaring a signal fixes its access: once declared with `access`,
/// `access_of` gives `access` (see `declare`), so a declared public signal
/// can be subscribed to by anyone.
pub proof fn law_public_signal_is_open(bus: SignalBus, signal: Seq<char>, user: Option<CurrentUser>)
    requires
        bus.wf(),
        private_owner(signal) is None,
        bus.declared(signal),
        bus.access_of(signal) == SignalAccess::Public,
    ensures bus.access_decision(signal, user) is Ok,
{
}

/// An event of a signal, as sent to a subscribed socket: `kind` is
/// `"signal"`.
#[derive(Debug)]
pub struct SignalEvent {
    pub kind: &'static str,
    pub signal: String,
    pub payload: Json,
}

/// The event carrying `payload` on `signal`.
pub fn signal_event(signal: String, payload: Json) -> (e: SignalEvent)
    ensures
        e.kind@ == "signal"@,
        e.signal@ == signal@,
        e.payload@ == payload@,
{
    SignalEvent { kind: "signal", signal, payload }
}

/// The error frame `{"type": "error", "code": code, "detail": detail}`.
pub fn error_event(code: &str, detail: &str) -> (e: Json)
    ensures
        e@ == JsonView::Object(seq![
            ("type"@, JsonView::Str("error"@)),
            ("code"@, JsonView::Str(code@)),
            ("detail"@, JsonView::Str(detail@)),
        ]),
{
    obj3("type", json_str("error"), "code", json_str(code), "detail", json_str(detail))
}

} // verus!
