//! The UDP listening side of a forwarding rule: the table of client
//! sessions, and the decisions of the bridge that relays each client's
//! datagrams to the remote and the remote's replies back.
//!
//! The bridge does no I/O. Its owner performs each [`UdpAction`] and reports
//! what happened as the next [`UdpEvent`]. Time is a count of milliseconds
//! from any fixed start that never runs backwards.
//!
//! Sessions that have been idle for the timeout are swept when the bridge
//! gets ready to receive the next datagram, however the remote is reached;
//! no timer runs. A session that is swept is gone with all it holds, so its
//! owner closes the connection that it held for that client. A UDP remote is
//! reached through a socket of its own for every datagram, so that a late
//! reply is never taken for the answer to a later datagram. A TCP remote is
//! reached through the one connection of the client's session, which is
//! opened when a datagram finds none and given up when it breaks.

use vstd::prelude::*;
use crate::config::{Protocol, DEFAULT_UDP_TIMEOUT_SECS};
use crate::net::Endpoint;

verus! {

/// How long the bridge waits for the remote's reply to a relayed datagram,
/// in milliseconds, when the remote is reached over UDP.
pub const UDP_REPLY_WAIT_MS: u64 = 1000;

/// How long the bridge waits for the remote's reply to a relayed datagram,
/// in milliseconds, when the remote is reached over TCP.
pub const STREAM_REPLY_WAIT_MS: u64 = 100;

/// The outbound connection of a session: none, or the one live connection
/// that the owner of the bridge holds for the session's client.
#[derive(Debug, Clone, Copy, PartialEq, Eq, Structural)]
pub enum Link {
    Disconnected,
    Connected,
}

/// The session of one client endpoint.
#[derive(Debug)]
pub struct UdpConnection {
    remote_addr: Endpoint,
    last_activity: u64,
    link: Link,
    buffer: Vec<u8>,
}

/// What a session holds, as a mathematical value.
pub struct SessionState {
    /// When the client's last datagram came in.
    pub last_activity: u64,
    pub link: Link,
    /// The client's bytes that wait to be handed to the remote.
    pub buffer: Seq<u8>,
}

/// A session as a mathematical value.
pub struct UdpConnectionView {
    /// The client endpoint that the session belongs to.
    pub remote_addr: Endpoint,
    pub state: SessionState,
}

impl View for UdpConnection {
    type V = UdpConnectionView;

    closed spec fn view(&self) -> UdpConnectionView {
        UdpConnectionView {
            remote_addr: self.remote_addr,
            state: SessionState {
                last_activity: self.last_activity,
                link: self.link,
                buffer: self.buffer@,
            },
        }
    }
}

impl UdpConnection {
    /// A session of `client` that starts at `now`, with no outbound
    /// connection and nothing buffered.
    pub fn new(client: Endpoint, now: u64) -> (r: UdpConnection)
        ensures
            r@.remote_addr == client,
            r@.state == spec_fresh(now),
    {
        UdpConnection {
            remote_addr: client,
            last_activity: now,
            link: Link::Disconnected,
            buffer: Vec::new(),
        }
    }

    /// The client endpoint that the session belongs to.
    pub fn remote_addr(&self) -> (r: Endpoint)
        ensures
            r == self@.remote_addr,
    {
        self.remote_addr
    }

    /// When the client's last datagram came in.
    pub fn last_activity(&self) -> (r: u64)
        ensures
            r == self@.state.last_activity,
    {
        self.last_activity
    }

    /// Whether the session has a live outbound connection.
    pub fn link(&self) -> (r: Link)
        ensures
            r == self@.state.link,
    {
        self.link
    }

    /// The client's bytes that wait to be handed to the remote.
    pub fn buffer(&self) -> (r: &Vec<u8>)
        ensures
            r@ == self@.state.buffer,
    {
        &self.buffer
    }
}

/// How long a session has been idle at time `now`, in milliseconds. A
/// session touched after `now` has been idle for no time.
pub open spec fn spec_idle_ms(last_activity: u64, now: u64) -> int {
    if now >= last_activity {
        now - last_activity
    } else {
        0
    }
}

/// Whether a session last touched at `last_activity` is expired at `now`: it
/// has been idle for the timeout or longer.
pub open spec fn spec_expired(last_activity: u64, now: u64, timeout_secs: u64) -> bool {
    spec_idle_ms(last_activity, now) >= timeout_secs * 1000
}

/// The state of a session that starts at `now`.
pub open spec fn spec_fresh(now: u64) -> SessionState {
    SessionState { last_activity: now, link: Link::Disconnected, buffer: Seq::empty() }
}

/// The table without the sessions that are expired at `now`.
pub open spec fn spec_sweep(
    sessions: Map<Endpoint, SessionState>,
    now: u64,
    timeout_secs: u64,
) -> Map<Endpoint, SessionState> {
    Map::new(
        |e: Endpoint|
            sessions.contains_key(e) && !spec_expired(sessions[e].last_activity, now, timeout_secs),
        |e: Endpoint| sessions[e],
    )
}

/// Whether a session is expired at `now`.
pub fn expired(last_activity: u64, now: u64, timeout_secs: u64) -> (r: bool)
    ensures
        r == spec_expired(last_activity, now, timeout_secs),
{
    let idle: u64 = if now >= last_activity {
        now - last_activity
    } else {
        0
    };
    idle as u128 >= timeout_secs as u128 * 1000
}

/// A copy of the given bytes.
pub fn copy_bytes(bytes: &[u8]) -> (r: Vec<u8>)
    ensures
        r@ == bytes@,
{
    let mut r: Vec<u8> = Vec::new();
    let mut i: usize = 0;
    while i < bytes.len()
        invariant
            i <= bytes.len(),
            r@ == bytes@.take(i as int),
        decreases bytes.len() - i,
    {
        r.push(bytes[i]);
        assert(bytes@.take(i as int + 1) =~= bytes@.take(i as int).push(bytes@[i as int]));
        i = i + 1;
    }
    assert(bytes@.take(bytes.len() as int) =~= bytes@);
    r
}

/// No two sessions of the list belong to the same client.
spec fn distinct(list: Seq<UdpConnection>) -> bool {
    forall|i: int, j: int|
        0 <= i < j < list.len() ==> (#[trigger] list[i]).remote_addr != (#[trigger] list[j]).remote_addr
}

/// Whether the list holds a session of `client`.
spec fn listed(list: Seq<UdpConnection>, client: Endpoint) -> bool {
    exists|i: int| 0 <= i < list.len() && (#[trigger] list[i]).remote_addr == client
}

/// A place of `client`'s session in the list.
spec fn place(list: Seq<UdpConnection>, client: Endpoint) -> int {
    choose|i: int| 0 <= i < list.len() && (#[trigger] list[i]).remote_addr == client
}

/// The mapping that a list of sessions stands for.
spec fn mapping(list: Seq<UdpConnection>) -> Map<Endpoint, SessionState> {
    Map::new(|e: Endpoint| listed(list, e), |e: Endpoint| list[place(list, e)]@.state)
}

proof fn lemma_mapping_at(list: Seq<UdpConnection>, i: int)
    requires
        distinct(list),
        0 <= i < list.len(),
    ensures
        mapping(list).contains_key(list[i].remote_addr),
        mapping(list)[list[i].remote_addr] == list[i]@.state,
{
    let e = list[i].remote_addr;
    assert(listed(list, e));
    let p = place(list, e);
    assert(0 <= p < list.len() && list[p].remote_addr == e);
    if p < i {
        assert(list[p].remote_addr != list[i].remote_addr);
    } else if i < p {
        assert(list[i].remote_addr != list[p].remote_addr);
    }
}

proof fn lemma_mapping_empty(list: Seq<UdpConnection>)
    requires
        list.len() == 0,
    ensures
        mapping(list) == Map::<Endpoint, SessionState>::empty(),
{
    assert(mapping(list) =~= Map::<Endpoint, SessionState>::empty());
}

proof fn lemma_mapping_push(list: Seq<UdpConnection>, c: UdpConnection)
    requires
        distinct(list),
        !listed(list, c.remote_addr),
    ensures
        distinct(list.push(c)),
        mapping(list.push(c)) == mapping(list).insert(c.remote_addr, c@.state),
{
    let next = list.push(c);
    assert forall|i: int, j: int| 0 <= i < j < next.len() implies (#[trigger] next[i]).remote_addr
        != (#[trigger] next[j]).remote_addr by {
        if j == list.len() {
            assert(list[i].remote_addr != c.remote_addr);
        } else {
            assert(list[i].remote_addr != list[j].remote_addr);
        }
    }
    assert forall|e: Endpoint| #[trigger]
        mapping(next).contains_key(e) == mapping(list).insert(c.remote_addr, c@.state).contains_key(
            e,
        ) by {
        if listed(next, e) {
            let p = place(next, e);
            if p < list.len() {
                assert(list[p].remote_addr == e);
            }
        }
        if e == c.remote_addr {
            assert(next[list.len() as int].remote_addr == e);
        } else if listed(list, e) {
            let p = place(list, e);
            assert(next[p].remote_addr == e);
        }
    }
    assert forall|e: Endpoint| #[trigger] mapping(next).contains_key(e) implies mapping(next)[e]
        == mapping(list).insert(c.remote_addr, c@.state)[e] by {
        let p = place(next, e);
        lemma_mapping_at(next, p);
        if p < list.len() {
            lemma_mapping_at(list, p);
        }
    }
    assert(mapping(next) =~= mapping(list).insert(c.remote_addr, c@.state));
}

proof fn lemma_mapping_update(list: Seq<UdpConnection>, i: int, c: UdpConnection)
    requires
        distinct(list),
        0 <= i < list.len(),
        c.remote_addr == list[i].remote_addr,
    ensures
        distinct(list.update(i, c)),
        mapping(list.update(i, c)) == mapping(list).insert(c.remote_addr, c@.state),
{
    let next = list.update(i, c);
    assert forall|a: int, b: int| 0 <= a < b < next.len() implies (#[trigger] next[a]).remote_addr
        != (#[trigger] next[b]).remote_addr by {
        assert(list[a].remote_addr != list[b].remote_addr);
    }
    assert forall|e: Endpoint| #[trigger]
        mapping(next).contains_key(e) == mapping(list).insert(c.remote_addr, c@.state).contains_key(
            e,
        ) by {
        if listed(next, e) {
            let p = place(next, e);
            assert(list[p].remote_addr == e);
        }
        if listed(list, e) {
            let p = place(list, e);
            assert(next[p].remote_addr == e);
        }
        if e == c.remote_addr {
            assert(next[i].remote_addr == e);
        }
    }
    assert forall|e: Endpoint| #[trigger] mapping(next).contains_key(e) implies mapping(next)[e]
        == mapping(list).insert(c.remote_addr, c@.state)[e] by {
        let p = place(next, e);
        lemma_mapping_at(next, p);
        if p != i {
            lemma_mapping_at(list, p);
        }
    }
    assert(mapping(next) =~= mapping(list).insert(c.remote_addr, c@.state));
}

/// The sessions of a bridge, at most one for each client endpoint.
#[derive(Debug)]
pub struct UdpSessionTable {
    sessions: Vec<UdpConnection>,
}

impl View for UdpSessionTable {
    type V = Map<Endpoint, SessionState>;

    closed spec fn view(&self) -> Map<Endpoint, SessionState> {
        mapping(self.sessions@)
    }
}

impl UdpSessionTable {
    #[verifier::type_invariant]
    spec fn well_formed(self) -> bool {
        distinct(self.sessions@)
    }

    /// A table without sessions.
    pub fn new() -> (r: UdpSessionTable)
        ensures
            r@ == Map::<Endpoint, SessionState>::empty(),
    {
        let sessions: Vec<UdpConnection> = Vec::new();
        proof {
            lemma_mapping_empty(sessions@);
        }
        UdpSessionTable { sessions }
    }

    /// Where the session of `client` stands in the list, if it has one.
    fn find(&self, client: Endpoint) -> (r: Option<usize>)
        ensures
            match r {
                Some(i) => i < self.sessions.len() && self.sessions[i as int].remote_addr == client
                    && self@.contains_key(client) && self@[client] == self.sessions[i as int]@.state,
                None => !listed(self.sessions@, client) && !self@.contains_key(client),
            },
    {
        proof {
            use_type_invariant(self);
        }
        let mut i: usize = 0;
        while i < self.sessions.len()
            invariant
                distinct(self.sessions@),
                i <= self.sessions.len(),
                forall|j: int| 0 <= j < i ==> (#[trigger] self.sessions@[j]).remote_addr != client,
            decreases self.sessions.len() - i,
        {
            if self.sessions[i].remote_addr == client {
                proof {
                    lemma_mapping_at(self.sessions@, i as int);
                }
                return Some(i);
            }
            i = i + 1;
        }
        None
    }

    /// The number of sessions.
    pub fn len(&self) -> (r: usize)
        ensures
            r == self@.len(),
            self@.dom().finite(),
    {
        proof {
            use_type_invariant(self);
            lemma_mapping_len(self.sessions@);
        }
        self.sessions.len()
    }

    /// Whether `client` has a session.
    pub fn contains(&self, client: Endpoint) -> (r: bool)
        ensures
            r == self@.contains_key(client),
    {
        self.find(client).is_some()
    }

    /// The session of `client`, if it has one.
    pub fn get(&self, client: Endpoint) -> (r: Option<&UdpConnection>)
        ensures
            match r {
                Some(c) => self@.contains_key(client) && c@.remote_addr == client && self@[client]
                    == c@.state,
                None => !self@.contains_key(client),
            },
    {
        match self.find(client) {
            Some(i) => Some(&self.sessions[i]),
            None => None,
        }
    }

    /// Files `session` under its client, in place of the client's earlier
    /// session if there was one.
    pub fn insert(&mut self, session: UdpConnection)
        ensures
            final(self)@ == old(self)@.insert(session@.remote_addr, session@.state),
    {
        proof {
            use_type_invariant(&*self);
        }
        let found = self.find(session.remote_addr);
        let mut sessions: Vec<UdpConnection> = Vec::new();
        core::mem::swap(&mut sessions, &mut self.sessions);
        match found {
            Some(i) => {
                proof {
                    lemma_mapping_update(sessions@, i as int, session);
                }
                sessions.set(i, session);
            },
            None => {
                proof {
                    lemma_mapping_push(sessions@, session);
                }
                sessions.push(session);
            },
        }
        self.sessions = sessions;
    }

    /// Makes sure that `client` has a session: an earlier one stays as it
    /// is, and a client seen for the first time gets a fresh session whose
    /// last activity is `now`. Returns whether the session was created.
    pub fn get_or_create(&mut self, client: Endpoint, now: u64) -> (created: bool)
        ensures
            created == !old(self)@.contains_key(client),
            final(self)@ == if old(self)@.contains_key(client) {
                old(self)@
            } else {
                old(self)@.insert(client, spec_fresh(now))
            },
    {
        if self.contains(client) {
            false
        } else {
            self.insert(
                UdpConnection {
                    remote_addr: client,
                    last_activity: now,
                    link: Link::Disconnected,
                    buffer: Vec::new(),
                },
            );
            true
        }
    }

    /// Notes that the session of `client` was active at `now`. Without a
    /// session of `client` the table stays as it is.
    pub fn touch(&mut self, client: Endpoint, now: u64)
        ensures
            final(self)@ == if old(self)@.contains_key(client) {
                old(self)@.insert(
                    client,
                    SessionState { last_activity: now, ..old(self)@[client] },
                )
            } else {
                old(self)@
            },
    {
        proof {
            use_type_invariant(&*self);
        }
        match self.find(client) {
            Some(i) => {
                let mut sessions: Vec<UdpConnection> = Vec::new();
                core::mem::swap(&mut sessions, &mut self.sessions);
                let ghost before = sessions@;
                sessions[i].last_activity = now;
                proof {
                    assert(sessions@ =~= before.update(i as int, sessions@[i as int]));
                    lemma_mapping_update(before, i as int, sessions@[i as int]);
                }
                self.sessions = sessions;
            },
            None => {},
        }
    }

    /// Records the state of the outbound connection of `client`'s session.
    /// Without a session of `client` the table stays as it is.
    pub fn set_link(&mut self, client: Endpoint, link: Link)
        ensures
            final(self)@ == if old(self)@.contains_key(client) {
                old(self)@.insert(client, SessionState { link: link, ..old(self)@[client] })
            } else {
                old(self)@
            },
    {
        proof {
            use_type_invariant(&*self);
        }
        match self.find(client) {
            Some(i) => {
                let mut sessions: Vec<UdpConnection> = Vec::new();
                core::mem::swap(&mut sessions, &mut self.sessions);
                let ghost before = sessions@;
                sessions[i].link = link;
                proof {
                    assert(sessions@ =~= before.update(i as int, sessions@[i as int]));
                    lemma_mapping_update(before, i as int, sessions@[i as int]);
                }
                self.sessions = sessions;
            },
            None => {},
        }
    }

    /// Puts `bytes` into the buffer of `client`'s session in place of what
    /// it held, and hands back what it held. Without a session of `client`
    /// the table stays as it is and the bytes come back.
    pub fn swap_buffer(&mut self, client: Endpoint, bytes: Vec<u8>) -> (held: Vec<u8>)
        ensures
            final(self)@ == if old(self)@.contains_key(client) {
                old(self)@.insert(client, SessionState { buffer: bytes@, ..old(self)@[client] })
            } else {
                old(self)@
            },
            held@ == if old(self)@.contains_key(client) {
                old(self)@[client].buffer
            } else {
                bytes@
            },
    {
        proof {
            use_type_invariant(&*self);
        }
        match self.find(client) {
            Some(i) => {
                let mut bytes = bytes;
                let mut sessions: Vec<UdpConnection> = Vec::new();
                core::mem::swap(&mut sessions, &mut self.sessions);
                let ghost before = sessions@;
                core::mem::swap(&mut sessions[i].buffer, &mut bytes);
                proof {
                    assert(sessions@ =~= before.update(i as int, sessions@[i as int]));
                    lemma_mapping_update(before, i as int, sessions@[i as int]);
                }
                self.sessions = sessions;
                bytes
            },
            None => bytes,
        }
    }

    /// Removes every session that is expired at `now`: one that has been
    /// idle for `timeout_secs` seconds or longer. The others stay as they
    /// are.
    pub fn sweep_expired(&mut self, now: u64, timeout_secs: u64)
        ensures
            final(self)@ == spec_sweep(old(self)@, now, timeout_secs),
    {
        proof {
            use_type_invariant(&*self);
        }
        let mut rest: Vec<UdpConnection> = Vec::new();
        core::mem::swap(&mut rest, &mut self.sessions);
        let ghost all = rest@;
        let mut kept: Vec<UdpConnection> = Vec::new();
        while rest.len() > 0
            invariant
                distinct(all),
                rest@ == all.take(rest.len() as int),
                rest.len() <= all.len(),
                distinct(kept@),
                forall|j: int|
                    0 <= j < kept.len() ==> survivor(
                        all,
                        rest.len() as int,
                        #[trigger] kept@[j],
                        now,
                        timeout_secs,
                    ),
                forall|t: int|
                    rest.len() <= t < all.len() && !spec_expired(
                        (#[trigger] all[t]).last_activity,
                        now,
                        timeout_secs,
                    ) ==> holds(kept@, all[t]),
            decreases rest.len(),
        {
            let ghost n = rest.len() as int;
            let ghost before = kept@;
            let session = rest.pop().unwrap();
            assert(session == all[n - 1]);
            assert(rest@ =~= all.take(n - 1));
            if !expired(session.last_activity, now, timeout_secs) {
                proof {
                    assert(!listed(before, session.remote_addr)) by {
                        if listed(before, session.remote_addr) {
                            let j = place(before, session.remote_addr);
                            assert(survivor(all, n, before[j], now, timeout_secs));
                            let t = choose|t: int|
                                n <= t < all.len() && #[trigger] all[t] == before[j] && !spec_expired(
                                    all[t].last_activity,
                                    now,
                                    timeout_secs,
                                );
                            assert(all[n - 1].remote_addr != all[t].remote_addr);
                        }
                    }
                    lemma_mapping_push(before, session);
                }
                kept.push(session);
                assert(kept@[before.len() as int] == all[n - 1]);
            }
            proof {
                assert forall|j: int| 0 <= j < kept.len() implies survivor(
                    all,
                    n - 1,
                    #[trigger] kept@[j],
                    now,
                    timeout_secs,
                ) by {
                    if j < before.len() {
                        assert(kept@[j] == before[j]);
                        assert(survivor(all, n, before[j], now, timeout_secs));
                        let t = choose|t: int|
                            n <= t < all.len() && #[trigger] all[t] == before[j] && !spec_expired(
                                all[t].last_activity,
                                now,
                                timeout_secs,
                            );
                        assert(all[t] == kept@[j]);
                    } else {
                        assert(all[n - 1] == kept@[j]);
                    }
                }
                assert forall|t: int|
                    n - 1 <= t < all.len() && !spec_expired(
                        (#[trigger] all[t]).last_activity,
                        now,
                        timeout_secs,
                    ) implies holds(kept@, all[t]) by {
                    if t == n - 1 {
                        assert(kept@[before.len() as int] == all[t]);
                    } else {
                        assert(holds(before, all[t]));
                        let j = choose|j: int| 0 <= j < before.len() && #[trigger] before[j] == all[t];
                        assert(kept@[j] == all[t]);
                    }
                }
            }
        }
        proof {
            lemma_mapping_swept(all, kept@, now, timeout_secs);
        }
        self.sessions = kept;
    }
}

/// Whether `c` stands in `all` at `lo` or later and is not expired.
spec fn survivor(all: Seq<UdpConnection>, lo: int, c: UdpConnection, now: u64, timeout_secs: u64) -> bool {
    exists|t: int|
        lo <= t < all.len() && #[trigger] all[t] == c && !spec_expired(
            all[t].last_activity,
            now,
            timeout_secs,
        )
}

/// Whether `c` stands in the list.
spec fn holds(list: Seq<UdpConnection>, c: UdpConnection) -> bool {
    exists|j: int| 0 <= j < list.len() && #[trigger] list[j] == c
}

proof fn lemma_mapping_len(list: Seq<UdpConnection>)
    requires
        distinct(list),
    ensures
        mapping(list).dom().finite(),
        mapping(list).len() == list.len(),
    decreases list.len(),
{
    if list.len() == 0 {
        lemma_mapping_empty(list);
    } else {
        let front = list.drop_last();
        let c = list.last();
        assert(distinct(front)) by {
            assert forall|i: int, j: int| 0 <= i < j < front.len() implies (
            #[trigger] front[i]).remote_addr != (#[trigger] front[j]).remote_addr by {
                assert(list[i].remote_addr != list[j].remote_addr);
            }
        }
        assert(!listed(front, c.remote_addr)) by {
            if listed(front, c.remote_addr) {
                let p = place(front, c.remote_addr);
                assert(list[p].remote_addr != list[list.len() - 1].remote_addr);
            }
        }
        lemma_mapping_len(front);
        lemma_mapping_push(front, c);
        assert(front.push(c) =~= list);
        assert(!mapping(front).contains_key(c.remote_addr));
    }
}

proof fn lemma_mapping_swept(
    all: Seq<UdpConnection>,
    kept: Seq<UdpConnection>,
    now: u64,
    timeout_secs: u64,
)
    requires
        distinct(all),
        distinct(kept),
        forall|j: int| 0 <= j < kept.len() ==> survivor(all, 0, #[trigger] kept[j], now, timeout_secs),
        forall|t: int|
            0 <= t < all.len() && !spec_expired((#[trigger] all[t]).last_activity, now, timeout_secs)
                ==> holds(kept, all[t]),
    ensures
        mapping(kept) == spec_sweep(mapping(all), now, timeout_secs),
{
    let swept = spec_sweep(mapping(all), now, timeout_secs);
    assert forall|e: Endpoint| #[trigger] mapping(kept).contains_key(e) implies swept.contains_key(e)
        && swept[e] == mapping(kept)[e] by {
        let j = place(kept, e);
        lemma_mapping_at(kept, j);
        assert(survivor(all, 0, kept[j], now, timeout_secs));
        let t = choose|t: int|
            0 <= t < all.len() && #[trigger] all[t] == kept[j] && !spec_expired(
                all[t].last_activity,
                now,
                timeout_secs,
            );
        lemma_mapping_at(all, t);
    }
    assert forall|e: Endpoint| #[trigger] swept.contains_key(e) implies mapping(kept).contains_key(
        e,
    ) by {
        let t = place(all, e);
        lemma_mapping_at(all, t);
        assert(holds(kept, all[t]));
        let j = choose|j: int| 0 <= j < kept.len() && #[trigger] kept[j] == all[t];
        lemma_mapping_at(kept, j);
    }
    assert(mapping(kept) =~= swept);
}

/// What the owner of a bridge reports to it.
#[derive(Debug)]
pub enum UdpEvent {
    /// The owner is about to wait for the next datagram.
    Tick { now: u64 },
    /// A datagram came in on the listening socket.
    Datagram { from: Endpoint, payload: Vec<u8>, now: u64 },
    /// The outbound connection asked for is open.
    Connected { client: Endpoint },
    /// The outbound connection asked for could not be opened.
    ConnectFailed { client: Endpoint },
    /// The bytes handed out for the remote have been sent.
    Sent { client: Endpoint },
    /// The bytes handed out for the remote could not be sent.
    SendFailed { client: Endpoint },
    /// The remote answered within the wait. From a TCP remote, no bytes
    /// are no answer.
    Reply { client: Endpoint, payload: Vec<u8> },
    /// The wait went by without an answer.
    ReplyTimeout { client: Endpoint },
    /// The remote closed the connection.
    RemoteClosed { client: Endpoint },
    /// Reading from the remote failed.
    RemoteFailed { client: Endpoint },
}

/// An event as a mathematical value.
pub enum UdpEventView {
    Tick { now: u64 },
    Datagram { from: Endpoint, payload: Seq<u8>, now: u64 },
    Connected { client: Endpoint },
    ConnectFailed { client: Endpoint },
    Sent { client: Endpoint },
    SendFailed { client: Endpoint },
    Reply { client: Endpoint, payload: Seq<u8> },
    ReplyTimeout { client: Endpoint },
    RemoteClosed { client: Endpoint },
    RemoteFailed { client: Endpoint },
}

impl View for UdpEvent {
    type V = UdpEventView;

    open spec fn view(&self) -> UdpEventView {
        match *self {
            UdpEvent::Tick { now } => UdpEventView::Tick { now },
            UdpEvent::Datagram { from, payload, now } => UdpEventView::Datagram {
                from,
                payload: payload@,
                now,
            },
            UdpEvent::Connected { client } => UdpEventView::Connected { client },
            UdpEvent::ConnectFailed { client } => UdpEventView::ConnectFailed { client },
            UdpEvent::Sent { client } => UdpEventView::Sent { client },
            UdpEvent::SendFailed { client } => UdpEventView::SendFailed { client },
            UdpEvent::Reply { client, payload } => UdpEventView::Reply { client, payload: payload@ },
            UdpEvent::ReplyTimeout { client } => UdpEventView::ReplyTimeout { client },
            UdpEvent::RemoteClosed { client } => UdpEventView::RemoteClosed { client },
            UdpEvent::RemoteFailed { client } => UdpEventView::RemoteFailed { client },
        }
    }
}

/// What the bridge asks its owner to do next.
#[derive(Debug)]
pub enum UdpAction {
    /// Let go of the connections of clients that have no session any more,
    /// then wait for the next datagram on the listening socket and report
    /// it.
    Receive,
    /// The exchange with the client is over: report a `Tick`.
    Finished,
    /// Open an outbound connection to the remote for the client's session.
    Connect { client: Endpoint },
    /// Hand the bytes to the remote: as one write on the session's
    /// connection where the remote is reached over TCP, as one datagram
    /// from a socket opened for it where the remote is reached over UDP.
    Send { client: Endpoint, payload: Vec<u8> },
    /// Wait for the remote's answer, `wait_ms` milliseconds at most.
    AwaitReply { client: Endpoint, wait_ms: u64 },
    /// Send the bytes to the client as one datagram from the listening
    /// socket, then report a `Tick`.
    Deliver { client: Endpoint, payload: Vec<u8> },
    /// Stop: the rule's protocol has no UDP listening side.
    InvalidProtocol,
}

/// An action as a mathematical value.
pub enum UdpActionView {
    Receive,
    Finished,
    Connect { client: Endpoint },
    Send { client: Endpoint, payload: Seq<u8> },
    AwaitReply { client: Endpoint, wait_ms: u64 },
    Deliver { client: Endpoint, payload: Seq<u8> },
    InvalidProtocol,
}

impl View for UdpAction {
    type V = UdpActionView;

    open spec fn view(&self) -> UdpActionView {
        match *self {
            UdpAction::Receive => UdpActionView::Receive,
            UdpAction::Finished => UdpActionView::Finished,
            UdpAction::Connect { client } => UdpActionView::Connect { client },
            UdpAction::Send { client, payload } => UdpActionView::Send { client, payload: payload@ },
            UdpAction::AwaitReply { client, wait_ms } => UdpActionView::AwaitReply { client, wait_ms },
            UdpAction::Deliver { client, payload } => UdpActionView::Deliver {
                client,
                payload: payload@,
            },
            UdpAction::InvalidProtocol => UdpActionView::InvalidProtocol,
        }
    }
}

/// The message with which a bridge refuses a rule whose protocol has no UDP
/// listening side.
pub fn invalid_protocol_message() -> (r: &'static str)
    ensures
        r@ == "Invalid protocol for UDP handler"@,
{
    "Invalid protocol for UDP handler"
}

/// A bridge as a mathematical value.
pub struct UdpForwarderView {
    pub connections: Map<Endpoint, SessionState>,
    /// Idle timeout of the sessions in seconds.
    pub timeout_secs: u64,
    pub protocol: Protocol,
}

/// The bridge of a rule at its start: no sessions, and the rule's idle
/// timeout or the default of 72 seconds.
pub open spec fn spec_new(timeout: Option<u64>, protocol: Protocol) -> UdpForwarderView {
    UdpForwarderView {
        connections: Map::empty(),
        timeout_secs: match timeout {
            Some(secs) => secs,
            None => DEFAULT_UDP_TIMEOUT_SECS,
        },
        protocol,
    }
}

/// How long the bridge waits for a reply, by the way the remote is reached.
pub open spec fn spec_reply_wait_ms(protocol: Protocol) -> u64 {
    if protocol == Protocol::Udp {
        UDP_REPLY_WAIT_MS
    } else {
        STREAM_REPLY_WAIT_MS
    }
}

/// The sessions with the link of `client`'s session set to `link`.
pub open spec fn spec_with_link(
    sessions: Map<Endpoint, SessionState>,
    client: Endpoint,
    link: Link,
) -> Map<Endpoint, SessionState> {
    if sessions.contains_key(client) {
        sessions.insert(client, SessionState { link: link, ..sessions[client] })
    } else {
        sessions
    }
}

/// The sessions with the buffer of `client`'s session emptied.
pub open spec fn spec_with_empty_buffer(
    sessions: Map<Endpoint, SessionState>,
    client: Endpoint,
) -> Map<Endpoint, SessionState> {
    if sessions.contains_key(client) {
        sessions.insert(client, SessionState { buffer: Seq::empty(), ..sessions[client] })
    } else {
        sessions
    }
}

/// What a datagram from `from` does to a bridge that relays to a UDP
/// remote: the client's session starts anew with the datagram as its
/// buffer, and the datagram goes out to the remote.
pub open spec fn spec_datagram_udp(
    s: UdpForwarderView,
    from: Endpoint,
    payload: Seq<u8>,
    now: u64,
) -> (UdpForwarderView, UdpActionView) {
    (
        UdpForwarderView {
            connections: s.connections.insert(
                from,
                SessionState { last_activity: now, link: Link::Disconnected, buffer: payload },
            ),
            ..s
        },
        UdpActionView::Send { client: from, payload },
    )
}

/// What a datagram from `from` does to a bridge that relays to a TCP
/// remote: the client's session is created if it has none and touched, and
/// the datagram goes out on the session's connection if it has a live one;
/// otherwise the datagram waits in the session's buffer while a connection
/// is opened.
pub open spec fn spec_datagram_stream(
    s: UdpForwarderView,
    from: Endpoint,
    payload: Seq<u8>,
    now: u64,
) -> (UdpForwarderView, UdpActionView) {
    if s.connections.contains_key(from) && s.connections[from].link == Link::Connected {
        (
            UdpForwarderView {
                connections: s.connections.insert(
                    from,
                    SessionState { last_activity: now, ..s.connections[from] },
                ),
                ..s
            },
            UdpActionView::Send { client: from, payload },
        )
    } else {
        (
            UdpForwarderView {
                connections: s.connections.insert(
                    from,
                    SessionState { last_activity: now, link: Link::Disconnected, buffer: payload },
                ),
                ..s
            },
            UdpActionView::Connect { client: from },
        )
    }
}

/// The bridge after an event, and what it asks for next.
pub open spec fn spec_step(s: UdpForwarderView, event: UdpEventView) -> (
    UdpForwarderView,
    UdpActionView,
) {
    if s.protocol != Protocol::Udp && s.protocol != Protocol::UdpToTcp {
        (s, UdpActionView::InvalidProtocol)
    } else {
        match event {
            UdpEventView::Tick { now } => (
                UdpForwarderView {
                    connections: spec_sweep(s.connections, now, s.timeout_secs),
                    ..s
                },
                UdpActionView::Receive,
            ),
            UdpEventView::Datagram { from, payload, now } => if s.protocol == Protocol::Udp {
                spec_datagram_udp(s, from, payload, now)
            } else {
                spec_datagram_stream(s, from, payload, now)
            },
            UdpEventView::Connected { client } => if s.connections.contains_key(client) {
                (
                    UdpForwarderView {
                        connections: s.connections.insert(
                            client,
                            SessionState {
                                link: Link::Connected,
                                buffer: Seq::empty(),
                                ..s.connections[client]
                            },
                        ),
                        ..s
                    },
                    UdpActionView::Send { client, payload: s.connections[client].buffer },
                )
            } else {
                (s, UdpActionView::Finished)
            },
            UdpEventView::ConnectFailed { client } => (
                UdpForwarderView {
                    connections: spec_with_empty_buffer(
                        spec_with_link(s.connections, client, Link::Disconnected),
                        client,
                    ),
                    ..s
                },
                UdpActionView::Finished,
            ),
            UdpEventView::Sent { client } => (
                s,
                UdpActionView::AwaitReply { client, wait_ms: spec_reply_wait_ms(s.protocol) },
            ),
            UdpEventView::SendFailed { client } => (
                UdpForwarderView {
                    connections: spec_with_link(s.connections, client, Link::Disconnected),
                    ..s
                },
                UdpActionView::Finished,
            ),
            UdpEventView::Reply { client, payload } => (
                s,
                if s.protocol == Protocol::Udp || payload.len() > 0 {
                    UdpActionView::Deliver { client, payload }
                } else {
                    UdpActionView::Finished
                },
            ),
            UdpEventView::ReplyTimeout { client } => (s, UdpActionView::Finished),
            UdpEventView::RemoteClosed { client } => (
                UdpForwarderView {
                    connections: spec_with_link(s.connections, client, Link::Disconnected),
                    ..s
                },
                UdpActionView::Finished,
            ),
            UdpEventView::RemoteFailed { client } => (
                UdpForwarderView {
                    connections: spec_with_link(s.connections, client, Link::Disconnected),
                    ..s
                },
                UdpActionView::Finished,
            ),
        }
    }
}

/// The bridge of one forwarding rule with a UDP listening side.
#[derive(Debug)]
pub struct UdpForwarder {
    connections: UdpSessionTable,
    timeout: u64,
    protocol: Protocol,
}

impl View for UdpForwarder {
    type V = UdpForwarderView;

    closed spec fn view(&self) -> UdpForwarderView {
        UdpForwarderView {
            connections: self.connections@,
            timeout_secs: self.timeout,
            protocol: self.protocol,
        }
    }
}

impl UdpForwarder {
    /// The bridge of a rule at its start.
    pub fn new(timeout: Option<u64>, protocol: Protocol) -> (r: UdpForwarder)
        ensures
            r@ == spec_new(timeout, protocol),
    {
        let timeout: u64 = match timeout {
            Some(secs) => secs,
            None => DEFAULT_UDP_TIMEOUT_SECS,
        };
        UdpForwarder { connections: UdpSessionTable::new(), timeout, protocol }
    }

    /// Idle timeout of the sessions in seconds.
    pub fn timeout_secs(&self) -> (r: u64)
        ensures
            r == self@.timeout_secs,
    {
        self.timeout
    }

    /// The protocol of the rule.
    pub fn protocol(&self) -> (r: Protocol)
        ensures
            r == self@.protocol,
    {
        self.protocol
    }

    /// The sessions of the bridge.
    pub fn sessions(&self) -> (r: &UdpSessionTable)
        ensures
            r@ == self@.connections,
    {
        &self.connections
    }

    /// Takes in one event and says what to do next.
    pub fn step(&mut self, event: UdpEvent) -> (action: UdpAction)
        ensures
            (final(self)@, action@) == spec_step(old(self)@, event@),
    {
        match self.protocol {
            Protocol::Udp | Protocol::UdpToTcp => {},
            _ => {
                return UdpAction::InvalidProtocol;
            },
        }
        let to_stream = match self.protocol {
            Protocol::Udp => false,
            _ => true,
        };
        match event {
            UdpEvent::Tick { now } => {
                self.connections.sweep_expired(now, self.timeout);
                UdpAction::Receive
            },
            UdpEvent::Datagram { from, payload, now } => {
                let live = match self.connections.get(from) {
                    Some(session) => to_stream && session.link == Link::Connected,
                    None => false,
                };
                if live {
                    self.connections.touch(from, now);
                    UdpAction::Send { client: from, payload }
                } else if to_stream {
                    self.connections.insert(
                        UdpConnection {
                            remote_addr: from,
                            last_activity: now,
                            link: Link::Disconnected,
                            buffer: payload,
                        },
                    );
                    UdpAction::Connect { client: from }
                } else {
                    let kept = copy_bytes(payload.as_slice());
                    self.connections.insert(
                        UdpConnection {
                            remote_addr: from,
                            last_activity: now,
                            link: Link::Disconnected,
                            buffer: kept,
                        },
                    );
                    UdpAction::Send { client: from, payload }
                }
            },
            UdpEvent::Connected { client } => {
                if self.connections.contains(client) {
                    self.connections.set_link(client, Link::Connected);
                    let payload = self.connections.swap_buffer(client, Vec::new());
                    assert(final(self)@.connections =~= spec_step(old(self)@, event@).0.connections);
                    UdpAction::Send { client, payload }
                } else {
                    UdpAction::Finished
                }
            },
            UdpEvent::ConnectFailed { client } => {
                self.connections.set_link(client, Link::Disconnected);
                let _ = self.connections.swap_buffer(client, Vec::new());
                UdpAction::Finished
            },
            UdpEvent::Sent { client } => {
                let wait_ms: u64 = if to_stream {
                    STREAM_REPLY_WAIT_MS
                } else {
                    UDP_REPLY_WAIT_MS
                };
                UdpAction::AwaitReply { client, wait_ms }
            },
            UdpEvent::SendFailed { client } => {
                self.connections.set_link(client, Link::Disconnected);
                UdpAction::Finished
            },
            UdpEvent::Reply { client, payload } => {
                if !to_stream || payload.len() > 0 {
                    UdpAction::Deliver { client, payload }
                } else {
                    UdpAction::Finished
                }
            },
            UdpEvent::ReplyTimeout { client } => UdpAction::Finished,
            UdpEvent::RemoteClosed { client } => {
                self.connections.set_link(client, Link::Disconnected);
                UdpAction::Finished
            },
            UdpEvent::RemoteFailed { client } => {
                self.connections.set_link(client, Link::Disconnected);
                UdpAction::Finished
            },
        }
    }
}

/// Session expiry. When a bridge gets ready to receive, whether its remote
/// is reached over UDP or over TCP, a session that has been idle for the
/// timeout or longer is gone from the table, and a session that has been
/// idle for less stays as it was.
pub proof fn lemma_session_expiry(s: UdpForwarderView, client: Endpoint, now: u64)
    requires
        s.protocol == Protocol::Udp || s.protocol == Protocol::UdpToTcp,
        s.connections.contains_key(client),
    ensures
        spec_idle_ms(s.connections[client].last_activity, now) >= s.timeout_secs * 1000
            ==> !spec_step(s, UdpEventView::Tick { now }).0.connections.contains_key(client),
        spec_idle_ms(s.connections[client].last_activity, now) < s.timeout_secs * 1000 ==> spec_step(
            s,
            UdpEventView::Tick { now },
        ).0.connections.contains_key(client) && spec_step(
            s,
            UdpEventView::Tick { now },
        ).0.connections[client] == s.connections[client],
        spec_step(s, UdpEventView::Tick { now }).1 == UdpActionView::Receive,
{
}

/// No event starts a session but a datagram, and that only for the client
/// it came from.
pub proof fn lemma_sessions_start_with_datagrams(
    s: UdpForwarderView,
    event: UdpEventView,
    client: Endpoint,
)
    requires
        !s.connections.contains_key(client),
        spec_step(s, event).0.connections.contains_key(client),
    ensures
        event is Datagram,
        event->from == client,
{
}

/// UDP to UDP. A datagram from a client goes out to the remote with the
/// same bytes, the wait for the reply is one second, and a reply goes back
/// to that client with the same bytes.
pub proof fn lemma_udp_relay(
    s: UdpForwarderView,
    client: Endpoint,
    payload: Seq<u8>,
    now: u64,
    reply: Seq<u8>,
)
    requires
        s.protocol == Protocol::Udp,
    ensures
        spec_step(s, UdpEventView::Datagram { from: client, payload, now }).1
            == (UdpActionView::Send { client, payload }),
        spec_step(s, UdpEventView::Datagram { from: client, payload, now }).0.connections.contains_key(
            client,
        ),
        spec_step(
            s,
            UdpEventView::Datagram { from: client, payload, now },
        ).0.connections[client].last_activity == now,
        spec_step(s, UdpEventView::Sent { client }).1 == (UdpActionView::AwaitReply {
            client,
            wait_ms: 1000,
        }),
        spec_step(s, UdpEventView::Reply { client, payload: reply }).1 == (UdpActionView::Deliver {
            client,
            payload: reply,
        }),
{
}

/// UDP to TCP. A datagram from a client whose session has no live
/// connection asks for one, and once it is open the datagram's bytes are
/// written to it; with a live connection the bytes are written at once.
/// The wait for the reply is a tenth of a second, and a reply goes back to
/// that client as one datagram with the same bytes. A session has one
/// connection at most: none is asked for while it has a live one.
pub proof fn lemma_udp_to_tcp_relay(
    s: UdpForwarderView,
    client: Endpoint,
    payload: Seq<u8>,
    now: u64,
    reply: Seq<u8>,
)
    requires
        s.protocol == Protocol::UdpToTcp,
    ensures
        ({
            let (waiting, first) = spec_step(
                s,
                UdpEventView::Datagram { from: client, payload, now },
            );
            let (relaying, second) = spec_step(waiting, UdpEventView::Connected { client });
            if s.connections.contains_key(client) && s.connections[client].link == Link::Connected {
                first == (UdpActionView::Send { client, payload })
            } else {
                &&& first == (UdpActionView::Connect { client })
                &&& second == (UdpActionView::Send { client, payload })
                &&& relaying.connections.contains_key(client)
                &&& relaying.connections[client].link == Link::Connected
            }
        }),
        spec_step(s, UdpEventView::Sent { client }).1 == (UdpActionView::AwaitReply {
            client,
            wait_ms: 100,
        }),
        reply.len() > 0 ==> spec_step(s, UdpEventView::Reply { client, payload: reply }).1 == (
        UdpActionView::Deliver { client, payload: reply }),
{
}

/// A broken connection is given up, and the client's next datagram asks
/// for a new one. After a failed connect, a failed write, the remote's end
/// of stream or a failed read, the session of `client` has no live
/// connection, the other sessions are as they were, the exchange is over,
/// and the next datagram from `client` asks to connect.
pub proof fn lemma_broken_link_is_retried(
    s: UdpForwarderView,
    client: Endpoint,
    other: Endpoint,
    failure: UdpEventView,
    payload: Seq<u8>,
    now: u64,
)
    requires
        s.protocol == Protocol::UdpToTcp,
        failure == (UdpEventView::ConnectFailed { client }) || failure == (UdpEventView::SendFailed {
            client,
        }) || failure == (UdpEventView::RemoteClosed { client }) || failure
            == (UdpEventView::RemoteFailed { client }),
        other != client,
    ensures
        ({
            let (after, action) = spec_step(s, failure);
            &&& action == UdpActionView::Finished
            &&& after.connections.contains_key(client) == s.connections.contains_key(client)
            &&& after.connections.contains_key(client) ==> after.connections[client].link
                == Link::Disconnected
            &&& after.connections.contains_key(other) == s.connections.contains_key(other)
            &&& after.connections.contains_key(other) ==> after.connections[other]
                == s.connections[other]
            &&& spec_step(after, UdpEventView::Datagram { from: client, payload, now }).1
                == (UdpActionView::Connect { client })
        }),
{
}

} // verus!
