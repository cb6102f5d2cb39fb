//! The relay server's session manager: a table of connected users keyed
//! by transport address, the dispatch of each incoming message, voice
//! fanout with sender exclusion, and heartbeat-driven eviction.
//!
//! The functions here are pure state transitions: the caller receives
//! datagrams, stamps them with its clock and the sender's address, and
//! sends out whatever [`Outgoing`] records come back.  Addresses are
//! opaque `u64` tokens chosen injectively by the transport layer.
use vstd::prelude::*;

use crate::config::ServerConfig;
use crate::packets::{
    AudioPacket, ClientMessage, ClientMsgView, ServerMessage, ServerMsgView, UserInfo,
    UserInfoView,
};

verus! {

/// One connected user as the server tracks it.
pub struct User {
    /// Server-assigned identity, never reused within a server lifetime.
    pub id: u32,
    pub username: String,
    /// Transport address the user sends from; the table key.
    pub addr: u64,
    /// Clock reading of the last valid message from this user, in ms.
    pub last_reply: u64,
}

/// Ghost form of [`User`].
pub struct UserView {
    pub id: u32,
    pub username: Seq<char>,
    pub addr: u64,
    pub last_reply: u64,
}

impl View for User {
    type V = UserView;

    open spec fn view(&self) -> UserView {
        UserView {
            id: self.id,
            username: self.username@,
            addr: self.addr,
            last_reply: self.last_reply,
        }
    }
}

/// The announcement record for a user.
pub open spec fn info_view(u: UserView) -> UserInfoView {
    UserInfoView { id: u.id, username: u.username }
}

impl User {
    /// The public record announced to other peers.
    pub fn info(&self) -> (r: UserInfo)
        ensures
            r@ == info_view(self@),
    {
        UserInfo { id: self.id, username: self.username.clone() }
    }

    /// A copy of this record, field by field.
    pub fn dup(&self) -> (r: User)
        ensures
            r@ == self@,
    {
        User {
            id: self.id,
            username: self.username.clone(),
            addr: self.addr,
            last_reply: self.last_reply,
        }
    }
}

/// A datagram the server wants sent: the destination address and the
/// message to encode.
pub struct Outgoing {
    pub addr: u64,
    pub msg: ServerMessage,
}

/// Ghost form of [`Outgoing`].
pub struct OutgoingView {
    pub addr: u64,
    pub msg: ServerMsgView,
}

impl View for Outgoing {
    type V = OutgoingView;

    open spec fn view(&self) -> OutgoingView {
        OutgoingView { addr: self.addr, msg: self.msg@ }
    }
}

/// The ghost views of a user table.
pub open spec fn user_views(s: Seq<User>) -> Seq<UserView> {
    s.map_values(|u: User| u@)
}

/// The ghost views of a batch of outgoing datagrams.
pub open spec fn out_views(s: Seq<Outgoing>) -> Seq<OutgoingView> {
    s.map_values(|o: Outgoing| o@)
}

/// Some user in the table sends from `addr`.
pub open spec fn has_addr(users: Seq<UserView>, addr: u64) -> bool {
    exists|i: int| 0 <= i < users.len() && users[i].addr == addr
}

/// The index of the user sending from `addr` (unique under [`Server::wf`]).
pub open spec fn addr_index(users: Seq<UserView>, addr: u64) -> int {
    choose|i: int| 0 <= i < users.len() && users[i].addr == addr
}

/// One datagram per user, excluding `except` if given: the fanout set.
pub open spec fn spec_broadcast(
    users: Seq<UserView>,
    m: ServerMsgView,
    except: Option<u64>,
) -> Seq<OutgoingView>
    decreases users.len(),
{
    if users.len() == 0 {
        Seq::empty()
    } else {
        let rest = spec_broadcast(users.drop_last(), m, except);
        let u = users.last();
        if except == Some(u.addr) {
            rest
        } else {
            rest.push(OutgoingView { addr: u.addr, msg: m })
        }
    }
}

/// Fanout exclusion: the broadcast set carries `m` exactly to the
/// addresses in the table other than `except` and to nothing else.
pub proof fn lemma_broadcast_exclusion(
    users: Seq<UserView>,
    m: ServerMsgView,
    except: Option<u64>,
    a: u64,
)
    ensures
        (has_addr(users, a) && Some(a) != except) <==> exists|k: int|
            0 <= k < spec_broadcast(users, m, except).len() && spec_broadcast(
                users,
                m,
                except,
            )[k].addr == a,
        forall|k: int|
            0 <= k < spec_broadcast(users, m, except).len() ==> (#[trigger] spec_broadcast(
                users,
                m,
                except,
            )[k].msg == m && Some(spec_broadcast(users, m, except)[k].addr) != except && has_addr(
                users,
                spec_broadcast(users, m, except)[k].addr,
            )),
    decreases users.len(),
{
    if users.len() == 0 {
    } else {
        let prefix = users.drop_last();
        let last = users.last();
        let out = spec_broadcast(users, m, except);
        let rest = spec_broadcast(prefix, m, except);
        lemma_broadcast_exclusion(prefix, m, except, a);
        assert(forall|i: int|
            0 <= i < prefix.len() ==> prefix[i] == users[i] && has_addr(users, prefix[i].addr));
        assert(users[users.len() - 1].addr == last.addr);
        assert(has_addr(users, last.addr));
        if has_addr(users, a) && Some(a) != except {
            let i = choose|i: int| 0 <= i < users.len() && users[i].addr == a;
            if i < users.len() - 1 {
                assert(has_addr(prefix, a));
                let k = choose|k: int| 0 <= k < rest.len() && rest[k].addr == a;
                assert(out[k].addr == a);
            } else {
                assert(out.last().addr == a);
            }
        }
        if exists|k: int| 0 <= k < out.len() && out[k].addr == a {
            let k = choose|k: int| 0 <= k < out.len() && out[k].addr == a;
            if k < rest.len() {
                assert(rest[k].addr == a);
            } else {
                assert(out[k] == OutgoingView { addr: last.addr, msg: m });
            }
        }
    }
}

/// The table with one user's `last_reply` refreshed.
pub open spec fn spec_refresh(users: Seq<UserView>, addr: u64, now: u64) -> Seq<UserView> {
    users.map_values(
        |u: UserView|
            if u.addr == addr {
                UserView { id: u.id, username: u.username, addr: u.addr, last_reply: now }
            } else {
                u
            },
    )
}

/// One `Connected` announcement per existing user, all sent to `to`:
/// the roster a newcomer receives.
pub open spec fn spec_roster(users: Seq<UserView>, to: u64) -> Seq<OutgoingView> {
    users.map_values(
        |u: UserView| OutgoingView { addr: to, msg: ServerMsgView::Connected(info_view(u)) },
    )
}

/// A user's silence has outlived the timeout at clock reading `now`.
pub open spec fn expired(u: UserView, now: u64, timeout: u64) -> bool {
    now > u.last_reply + timeout
}

/// The users that survive a heartbeat at `now`, in table order.
pub open spec fn spec_kept(users: Seq<UserView>, now: u64, timeout: u64) -> Seq<UserView>
    decreases users.len(),
{
    if users.len() == 0 {
        Seq::empty()
    } else {
        let rest = spec_kept(users.drop_last(), now, timeout);
        if expired(users.last(), now, timeout) {
            rest
        } else {
            rest.push(users.last())
        }
    }
}

/// The users that a heartbeat at `now` removes, in table order.
pub open spec fn spec_evicted(users: Seq<UserView>, now: u64, timeout: u64) -> Seq<UserView>
    decreases users.len(),
{
    if users.len() == 0 {
        Seq::empty()
    } else {
        let rest = spec_evicted(users.drop_last(), now, timeout);
        if expired(users.last(), now, timeout) {
            rest.push(users.last())
        } else {
            rest
        }
    }
}

/// The farewell traffic of one heartbeat: for each evicted user, one
/// `Disconnected` announcement to every surviving user.
pub open spec fn spec_evict_msgs(evicted: Seq<UserView>, kept: Seq<UserView>) -> Seq<OutgoingView>
    decreases evicted.len(),
{
    if evicted.len() == 0 {
        Seq::empty()
    } else {
        spec_evict_msgs(evicted.drop_last(), kept) + spec_broadcast(
            kept,
            ServerMsgView::Disconnected(info_view(evicted.last())),
            None,
        )
    }
}

/// Both halves of the heartbeat partition take their elements from the
/// table: every kept user is a still-live table entry, every evicted
/// user an expired one, and pairwise-distinct addresses and ids carry
/// over to each half.
pub proof fn lemma_partition(users: Seq<UserView>, now: u64, timeout: u64)
    requires
        forall|i: int, j: int| 0 <= i < j < users.len() ==> users[i].addr != users[j].addr,
        forall|i: int, j: int| 0 <= i < j < users.len() ==> users[i].id != users[j].id,
    ensures
        forall|p: int|
            0 <= p < spec_kept(users, now, timeout).len() ==> (!expired(
                #[trigger] spec_kept(users, now, timeout)[p],
                now,
                timeout,
            ) && exists|q: int|
                0 <= q < users.len() && spec_kept(users, now, timeout)[p] == users[q]),
        forall|p: int|
            0 <= p < spec_evicted(users, now, timeout).len() ==> (expired(
                #[trigger] spec_evicted(users, now, timeout)[p],
                now,
                timeout,
            ) && exists|q: int|
                0 <= q < users.len() && spec_evicted(users, now, timeout)[p] == users[q]),
        forall|p: int, q: int|
            #![trigger spec_kept(users, now, timeout)[p], spec_kept(users, now, timeout)[q]]
            0 <= p < q < spec_kept(users, now, timeout).len() ==> spec_kept(
                users,
                now,
                timeout,
            )[p].addr != spec_kept(users, now, timeout)[q].addr && spec_kept(
                users,
                now,
                timeout,
            )[p].id != spec_kept(users, now, timeout)[q].id,
        forall|p: int, q: int|
            #![trigger spec_evicted(users, now, timeout)[p], spec_evicted(users, now, timeout)[q]]
            0 <= p < q < spec_evicted(users, now, timeout).len() ==> spec_evicted(
                users,
                now,
                timeout,
            )[p].addr != spec_evicted(users, now, timeout)[q].addr && spec_evicted(
                users,
                now,
                timeout,
            )[p].id != spec_evicted(users, now, timeout)[q].id,
        spec_kept(users, now, timeout).len() + spec_evicted(users, now, timeout).len()
            == users.len(),
    decreases users.len(),
{
    if users.len() == 0 {
    } else {
        let prefix = users.drop_last();
        let last = users.last();
        lemma_partition(prefix, now, timeout);
        assert(forall|i: int| 0 <= i < prefix.len() ==> prefix[i] == users[i]);
        assert(last == users[users.len() - 1]);
        let kp = spec_kept(prefix, now, timeout);
        let ep = spec_evicted(prefix, now, timeout);
        let ku = spec_kept(users, now, timeout);
        let eu = spec_evicted(users, now, timeout);
        if expired(last, now, timeout) {
            assert(ku == kp);
            assert(eu == ep.push(last));
            assert forall|p: int, q: int| 0 <= p < q < eu.len() implies eu[p].addr != eu[q].addr
                && eu[p].id != eu[q].id by {
                if q == eu.len() - 1 {
                    let w = choose|w: int| 0 <= w < prefix.len() && ep[p] == prefix[w];
                    assert(users[w].addr != last.addr && users[w].id != last.id);
                } else {
                    assert(ep[p] == eu[p] && ep[q] == eu[q]);
                }
            }
        } else {
            assert(eu == ep);
            assert(ku == kp.push(last));
            assert forall|p: int, q: int| 0 <= p < q < ku.len() implies ku[p].addr != ku[q].addr
                && ku[p].id != ku[q].id by {
                if q == ku.len() - 1 {
                    let w = choose|w: int| 0 <= w < prefix.len() && kp[p] == prefix[w];
                    assert(users[w].addr != last.addr && users[w].id != last.id);
                } else {
                    assert(kp[p] == ku[p] && kp[q] == ku[q]);
                }
            }
        }
    }
}


/// How many of the outgoing datagrams equal `o`.
pub open spec fn count_msgs(msgs: Seq<OutgoingView>, o: OutgoingView) -> nat
    decreases msgs.len(),
{
    if msgs.len() == 0 {
        0
    } else {
        count_msgs(msgs.drop_last(), o) + if msgs.last() == o {
            1nat
        } else {
            0nat
        }
    }
}

/// How many users in `s` announce with exactly this record.
pub open spec fn count_infos(users: Seq<UserView>, info: UserInfoView) -> nat
    decreases users.len(),
{
    if users.len() == 0 {
        0
    } else {
        count_infos(users.drop_last(), info) + if info_view(users.last()) == info {
            1nat
        } else {
            0nat
        }
    }
}

/// Counting distributes over concatenation of outgoing batches.
proof fn lemma_count_msgs_concat(a: Seq<OutgoingView>, b: Seq<OutgoingView>, o: OutgoingView)
    ensures
        count_msgs(a + b, o) == count_msgs(a, o) + count_msgs(b, o),
    decreases b.len(),
{
    if b.len() == 0 {
        assert(a + b =~= a);
    } else {
        assert((a + b).drop_last() =~= a + b.drop_last());
        assert((a + b).last() == b.last());
        lemma_count_msgs_concat(a, b.drop_last(), o);
    }
}

/// Under unique addresses, a full broadcast of `m` reaches each address
/// exactly once and absent addresses not at all.
proof fn lemma_broadcast_count_one(users: Seq<UserView>, m: ServerMsgView, a: u64)
    requires
        forall|i: int, j: int| 0 <= i < j < users.len() ==> users[i].addr != users[j].addr,
    ensures
        count_msgs(spec_broadcast(users, m, None), OutgoingView { addr: a, msg: m }) == if has_addr(
            users,
            a,
        ) {
            1nat
        } else {
            0nat
        },
    decreases users.len(),
{
    if users.len() == 0 {
    } else {
        let prefix = users.drop_last();
        let last = users.last();
        assert(forall|i: int| 0 <= i < prefix.len() ==> prefix[i] == users[i]);
        assert(last == users[users.len() - 1]);
        lemma_broadcast_count_one(prefix, m, a);
        let rest = spec_broadcast(prefix, m, None);
        assert(rest.push(OutgoingView { addr: last.addr, msg: m }).drop_last() =~= rest);
        if last.addr == a {
            if has_addr(prefix, a) {
                let i = choose|i: int| 0 <= i < prefix.len() && prefix[i].addr == a;
                assert(false);
            }
        } else {
            if has_addr(users, a) {
                let i = choose|i: int| 0 <= i < users.len() && users[i].addr == a;
                assert(prefix[i].addr == a);
                assert(has_addr(prefix, a));
            }
        }
    }
}

/// A broadcast of `m` contributes nothing to the count of a different
/// message.
proof fn lemma_broadcast_count_other(
    users: Seq<UserView>,
    m: ServerMsgView,
    except: Option<u64>,
    o: OutgoingView,
)
    requires
        o.msg != m,
    ensures
        count_msgs(spec_broadcast(users, m, except), o) == 0,
    decreases users.len(),
{
    if users.len() == 0 {
    } else {
        let rest = spec_broadcast(users.drop_last(), m, except);
        let u = users.last();
        assert(rest.push(OutgoingView { addr: u.addr, msg: m }).drop_last() =~= rest);
        lemma_broadcast_count_other(users.drop_last(), m, except, o);
    }
}

/// The farewell traffic delivers `Disconnected(info)` to a surviving
/// address once per evicted user bearing that record.
proof fn lemma_evict_msgs_count(
    evicted: Seq<UserView>,
    kept: Seq<UserView>,
    info: UserInfoView,
    a: u64,
)
    requires
        forall|i: int, j: int| 0 <= i < j < kept.len() ==> kept[i].addr != kept[j].addr,
        has_addr(kept, a),
    ensures
        count_msgs(
            spec_evict_msgs(evicted, kept),
            OutgoingView { addr: a, msg: ServerMsgView::Disconnected(info) },
        ) == count_infos(evicted, info),
    decreases evicted.len(),
{
    if evicted.len() == 0 {
    } else {
        let prefix = evicted.drop_last();
        let last = evicted.last();
        let bc = spec_broadcast(kept, ServerMsgView::Disconnected(info_view(last)), None);
        lemma_evict_msgs_count(prefix, kept, info, a);
        lemma_count_msgs_concat(
            spec_evict_msgs(prefix, kept),
            bc,
            OutgoingView { addr: a, msg: ServerMsgView::Disconnected(info) },
        );
        if info_view(last) == info {
            lemma_broadcast_count_one(kept, ServerMsgView::Disconnected(info), a);
        } else {
            lemma_broadcast_count_other(
                kept,
                ServerMsgView::Disconnected(info_view(last)),
                None,
                OutgoingView { addr: a, msg: ServerMsgView::Disconnected(info) },
            );
        }
    }
}

/// No user in the table bears this id, so no evicted user announces
/// with a record carrying it.
proof fn lemma_evicted_absent(
    users: Seq<UserView>,
    now: u64,
    timeout: u64,
    info: UserInfoView,
)
    requires
        forall|i: int| 0 <= i < users.len() ==> (#[trigger] users[i].id) != info.id,
    ensures
        count_infos(spec_evicted(users, now, timeout), info) == 0,
    decreases users.len(),
{
    if users.len() == 0 {
    } else {
        assert(forall|i: int| 0 <= i < users.len() - 1 ==> users.drop_last()[i] == users[i]);
        assert(users.last() == users[users.len() - 1]);
        let ep = spec_evicted(users.drop_last(), now, timeout);
        assert(ep.push(users.last()).drop_last() =~= ep);
        assert(ep.push(users.last()).last() == users.last());
        lemma_evicted_absent(users.drop_last(), now, timeout, info);
    }
}

/// An expired user appears in the evicted half exactly once.
proof fn lemma_evicted_once(users: Seq<UserView>, now: u64, timeout: u64, j: int)
    requires
        forall|i: int, k: int| 0 <= i < k < users.len() ==> users[i].id != users[k].id,
        0 <= j < users.len(),
        expired(users[j], now, timeout),
    ensures
        count_infos(spec_evicted(users, now, timeout), info_view(users[j])) == 1,
    decreases users.len(),
{
    let prefix = users.drop_last();
    let last = users.last();
    assert(forall|i: int| 0 <= i < prefix.len() ==> prefix[i] == users[i]);
    assert(last == users[users.len() - 1]);
    let ep = spec_evicted(prefix, now, timeout);
    assert(ep.push(last).drop_last() =~= ep);
    assert(ep.push(last).last() == last);
    if j == users.len() - 1 {
        lemma_evicted_absent(prefix, now, timeout, info_view(last));
    } else {
        lemma_evicted_once(prefix, now, timeout, j);
        if expired(last, now, timeout) {
            assert(last.id != users[j].id);
            assert(info_view(last).id != info_view(users[j]).id);
        }
    }
}

/// Heartbeat eviction: once a user has been silent for longer than the
/// timeout, the tick removes it from the table, and every surviving
/// address is told `Disconnected` about it exactly once.
pub proof fn lemma_heartbeat_eviction(users: Seq<UserView>, now: u64, timeout: u64, j: int, a: u64)
    requires
        forall|i: int, k: int| 0 <= i < k < users.len() ==> users[i].addr != users[k].addr,
        forall|i: int, k: int| 0 <= i < k < users.len() ==> users[i].id != users[k].id,
        0 <= j < users.len(),
        expired(users[j], now, timeout),
        has_addr(spec_kept(users, now, timeout), a),
    ensures
        !has_addr(spec_kept(users, now, timeout), users[j].addr),
        count_msgs(
            spec_evict_msgs(spec_evicted(users, now, timeout), spec_kept(users, now, timeout)),
            OutgoingView { addr: a, msg: ServerMsgView::Disconnected(info_view(users[j])) },
        ) == 1,
{
    lemma_partition(users, now, timeout);
    let kept = spec_kept(users, now, timeout);
    let ev = spec_evicted(users, now, timeout);
    if has_addr(kept, users[j].addr) {
        let p = choose|p: int| 0 <= p < kept.len() && kept[p].addr == users[j].addr;
        let q = choose|q: int| 0 <= q < users.len() && kept[p] == users[q];
        if q != j {
            assert(users[q].addr != users[j].addr);
        }
        assert(!expired(kept[p], now, timeout));
        assert(false);
    }
    lemma_evicted_once(users, now, timeout, j);
    lemma_evict_msgs_count(ev, kept, info_view(users[j]), a);
}

/// Send `msg` to every user in the table except the address in `ignore`.
pub fn broadcast(users: &Vec<User>, msg: &ServerMessage, ignore: Option<u64>) -> (r: Vec<
    Outgoing,
>)
    ensures
        out_views(r@) == spec_broadcast(user_views(users@), msg@, ignore),
{
    let mut out: Vec<Outgoing> = Vec::new();
    let mut i: usize = 0;
    while i < users.len()
        invariant
            i <= users.len(),
            out_views(out@) == spec_broadcast(user_views(users@).subrange(0, i as int), msg@, ignore),
        decreases users.len() - i,
    {
        let skip = match ignore {
            Some(a) => users[i].addr == a,
            None => false,
        };
        if !skip {
            out.push(Outgoing { addr: users[i].addr, msg: msg.dup() });
        }
        i = i + 1;
        proof {
            let uv = user_views(users@);
            assert(uv.subrange(0, i as int).drop_last() =~= uv.subrange(0, i - 1));
            assert(uv.subrange(0, i as int).last() == users@[i - 1]@);
            assert(out_views(out@) =~= spec_broadcast(uv.subrange(0, i as int), msg@, ignore));
        }
    }
    proof {
        assert(user_views(users@).subrange(0, users@.len() as int) =~= user_views(users@));
    }
    out
}

/// Announce every current user to the newcomer at `to`.
fn roster_for(users: &Vec<User>, to: u64) -> (r: Vec<Outgoing>)
    ensures
        out_views(r@) == spec_roster(user_views(users@), to),
{
    let mut out: Vec<Outgoing> = Vec::new();
    let mut i: usize = 0;
    while i < users.len()
        invariant
            i <= users.len(),
            out@.len() == i,
            out_views(out@) =~= spec_roster(user_views(users@), to).subrange(0, i as int),
        decreases users.len() - i,
    {
        out.push(Outgoing { addr: to, msg: ServerMessage::Connected(users[i].info()) });
        i = i + 1;
        assert(out_views(out@) =~= spec_roster(user_views(users@), to).subrange(0, i as int));
    }
    proof {
        assert(out_views(out@) =~= spec_roster(user_views(users@), to));
    }
    out
}

/// The relay server's whole mutable state: settings, the user table,
/// and the id counter.
pub struct Server {
    pub config: ServerConfig,
    pub users: Vec<User>,
    pub counter: u32,
}

impl Server {
    /// Table invariant: addresses are unique keys, ids are unique and
    /// all below the counter, so a fresh id never collides.
    pub open spec fn wf(&self) -> bool {
        &&& forall|i: int, j: int|
            0 <= i < j < self.users@.len() ==> self.users@[i]@.addr != self.users@[j]@.addr
        &&& forall|i: int, j: int|
            0 <= i < j < self.users@.len() ==> self.users@[i]@.id != self.users@[j]@.id
        &&& forall|i: int| 0 <= i < self.users@.len() ==> #[trigger] self.users@[i]@.id
            < self.counter
    }

    /// A fresh server with an empty table.
    pub fn new(config: ServerConfig) -> (r: Server)
        ensures
            r.wf(),
            r.config == config,
            r.users@.len() == 0,
            r.counter == 0,
    {
        Server { config, users: Vec::new(), counter: 0 }
    }

    /// The index of the user sending from `addr`, if one is connected.
    fn find_user(&self, addr: u64) -> (r: Option<usize>)
        ensures
            match r {
                Some(i) => i < self.users@.len() && self.users@[i as int]@.addr == addr,
                None => !has_addr(user_views(self.users@), addr),
            },
    {
        let mut i: usize = 0;
        while i < self.users.len()
            invariant
                i <= self.users@.len(),
                forall|j: int| 0 <= j < i ==> user_views(self.users@)[j].addr != addr,
            decreases self.users@.len() - i,
        {
            if self.users[i].addr == addr {
                return Some(i);
            }
            i = i + 1;
        }
        None
    }

    /// Dispatch one datagram, already decoded, received from `addr` at
    /// clock reading `now`.  Returns the datagrams to send in order.
    ///
    /// The cases follow the per-address lifecycle: an unknown address
    /// may only `Connect`; a known one is refreshed by `Ping` and
    /// `Voice`, has its voice relayed to everyone else, and is removed
    /// by `Disconnect` with a farewell broadcast.  A duplicate
    /// `Connect` is dropped without reply, as is a `Connect` arriving
    /// when every id has been handed out.
    pub fn handle_command(&mut self, addr: u64, now: u64, msg: ClientMessage) -> (r: Vec<Outgoing>)
        requires
            old(self).wf(),
        ensures
            final(self).wf(),
            final(self).config == old(self).config,
            ({
                let u0 = user_views(old(self).users@);
                let u1 = user_views(final(self).users@);
                let out = out_views(r@);
                match msg@ {
                    ClientMsgView::Connect { username } => {
                        if has_addr(u0, addr) || old(self).counter == u32::MAX {
                            u1 == u0 && final(self).counter == old(self).counter && out.len() == 0
                        } else {
                            let nu = UserView {
                                id: old(self).counter,
                                username,
                                addr,
                                last_reply: now,
                            };
                            &&& u1 == u0.push(nu)
                            &&& final(self).counter == old(self).counter + 1
                            &&& out == seq![OutgoingView { addr, msg: ServerMsgView::Pong }]
                                + spec_roster(u0, addr) + spec_broadcast(
                                u0,
                                ServerMsgView::Connected(info_view(nu)),
                                Some(addr),
                            )
                        }
                    }
                    ClientMsgView::Disconnect => {
                        if has_addr(u0, addr) {
                            let i = addr_index(u0, addr);
                            &&& u1 == u0.remove(i)
                            &&& final(self).counter == old(self).counter
                            &&& out == spec_broadcast(
                                u0.remove(i),
                                ServerMsgView::Disconnected(info_view(u0[i])),
                                None,
                            )
                        } else {
                            u1 == u0 && final(self).counter == old(self).counter && out.len() == 0
                        }
                    }
                    ClientMsgView::Ping => {
                        if has_addr(u0, addr) {
                            &&& u1 == spec_refresh(u0, addr, now)
                            &&& final(self).counter == old(self).counter
                            &&& out == seq![OutgoingView { addr, msg: ServerMsgView::Pong }]
                        } else {
                            u1 == u0 && final(self).counter == old(self).counter && out.len() == 0
                        }
                    }
                    ClientMsgView::Voice { seq_num, samples } => {
                        if has_addr(u0, addr) {
                            let i = addr_index(u0, addr);
                            let pak = crate::packets::AudioPacketView {
                                seq_num,
                                peer_id: (u0[i].id % 256) as u8,
                                data: samples,
                            };
                            &&& u1 == spec_refresh(u0, addr, now)
                            &&& final(self).counter == old(self).counter
                            &&& out == spec_broadcast(
                                spec_refresh(u0, addr, now),
                                ServerMsgView::Voice(pak),
                                Some(addr),
                            )
                        } else {
                            u1 == u0 && final(self).counter == old(self).counter && out.len() == 0
                        }
                    }
                }
            }),
    {
        let found = self.find_user(addr);
        match msg {
            ClientMessage::Connect { username } => {
                if found.is_some() || self.counter == u32::MAX {
                    proof {
                        match found {
                            Some(i) => {
                                assert(user_views(self.users@)[i as int].addr == addr);
                                assert(has_addr(user_views(self.users@), addr));
                            }
                            None => {}
                        }
                    }
                    return Vec::new();
                }
                let id = self.counter;
                let new_user = User { id, username, addr, last_reply: now };
                let info = new_user.info();
                let mut out: Vec<Outgoing> = Vec::new();
                out.push(Outgoing { addr, msg: ServerMessage::Pong });
                let mut roster = roster_for(&self.users, addr);
                out.append(&mut roster);
                let mut bc = broadcast(
                    &self.users,
                    &ServerMessage::Connected(info),
                    Some(addr),
                );
                out.append(&mut bc);
                self.users.push(new_user);
                self.counter = id + 1;
                proof {
                    let u0 = user_views(old(self).users@);
                    let u1 = user_views(self.users@);
                    assert(u1 =~= u0.push(new_user@));
                    let n = self.users@.len();
                    assert forall|p: int| 0 <= p < n implies u1[p] == self.users@[p]@ && (p < n - 1
                        ==> u1[p] == old(self).users@[p]@) by {}
                    assert forall|p: int, q: int| 0 <= p < q < n implies self.users@[p]@.addr
                        != self.users@[q]@.addr && self.users@[p]@.id != self.users@[q]@.id by {
                        if q == n - 1 {
                            assert(old(self).users@[p]@.id < old(self).counter);
                            if u0[p].addr == addr {
                                assert(has_addr(u0, addr));
                            }
                        } else {
                            assert(old(self).users@[p]@.addr != old(self).users@[q]@.addr);
                            assert(old(self).users@[p]@.id != old(self).users@[q]@.id);
                        }
                    }
                    assert forall|p: int| 0 <= p < n implies self.users@[p]@.id < self.counter by {
                        if p < n - 1 {
                            assert(old(self).users@[p]@.id < old(self).counter);
                        }
                    }
                    assert(out_views(out@) =~= seq![
                        OutgoingView { addr, msg: ServerMsgView::Pong },
                    ] + spec_roster(u0, addr) + spec_broadcast(
                        u0,
                        ServerMsgView::Connected(info_view(new_user@)),
                        Some(addr),
                    ));
                }
                out
            }
            ClientMessage::Disconnect => {
                match found {
                    Some(i) => {
                        let ghost u0 = user_views(old(self).users@);
                        proof {
                            assert(u0[i as int].addr == addr);
                            assert(has_addr(u0, addr));
                            let j = addr_index(u0, addr);
                            assert(u0[j].addr == addr);
                            if j != i {
                                assert(false);
                            }
                        }
                        let u = self.users.remove(i);
                        let out = broadcast(
                            &self.users,
                            &ServerMessage::Disconnected(u.info()),
                            None,
                        );
                        proof {
                            assert(user_views(self.users@) =~= u0.remove(i as int));
                        }
                        out
                    }
                    None => Vec::new(),
                }
            }
            ClientMessage::Ping => {
                match found {
                    Some(i) => {
                        proof {
                            let u0 = user_views(old(self).users@);
                            assert(u0[i as int].addr == addr);
                            assert(has_addr(u0, addr));
                        }
                        self.refresh_at(i, now);
                        let mut out: Vec<Outgoing> = Vec::new();
                        out.push(Outgoing { addr, msg: ServerMessage::Pong });
                        proof {
                            assert(out_views(out@) =~= seq![
                                OutgoingView { addr, msg: ServerMsgView::Pong },
                            ]);
                        }
                        out
                    }
                    None => Vec::new(),
                }
            }
            ClientMessage::Voice { seq_num, samples } => {
                match found {
                    Some(i) => {
                        let ghost u0 = user_views(old(self).users@);
                        proof {
                            assert(u0[i as int].addr == addr);
                            assert(has_addr(u0, addr));
                            let j = addr_index(u0, addr);
                            assert(u0[j].addr == addr);
                            if j != i {
                                assert(false);
                            }
                        }
                        self.refresh_at(i, now);
                        let uid = self.users[i].id;
                        let pid = (uid % 256) as u8;
                        let pak = AudioPacket { seq_num, peer_id: pid, data: samples };
                        let out = broadcast(
                            &self.users,
                            &ServerMessage::Voice(pak),
                            Some(addr),
                        );
                        out
                    }
                    None => Vec::new(),
                }
            }
        }
    }

    /// One heartbeat: drop every user whose last reply is older than the
    /// timeout at clock reading `now`, and tell the remaining users about
    /// each eviction.
    pub fn heartbeat_tick(&mut self, now: u64) -> (r: Vec<Outgoing>)
        requires
            old(self).wf(),
        ensures
            final(self).wf(),
            final(self).config == old(self).config,
            final(self).counter == old(self).counter,
            user_views(final(self).users@) == spec_kept(
                user_views(old(self).users@),
                now,
                old(self).config.timeout_ms,
            ),
            out_views(r@) == spec_evict_msgs(
                spec_evicted(user_views(old(self).users@), now, old(self).config.timeout_ms),
                spec_kept(user_views(old(self).users@), now, old(self).config.timeout_ms),
            ),
    {
        let timeout = self.config.timeout_ms;
        let ghost u0 = user_views(self.users@);
        let mut kept: Vec<User> = Vec::new();
        let mut evicted: Vec<User> = Vec::new();
        let mut i: usize = 0;
        while i < self.users.len()
            invariant
                i <= self.users@.len(),
                u0 == user_views(self.users@),
                timeout == self.config.timeout_ms,
                user_views(kept@) == spec_kept(u0.subrange(0, i as int), now, timeout),
                user_views(evicted@) == spec_evicted(u0.subrange(0, i as int), now, timeout),
            decreases self.users@.len() - i,
        {
            let exp = now > self.users[i].last_reply && now - self.users[i].last_reply > timeout;
            proof {
                assert(exp == expired(u0[i as int], now, timeout));
            }
            if exp {
                evicted.push(self.users[i].dup());
            } else {
                kept.push(self.users[i].dup());
            }
            i = i + 1;
            proof {
                assert(u0.subrange(0, i as int).drop_last() =~= u0.subrange(0, i - 1));
                assert(u0.subrange(0, i as int).last() == u0[i - 1]);
                assert(user_views(kept@) =~= spec_kept(u0.subrange(0, i as int), now, timeout));
                assert(user_views(evicted@) =~= spec_evicted(
                    u0.subrange(0, i as int),
                    now,
                    timeout,
                ));
            }
        }
        proof {
            assert(u0.subrange(0, u0.len() as int) =~= u0);
        }
        self.users = kept;
        proof {
            lemma_partition(u0, now, timeout);
            let k = spec_kept(u0, now, timeout);
            assert forall|p: int, q: int| 0 <= p < q < self.users@.len() implies
                self.users@[p]@.addr != self.users@[q]@.addr && self.users@[p]@.id
                != self.users@[q]@.id by {
                assert(user_views(self.users@)[p] == self.users@[p]@);
                assert(user_views(self.users@)[q] == self.users@[q]@);
            }
            assert forall|p: int| 0 <= p < self.users@.len() implies self.users@[p]@.id
                < self.counter by {
                let q = choose|q: int| 0 <= q < u0.len() && k[p] == u0[q];
                assert(old(self).users@[q]@.id < old(self).counter);
            }
        }
        let mut out: Vec<Outgoing> = Vec::new();
        let mut k: usize = 0;
        let ghost keptv = user_views(self.users@);
        while k < evicted.len()
            invariant
                k <= evicted.len(),
                keptv == user_views(self.users@),
                out_views(out@) == spec_evict_msgs(
                    user_views(evicted@).subrange(0, k as int),
                    keptv,
                ),
            decreases evicted.len() - k,
        {
            let mut bc = broadcast(
                &self.users,
                &ServerMessage::Disconnected(evicted[k].info()),
                None,
            );
            out.append(&mut bc);
            k = k + 1;
            proof {
                let ev = user_views(evicted@);
                assert(ev.subrange(0, k as int).drop_last() =~= ev.subrange(0, k - 1));
                assert(ev.subrange(0, k as int).last() == evicted@[k - 1]@);
                assert(out_views(out@) =~= spec_evict_msgs(ev.subrange(0, k as int), keptv));
            }
        }
        proof {
            assert(user_views(evicted@).subrange(0, evicted@.len() as int) =~= user_views(
                evicted@,
            ));
        }
        out
    }

    /// Set `last_reply` of the user at index `i` to `now`.
    fn refresh_at(&mut self, i: usize, now: u64)
        requires
            old(self).wf(),
            i < old(self).users@.len(),
        ensures
            final(self).wf(),
            final(self).config == old(self).config,
            final(self).counter == old(self).counter,
            user_views(final(self).users@) == spec_refresh(
                user_views(old(self).users@),
                old(self).users@[i as int]@.addr,
                now,
            ),
            final(self).users@[i as int]@.addr == old(self).users@[i as int]@.addr,
            final(self).users@[i as int]@.id == old(self).users@[i as int]@.id,
            final(self).users@.len() == old(self).users@.len(),
    {
        let nu = User {
            id: self.users[i].id,
            username: self.users[i].username.clone(),
            addr: self.users[i].addr,
            last_reply: now,
        };
        self.users.set(i, nu);
        proof {
            let u0 = user_views(old(self).users@);
            let u1 = user_views(self.users@);
            let a = old(self).users@[i as int]@.addr;
            assert(u1 =~= spec_refresh(u0, a, now));
            assert forall|j: int| 0 <= j < u1.len() implies u1[j].addr == u0[j].addr && u1[j].id
                == u0[j].id && u1[j] == self.users@[j]@ && u0[j] == old(self).users@[j]@ by {}
            assert forall|p: int| 0 <= p < self.users@.len() implies self.users@[p]@.id
                < self.counter by {
                assert(old(self).users@[p]@.id < old(self).counter);
            }
        }
    }
}

} // verus!
