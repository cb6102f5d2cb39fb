//! Message types exchanged between client and server, and the 16-bit
//! wraparound-aware sequence number used to order voice packets.
use vstd::prelude::*;

use core::cmp::Ordering;

verus! {

/// Half of the sequence-number ring: the comparison window.
pub const SEQ_HALF: u16 = 0x7fff;

/// A 16-bit sequence number with wrapping addition and an ordering that
/// treats values as points on a ring: `a` is "greater" than `b` when `a`
/// lies less than half the ring ahead of `b`.
#[derive(PartialEq, Eq, Structural, Clone, Copy, Debug)]
pub struct SeqNum(pub u16);

/// The distance walked forward from `b` to `a` on the 16-bit ring,
/// that is `(a - b) mod 2^16`.
pub open spec fn wrap_diff(a: u16, b: u16) -> int {
    if a >= b {
        a - b
    } else {
        a - b + 0x1_0000
    }
}

/// `a` comes after `b` in sequence-number order: they differ, and either
/// `a` is at most half a ring above `b`, or `a` has wrapped around while
/// `b` has not.
pub open spec fn seq_greater(a: u16, b: u16) -> bool {
    &&& a != b
    &&& ((a > b && a - b <= SEQ_HALF) || (a < b && b - a > SEQ_HALF))
}

impl SeqNum {
    /// Advance the counter, rolling over past `u16::MAX`.
    pub fn wrapping_add(self, rhs: u16) -> (r: SeqNum)
        ensures
            r.0 == (self.0 + rhs) % 0x1_0000,
    {
        SeqNum(self.0.wrapping_add(rhs))
    }

    /// Whether `self` comes after `other` in wraparound order.
    pub fn is_after(&self, other: &SeqNum) -> (r: bool)
        ensures
            r == seq_greater(self.0, other.0),
    {
        let (a, b) = (self.0, other.0);
        a != b && ((a > b && a - b <= SEQ_HALF) || (a < b && b - a > SEQ_HALF))
    }
}

impl From<u16> for SeqNum {
    fn from(value: u16) -> (r: Self) {
        SeqNum(value)
    }
}

impl vstd::std_specs::convert::FromSpecImpl<u16> for SeqNum {
    open spec fn obeys_from_spec() -> bool {
        true
    }

    open spec fn from_spec(value: u16) -> Self {
        SeqNum(value)
    }
}

impl PartialOrd for SeqNum {
    fn partial_cmp(&self, other: &Self) -> (r: Option<Ordering>) {
        let (a, b) = (self.0, other.0);
        if a == b {
            Some(Ordering::Equal)
        } else if (a > b && a - b <= SEQ_HALF) || (a < b && b - a > SEQ_HALF) {
            Some(Ordering::Greater)
        } else {
            Some(Ordering::Less)
        }
    }
}

impl vstd::std_specs::cmp::PartialOrdSpecImpl for SeqNum {
    open spec fn obeys_partial_cmp_spec() -> bool {
        true
    }

    open spec fn partial_cmp_spec(&self, other: &Self) -> Option<Ordering> {
        if self.0 == other.0 {
            Some(Ordering::Equal)
        } else if seq_greater(self.0, other.0) {
            Some(Ordering::Greater)
        } else {
            Some(Ordering::Less)
        }
    }
}

/// The ring order is antisymmetric everywhere, even at the ambiguous
/// antipode: two sequence numbers never both come after each other.
pub proof fn lemma_seq_order_antisymmetric(a: u16, b: u16)
    ensures
        !(seq_greater(a, b) && seq_greater(b, a)),
{
}

/// Inside a window of less than half the ring starting at `base`, the
/// ring order is exactly the order of offsets from `base`.  This is the
/// sense in which the ordering is sound as long as the live window of
/// sequence numbers stays below `2^15`.
pub proof fn lemma_seq_order_in_window(base: u16, a: u16, b: u16)
    requires
        wrap_diff(a, base) < 0x8000,
        wrap_diff(b, base) < 0x8000,
    ensures
        seq_greater(a, b) <==> wrap_diff(a, base) > wrap_diff(b, base),
{
}

/// Within one window the order is transitive, so a chain of pairwise
/// ordered numbers is ordered end to end.
pub proof fn lemma_seq_order_transitive_in_window(base: u16, a: u16, b: u16, c: u16)
    requires
        wrap_diff(a, base) < 0x8000,
        wrap_diff(b, base) < 0x8000,
        wrap_diff(c, base) < 0x8000,
        !seq_greater(a, b),
        !seq_greater(b, c),
    ensures
        !seq_greater(a, c),
{
    lemma_seq_order_in_window(base, a, b);
    lemma_seq_order_in_window(base, b, c);
    lemma_seq_order_in_window(base, a, c);
}

/// A participant as announced by the server: the id it assigned on
/// connect and the name the user chose.
pub struct UserInfo {
    pub id: u32,
    pub username: String,
}

/// Ghost form of [`UserInfo`]: the name as a character sequence.
pub struct UserInfoView {
    pub id: u32,
    pub username: Seq<char>,
}

impl View for UserInfo {
    type V = UserInfoView;

    open spec fn view(&self) -> UserInfoView {
        UserInfoView { id: self.id, username: self.username@ }
    }
}

impl UserInfo {
    /// A copy of this record, field by field.
    pub fn dup(&self) -> (r: UserInfo)
        ensures
            r@ == self@,
    {
        UserInfo { id: self.id, username: self.username.clone() }
    }
}

/// What a client may send to the server.
pub enum ClientMessage {
    /// Request to join, carrying the chosen name.
    Connect { username: String },
    /// Leave the session.
    Disconnect,
    /// Keep-alive; the server answers with `Pong`.
    Ping,
    /// One encoded voice frame, stamped with the sender's counter.
    Voice { seq_num: SeqNum, samples: Vec<u8> },
}

/// Ghost form of [`ClientMessage`].
pub enum ClientMsgView {
    Connect { username: Seq<char> },
    Disconnect,
    Ping,
    Voice { seq_num: u16, samples: Seq<u8> },
}

impl View for ClientMessage {
    type V = ClientMsgView;

    open spec fn view(&self) -> ClientMsgView {
        match self {
            ClientMessage::Connect { username } => ClientMsgView::Connect {
                username: username@,
            },
            ClientMessage::Disconnect => ClientMsgView::Disconnect,
            ClientMessage::Ping => ClientMsgView::Ping,
            ClientMessage::Voice { seq_num, samples } => ClientMsgView::Voice {
                seq_num: seq_num.0,
                samples: samples@,
            },
        }
    }
}

/// One peer's voice frame as relayed by the server.
pub struct AudioPacket {
    pub seq_num: SeqNum,
    pub peer_id: crate::PeerID,
    pub data: Vec<u8>,
}

/// Ghost form of [`AudioPacket`].
pub struct AudioPacketView {
    pub seq_num: u16,
    pub peer_id: u8,
    pub data: Seq<u8>,
}

impl View for AudioPacket {
    type V = AudioPacketView;

    open spec fn view(&self) -> AudioPacketView {
        AudioPacketView { seq_num: self.seq_num.0, peer_id: self.peer_id, data: self.data@ }
    }
}

/// What the server may send to a client.
pub enum ServerMessage {
    /// Answer to `Connect` and to `Ping`.
    Pong,
    /// A user joined (also sent once per existing user to a newcomer).
    Connected(UserInfo),
    /// A user left or timed out.
    Disconnected(UserInfo),
    /// A relayed voice frame from another peer.
    Voice(AudioPacket),
}

/// Ghost form of [`ServerMessage`].
pub enum ServerMsgView {
    Pong,
    Connected(UserInfoView),
    Disconnected(UserInfoView),
    Voice(AudioPacketView),
}

impl View for ServerMessage {
    type V = ServerMsgView;

    open spec fn view(&self) -> ServerMsgView {
        match self {
            ServerMessage::Pong => ServerMsgView::Pong,
            ServerMessage::Connected(u) => ServerMsgView::Connected(u@),
            ServerMessage::Disconnected(u) => ServerMsgView::Disconnected(u@),
            ServerMessage::Voice(p) => ServerMsgView::Voice(p@),
        }
    }
}

/// Copy a byte vector element by element.
pub fn copy_bytes(v: &Vec<u8>) -> (r: Vec<u8>)
    ensures
        r@ == v@,
{
    let mut r: Vec<u8> = Vec::new();
    let mut i: usize = 0;
    while i < v.len()
        invariant
            i <= v.len(),
            r@ == v@.subrange(0, i as int),
        decreases v.len() - i,
    {
        r.push(v[i]);
        i = i + 1;
        assert(r@ =~= v@.subrange(0, i as int));
    }
    assert(r@ =~= v@);
    r
}

impl AudioPacket {
    /// A field-by-field copy.
    pub fn dup(&self) -> (r: AudioPacket)
        ensures
            r@ == self@,
    {
        AudioPacket { seq_num: self.seq_num, peer_id: self.peer_id, data: copy_bytes(&self.data) }
    }
}

impl ServerMessage {
    /// A copy with the same ghost view, used when one message goes to
    /// several recipients.
    pub fn dup(&self) -> (r: ServerMessage)
        ensures
            r@ == self@,
    {
        match self {
            ServerMessage::Pong => ServerMessage::Pong,
            ServerMessage::Connected(u) => ServerMessage::Connected(u.dup()),
            ServerMessage::Disconnected(u) => ServerMessage::Disconnected(u.dup()),
            ServerMessage::Voice(p) => ServerMessage::Voice(p.dup()),
        }
    }
}

/// Sequence-number order is decisive away from the ambiguous antipode:
/// for any `a`, `b` whose ring distance is not exactly `2^15`, exactly one
/// of `a` after `b`, `b` after `a`, or `a == b` holds, and `a` comes after
/// `b` precisely when `(a - b) mod 2^16` is below `2^15`.
pub proof fn lemma_seq_order_total(a: u16, b: u16)
    requires
        wrap_diff(a, b) != 0x8000,
    ensures
        seq_greater(a, b) <==> (a != b && wrap_diff(a, b) < 0x8000),
        a == b ==> !seq_greater(a, b) && !seq_greater(b, a),
        a != b ==> (seq_greater(a, b) <==> !seq_greater(b, a)),
{
}

} // verus!
