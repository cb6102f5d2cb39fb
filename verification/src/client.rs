//! The client's session logic: the handshake rule, the outbound voice
//! counter, the dispatch of server messages, and traffic statistics.
//! The surrounding task owns the socket; it feeds received messages in
//! and sends what these functions hand back.
use vstd::prelude::*;

use crate::packets::{
    seq_greater, AudioPacket, ClientMessage, ClientMsgView, SeqNum, ServerMessage, UserInfo,
};
use crate::stats::AtomicCounter;

verus! {

/// Session traffic counters, with a plain-number snapshot form.
pub struct Statistics<C = AtomicCounter> {
    pub bytes_sent: C,
    pub bytes_received: C,
    pub packets_sent: C,
    pub packets_received: C,
}

impl Statistics<AtomicCounter> {
    /// Fresh counters at zero.
    pub fn new() -> (r: Self)
        ensures
            r.bytes_sent.0 == 0,
            r.bytes_received.0 == 0,
            r.packets_sent.0 == 0,
            r.packets_received.0 == 0,
    {
        Statistics {
            bytes_sent: AtomicCounter(0),
            bytes_received: AtomicCounter(0),
            packets_sent: AtomicCounter(0),
            packets_received: AtomicCounter(0),
        }
    }

    /// A plain snapshot of the four counts.
    pub fn get(&self) -> (r: Statistics<usize>)
        ensures
            r.bytes_sent == self.bytes_sent.0,
            r.bytes_received == self.bytes_received.0,
            r.packets_sent == self.packets_sent.0,
            r.packets_received == self.packets_received.0,
    {
        Statistics {
            bytes_sent: self.bytes_sent.get(),
            bytes_received: self.bytes_received.get(),
            packets_sent: self.packets_sent.get(),
            packets_received: self.packets_received.get(),
        }
    }
}

/// What an inbound server message means for the layers above: an event
/// for the user interface or samples for the mixer.
pub enum ClientEvent {
    /// A keep-alive answer; nothing to do.
    Pong,
    /// A peer joined; add it to the mixer and tell the user.
    Joined(UserInfo),
    /// A peer left; remove it from the mixer and tell the user.
    Left(UserInfo),
    /// A relayed voice frame to decode and queue for its peer.
    Voice(AudioPacket),
}

/// The client half of a session: connection state, the monotone voice
/// counter, and traffic statistics.  The socket itself stays with the
/// caller.
pub struct Client {
    pub seq_num: SeqNum,
    pub connected: bool,
    pub stats: Statistics<AtomicCounter>,
}

impl Client {
    /// The next sequence number a voice packet would carry.
    pub open spec fn spec_seq(&self) -> u16 {
        self.seq_num.0
    }

    /// Whether the handshake has completed.
    pub open spec fn spec_connected(&self) -> bool {
        self.connected
    }

    /// A session that has not connected yet, counting from zero.
    pub fn new() -> (r: Client)
        ensures
            r.spec_seq() == 0,
            !r.spec_connected(),
            r.stats.bytes_sent.0 == 0,
            r.stats.bytes_received.0 == 0,
            r.stats.packets_sent.0 == 0,
            r.stats.packets_received.0 == 0,
    {
        Client { seq_num: SeqNum(0), connected: false, stats: Statistics::new() }
    }

    /// Whether the handshake has completed.
    pub fn connected(&self) -> (r: bool)
        ensures
            r == self.spec_connected(),
    {
        self.connected
    }

    /// The message that opens the handshake.
    pub fn connect_request(&self, username: String) -> (m: ClientMessage)
        ensures
            m@ == (ClientMsgView::Connect { username: username@ }),
    {
        ClientMessage::Connect { username }
    }

    /// Judge the first reply of the handshake: only `Pong` accepts the
    /// connection; any other kind rejects it and leaves the session
    /// unconnected.
    pub fn handle_connect_reply(&mut self, msg: &ServerMessage) -> (ok: bool)
        ensures
            ok == msg@ is Pong,
            final(self).spec_connected() == (old(self).spec_connected() || msg@ is Pong),
            final(self).spec_seq() == old(self).spec_seq(),
            final(self).stats == old(self).stats,
    {
        match msg {
            ServerMessage::Pong => {
                self.connected = true;
                true
            }
            _ => false,
        }
    }

    /// Take the current sequence number and advance the counter.  The
    /// number taken always orders strictly after the one before it.
    pub fn next_seq(&mut self) -> (s: SeqNum)
        ensures
            s == old(self).seq_num,
            final(self).spec_seq() == (old(self).spec_seq() + 1) % 0x1_0000,
            seq_greater(final(self).spec_seq(), old(self).spec_seq()),
            final(self).spec_connected() == old(self).spec_connected(),
            final(self).stats == old(self).stats,
    {
        let s = self.seq_num;
        self.seq_num = self.seq_num.wrapping_add(1);
        s
    }

    /// Stamp one encoded frame as the next outbound voice message.
    pub fn voice_message(&mut self, samples: Vec<u8>) -> (m: ClientMessage)
        ensures
            m@ == (ClientMsgView::Voice { seq_num: old(self).spec_seq(), samples: samples@ }),
            final(self).spec_seq() == (old(self).spec_seq() + 1) % 0x1_0000,
            seq_greater(final(self).spec_seq(), old(self).spec_seq()),
            final(self).spec_connected() == old(self).spec_connected(),
            final(self).stats == old(self).stats,
    {
        let seq_num = self.next_seq();
        ClientMessage::Voice { seq_num, samples }
    }

    /// Account one sent datagram of `bytes` bytes.
    pub fn record_sent(&mut self, bytes: usize)
        ensures
            final(self).stats.packets_sent.0 == (old(self).stats.packets_sent.0 + 1) % (
            usize::MAX + 1),
            final(self).stats.bytes_sent.0 == (old(self).stats.bytes_sent.0 + bytes) % (
            usize::MAX + 1),
            final(self).stats.packets_received == old(self).stats.packets_received,
            final(self).stats.bytes_received == old(self).stats.bytes_received,
            final(self).spec_seq() == old(self).spec_seq(),
            final(self).spec_connected() == old(self).spec_connected(),
    {
        self.stats.packets_sent.inc();
        self.stats.bytes_sent.add(bytes);
    }

    /// Account one received datagram of `bytes` bytes.
    pub fn record_received(&mut self, bytes: usize)
        ensures
            final(self).stats.packets_received.0 == (old(self).stats.packets_received.0 + 1) % (
            usize::MAX + 1),
            final(self).stats.bytes_received.0 == (old(self).stats.bytes_received.0 + bytes) % (
            usize::MAX + 1),
            final(self).stats.packets_sent == old(self).stats.packets_sent,
            final(self).stats.bytes_sent == old(self).stats.bytes_sent,
            final(self).spec_seq() == old(self).spec_seq(),
            final(self).spec_connected() == old(self).spec_connected(),
    {
        self.stats.packets_received.inc();
        self.stats.bytes_received.add(bytes);
    }

    /// Turn an inbound server message into the event it stands for.
    pub fn handle_message(&self, msg: ServerMessage) -> (r: ClientEvent)
        ensures
            match msg@ {
                crate::packets::ServerMsgView::Pong => r is Pong,
                crate::packets::ServerMsgView::Connected(u) => r matches ClientEvent::Joined(e)
                    && e@ == u,
                crate::packets::ServerMsgView::Disconnected(u) => r matches ClientEvent::Left(e)
                    && e@ == u,
                crate::packets::ServerMsgView::Voice(p) => r matches ClientEvent::Voice(e) && e@
                    == p,
            },
    {
        match msg {
            ServerMessage::Pong => ClientEvent::Pong,
            ServerMessage::Connected(u) => ClientEvent::Joined(u),
            ServerMessage::Disconnected(u) => ClientEvent::Left(u),
            ServerMessage::Voice(p) => ClientEvent::Voice(p),
        }
    }

    /// The farewell sent on a clean teardown.
    pub fn disconnect_message(&self) -> (m: ClientMessage)
        ensures
            m@ is Disconnect,
    {
        ClientMessage::Disconnect
    }
}

} // verus!
