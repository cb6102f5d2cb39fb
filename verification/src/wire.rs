//! The byte layout of messages on the wire: little-endian fields, a
//! four-byte variant tag, and length-prefixed payloads.  Encoding is
//! total; decoding accepts exactly the byte strings that some message
//! encodes to, and rejects everything else.
use vstd::prelude::*;

use crate::packets::{
    AudioPacket, ClientMessage, ClientMsgView, SeqNum, ServerMessage, ServerMsgView, UserInfo,
    UserInfoView,
};
use vstd::utf8::{decode_utf8, encode_utf8, valid_utf8};

verus! {

/// The two bytes of `x` in little-endian order.
pub open spec fn u16_le(x: u16) -> Seq<u8> {
    seq![(x & 0xff) as u8, ((x >> 8) & 0xff) as u8]
}

/// The value stored by two little-endian bytes.
pub open spec fn u16_of_le(b0: u8, b1: u8) -> u16 {
    (b0 as u16) | ((b1 as u16) << 8)
}

/// The four bytes of `x` in little-endian order.
pub open spec fn u32_le(x: u32) -> Seq<u8> {
    seq![
        (x & 0xff) as u8,
        ((x >> 8) & 0xff) as u8,
        ((x >> 16) & 0xff) as u8,
        ((x >> 24) & 0xff) as u8,
    ]
}

/// The value stored by four little-endian bytes.
pub open spec fn u32_of_le(b0: u8, b1: u8, b2: u8, b3: u8) -> u32 {
    (b0 as u32) | ((b1 as u32) << 8) | ((b2 as u32) << 16) | ((b3 as u32) << 24)
}

/// The eight bytes of `x` in little-endian order.
pub open spec fn u64_le(x: u64) -> Seq<u8> {
    seq![
        (x & 0xff) as u8,
        ((x >> 8) & 0xff) as u8,
        ((x >> 16) & 0xff) as u8,
        ((x >> 24) & 0xff) as u8,
        ((x >> 32) & 0xff) as u8,
        ((x >> 40) & 0xff) as u8,
        ((x >> 48) & 0xff) as u8,
        ((x >> 56) & 0xff) as u8,
    ]
}

/// The value stored by eight little-endian bytes.
pub open spec fn u64_of_le(
    b0: u8,
    b1: u8,
    b2: u8,
    b3: u8,
    b4: u8,
    b5: u8,
    b6: u8,
    b7: u8,
) -> u64 {
    (b0 as u64) | ((b1 as u64) << 8) | ((b2 as u64) << 16) | ((b3 as u64) << 24) | ((b4
        as u64) << 32) | ((b5 as u64) << 40) | ((b6 as u64) << 48) | ((b7 as u64) << 56)
}

/// Reading back the two bytes of `x` yields `x`.
pub proof fn lemma_u16_le_round_trip(x: u16)
    ensures
        u16_of_le((x & 0xff) as u8, ((x >> 8) & 0xff) as u8) == x,
{
    assert((((x & 0xff) as u8) as u16) | ((((x >> 8) & 0xff) as u8) as u16) << 8 == x)
        by (bit_vector);
}

/// Writing the value held by two bytes yields the same bytes.
pub proof fn lemma_le_u16_round_trip(b0: u8, b1: u8)
    ensures
        u16_le(u16_of_le(b0, b1)) =~= seq![b0, b1],
{
    let x = u16_of_le(b0, b1);
    assert(((((b0 as u16) | ((b1 as u16) << 8)) & 0xff) as u8) == b0 && ((((b0 as u16) | ((b1
        as u16) << 8)) >> 8) & 0xff) as u8 == b1) by (bit_vector);
}

/// Reading back the four bytes of `x` yields `x`.
pub proof fn lemma_u32_le_round_trip(x: u32)
    ensures
        u32_of_le(
            (x & 0xff) as u8,
            ((x >> 8) & 0xff) as u8,
            ((x >> 16) & 0xff) as u8,
            ((x >> 24) & 0xff) as u8,
        ) == x,
{
    assert((((x & 0xff) as u8) as u32) | ((((x >> 8) & 0xff) as u8) as u32) << 8 | ((((x >> 16)
        & 0xff) as u8) as u32) << 16 | ((((x >> 24) & 0xff) as u8) as u32) << 24 == x)
        by (bit_vector);
}

/// Writing the value held by four bytes yields the same bytes.
pub proof fn lemma_le_u32_round_trip(b0: u8, b1: u8, b2: u8, b3: u8)
    ensures
        u32_le(u32_of_le(b0, b1, b2, b3)) =~= seq![b0, b1, b2, b3],
{
    let x = u32_of_le(b0, b1, b2, b3);
    assert({
        let y = (b0 as u32) | ((b1 as u32) << 8) | ((b2 as u32) << 16) | ((b3 as u32) << 24);
        ((y & 0xff) as u8) == b0 && (((y >> 8) & 0xff) as u8) == b1 && (((y >> 16) & 0xff) as u8)
            == b2 && (((y >> 24) & 0xff) as u8) == b3
    }) by (bit_vector);
}

/// Reading back the eight bytes of `x` yields `x`.
pub proof fn lemma_u64_le_round_trip(x: u64)
    ensures
        u64_of_le(
            (x & 0xff) as u8,
            ((x >> 8) & 0xff) as u8,
            ((x >> 16) & 0xff) as u8,
            ((x >> 24) & 0xff) as u8,
            ((x >> 32) & 0xff) as u8,
            ((x >> 40) & 0xff) as u8,
            ((x >> 48) & 0xff) as u8,
            ((x >> 56) & 0xff) as u8,
        ) == x,
{
    assert((((x & 0xff) as u8) as u64) | ((((x >> 8) & 0xff) as u8) as u64) << 8 | ((((x >> 16)
        & 0xff) as u8) as u64) << 16 | ((((x >> 24) & 0xff) as u8) as u64) << 24 | ((((x >> 32)
        & 0xff) as u8) as u64) << 32 | ((((x >> 40) & 0xff) as u8) as u64) << 40 | ((((x >> 48)
        & 0xff) as u8) as u64) << 48 | ((((x >> 56) & 0xff) as u8) as u64) << 56 == x)
        by (bit_vector);
}

/// Writing the value held by eight bytes yields the same bytes.
pub proof fn lemma_le_u64_round_trip(b0: u8, b1: u8, b2: u8, b3: u8, b4: u8, b5: u8, b6: u8, b7: u8)
    ensures
        u64_le(u64_of_le(b0, b1, b2, b3, b4, b5, b6, b7)) =~= seq![b0, b1, b2, b3, b4, b5, b6, b7],
{
    assert({
        let y = (b0 as u64) | ((b1 as u64) << 8) | ((b2 as u64) << 16) | ((b3 as u64) << 24) | ((
        b4 as u64) << 32) | ((b5 as u64) << 40) | ((b6 as u64) << 48) | ((b7 as u64) << 56);
        ((y & 0xff) as u8) == b0 && (((y >> 8) & 0xff) as u8) == b1 && (((y >> 16) & 0xff) as u8)
            == b2 && (((y >> 24) & 0xff) as u8) == b3 && (((y >> 32) & 0xff) as u8) == b4 && (((y
            >> 40) & 0xff) as u8) == b5 && (((y >> 48) & 0xff) as u8) == b6 && (((y >> 56) & 0xff)
            as u8) == b7
    }) by (bit_vector);
}

/// Append the two little-endian bytes of `x`.
pub fn push_u16_le(out: &mut Vec<u8>, x: u16)
    ensures
        final(out)@ == old(out)@ + u16_le(x),
{
    out.push((x & 0xff) as u8);
    out.push(((x >> 8) & 0xff) as u8);
    assert(out@ =~= old(out)@ + u16_le(x));
}

/// Append the four little-endian bytes of `x`.
pub fn push_u32_le(out: &mut Vec<u8>, x: u32)
    ensures
        final(out)@ == old(out)@ + u32_le(x),
{
    out.push((x & 0xff) as u8);
    out.push(((x >> 8) & 0xff) as u8);
    out.push(((x >> 16) & 0xff) as u8);
    out.push(((x >> 24) & 0xff) as u8);
    assert(out@ =~= old(out)@ + u32_le(x));
}

/// Append the eight little-endian bytes of `x`.
pub fn push_u64_le(out: &mut Vec<u8>, x: u64)
    ensures
        final(out)@ == old(out)@ + u64_le(x),
{
    out.push((x & 0xff) as u8);
    out.push(((x >> 8) & 0xff) as u8);
    out.push(((x >> 16) & 0xff) as u8);
    out.push(((x >> 24) & 0xff) as u8);
    out.push(((x >> 32) & 0xff) as u8);
    out.push(((x >> 40) & 0xff) as u8);
    out.push(((x >> 48) & 0xff) as u8);
    out.push(((x >> 56) & 0xff) as u8);
    assert(out@ =~= old(out)@ + u64_le(x));
}

/// Read a little-endian `u16` at `off`.
pub fn read_u16_le(bytes: &[u8], off: usize) -> (r: u16)
    requires
        off + 2 <= bytes@.len(),
    ensures
        r == u16_of_le(bytes@[off as int], bytes@[off + 1]),
{
    let b0 = bytes[off];
    let b1 = bytes[off + 1];
    (b0 as u16) | ((b1 as u16) << 8)
}

/// Read a little-endian `u32` at `off`.
pub fn read_u32_le(bytes: &[u8], off: usize) -> (r: u32)
    requires
        off + 4 <= bytes@.len(),
    ensures
        r == u32_of_le(bytes@[off as int], bytes@[off + 1], bytes@[off + 2], bytes@[off + 3]),
{
    (bytes[off] as u32) | ((bytes[off + 1] as u32) << 8) | ((bytes[off + 2] as u32) << 16) | ((
    bytes[off + 3] as u32) << 24)
}

/// Read a little-endian `u64` at `off`.
pub fn read_u64_le(bytes: &[u8], off: usize) -> (r: u64)
    requires
        off + 8 <= bytes@.len(),
    ensures
        r == u64_of_le(
            bytes@[off as int],
            bytes@[off + 1],
            bytes@[off + 2],
            bytes@[off + 3],
            bytes@[off + 4],
            bytes@[off + 5],
            bytes@[off + 6],
            bytes@[off + 7],
        ),
{
    (bytes[off] as u64) | ((bytes[off + 1] as u64) << 8) | ((bytes[off + 2] as u64) << 16) | ((
    bytes[off + 3] as u64) << 24) | ((bytes[off + 4] as u64) << 32) | ((bytes[off + 5] as u64)
        << 40) | ((bytes[off + 6] as u64) << 48) | ((bytes[off + 7] as u64) << 56)
}

/// Copy `bytes[from..to]` into a fresh vector.
pub fn copy_range(bytes: &[u8], from: usize, to: usize) -> (r: Vec<u8>)
    requires
        from <= to <= bytes@.len(),
    ensures
        r@ == bytes@.subrange(from as int, to as int),
{
    let mut r: Vec<u8> = Vec::new();
    let mut i: usize = from;
    while i < to
        invariant
            from <= i <= to <= bytes@.len(),
            r@ == bytes@.subrange(from as int, i as int),
        decreases to - i,
    {
        r.push(bytes[i]);
        i = i + 1;
        assert(r@ =~= bytes@.subrange(from as int, i as int));
    }
    r
}

/// Server encoding is injective, like the client side.
pub proof fn lemma_server_encode_injective(v1: ServerMsgView, v2: ServerMsgView)
    requires
        spec_encode_server(v1) == spec_encode_server(v2),
    ensures
        v1 == v2,
{
    lemma_encode_server_shape(v1);
    lemma_encode_server_shape(v2);
    match (v1, v2) {
        (ServerMsgView::Connected(u1), ServerMsgView::Connected(u2)) => {
            lemma_user_info_fields(u1, u2, spec_encode_server(v1), spec_encode_server(v2));
        }
        (ServerMsgView::Disconnected(u1), ServerMsgView::Disconnected(u2)) => {
            lemma_user_info_fields(u1, u2, spec_encode_server(v1), spec_encode_server(v2));
        }
        (ServerMsgView::Voice(p1), ServerMsgView::Voice(p2)) => {
            let e1 = spec_encode_server(v1);
            assert(u16_le(p1.seq_num) =~= u16_le(p2.seq_num));
            assert(u16_le(p1.seq_num)[0] == u16_le(p2.seq_num)[0] && u16_le(p1.seq_num)[1]
                == u16_le(p2.seq_num)[1]);
            lemma_u16_le_round_trip(p1.seq_num);
            lemma_u16_le_round_trip(p2.seq_num);
            assert(e1[6] == p1.peer_id && e1[6] == p2.peer_id);
            assert(p1.data =~= p2.data);
        }
        _ => {}
    }
}

/// Two user records whose encoded segments agree are the same record.
proof fn lemma_user_info_fields(u1: UserInfoView, u2: UserInfoView, e1: Seq<u8>, e2: Seq<u8>)
    requires
        e1 == e2,
        e1.len() == 16 + encode_utf8(u1.username).len(),
        e1.subrange(4, 8) == u32_le(u1.id),
        e1.subrange(16, e1.len() as int) == encode_utf8(u1.username),
        e2.len() == 16 + encode_utf8(u2.username).len(),
        e2.subrange(4, 8) == u32_le(u2.id),
        e2.subrange(16, e2.len() as int) == encode_utf8(u2.username),
    ensures
        u1 == u2,
{
    assert(u32_le(u1.id) =~= u32_le(u2.id));
    assert(u32_le(u1.id)[0] == u32_le(u2.id)[0] && u32_le(u1.id)[1] == u32_le(u2.id)[1] && u32_le(
        u1.id,
    )[2] == u32_le(u2.id)[2] && u32_le(u1.id)[3] == u32_le(u2.id)[3]);
    lemma_u32_le_round_trip(u1.id);
    lemma_u32_le_round_trip(u2.id);
    assert(encode_utf8(u1.username) =~= encode_utf8(u2.username));
    vstd::utf8::encode_utf8_decode_utf8(u1.username);
    vstd::utf8::encode_utf8_decode_utf8(u2.username);
}

/// Relies on `String::from_utf8`: it succeeds exactly on valid UTF-8
/// input and yields the characters those bytes encode.
#[verifier::external_body]
fn string_from_utf8(v: Vec<u8>) -> (r: Option<String>)
    ensures
        r is Some <==> valid_utf8(v@),
        r matches Some(s) ==> s@ == decode_utf8(v@),
{
    match String::from_utf8(v) {
        Ok(s) => Some(s),
        Err(_) => None,
    }
}

/// The byte string that a client message is sent as: a four-byte tag,
/// then the variant's fields, strings and payloads length-prefixed.
pub open spec fn spec_encode_client(v: ClientMsgView) -> Seq<u8> {
    match v {
        ClientMsgView::Connect { username } => seq![0u8, 0u8, 0u8, 0u8] + u64_le(
            encode_utf8(username).len() as u64,
        ) + encode_utf8(username),
        ClientMsgView::Disconnect => seq![1u8, 0u8, 0u8, 0u8],
        ClientMsgView::Ping => seq![2u8, 0u8, 0u8, 0u8],
        ClientMsgView::Voice { seq_num, samples } => seq![3u8, 0u8, 0u8, 0u8] + u16_le(seq_num)
            + u64_le(samples.len() as u64) + samples,
    }
}

/// Structure shared by every encoded client message: its length, tag
/// byte, and the placement of each field.
pub proof fn lemma_encode_client_shape(v: ClientMsgView)
    ensures
        spec_encode_client(v).len() >= 4,
        spec_encode_client(v)[1] == 0,
        spec_encode_client(v)[2] == 0,
        spec_encode_client(v)[3] == 0,
        spec_encode_client(v)[0] <= 3,
        v is Connect <==> spec_encode_client(v)[0] == 0,
        v is Disconnect <==> spec_encode_client(v)[0] == 1,
        v is Ping <==> spec_encode_client(v)[0] == 2,
        v is Voice <==> spec_encode_client(v)[0] == 3,
        v is Disconnect || v is Ping ==> spec_encode_client(v).len() == 4,
        v matches ClientMsgView::Connect { username } ==> {
            let e = spec_encode_client(v);
            &&& e.len() == 12 + encode_utf8(username).len()
            &&& e.subrange(4, 12) =~= u64_le(encode_utf8(username).len() as u64)
            &&& e.subrange(12, e.len() as int) =~= encode_utf8(username)
        },
        v matches ClientMsgView::Voice { seq_num, samples } ==> {
            let e = spec_encode_client(v);
            &&& e.len() == 14 + samples.len()
            &&& e.subrange(4, 6) =~= u16_le(seq_num)
            &&& e.subrange(6, 14) =~= u64_le(samples.len() as u64)
            &&& e.subrange(14, e.len() as int) =~= samples
        },
{
    match v {
        ClientMsgView::Connect { username } => {
            assert(u64_le(encode_utf8(username).len() as u64).len() == 8);
        }
        ClientMsgView::Voice { seq_num, samples } => {
            assert(u16_le(seq_num).len() == 2);
            assert(u64_le(samples.len() as u64).len() == 8);
        }
        _ => {}
    }
}

impl ClientMessage {
    /// Serialize for the wire.  Total: every message has an encoding.
    pub fn to_bytes(&self) -> (r: Vec<u8>)
        ensures
            r@ == spec_encode_client(self@),
    {
        let mut out: Vec<u8> = Vec::new();
        match self {
            ClientMessage::Connect { username } => {
                out.push(0);
                out.push(0);
                out.push(0);
                out.push(0);
                let mut ub = username.as_str().as_bytes_vec();
                push_u64_le(&mut out, ub.len() as u64);
                out.append(&mut ub);
                assert(out@ =~= spec_encode_client(self@));
            }
            ClientMessage::Disconnect => {
                out.push(1);
                out.push(0);
                out.push(0);
                out.push(0);
                assert(out@ =~= spec_encode_client(self@));
            }
            ClientMessage::Ping => {
                out.push(2);
                out.push(0);
                out.push(0);
                out.push(0);
                assert(out@ =~= spec_encode_client(self@));
            }
            ClientMessage::Voice { seq_num, samples } => {
                out.push(3);
                out.push(0);
                out.push(0);
                out.push(0);
                push_u16_le(&mut out, seq_num.0);
                push_u64_le(&mut out, samples.len() as u64);
                let mut d = crate::packets::copy_bytes(samples);
                out.append(&mut d);
                assert(out@ =~= spec_encode_client(self@));
            }
        }
        out
    }

    /// Parse a datagram.  Succeeds exactly on the byte strings some
    /// message encodes to; anything else is malformed and rejected.
    pub fn from_bytes(bytes: &[u8]) -> (r: Option<ClientMessage>)
        ensures
            r matches Some(m) ==> spec_encode_client(m@) == bytes@,
            r is None ==> forall|v: ClientMsgView| spec_encode_client(v) != bytes@,
    {
        let n = bytes.len();
        if n < 4 || bytes[1] != 0 || bytes[2] != 0 || bytes[3] != 0 {
            proof {
                assert forall|v: ClientMsgView| spec_encode_client(v) != bytes@ by {
                    lemma_encode_client_shape(v);
                }
            }
            return None;
        }
        let tag = bytes[0];
        if tag == 0 {
            if n < 12 {
                proof {
                    assert forall|v: ClientMsgView| spec_encode_client(v) != bytes@ by {
                        lemma_encode_client_shape(v);
                    }
                }
                return None;
            }
            let l = read_u64_le(bytes, 4);
            if l != (n - 12) as u64 {
                proof {
                    assert forall|v: ClientMsgView| spec_encode_client(v) != bytes@ by {
                        lemma_encode_client_shape(v);
                        match v {
                            ClientMsgView::Connect { username } => {
                                if spec_encode_client(v) == bytes@ {
                                    lemma_u64_le_round_trip(encode_utf8(username).len() as u64);
                                }
                            }
                            _ => {}
                        }
                    }
                }
                return None;
            }
            let rest = copy_range(bytes, 12, n);
            match string_from_utf8(rest) {
                Some(s) => {
                    let m = ClientMessage::Connect { username: s };
                    proof {
                        vstd::utf8::decode_utf8_encode_utf8(bytes@.subrange(12, n as int));
                        lemma_le_u64_round_trip(
                            bytes@[4],
                            bytes@[5],
                            bytes@[6],
                            bytes@[7],
                            bytes@[8],
                            bytes@[9],
                            bytes@[10],
                            bytes@[11],
                        );
                        assert(spec_encode_client(m@) =~= bytes@);
                    }
                    Some(m)
                }
                None => {
                    proof {
                        assert forall|v: ClientMsgView| spec_encode_client(v) != bytes@ by {
                            lemma_encode_client_shape(v);
                            match v {
                                ClientMsgView::Connect { username } => {
                                    if spec_encode_client(v) == bytes@ {
                                        vstd::utf8::encode_utf8_valid_utf8(username);
                                        assert(bytes@.subrange(12, n as int) == encode_utf8(
                                            username,
                                        ));
                                    }
                                }
                                _ => {}
                            }
                        }
                    }
                    None
                }
            }
        } else if tag == 1 {
            if n == 4 {
                let m = ClientMessage::Disconnect;
                proof {
                    assert(spec_encode_client(m@) =~= bytes@);
                }
                Some(m)
            } else {
                proof {
                    assert forall|v: ClientMsgView| spec_encode_client(v) != bytes@ by {
                        lemma_encode_client_shape(v);
                    }
                }
                None
            }
        } else if tag == 2 {
            if n == 4 {
                let m = ClientMessage::Ping;
                proof {
                    assert(spec_encode_client(m@) =~= bytes@);
                }
                Some(m)
            } else {
                proof {
                    assert forall|v: ClientMsgView| spec_encode_client(v) != bytes@ by {
                        lemma_encode_client_shape(v);
                    }
                }
                None
            }
        } else if tag == 3 {
            if n < 14 {
                proof {
                    assert forall|v: ClientMsgView| spec_encode_client(v) != bytes@ by {
                        lemma_encode_client_shape(v);
                    }
                }
                return None;
            }
            let sq = read_u16_le(bytes, 4);
            let l = read_u64_le(bytes, 6);
            if l != (n - 14) as u64 {
                proof {
                    assert forall|v: ClientMsgView| spec_encode_client(v) != bytes@ by {
                        lemma_encode_client_shape(v);
                        match v {
                            ClientMsgView::Voice { seq_num, samples } => {
                                if spec_encode_client(v) == bytes@ {
                                    lemma_u64_le_round_trip(samples.len() as u64);
                                }
                            }
                            _ => {}
                        }
                    }
                }
                return None;
            }
            let data = copy_range(bytes, 14, n);
            let m = ClientMessage::Voice { seq_num: SeqNum(sq), samples: data };
            proof {
                lemma_le_u16_round_trip(bytes@[4], bytes@[5]);
                lemma_le_u64_round_trip(
                    bytes@[6],
                    bytes@[7],
                    bytes@[8],
                    bytes@[9],
                    bytes@[10],
                    bytes@[11],
                    bytes@[12],
                    bytes@[13],
                );
                assert(spec_encode_client(m@) =~= bytes@);
            }
            Some(m)
        } else {
            proof {
                assert forall|v: ClientMsgView| spec_encode_client(v) != bytes@ by {
                    lemma_encode_client_shape(v);
                }
            }
            None
        }
    }
}

/// Client encoding is injective: equal byte strings come from equal
/// messages.  With `from_bytes` returning only messages that encode to
/// the input, decoding is therefore a true inverse of encoding.
pub proof fn lemma_client_encode_injective(v1: ClientMsgView, v2: ClientMsgView)
    requires
        spec_encode_client(v1) == spec_encode_client(v2),
    ensures
        v1 == v2,
{
    lemma_encode_client_shape(v1);
    lemma_encode_client_shape(v2);
    let e = spec_encode_client(v1);
    match (v1, v2) {
        (
            ClientMsgView::Connect { username: n1 },
            ClientMsgView::Connect { username: n2 },
        ) => {
            assert(encode_utf8(n1) =~= encode_utf8(n2));
            vstd::utf8::encode_utf8_decode_utf8(n1);
            vstd::utf8::encode_utf8_decode_utf8(n2);
        }
        (
            ClientMsgView::Voice { seq_num: s1, samples: d1 },
            ClientMsgView::Voice { seq_num: s2, samples: d2 },
        ) => {
            assert(u16_le(s1) =~= u16_le(s2));
            assert(u16_le(s1)[0] == u16_le(s2)[0] && u16_le(s1)[1] == u16_le(s2)[1]);
            lemma_u16_le_round_trip(s1);
            lemma_u16_le_round_trip(s2);
            assert(d1 =~= d2);
        }
        _ => {}
    }
}

/// The byte string that a server message is sent as.
pub open spec fn spec_encode_server(v: ServerMsgView) -> Seq<u8> {
    match v {
        ServerMsgView::Pong => seq![0u8, 0u8, 0u8, 0u8],
        ServerMsgView::Connected(u) => seq![1u8, 0u8, 0u8, 0u8] + u32_le(u.id) + u64_le(
            encode_utf8(u.username).len() as u64,
        ) + encode_utf8(u.username),
        ServerMsgView::Disconnected(u) => seq![2u8, 0u8, 0u8, 0u8] + u32_le(u.id) + u64_le(
            encode_utf8(u.username).len() as u64,
        ) + encode_utf8(u.username),
        ServerMsgView::Voice(p) => seq![3u8, 0u8, 0u8, 0u8] + u16_le(p.seq_num) + seq![p.peer_id]
            + u64_le(p.data.len() as u64) + p.data,
    }
}

/// Structure shared by every encoded server message.
pub proof fn lemma_encode_server_shape(v: ServerMsgView)
    ensures
        spec_encode_server(v).len() >= 4,
        spec_encode_server(v)[1] == 0,
        spec_encode_server(v)[2] == 0,
        spec_encode_server(v)[3] == 0,
        spec_encode_server(v)[0] <= 3,
        v is Pong <==> spec_encode_server(v)[0] == 0,
        v is Connected <==> spec_encode_server(v)[0] == 1,
        v is Disconnected <==> spec_encode_server(v)[0] == 2,
        v is Voice <==> spec_encode_server(v)[0] == 3,
        v is Pong ==> spec_encode_server(v).len() == 4,
        v matches ServerMsgView::Connected(u) ==> {
            let e = spec_encode_server(v);
            &&& e.len() == 16 + encode_utf8(u.username).len()
            &&& e.subrange(4, 8) =~= u32_le(u.id)
            &&& e.subrange(8, 16) =~= u64_le(encode_utf8(u.username).len() as u64)
            &&& e.subrange(16, e.len() as int) =~= encode_utf8(u.username)
        },
        v matches ServerMsgView::Disconnected(u) ==> {
            let e = spec_encode_server(v);
            &&& e.len() == 16 + encode_utf8(u.username).len()
            &&& e.subrange(4, 8) =~= u32_le(u.id)
            &&& e.subrange(8, 16) =~= u64_le(encode_utf8(u.username).len() as u64)
            &&& e.subrange(16, e.len() as int) =~= encode_utf8(u.username)
        },
        v matches ServerMsgView::Voice(p) ==> {
            let e = spec_encode_server(v);
            &&& e.len() == 15 + p.data.len()
            &&& e.subrange(4, 6) =~= u16_le(p.seq_num)
            &&& e[6] == p.peer_id
            &&& e.subrange(7, 15) =~= u64_le(p.data.len() as u64)
            &&& e.subrange(15, e.len() as int) =~= p.data
        },
{
    match v {
        ServerMsgView::Connected(u) => {
            assert(u32_le(u.id).len() == 4);
            assert(u64_le(encode_utf8(u.username).len() as u64).len() == 8);
        }
        ServerMsgView::Disconnected(u) => {
            assert(u32_le(u.id).len() == 4);
            assert(u64_le(encode_utf8(u.username).len() as u64).len() == 8);
        }
        ServerMsgView::Voice(p) => {
            assert(u16_le(p.seq_num).len() == 2);
            assert(u64_le(p.data.len() as u64).len() == 8);
        }
        _ => {}
    }
}

/// Append the id and length-prefixed name of a user record.
fn push_user_info(out: &mut Vec<u8>, u: &UserInfo)
    ensures
        final(out)@ == old(out)@ + u32_le(u.id) + u64_le(encode_utf8(u@.username).len() as u64)
            + encode_utf8(u@.username),
{
    push_u32_le(out, u.id);
    let mut ub = u.username.as_str().as_bytes_vec();
    push_u64_le(out, ub.len() as u64);
    out.append(&mut ub);
}

impl ServerMessage {
    /// Serialize for the wire.  Total: every message has an encoding.
    pub fn to_bytes(&self) -> (r: Vec<u8>)
        ensures
            r@ == spec_encode_server(self@),
    {
        let mut out: Vec<u8> = Vec::new();
        match self {
            ServerMessage::Pong => {
                out.push(0);
                out.push(0);
                out.push(0);
                out.push(0);
                assert(out@ =~= spec_encode_server(self@));
            }
            ServerMessage::Connected(u) => {
                out.push(1);
                out.push(0);
                out.push(0);
                out.push(0);
                push_user_info(&mut out, u);
                assert(out@ =~= spec_encode_server(self@));
            }
            ServerMessage::Disconnected(u) => {
                out.push(2);
                out.push(0);
                out.push(0);
                out.push(0);
                push_user_info(&mut out, u);
                assert(out@ =~= spec_encode_server(self@));
            }
            ServerMessage::Voice(p) => {
                out.push(3);
                out.push(0);
                out.push(0);
                out.push(0);
                push_u16_le(&mut out, p.seq_num.0);
                out.push(p.peer_id);
                push_u64_le(&mut out, p.data.len() as u64);
                let mut d = crate::packets::copy_bytes(&p.data);
                out.append(&mut d);
                assert(out@ =~= spec_encode_server(self@));
            }
        }
        out
    }

    /// Parse a datagram from the server.  Succeeds exactly on the byte
    /// strings some message encodes to.
    pub fn from_bytes(bytes: &[u8]) -> (r: Option<ServerMessage>)
        ensures
            r matches Some(m) ==> spec_encode_server(m@) == bytes@,
            r is None ==> forall|v: ServerMsgView| spec_encode_server(v) != bytes@,
    {
        let n = bytes.len();
        if n < 4 || bytes[1] != 0 || bytes[2] != 0 || bytes[3] != 0 {
            proof {
                assert forall|v: ServerMsgView| spec_encode_server(v) != bytes@ by {
                    lemma_encode_server_shape(v);
                }
            }
            return None;
        }
        let tag = bytes[0];
        if tag == 0 {
            if n == 4 {
                let m = ServerMessage::Pong;
                proof {
                    assert(spec_encode_server(m@) =~= bytes@);
                }
                Some(m)
            } else {
                proof {
                    assert forall|v: ServerMsgView| spec_encode_server(v) != bytes@ by {
                        lemma_encode_server_shape(v);
                    }
                }
                None
            }
        } else if tag == 1 || tag == 2 {
            if n < 16 {
                proof {
                    assert forall|v: ServerMsgView| spec_encode_server(v) != bytes@ by {
                        lemma_encode_server_shape(v);
                    }
                }
                return None;
            }
            let id = read_u32_le(bytes, 4);
            let l = read_u64_le(bytes, 8);
            if l != (n - 16) as u64 {
                proof {
                    assert forall|v: ServerMsgView| spec_encode_server(v) != bytes@ by {
                        lemma_encode_server_shape(v);
                        match v {
                            ServerMsgView::Connected(u) | ServerMsgView::Disconnected(u) => {
                                if spec_encode_server(v) == bytes@ {
                                    lemma_u64_le_round_trip(encode_utf8(u.username).len() as u64);
                                }
                            }
                            _ => {}
                        }
                    }
                }
                return None;
            }
            let rest = copy_range(bytes, 16, n);
            match string_from_utf8(rest) {
                Some(s) => {
                    let info = UserInfo { id, username: s };
                    let m = if tag == 1 {
                        ServerMessage::Connected(info)
                    } else {
                        ServerMessage::Disconnected(info)
                    };
                    proof {
                        vstd::utf8::decode_utf8_encode_utf8(bytes@.subrange(16, n as int));
                        lemma_le_u32_round_trip(bytes@[4], bytes@[5], bytes@[6], bytes@[7]);
                        lemma_le_u64_round_trip(
                            bytes@[8],
                            bytes@[9],
                            bytes@[10],
                            bytes@[11],
                            bytes@[12],
                            bytes@[13],
                            bytes@[14],
                            bytes@[15],
                        );
                        assert(spec_encode_server(m@) =~= bytes@);
                    }
                    Some(m)
                }
                None => {
                    proof {
                        assert forall|v: ServerMsgView| spec_encode_server(v) != bytes@ by {
                            lemma_encode_server_shape(v);
                            match v {
                                ServerMsgView::Connected(u) | ServerMsgView::Disconnected(u) => {
                                    if spec_encode_server(v) == bytes@ {
                                        vstd::utf8::encode_utf8_valid_utf8(u.username);
                                        assert(bytes@.subrange(16, n as int) == encode_utf8(
                                            u.username,
                                        ));
                                    }
                                }
                                _ => {}
                            }
                        }
                    }
                    None
                }
            }
        } else if tag == 3 {
            if n < 15 {
                proof {
                    assert forall|v: ServerMsgView| spec_encode_server(v) != bytes@ by {
                        lemma_encode_server_shape(v);
                    }
                }
                return None;
            }
            let sq = read_u16_le(bytes, 4);
            let peer = bytes[6];
            let l = read_u64_le(bytes, 7);
            if l != (n - 15) as u64 {
                proof {
                    assert forall|v: ServerMsgView| spec_encode_server(v) != bytes@ by {
                        lemma_encode_server_shape(v);
                        match v {
                            ServerMsgView::Voice(p) => {
                                if spec_encode_server(v) == bytes@ {
                                    lemma_u64_le_round_trip(p.data.len() as u64);
                                }
                            }
                            _ => {}
                        }
                    }
                }
                return None;
            }
            let data = copy_range(bytes, 15, n);
            let m = ServerMessage::Voice(
                AudioPacket { seq_num: SeqNum(sq), peer_id: peer, data },
            );
            proof {
                lemma_le_u16_round_trip(bytes@[4], bytes@[5]);
                lemma_le_u64_round_trip(
                    bytes@[7],
                    bytes@[8],
                    bytes@[9],
                    bytes@[10],
                    bytes@[11],
                    bytes@[12],
                    bytes@[13],
                    bytes@[14],
                );
                assert(spec_encode_server(m@) =~= bytes@);
            }
            Some(m)
        } else {
            proof {
                assert forall|v: ServerMsgView| spec_encode_server(v) != bytes@ by {
                    lemma_encode_server_shape(v);
                }
            }
            None
        }
    }
}

} // verus!
