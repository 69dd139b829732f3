//! Transport datagram framing and inbound demultiplexing: one type byte,
//! little-endian session indices, and an opaque negotiator payload.

use vstd::prelude::*;
use vstd::bytes::{spec_u32_from_le_bytes, spec_u32_to_le_bytes};
use crate::bytes::{read_u32_le_at, u32_le_bytes};
use crate::peer::{Endpoint, Peer, PeerInfo, SessionState, endpoint_wf};
use crate::state::{State, has_entry, has_key};

verus! {

pub const MSG_INITIATION: u8 = 1;

pub const MSG_RESPONSE: u8 = 2;

pub const MSG_COOKIE: u8 = 3;

pub const MSG_DATA: u8 = 4;

/// A handshake-initiation datagram: type byte, sender index, payload.
pub open spec fn initiation_frame(sender: u32, payload: Seq<u8>) -> Seq<u8> {
    seq![1u8] + spec_u32_to_le_bytes(sender) + payload
}

/// A handshake-response datagram: type byte, sender index, receiver index,
/// payload.
pub open spec fn response_frame(sender: u32, receiver: u32, payload: Seq<u8>) -> Seq<u8> {
    seq![2u8] + spec_u32_to_le_bytes(sender) + spec_u32_to_le_bytes(receiver) + payload
}

/// A transport-data datagram: type byte, receiver index, ciphertext.
pub open spec fn data_frame(receiver: u32, payload: Seq<u8>) -> Seq<u8> {
    seq![4u8] + spec_u32_to_le_bytes(receiver) + payload
}

/// Builds a handshake-initiation datagram.
pub fn build_initiation(sender: u32, payload: &Vec<u8>) -> (r: Vec<u8>)
    ensures
        r@ == initiation_frame(sender, payload@),
{
    let mut out: Vec<u8> = Vec::new();
    out.push(MSG_INITIATION);
    let idx = u32_le_bytes(sender);
    out.extend_from_slice(idx.as_slice());
    out.extend_from_slice(payload.as_slice());
    proof {
        assert(out@ =~= initiation_frame(sender, payload@));
    }
    out
}

/// Builds a handshake-response datagram.
pub fn build_response(sender: u32, receiver: u32, payload: &Vec<u8>) -> (r: Vec<u8>)
    ensures
        r@ == response_frame(sender, receiver, payload@),
{
    let mut out: Vec<u8> = Vec::new();
    out.push(MSG_RESPONSE);
    let a = u32_le_bytes(sender);
    out.extend_from_slice(a.as_slice());
    let b = u32_le_bytes(receiver);
    out.extend_from_slice(b.as_slice());
    out.extend_from_slice(payload.as_slice());
    proof {
        assert(out@ =~= response_frame(sender, receiver, payload@));
    }
    out
}

/// Builds a transport-data datagram.
pub fn build_data(receiver: u32, payload: &Vec<u8>) -> (r: Vec<u8>)
    ensures
        r@ == data_frame(receiver, payload@),
{
    let mut out: Vec<u8> = Vec::new();
    out.push(MSG_DATA);
    let idx = u32_le_bytes(receiver);
    out.extend_from_slice(idx.as_slice());
    out.extend_from_slice(payload.as_slice());
    proof {
        assert(out@ =~= data_frame(receiver, payload@));
    }
    out
}

/// An inbound datagram after classification by its first byte.
pub enum Datagram {
    Initiation { sender: u32, payload: Vec<u8> },
    Response { sender: u32, receiver: u32, payload: Vec<u8> },
    Cookie,
    Data { receiver: u32, payload: Vec<u8> },
    Malformed,
}

/// What a correct classification of the bytes `s` is.
pub open spec fn classified(s: Seq<u8>, d: Datagram) -> bool {
    if s.len() >= 5 && s[0] == 1 {
        &&& d matches Datagram::Initiation { sender, payload }
        &&& sender == spec_u32_from_le_bytes(s.subrange(1, 5))
        &&& payload@ == s.skip(5)
    } else if s.len() >= 9 && s[0] == 2 {
        &&& d matches Datagram::Response { sender, receiver, payload }
        &&& sender == spec_u32_from_le_bytes(s.subrange(1, 5))
        &&& receiver == spec_u32_from_le_bytes(s.subrange(5, 9))
        &&& payload@ == s.skip(9)
    } else if s.len() >= 1 && s[0] == 3 {
        d is Cookie
    } else if s.len() >= 5 && s[0] == 4 {
        &&& d matches Datagram::Data { receiver, payload }
        &&& receiver == spec_u32_from_le_bytes(s.subrange(1, 5))
        &&& payload@ == s.skip(5)
    } else {
        d is Malformed
    }
}

/// Classifies an inbound datagram by its first byte and extracts the
/// embedded session indices.
pub fn classify_datagram(buf: &Vec<u8>) -> (d: Datagram)
    ensures
        classified(buf@, d),
{
    if buf.len() >= 5 && buf[0] == 1 {
        let sender = read_u32_le_at(buf, 1);
        let payload = crate::control::sub_bytes(buf, 5, buf.len());
        proof {
            assert(payload@ =~= buf@.skip(5));
        }
        Datagram::Initiation { sender, payload }
    } else if buf.len() >= 9 && buf[0] == 2 {
        let sender = read_u32_le_at(buf, 1);
        let receiver = read_u32_le_at(buf, 5);
        let payload = crate::control::sub_bytes(buf, 9, buf.len());
        proof {
            assert(payload@ =~= buf@.skip(9));
        }
        Datagram::Response { sender, receiver, payload }
    } else if buf.len() >= 1 && buf[0] == 3 {
        Datagram::Cookie
    } else if buf.len() >= 5 && buf[0] == 4 {
        let receiver = read_u32_le_at(buf, 1);
        let payload = crate::control::sub_bytes(buf, 5, buf.len());
        proof {
            assert(payload@ =~= buf@.skip(5));
        }
        Datagram::Data { receiver, payload }
    } else {
        Datagram::Malformed
    }
}

/// Reading back a built initiation frame classifies as the same initiation.
pub proof fn lemma_initiation_round_trip(sender: u32, payload: Seq<u8>, d: Datagram)
    requires
        classified(initiation_frame(sender, payload), d),
    ensures
        d matches Datagram::Initiation { sender: s2, payload: p2 } && s2 == sender && p2@
            == payload,
{
    let s = initiation_frame(sender, payload);
    vstd::bytes::lemma_auto_spec_u32_to_from_le_bytes();
    assert(s.subrange(1, 5) =~= spec_u32_to_le_bytes(sender));
    assert(s.skip(5) =~= payload);
    assert(s[0] == 1 && s.len() >= 5);
}

/// What `handle_datagram` does, stated over the input bytes: a recognized
/// transport-data datagram updates only its peer's endpoint and is handed
/// on; a handshake response for a peer awaiting one establishes that
/// session; everything else - an unknown or stale session index, a
/// handshake initiation or cookie (which belong to the negotiator's
/// responder side), or malformed bytes - is dropped with the state
/// untouched.
pub open spec fn inbound_post(
    pre: State,
    post: State,
    s: Seq<u8>,
    src: Endpoint,
    r: InboundAction,
) -> bool {
    if s.len() >= 5 && s[0] == 4 {
        let rec = spec_u32_from_le_bytes(s.subrange(1, 5));
        if has_key(pre.index_entries@, rec) {
            &&& r matches InboundAction::Deliver { peer, payload }
            &&& has_entry(pre.index_entries@, rec, peer)
            &&& payload@ == s.skip(5)
            &&& endpoint_updated(pre, post, peer as int, src)
        } else {
            r is Drop && post == pre
        }
    } else if s.len() >= 9 && s[0] == 2 {
        let snd = spec_u32_from_le_bytes(s.subrange(1, 5));
        let rec = spec_u32_from_le_bytes(s.subrange(5, 9));
        if has_key(pre.index_entries@, rec) && (forall|h: usize|
            has_entry(pre.index_entries@, rec, h) ==> pre.peers@[h as int].session matches SessionState::HandshakeSent { .. }) {
            &&& r matches InboundAction::HandshakeReply { peer, their_index, payload }
            &&& has_entry(pre.index_entries@, rec, peer)
            &&& their_index == snd
            &&& payload@ == s.skip(9)
            &&& established(pre, post, peer as int, rec, snd, src)
        } else {
            r is Drop && post == pre
        }
    } else {
        r is Drop && post == pre
    }
}

/// `post` is `pre` with one peer's endpoint replaced by `src`.
pub open spec fn endpoint_updated(pre: State, post: State, h: int, src: Endpoint) -> bool {
    &&& post.peers@ == pre.peers@.update(
        h,
        Peer {
            info: PeerInfo {
                pub_key: pre.peers@[h].info.pub_key,
                psk: pre.peers@[h].info.psk,
                endpoint: Some(src),
                allowed_ips: pre.peers@[h].info.allowed_ips,
            },
            session: pre.peers@[h].session,
        },
    )
    &&& post.index_entries@ == pre.index_entries@
    &&& post.routes.entries@ == pre.routes.entries@
    &&& post.interface_info == pre.interface_info
    &&& post.next_index == pre.next_index
}

/// `post` is `pre` with one peer's session established and its endpoint
/// replaced by `src`.
pub open spec fn established(
    pre: State,
    post: State,
    h: int,
    our_index: u32,
    their_index: u32,
    src: Endpoint,
) -> bool {
    &&& post.peers@ == pre.peers@.update(
        h,
        Peer {
            info: PeerInfo {
                pub_key: pre.peers@[h].info.pub_key,
                psk: pre.peers@[h].info.psk,
                endpoint: Some(src),
                allowed_ips: pre.peers@[h].info.allowed_ips,
            },
            session: SessionState::Established { our_index, their_index },
        },
    )
    &&& post.index_entries@ == pre.index_entries@
    &&& post.routes.entries@ == pre.routes.entries@
    &&& post.interface_info == pre.interface_info
    &&& post.next_index == pre.next_index
}

/// What the reactor should do with an inbound datagram.
pub enum InboundAction {
    /// Dropped silently: unknown index, failed classification, or a
    /// handshake kind the negotiator's responder side would own.
    Drop,
    /// Transport data for this peer: decrypt `payload` with its session.
    Deliver { peer: usize, payload: Vec<u8> },
    /// A handshake response completing this peer's initiation; the
    /// negotiator derives the transport keys from `payload`.
    HandshakeReply { peer: usize, their_index: u32, payload: Vec<u8> },
}

/// Demultiplexes one inbound datagram by its embedded session index,
/// updating the recognized peer's last-known endpoint.
pub fn handle_datagram(state: &mut State, src: Endpoint, buf: &Vec<u8>) -> (r: InboundAction)
    requires
        old(state).wf(),
        endpoint_wf(src),
    ensures
        final(state).wf(),
        inbound_post(*old(state), *final(state), buf@, src, r),
{
    let d = classify_datagram(buf);
    match d {
        Datagram::Data { receiver, payload } => {
            match state.lookup_by_index(receiver) {
                Some(h) => {
                    state.update_endpoint(h, src);
                    InboundAction::Deliver { peer: h, payload }
                },
                None => InboundAction::Drop,
            }
        },
        Datagram::Response { sender, receiver, payload } => {
            match state.lookup_by_index(receiver) {
                Some(h) => {
                    let sent = match &state.peers[h].session {
                        SessionState::HandshakeSent { .. } => true,
                        _ => false,
                    };
                    if sent {
                        proof {
                            assert forall|h2: usize|
                                has_entry(
                                    state.index_entries@,
                                    receiver,
                                    h2,
                                ) implies state.peers@[h2 as int].session matches SessionState::HandshakeSent { .. } by {
                                let i1 = choose|i: int|
                                    0 <= i < state.index_entries@.len() && state.index_entries@[i]
                                        == (receiver, h2);
                                let i2 = choose|i: int|
                                    0 <= i < state.index_entries@.len() && state.index_entries@[i]
                                        == (receiver, h);
                                assert(state.index_entries@[i1].0 == state.index_entries@[i2].0);
                                if i1 != i2 {
                                    assert(state.index_entries@[i1].0
                                        != state.index_entries@[i2].0);
                                }
                            }
                            assert(session_index_is(state.peers@[h as int].session, receiver));
                        }
                        state.complete_handshake(h, sender);
                        state.update_endpoint(h, src);
                        proof {
                            assert(state.peers@ =~= old(state).peers@.update(
                                h as int,
                                Peer {
                                    info: PeerInfo {
                                        pub_key: old(state).peers@[h as int].info.pub_key,
                                        psk: old(state).peers@[h as int].info.psk,
                                        endpoint: Some(src),
                                        allowed_ips: old(state).peers@[h as int].info.allowed_ips,
                                    },
                                    session: SessionState::Established {
                                        our_index: receiver,
                                        their_index: sender,
                                    },
                                },
                            ));
                        }
                        InboundAction::HandshakeReply { peer: h, their_index: sender, payload }
                    } else {
                        proof {
                            assert(has_entry(old(state).index_entries@, receiver, h));
                            assert(!(old(state).peers@[h as int].session
                                matches SessionState::HandshakeSent { .. }));
                        }
                        InboundAction::Drop
                    }
                },
                None => InboundAction::Drop,
            }
        },
        _ => InboundAction::Drop,
    }
}

/// The session currently occupies exactly this index.
pub open spec fn session_index_is(s: SessionState, idx: u32) -> bool {
    crate::peer::session_index(s) == Some(idx)
}


/// The destination address of a raw network-layer packet: bytes 16..20 of
/// an IPv4 header, bytes 24..40 of an IPv6 header; `None` when the unit is
/// too short or of neither version.
pub open spec fn packet_dest(s: Seq<u8>) -> Option<(bool, u128)> {
    if s.len() >= 20 && s[0] >> 4 == 4 {
        Some((false, crate::bytes::be32(s[16], s[17], s[18], s[19]) as u128))
    } else if s.len() >= 40 && s[0] >> 4 == 6 {
        Some((true, crate::bytes::be128_at(s, 24)))
    } else {
        None
    }
}

/// Reads the destination address out of a plaintext packet from the virtual
/// device, for the longest-prefix route lookup.
pub fn dest_of_packet(p: &Vec<u8>) -> (r: Option<(bool, u128)>)
    ensures
        r == packet_dest(p@),
{
    if p.len() >= 20 && p[0] >> 4 == 4 {
        let d = crate::bytes::read_u32_be_at(p, 16);
        Some((false, d as u128))
    } else if p.len() >= 40 && p[0] >> 4 == 6 {
        let d = crate::bytes::read_u128_be_at(p, 24);
        Some((true, d))
    } else {
        None
    }
}

} // verus!
