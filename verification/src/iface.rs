//! The interface orchestrator's decision logic: applying control-plane
//! update events to the routing state, initiating handshakes through the
//! session negotiator, framing for the virtual device, and the control
//! socket path.

use vstd::prelude::*;
use crate::control::UpdateEvent;
use crate::message::initiation_frame;
use crate::peer::{Endpoint, Peer, PeerInfo, SessionState, peer_info_wf};
use crate::state::{State, has_entry, has_pubkey, new_prefixes_conflict};
use crate::words::{kw_sock_dir, kw_sock_dir_vec, kw_sock_ext, kw_sock_ext_vec};

verus! {

/// Why a configuration event was rejected.
#[derive(Clone, Copy, PartialEq, Eq, Structural, Debug)]
pub enum ConfigError {
    /// A peer cannot be added before the interface has a private key.
    NoPrivateKey,
    /// The peer block carries no pre-shared key.
    MissingPresharedKey,
    /// The peer block carries no endpoint to send the initiation to.
    MissingEndpoint,
    /// The public key is already registered.
    DuplicatePublicKey,
    /// An allowed prefix overlaps another peer's registered prefix.
    OverlappingAllowedIp,
    /// No fresh session index is left.
    IndexSpaceExhausted,
    /// The session negotiator refused the handshake material.
    Negotiator,
}

/// A datagram the reactor owes the transport.
pub struct OutboundDatagram {
    pub endpoint: Endpoint,
    pub bytes: Vec<u8>,
}

#[verifier::external_type_specification]
#[verifier::external_body]
pub struct ExSnowError(snow::Error);

/// Relies on snow's `Builder` and `HandshakeState::write_message`: builds a
/// Noise initiator from the protocol name, prologue and key material, and
/// writes the first handshake message. The message embeds a fresh random
/// ephemeral key, so nothing is promised of the returned bytes. The builder
/// copies each key into a fixed Curve25519-sized buffer by the key's own
/// length before validating it, so an over-long key panics there: the
/// 32-byte bounds keep every admitted input on the returning path.
#[verifier::external_body]
fn noise_initiate(
    params: &str,
    prologue: &str,
    local_priv: &Vec<u8>,
    remote_pub: &Vec<u8>,
    psk: &Vec<u8>,
) -> (r: Result<Vec<u8>, snow::Error>)
    requires
        local_priv@.len() == 32,
        remote_pub@.len() == 32,
{
    let parsed: snow::params::NoiseParams = params.parse()?;
    let mut hs = snow::Builder::new(parsed)
        .prologue(prologue.as_bytes())
        .local_private_key(local_priv)
        .remote_public_key(remote_pub)
        .psk(2, psk)
        .build_initiator()?;
    let mut buf = vec![0u8; 2048];
    let n = hs.write_message(&[], &mut buf)?;
    buf.truncate(n);
    Ok(buf)
}

/// All conditions under which a peer block is accepted: the interface has a
/// private key, the block has a pre-shared key and an endpoint, the public
/// key is new, its prefixes conflict with nothing, and an index is free.
pub open spec fn update_peer_ok(pre: State, info: PeerInfo) -> bool {
    &&& pre.interface_info.private_key is Some
    &&& info.psk is Some
    &&& info.endpoint is Some
    &&& !has_pubkey(pre.peers@, info.pub_key@)
    &&& !new_prefixes_conflict(pre.routes.entries@, info.allowed_ips@)
    &&& pre.next_index < 0xffff_ffff_u32
}

/// The state and datagram after a peer is registered: the peer joins the
/// arena in `HandshakeSent`, its fresh session index is installed in the
/// index table, its prefixes join the routing table, and the datagram is
/// the framed handshake initiation for its configured endpoint.
pub open spec fn registered(
    pre: State,
    post: State,
    info: PeerInfo,
    payload: Seq<u8>,
    d: OutboundDatagram,
) -> bool {
    &&& post.peers@ == pre.peers@.push(
        Peer { info, session: SessionState::HandshakeSent { our_index: pre.next_index } },
    )
    &&& post.index_entries@ == pre.index_entries@.push(
        (pre.next_index, pre.peers@.len() as usize),
    )
    &&& has_entry(post.index_entries@, pre.next_index, pre.peers@.len() as usize)
    &&& post.routes.entries@.len() == pre.routes.entries@.len() + info.allowed_ips@.len()
    &&& (forall|i: int|
        0 <= i < pre.routes.entries@.len() ==> post.routes.entries@[i] == pre.routes.entries@[i])
    &&& (forall|k: int|
        0 <= k < info.allowed_ips@.len() ==> post.routes.entries@[pre.routes.entries@.len() + k]
            == (crate::ip::RouteEntry {
            prefix: info.allowed_ips@[k],
            peer: pre.peers@.len() as usize,
        }))
    &&& post.interface_info == pre.interface_info
    &&& post.next_index == pre.next_index + 1
    &&& d.endpoint == info.endpoint->Some_0
    &&& d.bytes@ == initiation_frame(pre.next_index, payload)
}

/// Registers a validated peer block, given the negotiator's handshake
/// payload. Succeeds exactly when `update_peer_ok` holds; on rejection the
/// state is untouched. On success the session index is installed before the
/// initiation datagram is handed back, so a reply arriving right after the
/// send already finds its peer.
pub fn register_peer(state: &mut State, info: PeerInfo, payload: Vec<u8>) -> (r: Result<
    OutboundDatagram,
    ConfigError,
>)
    requires
        old(state).wf(),
        peer_info_wf(info),
    ensures
        final(state).wf(),
        r is Err ==> *final(state) == *old(state),
        old(state).interface_info.private_key is None ==> r == Err::<
            OutboundDatagram,
            ConfigError,
        >(ConfigError::NoPrivateKey),
        old(state).interface_info.private_key is Some && info.psk is None ==> r == Err::<
            OutboundDatagram,
            ConfigError,
        >(ConfigError::MissingPresharedKey),
        old(state).interface_info.private_key is Some && info.psk is Some && info.endpoint is None
            ==> r == Err::<OutboundDatagram, ConfigError>(ConfigError::MissingEndpoint),
        old(state).interface_info.private_key is Some && info.psk is Some && info.endpoint is Some
            && has_pubkey(old(state).peers@, info.pub_key@) ==> r == Err::<
            OutboundDatagram,
            ConfigError,
        >(ConfigError::DuplicatePublicKey),
        old(state).interface_info.private_key is Some && info.psk is Some && info.endpoint is Some
            && !has_pubkey(old(state).peers@, info.pub_key@) && new_prefixes_conflict(
            old(state).routes.entries@,
            info.allowed_ips@,
        ) ==> r == Err::<OutboundDatagram, ConfigError>(ConfigError::OverlappingAllowedIp),
        old(state).interface_info.private_key is Some && info.psk is Some && info.endpoint is Some
            && !has_pubkey(old(state).peers@, info.pub_key@) && !new_prefixes_conflict(
            old(state).routes.entries@,
            info.allowed_ips@,
        ) && old(state).next_index == 0xffff_ffff_u32 ==> r == Err::<
            OutboundDatagram,
            ConfigError,
        >(ConfigError::IndexSpaceExhausted),
        update_peer_ok(*old(state), info) <==> r is Ok,
        r matches Ok(d) ==> registered(*old(state), *final(state), info, payload@, d),
{
    if state.interface_info.private_key.is_none() {
        return Err(ConfigError::NoPrivateKey);
    }
    if info.psk.is_none() {
        return Err(ConfigError::MissingPresharedKey);
    }
    let endpoint = match &info.endpoint {
        Some(e) => *e,
        None => {
            return Err(ConfigError::MissingEndpoint);
        },
    };
    if state.lookup_by_pubkey(&info.pub_key).is_some() {
        return Err(ConfigError::DuplicatePublicKey);
    }
    if state.has_route_conflict(&info.allowed_ips) {
        return Err(ConfigError::OverlappingAllowedIp);
    }
    if state.next_index == 0xffff_ffff {
        return Err(ConfigError::IndexSpaceExhausted);
    }
    let (h, idx) = state.insert_peer(info);
    let bytes = crate::message::build_initiation(idx, &payload);
    proof {
        assert(has_entry(state.index_entries@, idx, h)) by {
            assert(state.index_entries@[state.index_entries@.len() - 1] == (idx, h));
        }
    }
    Ok(OutboundDatagram { endpoint, bytes })
}

/// Applies one control-plane update event. Key and port updates mutate the
/// interface identity; a peer block is validated, taken through the
/// negotiator, and registered, handing back the handshake initiation to
/// send. On any rejection the state is untouched; only the negotiator's
/// own refusal (`Negotiator`) is not pinned down, since its message
/// embeds fresh randomness.
pub fn apply_event(state: &mut State, event: UpdateEvent) -> (r: Result<
    Option<OutboundDatagram>,
    ConfigError,
>)
    requires
        old(state).wf(),
        crate::control::event_wf(event),
    ensures
        final(state).wf(),
        r is Err ==> *final(state) == *old(state),
        event matches UpdateEvent::PrivateKey(k) ==> r is Ok && final(state).interface_info.private_key == Some(k) && final(state).interface_info.listen_port == old(state).interface_info.listen_port && final(state).peers@ == old(state).peers@ && final(state).index_entries@ == old(state).index_entries@ && final(state).routes.entries@ == old(state).routes.entries@ && final(state).next_index == old(state).next_index,
        event matches UpdateEvent::ListenPort(p) ==> r is Ok && final(state).interface_info.listen_port == Some(p) && final(state).interface_info.private_key == old(state).interface_info.private_key && final(state).peers@ == old(state).peers@ && final(state).index_entries@ == old(state).index_entries@ && final(state).routes.entries@ == old(state).routes.entries@ && final(state).next_index == old(state).next_index,
        event matches UpdateEvent::UpdatePeer(info) ==> {
            &&& (!update_peer_ok(*old(state), info) ==> r is Err && r != Err::<
                Option<OutboundDatagram>,
                ConfigError,
            >(ConfigError::Negotiator))
            &&& (update_peer_ok(*old(state), info) ==> (r matches Ok(Some(d)) && registered(
                *old(state),
                *final(state),
                info,
                d.bytes@.skip(5),
                d,
            )) || r == Err::<Option<OutboundDatagram>, ConfigError>(ConfigError::Negotiator))
        },
{
    match event {
        UpdateEvent::PrivateKey(k) => {
            state.set_private_key(k);
            Ok(None)
        },
        UpdateEvent::ListenPort(p) => {
            state.set_listen_port(p);
            Ok(None)
        },
        UpdateEvent::UpdatePeer(info) => {
            let local_priv = match &state.interface_info.private_key {
                Some(k) => k,
                None => {
                    return Err(ConfigError::NoPrivateKey);
                },
            };
            let psk = match &info.psk {
                Some(k) => k,
                None => {
                    return Err(ConfigError::MissingPresharedKey);
                },
            };
            if info.endpoint.is_none() {
                return Err(ConfigError::MissingEndpoint);
            }
            if state.lookup_by_pubkey(&info.pub_key).is_some() {
                return Err(ConfigError::DuplicatePublicKey);
            }
            if state.has_route_conflict(&info.allowed_ips) {
                return Err(ConfigError::OverlappingAllowedIp);
            }
            if state.next_index == 0xffff_ffff {
                return Err(ConfigError::IndexSpaceExhausted);
            }
            let payload = match noise_initiate(
                "Noise_IKpsk2_25519_ChaChaPoly_BLAKE2s",
                "WireGuard v1 zx2c4 Jason@zx2c4.com",
                local_priv,
                &info.pub_key,
                psk,
            ) {
                Ok(p) => p,
                Err(_) => {
                    return Err(ConfigError::Negotiator);
                },
            };
            let ghost payv = payload@;
            match register_peer(state, info, payload) {
                Ok(d) => {
                    proof {
                        vstd::bytes::lemma_auto_spec_u32_to_from_le_bytes();
                        assert(d.bytes@.skip(5) =~= payv);
                    }
                    Ok(Some(d))
                },
                Err(e) => Err(e),
            }
        },
    }
}

/// Strips the virtual device's fixed four-byte family marker from an
/// inbound unit; shorter units are malformed and dropped.
pub fn utun_decode(buf: &Vec<u8>) -> (r: Option<Vec<u8>>)
    ensures
        buf@.len() >= 4 ==> (r matches Some(p) && p@ == buf@.skip(4)),
        buf@.len() < 4 ==> r is None,
{
    if buf.len() < 4 {
        return None;
    }
    let p = crate::control::sub_bytes(buf, 4, buf.len());
    proof {
        assert(p@ =~= buf@.skip(4));
    }
    Some(p)
}

/// Prepends the virtual device's fixed four-byte family marker to an
/// outbound packet.
pub fn utun_encode(msg: &Vec<u8>) -> (r: Vec<u8>)
    ensures
        r@ == seq![0u8, 0u8, 0u8, 2u8] + msg@,
{
    let mut out: Vec<u8> = vec![0, 0, 0, 2];
    out.extend_from_slice(msg.as_slice());
    proof {
        assert(out@ =~= seq![0u8, 0u8, 0u8, 2u8] + msg@);
    }
    out
}

/// The well-known control-socket path for an interface name.
pub open spec fn socket_path_text(name: Seq<u8>) -> Seq<u8> {
    kw_sock_dir() + name + kw_sock_ext()
}

/// Derives the control-socket path from the interface name.
pub fn control_socket_path(name: &Vec<u8>) -> (r: Vec<u8>)
    ensures
        r@ == socket_path_text(name@),
{
    let mut out = kw_sock_dir_vec();
    out.extend_from_slice(name.as_slice());
    let ext = kw_sock_ext_vec();
    out.extend_from_slice(ext.as_slice());
    proof {
        assert(out@ =~= socket_path_text(name@));
    }
    out
}

/// Distinct interface names give distinct control-socket paths, so two
/// interfaces on one host never collide on the filesystem.
pub proof fn lemma_socket_path_injective(n1: Seq<u8>, n2: Seq<u8>)
    requires
        socket_path_text(n1) == socket_path_text(n2),
    ensures
        n1 == n2,
{
    let d = kw_sock_dir().len() as int;
    assert(socket_path_text(n1).len() == d + n1.len() + kw_sock_ext().len());
    assert(socket_path_text(n2).len() == d + n2.len() + kw_sock_ext().len());
    assert(n1.len() == n2.len());
    assert forall|i: int| 0 <= i < n1.len() implies n1[i] == n2[i] by {
        assert(socket_path_text(n1)[d + i] == n1[i]);
        assert(socket_path_text(n2)[d + i] == n2[i]);
    }
    assert(n1 =~= n2);
}

} // verus!
