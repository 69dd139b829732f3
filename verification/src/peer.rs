//! Peers: identity, allowed prefixes, endpoint, session state, and the
//! textual configuration block a peer contributes to a `GET` response.

use vstd::prelude::*;
use crate::bytes::{dec_rep, hex_lower, format_u64_dec, hex_encode};
use crate::ip::{Prefix, prefix_wf};
use crate::words::{
    kw_allowed_ip, kw_allowed_ip_vec, kw_endpoint, kw_endpoint_vec, kw_preshared_key,
    kw_preshared_key_vec, kw_public_key, kw_public_key_vec,
};

verus! {

/// A UDP endpoint. For IPv4 the address sits in the low 32 bits.
#[derive(Clone, Copy, PartialEq, Eq, Structural, Debug)]
pub struct Endpoint {
    pub is_v6: bool,
    pub addr: u128,
    pub port: u16,
}

pub open spec fn endpoint_wf(e: Endpoint) -> bool {
    !e.is_v6 ==> e.addr < 0x1_0000_0000
}

/// The configured attributes of one remote peer.
pub struct PeerInfo {
    pub pub_key: Vec<u8>,
    pub psk: Option<Vec<u8>>,
    pub endpoint: Option<Endpoint>,
    pub allowed_ips: Vec<Prefix>,
}

pub open spec fn peer_info_wf(info: PeerInfo) -> bool {
    &&& info.pub_key@.len() == 32
    &&& (info.psk matches Some(k) ==> k@.len() == 32)
    &&& (info.endpoint matches Some(e) ==> endpoint_wf(e))
    &&& (forall|i: int|
        0 <= i < info.allowed_ips@.len() ==> prefix_wf(#[trigger] info.allowed_ips@[i]))
}

/// The session-negotiation state of one peer. The index is the locally
/// assigned session index installed in the session-index table.
pub enum SessionState {
    Uninitiated,
    HandshakeSent { our_index: u32 },
    Established { our_index: u32, their_index: u32 },
    Expired,
}

/// The session index a peer currently occupies, if any.
pub open spec fn session_index(s: SessionState) -> Option<u32> {
    match s {
        SessionState::Uninitiated => None,
        SessionState::HandshakeSent { our_index } => Some(our_index),
        SessionState::Established { our_index, their_index } => Some(our_index),
        SessionState::Expired => None,
    }
}

/// One remote tunnel endpoint with its protocol state.
pub struct Peer {
    pub info: PeerInfo,
    pub session: SessionState,
}

/// Dotted-quad text of an IPv4 address held in the low 32 bits.
pub open spec fn v4_text(a: u128) -> Seq<u8> {
    dec_rep((((a >> 24) & 0xff) as u8) as nat) + seq![46u8] + dec_rep(
        (((a >> 16) & 0xff) as u8) as nat,
    ) + seq![46u8] + dec_rep((((a >> 8) & 0xff) as u8) as nat) + seq![46u8] + dec_rep(
        ((a & 0xff) as u8) as nat,
    )
}

pub fn v4_text_vec(a: u128) -> (r: Vec<u8>)
    ensures
        r@ == v4_text(a),
{
    let o0 = ((a >> 24) & 0xff) as u8;
    let o1 = ((a >> 16) & 0xff) as u8;
    let o2 = ((a >> 8) & 0xff) as u8;
    let o3 = (a & 0xff) as u8;
    let mut out = format_u64_dec(o0 as u64);
    out.push(46);
    let t1 = format_u64_dec(o1 as u64);
    out.extend_from_slice(t1.as_slice());
    out.push(46);
    let t2 = format_u64_dec(o2 as u64);
    out.extend_from_slice(t2.as_slice());
    out.push(46);
    let t3 = format_u64_dec(o3 as u64);
    out.extend_from_slice(t3.as_slice());
    proof {
        assert(out@ =~= v4_text(a));
    }
    out
}

/// The `i`-th 16-bit group of an IPv6 address, as four hexadecimal digits.
pub open spec fn v6_group(a: u128, i: int) -> Seq<u8> {
    hex_lower(
        seq![
            ((a >> ((120 - 16 * i) as u128)) & 0xff) as u8,
            ((a >> ((112 - 16 * i) as u128)) & 0xff) as u8,
        ],
    )
}

/// The first `k` groups of the uncompressed IPv6 text, colon-separated.
pub open spec fn v6_groups_text(a: u128, k: int) -> Seq<u8>
    decreases k,
{
    if k <= 0 {
        seq![]
    } else if k == 1 {
        v6_group(a, 0)
    } else {
        v6_groups_text(a, k - 1) + seq![58u8] + v6_group(a, k - 1)
    }
}

/// Uncompressed lowercase IPv6 text: eight groups of four hex digits.
pub open spec fn v6_text(a: u128) -> Seq<u8> {
    v6_groups_text(a, 8)
}

pub fn v6_text_vec(a: u128) -> (r: Vec<u8>)
    ensures
        r@ == v6_text(a),
{
    let mut out: Vec<u8> = Vec::new();
    let mut i: usize = 0;
    while i < 8
        invariant
            i <= 8,
            out@ == v6_groups_text(a, i as int),
        decreases 8 - i,
    {
        if i > 0 {
            out.push(58);
        }
        let sh_hi: u32 = 120 - 16 * (i as u32);
        let hi = ((a >> sh_hi) & 0xff) as u8;
        let lo = ((a >> (sh_hi - 8)) & 0xff) as u8;
        let pair: Vec<u8> = vec![hi, lo];
        let g = hex_encode(&pair);
        out.extend_from_slice(g.as_slice());
        proof {
            assert(pair@ =~= seq![
                ((a >> ((120 - 16 * i as int) as u128)) & 0xff) as u8,
                ((a >> ((112 - 16 * i as int) as u128)) & 0xff) as u8,
            ]);
            assert(out@ =~= v6_groups_text(a, i as int + 1));
        }
        i += 1;
    }
    out
}

/// Text of an address of either family.
pub open spec fn addr_text(is_v6: bool, a: u128) -> Seq<u8> {
    if is_v6 {
        v6_text(a)
    } else {
        v4_text(a)
    }
}

pub fn addr_text_vec(is_v6: bool, a: u128) -> (r: Vec<u8>)
    ensures
        r@ == addr_text(is_v6, a),
{
    if is_v6 {
        v6_text_vec(a)
    } else {
        v4_text_vec(a)
    }
}

/// CIDR text of a prefix: address, `/`, mask length.
pub open spec fn prefix_text(p: Prefix) -> Seq<u8> {
    addr_text(p.is_v6, p.addr) + seq![47u8] + dec_rep(p.masklen as nat)
}

pub fn prefix_text_vec(p: &Prefix) -> (r: Vec<u8>)
    ensures
        r@ == prefix_text(*p),
{
    let mut out = addr_text_vec(p.is_v6, p.addr);
    out.push(47);
    let m = format_u64_dec(p.masklen as u64);
    out.extend_from_slice(m.as_slice());
    proof {
        assert(out@ =~= prefix_text(*p));
    }
    out
}

/// Text of an endpoint: `addr:port`, the address bracketed for IPv6.
pub open spec fn endpoint_text(e: Endpoint) -> Seq<u8> {
    if e.is_v6 {
        seq![91u8] + v6_text(e.addr) + seq![93u8, 58u8] + dec_rep(e.port as nat)
    } else {
        v4_text(e.addr) + seq![58u8] + dec_rep(e.port as nat)
    }
}

pub fn endpoint_text_vec(e: &Endpoint) -> (r: Vec<u8>)
    ensures
        r@ == endpoint_text(*e),
{
    let mut out: Vec<u8> = Vec::new();
    if e.is_v6 {
        out.push(91);
        let a = v6_text_vec(e.addr);
        out.extend_from_slice(a.as_slice());
        out.push(93);
        out.push(58);
    } else {
        let a = v4_text_vec(e.addr);
        out.extend_from_slice(a.as_slice());
        out.push(58);
    }
    let p = format_u64_dec(e.port as u64);
    out.extend_from_slice(p.as_slice());
    proof {
        assert(out@ =~= endpoint_text(*e));
    }
    out
}

/// The `allowed_ip=` lines for the first `k` prefixes.
pub open spec fn allowed_ip_lines(s: Seq<Prefix>, k: int) -> Seq<u8>
    decreases k,
{
    if k <= 0 {
        seq![]
    } else {
        allowed_ip_lines(s, k - 1) + kw_allowed_ip() + seq![61u8] + prefix_text(s[k - 1])
            + seq![10u8]
    }
}

/// The `preshared_key=` line, when a pre-shared key is set.
pub open spec fn psk_line(p: Peer) -> Seq<u8> {
    match p.info.psk {
        Some(k) => kw_preshared_key() + seq![61u8] + hex_lower(k@) + seq![10u8],
        None => seq![],
    }
}

/// The `endpoint=` line, when an endpoint is known.
pub open spec fn endpoint_line(p: Peer) -> Seq<u8> {
    match p.info.endpoint {
        Some(e) => kw_endpoint() + seq![61u8] + endpoint_text(e) + seq![10u8],
        None => seq![],
    }
}

/// One peer's block in a `GET` response: its public key, pre-shared key,
/// allowed prefixes and last-known endpoint, one `key=value` line each.
pub open spec fn config_block(p: Peer) -> Seq<u8> {
    kw_public_key() + seq![61u8] + hex_lower(p.info.pub_key@) + seq![10u8] + psk_line(p)
        + allowed_ip_lines(p.info.allowed_ips@, p.info.allowed_ips@.len() as int) + endpoint_line(p)
}

impl Peer {
    /// Serializes this peer's configuration block.
    pub fn to_config_bytes(&self) -> (r: Vec<u8>)
        ensures
            r@ == config_block(*self),
    {
        let mut out = kw_public_key_vec();
        out.push(61);
        let hk = hex_encode(&self.info.pub_key);
        out.extend_from_slice(hk.as_slice());
        out.push(10);
        match &self.info.psk {
            Some(k) => {
                let t = kw_preshared_key_vec();
                out.extend_from_slice(t.as_slice());
                out.push(61);
                let h = hex_encode(k);
                out.extend_from_slice(h.as_slice());
                out.push(10);
            },
            None => {},
        }
        let ghost head = out@;
        proof {
            assert(head =~= kw_public_key() + seq![61u8] + hex_lower(self.info.pub_key@)
                + seq![10u8] + psk_line(*self));
        }
        let mut i: usize = 0;
        while i < self.info.allowed_ips.len()
            invariant
                i <= self.info.allowed_ips@.len(),
                out@ == head + allowed_ip_lines(self.info.allowed_ips@, i as int),
            decreases self.info.allowed_ips@.len() - i,
        {
            let t = kw_allowed_ip_vec();
            out.extend_from_slice(t.as_slice());
            out.push(61);
            let pt = prefix_text_vec(&self.info.allowed_ips[i]);
            out.extend_from_slice(pt.as_slice());
            out.push(10);
            proof {
                assert(out@ =~= head + allowed_ip_lines(self.info.allowed_ips@, i as int + 1));
            }
            i += 1;
        }
        match &self.info.endpoint {
            Some(e) => {
                let t = kw_endpoint_vec();
                out.extend_from_slice(t.as_slice());
                out.push(61);
                let et = endpoint_text_vec(e);
                out.extend_from_slice(et.as_slice());
                out.push(10);
            },
            None => {},
        }
        proof {
            assert(out@ =~= config_block(*self));
        }
        out
    }
}

} // verus!
