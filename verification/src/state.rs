//! The shared routing state: the peer arena, the session-index table, the
//! longest-prefix routing table, and the interface identity.

use vstd::prelude::*;
use crate::bytes::bytes_eq;
use crate::ip::{Prefix, RouteEntry, RouteTable, prefix_matches, prefix_wf, prefixes_overlap};
use crate::peer::{Peer, PeerInfo, SessionState, peer_info_wf, session_index};

verus! {

/// Process-wide identity: local private key and UDP listen port.
pub struct InterfaceInfo {
    pub private_key: Option<Vec<u8>>,
    pub listen_port: Option<u16>,
}

/// Whether the entry list holds `(key, handle)`.
pub open spec fn has_entry(s: Seq<(u32, usize)>, key: u32, h: usize) -> bool {
    exists|i: int| 0 <= i < s.len() && s[i] == (key, h)
}

/// Whether the entry list holds any entry with `key`.
pub open spec fn has_key(s: Seq<(u32, usize)>, key: u32) -> bool {
    exists|i: int| 0 <= i < s.len() && s[i].0 == key
}

/// Whether some registered peer has this public key.
pub open spec fn has_pubkey(peers: Seq<Peer>, key: Seq<u8>) -> bool {
    exists|h: int| 0 <= h < peers.len() && peers[h].info.pub_key@ == key
}

/// The shared aggregate: peer arena, session-index entries, prefix routes,
/// and interface identity. A peer is named by its arena index (its handle).
pub struct State {
    pub peers: Vec<Peer>,
    pub index_entries: Vec<(u32, usize)>,
    pub routes: RouteTable,
    pub interface_info: InterfaceInfo,
    pub next_index: u32,
}

impl State {
    /// Well-formedness, preserved by every operation:
    /// - every peer is well formed and public keys are distinct;
    /// - session-index keys are distinct, point into the arena, and agree
    ///   with the indexed peer's session state, in both directions;
    /// - no held session index reaches `next_index` (freshness);
    /// - route prefixes are well formed, pairwise non-overlapping, owned by
    ///   arena peers, and each is one of its owner's allowed prefixes.
    pub open spec fn wf(&self) -> bool {
        &&& (forall|h: int|
            0 <= h < self.peers@.len() ==> peer_info_wf(#[trigger] self.peers@[h].info))
        &&& (forall|h1: int, h2: int|
            0 <= h1 < self.peers@.len() && 0 <= h2 < self.peers@.len() && h1 != h2
                ==> (#[trigger] self.peers@[h1].info.pub_key@) != (
            #[trigger] self.peers@[h2].info.pub_key@))
        &&& (forall|i: int, j: int|
            0 <= i < self.index_entries@.len() && 0 <= j < self.index_entries@.len() && i != j
                ==> (#[trigger] self.index_entries@[i].0) != (#[trigger] self.index_entries@[j].0))
        &&& (forall|i: int|
            0 <= i < self.index_entries@.len() ==> (#[trigger] self.index_entries@[i]).1
                < self.peers@.len() && session_index(self.peers@[self.index_entries@[i].1 as int].session)
                == Some(self.index_entries@[i].0))
        &&& (forall|h: int|
            0 <= h < self.peers@.len() && session_index(#[trigger] self.peers@[h].session) is Some
                ==> has_entry(
                self.index_entries@,
                session_index(self.peers@[h].session)->Some_0,
                h as usize,
            ))
        &&& (forall|i: int|
            0 <= i < self.index_entries@.len() ==> (#[trigger] self.index_entries@[i]).0
                < self.next_index)
        &&& self.routes.wf()
        &&& self.routes.non_overlapping()
        &&& (forall|i: int|
            0 <= i < self.routes.entries@.len() ==> (#[trigger] self.routes.entries@[i]).peer
                < self.peers@.len())
        &&& (forall|i: int|
            0 <= i < self.routes.entries@.len() ==> self.peers@[(
            #[trigger] self.routes.entries@[i]).peer as int].info.allowed_ips@.contains(
                self.routes.entries@[i].prefix,
            ))
        &&& (self.interface_info.private_key matches Some(k) ==> k@.len() == 32)
    }

    /// A fresh, empty interface state.
    pub fn new() -> (r: State)
        ensures
            r.wf(),
            r.peers@.len() == 0,
            r.index_entries@.len() == 0,
            r.routes.entries@.len() == 0,
            r.interface_info.private_key is None,
            r.interface_info.listen_port is None,
            r.next_index == 1,
    {
        State {
            peers: Vec::new(),
            index_entries: Vec::new(),
            routes: RouteTable::new(),
            interface_info: InterfaceInfo { private_key: None, listen_port: None },
            next_index: 1,
        }
    }

    /// The handle of the peer with this public key.
    pub fn lookup_by_pubkey(&self, key: &Vec<u8>) -> (r: Option<usize>)
        ensures
            r is Some <==> has_pubkey(self.peers@, key@),
            r matches Some(h) ==> h < self.peers@.len() && self.peers@[h as int].info.pub_key@
                == key@,
    {
        let mut h: usize = 0;
        while h < self.peers.len()
            invariant
                h <= self.peers@.len(),
                forall|j: int| 0 <= j < h ==> (#[trigger] self.peers@[j].info.pub_key@) != key@,
            decreases self.peers@.len() - h,
        {
            if bytes_eq(&self.peers[h].info.pub_key, key) {
                return Some(h);
            }
            h += 1;
        }
        None
    }

    /// The handle registered under this session index.
    pub fn lookup_by_index(&self, idx: u32) -> (r: Option<usize>)
        ensures
            r is Some <==> has_key(self.index_entries@, idx),
            r matches Some(h) ==> has_entry(self.index_entries@, idx, h),
            self.wf() ==> (r matches Some(h) ==> h < self.peers@.len()),
    {
        let mut i: usize = 0;
        while i < self.index_entries.len()
            invariant
                i <= self.index_entries@.len(),
                forall|j: int| 0 <= j < i ==> (#[trigger] self.index_entries@[j]).0 != idx,
            decreases self.index_entries@.len() - i,
        {
            if self.index_entries[i].0 == idx {
                return Some(self.index_entries[i].1);
            }
            i += 1;
        }
        None
    }

    /// Longest-prefix route of a destination address: the handle of the peer
    /// owning the longest registered prefix that contains it; `None` (no
    /// route, drop) when no prefix contains it.
    pub fn route(&self, is_v6: bool, dest: u128) -> (r: Option<usize>)
        requires
            self.wf(),
        ensures
            r is None <==> (forall|i: int|
                0 <= i < self.routes.entries@.len() ==> !prefix_matches(
                    (#[trigger] self.routes.entries@[i]).prefix,
                    is_v6,
                    dest,
                )),
            r matches Some(h) ==> h < self.peers@.len() && (exists|i: int|
                0 <= i < self.routes.entries@.len() && prefix_matches(
                    (#[trigger] self.routes.entries@[i]).prefix,
                    is_v6,
                    dest,
                ) && self.routes.entries@[i].peer == h && (forall|j: int|
                    0 <= j < self.routes.entries@.len() && prefix_matches(
                        (#[trigger] self.routes.entries@[j]).prefix,
                        is_v6,
                        dest,
                    ) ==> self.routes.entries@[j].prefix.masklen
                        <= self.routes.entries@[i].prefix.masklen)),
    {
        match self.routes.route(is_v6, dest) {
            Some((h, _m)) => Some(h),
            None => None,
        }
    }

    /// Whether a set of new prefixes conflicts: one of them overlaps a
    /// registered route, or two of them overlap each other.
    pub fn has_route_conflict(&self, prefixes: &Vec<Prefix>) -> (r: bool)
        requires
            self.wf(),
            forall|i: int| 0 <= i < prefixes@.len() ==> prefix_wf(#[trigger] prefixes@[i]),
        ensures
            r == (new_prefixes_conflict(self.routes.entries@, prefixes@)),
    {
        let mut i: usize = 0;
        while i < prefixes.len()
            invariant
                self.wf(),
                i <= prefixes@.len(),
                forall|k: int| 0 <= k < prefixes@.len() ==> prefix_wf(#[trigger] prefixes@[k]),
                forall|k: int, j: int|
                    0 <= k < i && 0 <= j < self.routes.entries@.len() ==> !prefixes_overlap(
                        (#[trigger] self.routes.entries@[j]).prefix,
                        #[trigger] prefixes@[k],
                    ),
            decreases prefixes@.len() - i,
        {
            if self.routes.find_overlap(&prefixes[i]).is_some() {
                return true;
            }
            i += 1;
        }
        false
    }

    /// Registers a new peer: assigns a fresh session index, moves the peer to
    /// `HandshakeSent`, and installs it in the arena, the session-index table
    /// and the routing table. The caller has ruled out conflicts.
    pub fn insert_peer(&mut self, info: PeerInfo) -> (r: (usize, u32))
        requires
            old(self).wf(),
            peer_info_wf(info),
            !has_pubkey(old(self).peers@, info.pub_key@),
            !new_prefixes_conflict(old(self).routes.entries@, info.allowed_ips@),
            old(self).next_index < 0xffff_ffff_u32,
        ensures
            final(self).wf(),
            r.0 == old(self).peers@.len(),
            r.1 == old(self).next_index,
            final(self).peers@ == old(self).peers@.push(
                Peer { info, session: SessionState::HandshakeSent { our_index: r.1 } },
            ),
            final(self).index_entries@ == old(self).index_entries@.push((r.1, r.0)),
            final(self).routes.entries@.len() == old(self).routes.entries@.len()
                + info.allowed_ips@.len(),
            forall|i: int|
                0 <= i < old(self).routes.entries@.len() ==> final(self).routes.entries@[i] == old(
                    self,
                ).routes.entries@[i],
            forall|k: int|
                0 <= k < info.allowed_ips@.len() ==> final(self).routes.entries@[old(
                    self,
                ).routes.entries@.len() + k] == (RouteEntry {
                    prefix: info.allowed_ips@[k],
                    peer: r.0,
                }),
            final(self).interface_info == old(self).interface_info,
            final(self).next_index == old(self).next_index + 1,
    {
        let h = self.peers.len();
        let idx = self.next_index;
        self.next_index = idx + 1;
        let ghost ips = info.allowed_ips@;
        let mut prefixes: Vec<Prefix> = Vec::new();
        let mut k: usize = 0;
        while k < info.allowed_ips.len()
            invariant
                k <= ips.len(),
                info.allowed_ips@ == ips,
                prefixes@ =~= ips.take(k as int),
            decreases ips.len() - k,
        {
            prefixes.push(info.allowed_ips[k]);
            proof {
                assert(prefixes@ =~= ips.take(k as int + 1));
            }
            k += 1;
        }
        proof {
            assert(prefixes@ =~= ips);
        }
        self.peers.push(Peer { info, session: SessionState::HandshakeSent { our_index: idx } });
        self.index_entries.push((idx, h));
        let mut k2: usize = 0;
        while k2 < prefixes.len()
            invariant
                k2 <= ips.len(),
                prefixes@ == ips,
                self.routes.entries@.len() == old(self).routes.entries@.len() + k2,
                forall|i: int|
                    0 <= i < old(self).routes.entries@.len() ==> #[trigger] self.routes.entries@[i]
                        == old(self).routes.entries@[i],
                forall|j: int|
                    0 <= j < k2 ==> #[trigger] self.routes.entries@[old(
                        self,
                    ).routes.entries@.len() + j] == (RouteEntry { prefix: ips[j], peer: h }),
                self.peers@ == old(self).peers@.push(
                    Peer { info, session: SessionState::HandshakeSent { our_index: idx } },
                ),
                self.index_entries@ == old(self).index_entries@.push((idx, h)),
                self.interface_info == old(self).interface_info,
                self.next_index == old(self).next_index + 1,
                h == old(self).peers@.len(),
                idx == old(self).next_index,
                forall|i: int| 0 <= i < ips.len() ==> prefix_wf(#[trigger] ips[i]),
                self.routes.wf(),
            decreases ips.len() - k2,
        {
            let p = prefixes[k2];
            self.routes.push_entry(p, h);
            k2 += 1;
        }
        proof {
            lemma_insert_peer_wf(old(self), self, info, h, idx);
        }
        (h, idx)
    }
}

impl State {
    /// Stores the local private key.
    pub fn set_private_key(&mut self, key: Vec<u8>)
        requires
            old(self).wf(),
            key@.len() == 32,
        ensures
            final(self).wf(),
            final(self).interface_info.private_key == Some(key),
            final(self).interface_info.listen_port == old(self).interface_info.listen_port,
            final(self).peers@ == old(self).peers@,
            final(self).index_entries@ == old(self).index_entries@,
            final(self).routes.entries@ == old(self).routes.entries@,
            final(self).next_index == old(self).next_index,
    {
        self.interface_info.private_key = Some(key);
    }

    /// Stores the UDP listen port.
    pub fn set_listen_port(&mut self, port: u16)
        requires
            old(self).wf(),
        ensures
            final(self).wf(),
            final(self).interface_info.listen_port == Some(port),
            final(self).interface_info.private_key == old(self).interface_info.private_key,
            final(self).peers@ == old(self).peers@,
            final(self).index_entries@ == old(self).index_entries@,
            final(self).routes.entries@ == old(self).routes.entries@,
            final(self).next_index == old(self).next_index,
    {
        self.interface_info.listen_port = Some(port);
    }

    /// Removes the session-index entry with this key, if present. All other
    /// entries survive; nothing else changes.
    fn remove_index_entry(&mut self, key: u32)
        requires
            forall|i: int, j: int|
                0 <= i < old(self).index_entries@.len() && 0 <= j
                    < old(self).index_entries@.len() && i != j
                    ==> (#[trigger] old(self).index_entries@[i].0) != (
                #[trigger] old(self).index_entries@[j].0),
        ensures
            !has_key(final(self).index_entries@, key),
            forall|k: u32, hh: usize|
                k != key ==> (has_entry(final(self).index_entries@, k, hh) <==> has_entry(
                    old(self).index_entries@,
                    k,
                    hh,
                )),
            forall|i: int|
                0 <= i < final(self).index_entries@.len() ==> old(self).index_entries@.contains(
                    #[trigger] final(self).index_entries@[i],
                ),
            forall|i: int, j: int|
                0 <= i < final(self).index_entries@.len() && 0 <= j
                    < final(self).index_entries@.len() && i != j
                    ==> (#[trigger] final(self).index_entries@[i].0)
                    != (#[trigger] final(self).index_entries@[j].0),
            final(self).peers@ == old(self).peers@,
            final(self).routes == old(self).routes,
            final(self).interface_info == old(self).interface_info,
            final(self).next_index == old(self).next_index,
    {
        let ghost pre = self.index_entries@;
        let mut i: usize = 0;
        while i < self.index_entries.len()
            invariant
                i <= pre.len(),
                pre == old(self).index_entries@,
                self.index_entries@ == pre,
                self.peers@ == old(self).peers@,
                self.routes == old(self).routes,
                self.interface_info == old(self).interface_info,
                self.next_index == old(self).next_index,
                forall|j: int| 0 <= j < i ==> (#[trigger] pre[j].0) != key,
                forall|i0: int, j0: int|
                    0 <= i0 < pre.len() && 0 <= j0 < pre.len() && i0 != j0 ==> (
                    #[trigger] pre[i0].0) != (#[trigger] pre[j0].0),
            decreases pre.len() - i,
        {
            if self.index_entries[i].0 == key {
                let ghost pos = i as int;
                self.index_entries.remove(i);
                proof {
                    let cur = self.index_entries@;
                    assert(cur =~= pre.subrange(0, pos) + pre.subrange(pos + 1, pre.len() as int));
                    assert forall|i2: int| 0 <= i2 < cur.len() implies pre.contains(
                        #[trigger] cur[i2],
                    ) by {
                        if i2 < pos {
                            assert(cur[i2] == pre[i2]);
                        } else {
                            assert(cur[i2] == pre[i2 + 1]);
                        }
                    }
                    assert forall|i2: int| 0 <= i2 < cur.len() implies (#[trigger] cur[i2].0)
                        != key by {
                        if i2 < pos {
                            assert(cur[i2] == pre[i2]);
                        } else {
                            assert(cur[i2] == pre[i2 + 1]);
                        }
                    }
                    assert forall|i2: int, j2: int|
                        0 <= i2 < cur.len() && 0 <= j2 < cur.len() && i2 != j2 implies (
                    #[trigger] cur[i2].0) != (#[trigger] cur[j2].0) by {
                        let a = if i2 < pos {
                            i2
                        } else {
                            i2 + 1
                        };
                        let b = if j2 < pos {
                            j2
                        } else {
                            j2 + 1
                        };
                        assert(cur[i2] == pre[a]);
                        assert(cur[j2] == pre[b]);
                    }
                    assert forall|k: u32, hh: usize|
                        k != key && has_entry(pre, k, hh) implies has_entry(
                        self.index_entries@,
                        k,
                        hh,
                    ) by {
                        let w = choose|j: int| 0 <= j < pre.len() && pre[j] == (k, hh);
                        if w < pos {
                            assert(cur[w] == pre[w]);
                        } else {
                            assert(w != pos);
                            assert(cur[w - 1] == pre[w]);
                        }
                    }
                    assert forall|k: u32, hh: usize|
                        k != key && has_entry(cur, k, hh) implies has_entry(pre, k, hh) by {
                        let w = choose|j: int| 0 <= j < cur.len() && cur[j] == (k, hh);
                        if w < pos {
                            assert(pre[w] == cur[w]);
                        } else {
                            assert(pre[w + 1] == cur[w]);
                        }
                    }
                }
                return ;
            }
            i += 1;
        }
    }

    /// Installs the negotiated transport keys: the peer leaves
    /// `HandshakeSent` for `Established`, keeping its session index; nothing
    /// else changes.
    pub fn complete_handshake(&mut self, h: usize, their_index: u32)
        requires
            old(self).wf(),
            h < old(self).peers@.len(),
            old(self).peers@[h as int].session matches SessionState::HandshakeSent { .. },
        ensures
            final(self).wf(),
            final(self).peers@ == old(self).peers@.update(
                h as int,
                Peer {
                    info: old(self).peers@[h as int].info,
                    session: SessionState::Established {
                        our_index: old(self).peers@[h as int].session->HandshakeSent_our_index,
                        their_index,
                    },
                },
            ),
            final(self).index_entries@ == old(self).index_entries@,
            final(self).routes.entries@ == old(self).routes.entries@,
            final(self).interface_info == old(self).interface_info,
            final(self).next_index == old(self).next_index,
    {
        let p = self.peers.remove(h);
        let our_index = match &p.session {
            SessionState::HandshakeSent { our_index } => *our_index,
            _ => {
                proof {
                    assert(false);
                }
                0
            },
        };
        let p2 = Peer {
            info: p.info,
            session: SessionState::Established { our_index, their_index },
        };
        self.peers.insert(h, p2);
        proof {
            assert(self.peers@ =~= old(self).peers@.update(
                h as int,
                Peer {
                    info: old(self).peers@[h as int].info,
                    session: SessionState::Established {
                        our_index: old(self).peers@[h as int].session->HandshakeSent_our_index,
                        their_index,
                    },
                },
            ));
            lemma_same_session_update_wf(old(self), self, h);
        }
    }

    /// Records the source address of a classified datagram as the peer's
    /// last-known endpoint.
    pub fn update_endpoint(&mut self, h: usize, ep: crate::peer::Endpoint)
        requires
            old(self).wf(),
            h < old(self).peers@.len(),
            crate::peer::endpoint_wf(ep),
        ensures
            final(self).wf(),
            final(self).peers@ == old(self).peers@.update(
                h as int,
                Peer {
                    info: PeerInfo {
                        pub_key: old(self).peers@[h as int].info.pub_key,
                        psk: old(self).peers@[h as int].info.psk,
                        endpoint: Some(ep),
                        allowed_ips: old(self).peers@[h as int].info.allowed_ips,
                    },
                    session: old(self).peers@[h as int].session,
                },
            ),
            final(self).index_entries@ == old(self).index_entries@,
            final(self).routes.entries@ == old(self).routes.entries@,
            final(self).interface_info == old(self).interface_info,
            final(self).next_index == old(self).next_index,
    {
        let p = self.peers.remove(h);
        let info = p.info;
        let p2 = Peer {
            info: PeerInfo {
                pub_key: info.pub_key,
                psk: info.psk,
                endpoint: Some(ep),
                allowed_ips: info.allowed_ips,
            },
            session: p.session,
        };
        self.peers.insert(h, p2);
        proof {
            assert(self.peers@ =~= old(self).peers@.update(
                h as int,
                Peer {
                    info: PeerInfo {
                        pub_key: old(self).peers@[h as int].info.pub_key,
                        psk: old(self).peers@[h as int].info.psk,
                        endpoint: Some(ep),
                        allowed_ips: old(self).peers@[h as int].info.allowed_ips,
                    },
                    session: old(self).peers@[h as int].session,
                },
            ));
            lemma_same_session_update_wf(old(self), self, h);
        }
    }
}

/// After updating one peer without changing its session index (and without
/// touching its key or prefixes), the state is still well formed.
proof fn lemma_same_session_update_wf(pre: &State, post: &State, h: usize)
    requires
        pre.wf(),
        h < pre.peers@.len(),
        post.peers@.len() == pre.peers@.len(),
        forall|i: int| 0 <= i < pre.peers@.len() && i != h ==> post.peers@[i] == pre.peers@[i],
        session_index(post.peers@[h as int].session) == session_index(
            pre.peers@[h as int].session,
        ),
        post.peers@[h as int].info.pub_key@ == pre.peers@[h as int].info.pub_key@,
        post.peers@[h as int].info.allowed_ips@ == pre.peers@[h as int].info.allowed_ips@,
        peer_info_wf(post.peers@[h as int].info),
        post.index_entries@ == pre.index_entries@,
        post.routes == pre.routes,
        post.interface_info == pre.interface_info,
        post.next_index == pre.next_index,
    ensures
        post.wf(),
{
    assert forall|i: int|
        0 <= i < post.index_entries@.len() implies (#[trigger] post.index_entries@[i]).1
            < post.peers@.len() && session_index(
        post.peers@[post.index_entries@[i].1 as int].session,
    ) == Some(post.index_entries@[i].0) by {
        assert(pre.index_entries@[i].1 < pre.peers@.len());
        assert(session_index(pre.peers@[pre.index_entries@[i].1 as int].session) == Some(
            pre.index_entries@[i].0,
        ));
    }
    assert forall|hh: int|
        0 <= hh < post.peers@.len() && session_index(
            #[trigger] post.peers@[hh].session,
        ) is Some implies has_entry(
        post.index_entries@,
        session_index(post.peers@[hh].session)->Some_0,
        hh as usize,
    ) by {
        assert(session_index(pre.peers@[hh].session) == session_index(post.peers@[hh].session));
    }
    assert forall|i: int|
        0 <= i < post.routes.entries@.len() implies post.peers@[(
    #[trigger] post.routes.entries@[i]).peer as int].info.allowed_ips@.contains(
        post.routes.entries@[i].prefix,
    ) by {
        let p = pre.routes.entries@[i].peer;
        assert(pre.peers@[p as int].info.allowed_ips@.contains(pre.routes.entries@[i].prefix));
        assert(post.peers@[p as int].info.allowed_ips@ == pre.peers@[p as int].info.allowed_ips@);
    }
}

impl State {
    /// A session lifetime timeout fires: the peer leaves `Established` for
    /// `Expired`, and its session-index entry is removed in full.
    pub fn expire_session(&mut self, h: usize)
        requires
            old(self).wf(),
            h < old(self).peers@.len(),
            old(self).peers@[h as int].session matches SessionState::Established { .. },
        ensures
            final(self).wf(),
            final(self).peers@.len() == old(self).peers@.len(),
            final(self).peers@[h as int] == (Peer {
                info: old(self).peers@[h as int].info,
                session: SessionState::Expired,
            }),
            forall|i: int|
                0 <= i < old(self).peers@.len() && i != h ==> final(self).peers@[i] == old(
                    self,
                ).peers@[i],
            !has_key(
                final(self).index_entries@,
                old(self).peers@[h as int].session->Established_our_index,
            ),
            forall|k: u32, hh: usize|
                k != old(self).peers@[h as int].session->Established_our_index ==> (has_entry(
                    final(self).index_entries@,
                    k,
                    hh,
                ) <==> has_entry(old(self).index_entries@, k, hh)),
            final(self).routes.entries@ == old(self).routes.entries@,
            final(self).interface_info == old(self).interface_info,
            final(self).next_index == old(self).next_index,
    {
        let our_index = match &self.peers[h].session {
            SessionState::Established { our_index, .. } => *our_index,
            _ => {
                proof {
                    assert(false);
                }
                0
            },
        };
        self.remove_index_entry(our_index);
        let p = self.peers.remove(h);
        let p2 = Peer { info: p.info, session: SessionState::Expired };
        self.peers.insert(h, p2);
        proof {
            assert(self.peers@ =~= old(self).peers@.update(
                h as int,
                Peer { info: old(self).peers@[h as int].info, session: SessionState::Expired },
            ));
            lemma_detach_index_wf(old(self), self, h, our_index);
        }
    }

    /// Rekey: assigns the peer a fresh session index, fully replacing any
    /// prior session-index entry of that peer before the new one is
    /// installed, and re-enters `HandshakeSent`.
    pub fn rebind_index(&mut self, h: usize) -> (r: u32)
        requires
            old(self).wf(),
            h < old(self).peers@.len(),
            old(self).next_index < 0xffff_ffff_u32,
        ensures
            final(self).wf(),
            r == old(self).next_index,
            final(self).peers@.len() == old(self).peers@.len(),
            final(self).peers@[h as int] == (Peer {
                info: old(self).peers@[h as int].info,
                session: SessionState::HandshakeSent { our_index: r },
            }),
            forall|i: int|
                0 <= i < old(self).peers@.len() && i != h ==> final(self).peers@[i] == old(
                    self,
                ).peers@[i],
            has_entry(final(self).index_entries@, r, h),
            session_index(old(self).peers@[h as int].session) matches Some(k) ==> !has_key(
                final(self).index_entries@,
                k,
            ),
            forall|k: u32, hh: usize|
                k != r && Some(k) != session_index(old(self).peers@[h as int].session) ==> (
                has_entry(final(self).index_entries@, k, hh) <==> has_entry(
                    old(self).index_entries@,
                    k,
                    hh,
                )),
            final(self).routes.entries@ == old(self).routes.entries@,
            final(self).interface_info == old(self).interface_info,
            final(self).next_index == old(self).next_index + 1,
    {
        let old_idx: Option<u32> = match &self.peers[h].session {
            SessionState::HandshakeSent { our_index } => Some(*our_index),
            SessionState::Established { our_index, .. } => Some(*our_index),
            _ => None,
        };
        proof {
            assert(old_idx == session_index(old(self).peers@[h as int].session));
        }
        match old_idx {
            Some(k) => {
                self.remove_index_entry(k);
            },
            None => {
                proof {
                    lemma_no_session_no_entry(old(self), h);
                }
            },
        }
        let ghost mid = *self;
        proof {
            lemma_detached_entries(old(self), &mid, h, old_idx);
            assert forall|k: u32, hh2: usize|
                hh2 != h && has_entry(old(self).index_entries@, k, hh2) implies has_entry(
                mid.index_entries@,
                k,
                hh2,
            ) by {
                match old_idx {
                    Some(kr) => {
                        if k == kr {
                            let w = choose|j: int|
                                0 <= j < old(self).index_entries@.len() && old(
                                    self,
                                ).index_entries@[j] == (k, hh2);
                            assert(session_index(old(self).peers@[hh2 as int].session) == Some(
                                kr,
                            ));
                            lemma_session_index_unique(old(self), hh2, h, kr);
                            assert(false);
                        }
                    },
                    None => {},
                }
            }
        }
        let idx = self.next_index;
        self.next_index = idx + 1;
        self.index_entries.push((idx, h));
        let p = self.peers.remove(h);
        let p2 = Peer { info: p.info, session: SessionState::HandshakeSent { our_index: idx } };
        self.peers.insert(h, p2);
        proof {
            assert(self.peers@ =~= old(self).peers@.update(
                h as int,
                Peer {
                    info: old(self).peers@[h as int].info,
                    session: SessionState::HandshakeSent { our_index: idx },
                },
            ));
            assert(self.index_entries@[mid.index_entries@.len() as int] == (idx, h));
            lemma_attach_index_wf(old(self), &mid, self, h, idx);
            if session_index(old(self).peers@[h as int].session) is Some {
                let kr = session_index(old(self).peers@[h as int].session)->Some_0;
                assert(has_entry(old(self).index_entries@, kr, h));
                let w = choose|j: int|
                    0 <= j < old(self).index_entries@.len() && old(self).index_entries@[j] == (
                    kr,
                    h,
                );
                assert(old(self).index_entries@[w].0 < old(self).next_index);
                assert(!has_key(mid.index_entries@, kr));
                assert forall|i: int|
                    0 <= i < self.index_entries@.len() implies (
                #[trigger] self.index_entries@[i]).0 != kr by {
                    if i < mid.index_entries@.len() {
                        assert(self.index_entries@[i] == mid.index_entries@[i]);
                        if mid.index_entries@[i].0 == kr {
                            assert(has_key(mid.index_entries@, kr));
                        }
                    } else {
                        assert(self.index_entries@[i] == (idx, h));
                    }
                }
            }
            let m = mid.index_entries@.len() as int;
            assert forall|k: u32, hh: usize|
                k != idx && Some(k) != session_index(old(self).peers@[h as int].session) implies (
            has_entry(self.index_entries@, k, hh) <==> has_entry(
                old(self).index_entries@,
                k,
                hh,
            )) by {
                if has_entry(old(self).index_entries@, k, hh) {
                    assert(has_entry(mid.index_entries@, k, hh));
                    let w = choose|j: int|
                        0 <= j < mid.index_entries@.len() && mid.index_entries@[j] == (k, hh);
                    assert(self.index_entries@[w] == (k, hh));
                }
                if has_entry(self.index_entries@, k, hh) {
                    let w = choose|j: int|
                        0 <= j < self.index_entries@.len() && self.index_entries@[j] == (k, hh);
                    assert(w != m);
                    assert(mid.index_entries@[w] == (k, hh));
                    assert(has_entry(mid.index_entries@, k, hh));
                    match old_idx {
                        Some(kr) => {
                            assert(k != kr);
                            assert(has_entry(old(self).index_entries@, k, hh));
                        },
                        None => {},
                    }
                }
            }
        }
        idx
    }
}

/// A peer with no current session index has no session-index entry.
proof fn lemma_no_session_no_entry(s: &State, h: usize)
    requires
        s.wf(),
        h < s.peers@.len(),
        session_index(s.peers@[h as int].session) is None,
    ensures
        forall|i: int| 0 <= i < s.index_entries@.len() ==> (#[trigger] s.index_entries@[i]).1 != h,
{
    assert forall|i: int|
        0 <= i < s.index_entries@.len() implies (#[trigger] s.index_entries@[i]).1 != h by {
        assert(session_index(s.peers@[s.index_entries@[i].1 as int].session) == Some(
            s.index_entries@[i].0,
        ));
    }
}

/// After the peer's own entry is removed, no surviving entry points at it.
proof fn lemma_detached_entries(pre: &State, mid: &State, h: usize, old_idx: Option<u32>)
    requires
        pre.wf(),
        h < pre.peers@.len(),
        old_idx == session_index(pre.peers@[h as int].session),
        mid.peers@ == pre.peers@,
        old_idx matches Some(k) ==> !has_key(mid.index_entries@, k) && (forall|i: int|
            0 <= i < mid.index_entries@.len() ==> pre.index_entries@.contains(
                #[trigger] mid.index_entries@[i],
            )),
        old_idx is None ==> mid.index_entries@ == pre.index_entries@,
    ensures
        forall|i: int|
            0 <= i < mid.index_entries@.len() ==> (#[trigger] mid.index_entries@[i]).1 != h,
{
    assert forall|i: int|
        0 <= i < mid.index_entries@.len() implies (#[trigger] mid.index_entries@[i]).1 != h by {
        match old_idx {
            Some(k) => {
                assert(pre.index_entries@.contains(mid.index_entries@[i]));
                let w = choose|j: int|
                    0 <= j < pre.index_entries@.len() && pre.index_entries@[j]
                        == mid.index_entries@[i];
                if mid.index_entries@[i].1 == h {
                    assert(session_index(pre.peers@[h as int].session) == Some(
                        pre.index_entries@[w].0,
                    ));
                    assert(mid.index_entries@[i].0 == k);
                }
            },
            None => {
                lemma_no_session_no_entry(pre, h);
            },
        }
    }
}

/// Removing a peer's session-index entry and marking its session `Expired`
/// keeps the state well formed.
proof fn lemma_detach_index_wf(pre: &State, post: &State, h: usize, key: u32)
    requires
        pre.wf(),
        h < pre.peers@.len(),
        session_index(pre.peers@[h as int].session) == Some(key),
        post.peers@ == pre.peers@.update(
            h as int,
            Peer { info: pre.peers@[h as int].info, session: SessionState::Expired },
        ),
        !has_key(post.index_entries@, key),
        forall|k: u32, hh: usize|
            k != key ==> (has_entry(post.index_entries@, k, hh) <==> has_entry(
                pre.index_entries@,
                k,
                hh,
            )),
        forall|i: int|
            0 <= i < post.index_entries@.len() ==> pre.index_entries@.contains(
                #[trigger] post.index_entries@[i],
            ),
        forall|i: int, j: int|
            0 <= i < post.index_entries@.len() && 0 <= j < post.index_entries@.len() && i != j ==> (
            #[trigger] post.index_entries@[i].0) != (#[trigger] post.index_entries@[j].0),
        post.routes == pre.routes,
        post.interface_info == pre.interface_info,
        post.next_index == pre.next_index,
    ensures
        post.wf(),
{
    assert forall|i: int|
        0 <= i < post.index_entries@.len() implies (#[trigger] post.index_entries@[i]).1
            < post.peers@.len() && session_index(
        post.peers@[post.index_entries@[i].1 as int].session,
    ) == Some(post.index_entries@[i].0) by {
        assert(pre.index_entries@.contains(post.index_entries@[i]));
        let w = choose|j: int|
            0 <= j < pre.index_entries@.len() && pre.index_entries@[j] == post.index_entries@[i];
        assert(session_index(pre.peers@[pre.index_entries@[w].1 as int].session) == Some(
            pre.index_entries@[w].0,
        ));
        if post.index_entries@[i].1 == h {
            assert(post.index_entries@[i].0 == key);
        }
    }
    assert forall|i: int|
        0 <= i < post.index_entries@.len() implies (#[trigger] post.index_entries@[i]).0
            < post.next_index by {
        assert(pre.index_entries@.contains(post.index_entries@[i]));
        let w = choose|j: int|
            0 <= j < pre.index_entries@.len() && pre.index_entries@[j] == post.index_entries@[i];
        assert(pre.index_entries@[w].0 < pre.next_index);
    }
    assert forall|hh: int|
        0 <= hh < post.peers@.len() && session_index(
            #[trigger] post.peers@[hh].session,
        ) is Some implies has_entry(
        post.index_entries@,
        session_index(post.peers@[hh].session)->Some_0,
        hh as usize,
    ) by {
        if hh != h {
            assert(post.peers@[hh] == pre.peers@[hh]);
            assert(session_index(pre.peers@[hh].session) is Some);
            let k = session_index(pre.peers@[hh].session)->Some_0;
            assert(has_entry(pre.index_entries@, k, hh as usize));
            if k == key {
                let w = choose|j: int|
                    0 <= j < pre.index_entries@.len() && pre.index_entries@[j] == (
                    key,
                    hh as usize,
                );
                assert(has_entry(pre.index_entries@, key, h));
                let w2 = choose|j: int|
                    0 <= j < pre.index_entries@.len() && pre.index_entries@[j] == (key, h);
                assert(pre.index_entries@[w].0 == key);
                assert(pre.index_entries@[w2].0 == key);
                if w != w2 {
                    assert(pre.index_entries@[w].0 != pre.index_entries@[w2].0);
                }
                assert(w == w2);
                vstd::std_specs::vec::axiom_spec_len(&pre.peers);
                assert(hh <= usize::MAX as int);
                assert(hh as usize == h);
                assert(false);
            }
        }
    }
    assert forall|i: int|
        0 <= i < post.routes.entries@.len() implies post.peers@[(
    #[trigger] post.routes.entries@[i]).peer as int].info.allowed_ips@.contains(
        post.routes.entries@[i].prefix,
    ) by {
        let p = pre.routes.entries@[i].peer;
        assert(pre.peers@[p as int].info.allowed_ips@.contains(pre.routes.entries@[i].prefix));
        assert(post.peers@[p as int].info.allowed_ips@ == pre.peers@[p as int].info.allowed_ips@);
    }
}

/// Pushing a fresh entry for a detached peer and re-entering
/// `HandshakeSent` keeps the state well formed.
proof fn lemma_attach_index_wf(pre: &State, mid: &State, post: &State, h: usize, idx: u32)
    requires
        pre.wf(),
        h < pre.peers@.len(),
        idx == pre.next_index,
        mid.peers@ == pre.peers@,
        mid.next_index == pre.next_index,
        forall|i: int|
            0 <= i < mid.index_entries@.len() ==> pre.index_entries@.contains(
                #[trigger] mid.index_entries@[i],
            ),
        forall|i: int, j: int|
            0 <= i < mid.index_entries@.len() && 0 <= j < mid.index_entries@.len() && i != j ==> (
            #[trigger] mid.index_entries@[i].0) != (#[trigger] mid.index_entries@[j].0),
        forall|i: int|
            0 <= i < mid.index_entries@.len() ==> (#[trigger] mid.index_entries@[i]).1 != h,
        forall|k: u32, hh2: usize|
            hh2 != h && has_entry(pre.index_entries@, k, hh2) ==> has_entry(
                mid.index_entries@,
                k,
                hh2,
            ),
        post.peers@ == pre.peers@.update(
            h as int,
            Peer {
                info: pre.peers@[h as int].info,
                session: SessionState::HandshakeSent { our_index: idx },
            },
        ),
        post.index_entries@ == mid.index_entries@.push((idx, h)),
        post.routes == pre.routes,
        post.interface_info == pre.interface_info,
        post.next_index == pre.next_index + 1,
    ensures
        post.wf(),
{
    let m = mid.index_entries@.len() as int;
    assert forall|i: int|
        0 <= i < mid.index_entries@.len() implies ((#[trigger] mid.index_entries@[i]).0
            < pre.next_index && mid.index_entries@[i].1 < pre.peers@.len() && session_index(
            pre.peers@[mid.index_entries@[i].1 as int].session,
        ) == Some(mid.index_entries@[i].0)) by {
        assert(pre.index_entries@.contains(mid.index_entries@[i]));
        let w = choose|j: int|
            0 <= j < pre.index_entries@.len() && pre.index_entries@[j] == mid.index_entries@[i];
        assert(pre.index_entries@[w].0 < pre.next_index);
        assert(session_index(pre.peers@[pre.index_entries@[w].1 as int].session) == Some(
            pre.index_entries@[w].0,
        ));
    }
    assert forall|i: int, j: int|
        0 <= i < post.index_entries@.len() && 0 <= j < post.index_entries@.len() && i
            != j implies (#[trigger] post.index_entries@[i].0) != (
    #[trigger] post.index_entries@[j].0) by {
        if i < m && j < m {
            assert(mid.index_entries@[i].0 != mid.index_entries@[j].0);
        } else if i < m {
            assert(mid.index_entries@[i].0 < pre.next_index);
        } else if j < m {
            assert(mid.index_entries@[j].0 < pre.next_index);
        }
    }
    assert forall|i: int|
        0 <= i < post.index_entries@.len() implies (#[trigger] post.index_entries@[i]).1
            < post.peers@.len() && session_index(
        post.peers@[post.index_entries@[i].1 as int].session,
    ) == Some(post.index_entries@[i].0) by {
        if i < m {
            assert(mid.index_entries@[i].1 != h);
            assert(session_index(pre.peers@[mid.index_entries@[i].1 as int].session) == Some(
                mid.index_entries@[i].0,
            ));
        } else {
            assert(post.index_entries@[i] == (idx, h));
        }
    }
    assert forall|hh: int|
        0 <= hh < post.peers@.len() && session_index(
            #[trigger] post.peers@[hh].session,
        ) is Some implies has_entry(
        post.index_entries@,
        session_index(post.peers@[hh].session)->Some_0,
        hh as usize,
    ) by {
        if hh == h {
            assert(post.index_entries@[m] == (idx, h));
        } else {
            assert(post.peers@[hh] == pre.peers@[hh]);
            assert(session_index(pre.peers@[hh].session) is Some);
            let k = session_index(pre.peers@[hh].session)->Some_0;
            assert(has_entry(pre.index_entries@, k, hh as usize));
            vstd::std_specs::vec::axiom_spec_len(&pre.peers);
            assert(hh <= usize::MAX as int);
            assert((hh as usize) != h);
            assert(has_entry(mid.index_entries@, k, hh as usize));
            let w2 = choose|j: int|
                0 <= j < mid.index_entries@.len() && mid.index_entries@[j] == (k, hh as usize);
            assert(post.index_entries@[w2] == (k, hh as usize));
        }
    }
    assert forall|i: int|
        0 <= i < post.routes.entries@.len() implies post.peers@[(
    #[trigger] post.routes.entries@[i]).peer as int].info.allowed_ips@.contains(
        post.routes.entries@[i].prefix,
    ) by {
        let p = pre.routes.entries@[i].peer;
        assert(pre.peers@[p as int].info.allowed_ips@.contains(pre.routes.entries@[i].prefix));
        assert(post.peers@[p as int].info.allowed_ips@ == pre.peers@[p as int].info.allowed_ips@);
    }
}

/// Conflict of a batch of new prefixes with registered routes. The batch
/// belongs to one new peer, so any overlap with a registered route crosses
/// peers; nesting within the batch is the one peer's own affair.
pub open spec fn new_prefixes_conflict(routes: Seq<RouteEntry>, ps: Seq<Prefix>) -> bool {
    exists|i: int, j: int|
        0 <= i < routes.len() && 0 <= j < ps.len() && prefixes_overlap(routes[i].prefix, ps[j])
}

/// The state after `insert_peer` is well formed.
proof fn lemma_insert_peer_wf(pre: &State, post: &State, info: PeerInfo, h: usize, idx: u32)
    requires
        pre.wf(),
        peer_info_wf(info),
        !has_pubkey(pre.peers@, info.pub_key@),
        !new_prefixes_conflict(pre.routes.entries@, info.allowed_ips@),
        pre.next_index < 0xffff_ffff_u32,
        h == pre.peers@.len(),
        idx == pre.next_index,
        post.peers@ == pre.peers@.push(
            Peer { info, session: SessionState::HandshakeSent { our_index: idx } },
        ),
        post.index_entries@ == pre.index_entries@.push((idx, h)),
        post.routes.entries@.len() == pre.routes.entries@.len() + info.allowed_ips@.len(),
        forall|i: int|
            0 <= i < pre.routes.entries@.len() ==> #[trigger] post.routes.entries@[i]
                == pre.routes.entries@[i],
        forall|j: int|
            0 <= j < info.allowed_ips@.len() ==> #[trigger] post.routes.entries@[pre.routes.entries@.len()
                + j] == (RouteEntry { prefix: info.allowed_ips@[j], peer: h }),
        post.interface_info == pre.interface_info,
        post.next_index == pre.next_index + 1,
    ensures
        post.wf(),
{
    let n = pre.routes.entries@.len() as int;
    assert forall|i: int, j: int|
        0 <= i < post.routes.entries@.len() && 0 <= j < post.routes.entries@.len() && i != j
            && prefixes_overlap(
            (#[trigger] post.routes.entries@[i]).prefix,
            (#[trigger] post.routes.entries@[j]).prefix,
        ) implies post.routes.entries@[i].peer == post.routes.entries@[j].peer by {
        if i < n && j < n {
            assert(post.routes.entries@[i] == pre.routes.entries@[i]);
            assert(post.routes.entries@[j] == pre.routes.entries@[j]);
        } else if i < n && j >= n {
            assert(post.routes.entries@[n + (j - n)] == (RouteEntry {
                prefix: info.allowed_ips@[j - n],
                peer: h,
            }));
            assert(!prefixes_overlap(pre.routes.entries@[i].prefix, info.allowed_ips@[j - n]));
        } else if i >= n && j < n {
            assert(post.routes.entries@[n + (i - n)] == (RouteEntry {
                prefix: info.allowed_ips@[i - n],
                peer: h,
            }));
            assert(!prefixes_overlap(pre.routes.entries@[j].prefix, info.allowed_ips@[i - n]));
            crate::ip::lemma_overlap_symmetric(
                pre.routes.entries@[j].prefix,
                info.allowed_ips@[i - n],
            );
        } else {
            assert(post.routes.entries@[n + (i - n)] == (RouteEntry {
                prefix: info.allowed_ips@[i - n],
                peer: h,
            }));
            assert(post.routes.entries@[n + (j - n)] == (RouteEntry {
                prefix: info.allowed_ips@[j - n],
                peer: h,
            }));
        }
    }
    assert forall|i: int|
        0 <= i < post.routes.entries@.len() implies post.peers@[(
    #[trigger] post.routes.entries@[i]).peer as int].info.allowed_ips@.contains(
        post.routes.entries@[i].prefix,
    ) by {
        if i < n {
            assert(post.routes.entries@[i] == pre.routes.entries@[i]);
            let p = pre.routes.entries@[i].peer;
            assert(p < pre.peers@.len());
            assert(post.peers@[p as int] == pre.peers@[p as int]);
            assert(pre.peers@[p as int].info.allowed_ips@.contains(pre.routes.entries@[i].prefix));
        } else {
            assert(post.routes.entries@[n + (i - n)] == (RouteEntry {
                prefix: info.allowed_ips@[i - n],
                peer: h,
            }));
            assert(post.peers@[h as int].info == info);
            assert(info.allowed_ips@.contains(info.allowed_ips@[i - n]));
        }
    }
    assert forall|i: int|
        0 <= i < post.routes.entries@.len() implies prefix_wf(
        (#[trigger] post.routes.entries@[i]).prefix,
    ) && post.routes.entries@[i].peer < post.peers@.len() by {
        if i < n {
            assert(post.routes.entries@[i] == pre.routes.entries@[i]);
            assert(prefix_wf(pre.routes.entries@[i].prefix));
            assert(pre.routes.entries@[i].peer < pre.peers@.len());
        } else {
            assert(post.routes.entries@[n + (i - n)] == (RouteEntry {
                prefix: info.allowed_ips@[i - n],
                peer: h,
            }));
            assert(prefix_wf(info.allowed_ips@[i - n]));
        }
    }
    assert forall|h1: int, h2: int|
        0 <= h1 < post.peers@.len() && 0 <= h2 < post.peers@.len() && h1 != h2 implies (
    #[trigger] post.peers@[h1].info.pub_key@) != (#[trigger] post.peers@[h2].info.pub_key@) by {
        if h1 < pre.peers@.len() && h2 < pre.peers@.len() {
            assert(pre.peers@[h1].info.pub_key@ != pre.peers@[h2].info.pub_key@);
        } else if h1 < pre.peers@.len() {
            assert(post.peers@[h2].info.pub_key@ == info.pub_key@);
            assert(pre.peers@[h1].info.pub_key@ != info.pub_key@);
        } else {
            assert(post.peers@[h1].info.pub_key@ == info.pub_key@);
            assert(pre.peers@[h2].info.pub_key@ != info.pub_key@);
        }
    }
    assert forall|i: int, j: int|
        0 <= i < post.index_entries@.len() && 0 <= j < post.index_entries@.len() && i
            != j implies (#[trigger] post.index_entries@[i].0) != (
    #[trigger] post.index_entries@[j].0) by {
        let m = pre.index_entries@.len() as int;
        if i < m && j < m {
            assert(pre.index_entries@[i].0 != pre.index_entries@[j].0);
        } else if i < m {
            assert(pre.index_entries@[i].0 < pre.next_index);
        } else if j < m {
            assert(pre.index_entries@[j].0 < pre.next_index);
        }
    }
    assert forall|i: int|
        0 <= i < post.index_entries@.len() implies (#[trigger] post.index_entries@[i]).1
            < post.peers@.len() && session_index(
        post.peers@[post.index_entries@[i].1 as int].session,
    ) == Some(post.index_entries@[i].0) by {
        let m = pre.index_entries@.len() as int;
        if i < m {
            assert(pre.index_entries@[i].1 < pre.peers@.len());
            assert(post.peers@[pre.index_entries@[i].1 as int] == pre.peers@[pre.index_entries@[i].1 as int]);
        } else {
            assert(post.index_entries@[i] == (idx, h));
        }
    }
    assert forall|hh: int|
        0 <= hh < post.peers@.len() && session_index(
            #[trigger] post.peers@[hh].session,
        ) is Some implies has_entry(
        post.index_entries@,
        session_index(post.peers@[hh].session)->Some_0,
        hh as usize,
    ) by {
        if hh < pre.peers@.len() {
            let key = session_index(pre.peers@[hh].session)->Some_0;
            assert(has_entry(pre.index_entries@, key, hh as usize));
            let w = choose|i: int|
                0 <= i < pre.index_entries@.len() && pre.index_entries@[i] == (key, hh as usize);
            assert(post.index_entries@[w] == (key, hh as usize));
        } else {
            assert(post.index_entries@[pre.index_entries@.len() as int] == (idx, h));
        }
    }
}

/// No two peers simultaneously occupy the same session-index entry: one
/// session index names one peer.
pub proof fn lemma_session_index_unique(s: &State, h1: usize, h2: usize, key: u32)
    requires
        s.wf(),
        h1 < s.peers@.len(),
        h2 < s.peers@.len(),
        session_index(s.peers@[h1 as int].session) == Some(key),
        session_index(s.peers@[h2 as int].session) == Some(key),
    ensures
        h1 == h2,
{
    assert(has_entry(s.index_entries@, key, h1));
    assert(has_entry(s.index_entries@, key, h2));
    let i1 = choose|i: int|
        0 <= i < s.index_entries@.len() && s.index_entries@[i] == (key, h1);
    let i2 = choose|i: int|
        0 <= i < s.index_entries@.len() && s.index_entries@[i] == (key, h2);
    assert(i1 == i2);
}

/// In a well-formed state the registered prefixes do not overlap, so any two
/// route entries containing one destination are the same entry: the routed
/// peer is the one owner of the longest (indeed the only) matching prefix.
pub proof fn lemma_route_owner_unique(s: &State, is_v6: bool, dest: u128, i: int, j: int)
    requires
        s.wf(),
        0 <= i < s.routes.entries@.len(),
        0 <= j < s.routes.entries@.len(),
        prefix_matches(s.routes.entries@[i].prefix, is_v6, dest),
        prefix_matches(s.routes.entries@[j].prefix, is_v6, dest),
    ensures
        s.routes.entries@[i].peer == s.routes.entries@[j].peer,
{
    crate::ip::lemma_nonoverlap_unique_match(&s.routes, is_v6, dest, i, j);
}

} // verus!
