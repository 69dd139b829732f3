//! IP prefixes and the longest-prefix-match routing table.
//!
//! Both address families share one representation: an IPv4 address sits in
//! the low 32 bits of a `u128`. A routing entry ties a prefix to a peer
//! handle (an index into the peer arena).

use vstd::prelude::*;

verus! {

/// One CIDR entry. For IPv4 the address is held in the low 32 bits.
#[derive(Clone, Copy, PartialEq, Eq, Structural, Debug)]
pub struct Prefix {
    pub is_v6: bool,
    pub addr: u128,
    pub masklen: u8,
}

/// Bit width of the family's addresses.
pub open spec fn family_width(is_v6: bool) -> u128 {
    if is_v6 {
        128
    } else {
        32
    }
}

/// A prefix is well formed when its mask length fits the family and an IPv4
/// address uses only the low 32 bits.
pub open spec fn prefix_wf(p: Prefix) -> bool {
    &&& p.masklen <= family_width(p.is_v6)
    &&& (!p.is_v6 ==> p.addr < 0x1_0000_0000)
}

/// Whether `dest` (of the given family) lies inside the prefix: the top
/// `masklen` bits of the family width agree.
pub open spec fn prefix_matches(p: Prefix, is_v6: bool, dest: u128) -> bool {
    &&& p.is_v6 == is_v6
    &&& (p.masklen == 0 || (p.addr >> (family_width(p.is_v6) - p.masklen as u128)) == (dest >> (
    family_width(p.is_v6) - p.masklen as u128)))
}

/// Whether two prefixes share any address: same family and they agree on the
/// shorter of the two mask lengths.
pub open spec fn prefixes_overlap(a: Prefix, b: Prefix) -> bool {
    &&& a.is_v6 == b.is_v6
    &&& {
        let m = if a.masklen <= b.masklen {
            a.masklen
        } else {
            b.masklen
        };
        m == 0 || (a.addr >> (family_width(a.is_v6) - m as u128)) == (b.addr >> (family_width(
            a.is_v6,
        ) - m as u128))
    }
}

/// Shifting right twice shifts by the sum of the amounts.
proof fn lemma_shr_compose(x: u128, s1: u128, s2: u128)
    requires
        s1 + s2 < 128,
    ensures
        (x >> s1) >> s2 == x >> (s1 + s2) as u128,
{
    vstd::bits::lemma_u128_shr_is_div(x, s1);
    vstd::bits::lemma_u128_shr_is_div(x >> s1, s2);
    vstd::bits::lemma_u128_shr_is_div(x, (s1 + s2) as u128);
    vstd::arithmetic::power2::lemma_pow2_adds(s1 as nat, s2 as nat);
    vstd::arithmetic::power2::lemma_pow2_pos(s1 as nat);
    vstd::arithmetic::power2::lemma_pow2_pos(s2 as nat);
    vstd::arithmetic::div_mod::lemma_div_denominator(
        x as int,
        vstd::arithmetic::power2::pow2(s1 as nat) as int,
        vstd::arithmetic::power2::pow2(s2 as nat) as int,
    );
}

/// Overlap does not depend on the order of the two prefixes.
pub proof fn lemma_overlap_symmetric(a: Prefix, b: Prefix)
    ensures
        prefixes_overlap(a, b) == prefixes_overlap(b, a),
{
}

/// Two prefixes that both contain one address overlap.
pub proof fn lemma_common_dest_overlaps(a: Prefix, b: Prefix, is_v6: bool, dest: u128)
    requires
        prefix_wf(a),
        prefix_wf(b),
        prefix_matches(a, is_v6, dest),
        prefix_matches(b, is_v6, dest),
    ensures
        prefixes_overlap(a, b),
{
    let w = family_width(is_v6);
    if a.masklen <= b.masklen {
        if a.masklen > 0 {
            let sa = (w - a.masklen as u128) as u128;
            let sb = (w - b.masklen as u128) as u128;
            let d = (sa - sb) as u128;
            lemma_shr_compose(b.addr, sb, d);
            lemma_shr_compose(dest, sb, d);
        }
    } else {
        if b.masklen > 0 {
            let sa = (w - a.masklen as u128) as u128;
            let sb = (w - b.masklen as u128) as u128;
            let d = (sb - sa) as u128;
            lemma_shr_compose(a.addr, sa, d);
            lemma_shr_compose(dest, sa, d);
        }
    }
}

/// Exec check of `prefix_matches`.
pub fn matches_dest(p: &Prefix, is_v6: bool, dest: u128) -> (r: bool)
    requires
        prefix_wf(*p),
    ensures
        r == prefix_matches(*p, is_v6, dest),
{
    if p.is_v6 != is_v6 {
        return false;
    }
    if p.masklen == 0 {
        return true;
    }
    let w: u32 = if p.is_v6 {
        128
    } else {
        32
    };
    let sh: u32 = w - p.masklen as u32;
    (p.addr >> sh) == (dest >> sh)
}

/// Exec check of `prefixes_overlap`.
pub fn overlaps(a: &Prefix, b: &Prefix) -> (r: bool)
    requires
        prefix_wf(*a),
        prefix_wf(*b),
    ensures
        r == prefixes_overlap(*a, *b),
{
    if a.is_v6 != b.is_v6 {
        return false;
    }
    let m: u8 = if a.masklen <= b.masklen {
        a.masklen
    } else {
        b.masklen
    };
    if m == 0 {
        return true;
    }
    let w: u32 = if a.is_v6 {
        128
    } else {
        32
    };
    let sh: u32 = w - m as u32;
    (a.addr >> sh) == (b.addr >> sh)
}

/// A prefix owned by a peer.
#[derive(Clone, Copy, PartialEq, Eq, Structural, Debug)]
pub struct RouteEntry {
    pub prefix: Prefix,
    pub peer: usize,
}

/// The longest-prefix-match table over both families.
pub struct RouteTable {
    pub entries: Vec<RouteEntry>,
}

impl RouteTable {
    /// Every held prefix is well formed.
    pub open spec fn wf(&self) -> bool {
        forall|i: int|
            0 <= i < self.entries@.len() ==> prefix_wf(#[trigger] self.entries@[i].prefix)
    }

    /// Prefixes of distinct peers never overlap; one peer may hold nested
    /// prefixes of its own.
    pub open spec fn non_overlapping(&self) -> bool {
        forall|i: int, j: int|
            0 <= i < self.entries@.len() && 0 <= j < self.entries@.len() && i != j
                && prefixes_overlap(
                #[trigger] self.entries@[i].prefix,
                #[trigger] self.entries@[j].prefix,
            ) ==> self.entries@[i].peer == self.entries@[j].peer
    }

    pub fn new() -> (r: Self)
        ensures
            r.entries@.len() == 0,
            r.wf(),
            r.non_overlapping(),
    {
        RouteTable { entries: Vec::new() }
    }

    /// The first held entry whose prefix overlaps `p`, if any.
    pub fn find_overlap(&self, p: &Prefix) -> (r: Option<usize>)
        requires
            self.wf(),
            prefix_wf(*p),
        ensures
            r is Some <==> exists|i: int|
                0 <= i < self.entries@.len() && prefixes_overlap(
                    #[trigger] self.entries@[i].prefix,
                    *p,
                ),
            r matches Some(i) ==> i < self.entries@.len() && prefixes_overlap(
                self.entries@[i as int].prefix,
                *p,
            ),
    {
        let mut i: usize = 0;
        while i < self.entries.len()
            invariant
                self.wf(),
                prefix_wf(*p),
                i <= self.entries@.len(),
                forall|j: int|
                    0 <= j < i ==> !prefixes_overlap(#[trigger] self.entries@[j].prefix, *p),
            decreases self.entries@.len() - i,
        {
            if overlaps(&self.entries[i].prefix, p) {
                return Some(i);
            }
            i += 1;
        }
        None
    }

    /// Longest-prefix match: the peer handle and mask length of a held entry
    /// that contains `dest` and whose mask is no shorter than that of any
    /// other entry containing `dest`; `None` exactly when no entry contains
    /// `dest`.
    pub fn route(&self, is_v6: bool, dest: u128) -> (r: Option<(usize, u8)>)
        requires
            self.wf(),
        ensures
            r is None <==> (forall|i: int|
                0 <= i < self.entries@.len() ==> !prefix_matches(
                    #[trigger] self.entries@[i].prefix,
                    is_v6,
                    dest,
                )),
            r matches Some((p, m)) ==> (exists|i: int|
                0 <= i < self.entries@.len() && prefix_matches(
                    #[trigger] self.entries@[i].prefix,
                    is_v6,
                    dest,
                ) && self.entries@[i].prefix.masklen == m && self.entries@[i].peer == p),
            r matches Some((p, m)) ==> (forall|i: int|
                0 <= i < self.entries@.len() && prefix_matches(
                    #[trigger] self.entries@[i].prefix,
                    is_v6,
                    dest,
                ) ==> self.entries@[i].prefix.masklen <= m),
    {
        let mut best: Option<(usize, u8)> = None;
        let mut i: usize = 0;
        while i < self.entries.len()
            invariant
                self.wf(),
                i <= self.entries@.len(),
                best is None ==> (forall|j: int|
                    0 <= j < i ==> !prefix_matches(
                        #[trigger] self.entries@[j].prefix,
                        is_v6,
                        dest,
                    )),
                best matches Some((p, m)) ==> (exists|j: int|
                    0 <= j < i && prefix_matches(#[trigger] self.entries@[j].prefix, is_v6, dest)
                        && self.entries@[j].prefix.masklen == m && self.entries@[j].peer == p),
                best matches Some((p, m)) ==> (forall|j: int|
                    0 <= j < i && prefix_matches(#[trigger] self.entries@[j].prefix, is_v6, dest)
                        ==> self.entries@[j].prefix.masklen <= m),
            decreases self.entries@.len() - i,
        {
            let e = &self.entries[i];
            if matches_dest(&e.prefix, is_v6, dest) {
                match best {
                    None => {
                        best = Some((e.peer, e.prefix.masklen));
                    },
                    Some((_, m)) => {
                        if e.prefix.masklen > m {
                            best = Some((e.peer, e.prefix.masklen));
                        }
                    },
                }
            }
            i += 1;
        }
        best
    }

    /// Adds an entry; the caller has already ruled out overlaps.
    pub fn push_entry(&mut self, prefix: Prefix, peer: usize)
        requires
            old(self).wf(),
            prefix_wf(prefix),
        ensures
            final(self).entries@ == old(self).entries@.push(RouteEntry { prefix, peer }),
            final(self).wf(),
    {
        self.entries.push(RouteEntry { prefix, peer });
    }
}

/// In a table where prefixes of distinct peers do not overlap, every entry
/// containing a destination belongs to one peer: the longest-prefix match
/// is the one owner of the address.
pub proof fn lemma_nonoverlap_unique_match(t: &RouteTable, is_v6: bool, dest: u128, i: int, j: int)
    requires
        t.wf(),
        t.non_overlapping(),
        0 <= i < t.entries@.len(),
        0 <= j < t.entries@.len(),
        prefix_matches(t.entries@[i].prefix, is_v6, dest),
        prefix_matches(t.entries@[j].prefix, is_v6, dest),
    ensures
        t.entries@[i].peer == t.entries@[j].peer,
{
    if i != j {
        lemma_common_dest_overlaps(t.entries@[i].prefix, t.entries@[j].prefix, is_v6, dest);
    }
}

} // verus!
