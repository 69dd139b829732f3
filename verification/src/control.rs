//! The local control protocol: parsing `SET` / `GET` request frames and
//! serializing their responses.

use vstd::prelude::*;
use crate::bytes::{
    all_dec_digits, bytes_eq, dec_val, hex_bytes, hex_decode, hex_digit_of, hex_digit_val,
    hex_encode, hex_lower, hex_val, is_hex_digit, parse_u16_dec, valid_hex,
};
use crate::ip::Prefix;
use crate::peer::{Endpoint, Peer, PeerInfo, config_block, peer_info_wf};
use crate::state::State;
use crate::words::{
    kw_errno0, kw_errno0_vec, kw_allowed_ip, kw_allowed_ip_vec, kw_endpoint, kw_endpoint_vec,
    kw_get_verb, kw_get_verb_vec, kw_listen_port, kw_listen_port_vec, kw_preshared_key,
    kw_preshared_key_vec, kw_private_key, kw_private_key_vec, kw_public_key, kw_public_key_vec,
    kw_set_verb, kw_set_verb_vec,
};

verus! {

/// Position of the first `sep` byte, if any.
pub open spec fn find_sep(s: Seq<u8>, sep: u8) -> Option<int>
    decreases s.len(),
{
    if s.len() == 0 {
        None
    } else if s[0] == sep {
        Some(0)
    } else {
        match find_sep(s.skip(1), sep) {
            Some(i) => Some(i + 1),
            None => None,
        }
    }
}

/// `find_sep` finds exactly the first occurrence.
pub proof fn lemma_find_sep(s: Seq<u8>, sep: u8)
    ensures
        find_sep(s, sep) matches Some(i) ==> 0 <= i < s.len() && s[i] == sep && (forall|j: int|
            0 <= j < i ==> s[j] != sep),
        find_sep(s, sep) is None ==> (forall|j: int| 0 <= j < s.len() ==> s[j] != sep),
    decreases s.len(),
{
    if s.len() > 0 && s[0] != sep {
        lemma_find_sep(s.skip(1), sep);
        if find_sep(s.skip(1), sep) is Some {
            let i = find_sep(s.skip(1), sep)->Some_0;
            assert forall|j: int| 0 <= j < i + 1 implies s[j] != sep by {
                if j > 0 {
                    assert(s.skip(1)[j - 1] != sep);
                }
            }
        } else {
            assert forall|j: int| 0 <= j < s.len() implies s[j] != sep by {
                if j > 0 {
                    assert(s.skip(1)[j - 1] != sep);
                }
            }
        }
    }
}

/// The index facts determine `find_sep`.
pub proof fn lemma_find_sep_is(s: Seq<u8>, sep: u8, i: int)
    requires
        0 <= i < s.len(),
        s[i] == sep,
        forall|j: int| 0 <= j < i ==> s[j] != sep,
    ensures
        find_sep(s, sep) == Some(i),
    decreases s.len(),
{
    if i > 0 {
        assert forall|j: int| 0 <= j < i - 1 implies s.skip(1)[j] != sep by {
            assert(s[j + 1] != sep);
        }
        assert(s.skip(1)[i - 1] == sep);
        lemma_find_sep_is(s.skip(1), sep, i - 1);
    }
}

/// No occurrence determines `find_sep`.
pub proof fn lemma_find_sep_none(s: Seq<u8>, sep: u8)
    requires
        forall|j: int| 0 <= j < s.len() ==> s[j] != sep,
    ensures
        find_sep(s, sep) is None,
    decreases s.len(),
{
    if s.len() > 0 {
        assert forall|j: int| 0 <= j < s.skip(1).len() implies s.skip(1)[j] != sep by {
            assert(s[j + 1] != sep);
        }
        lemma_find_sep_none(s.skip(1), sep);
    }
}

/// The tokens of `s` split on `sep`; a trailing separator yields a trailing
/// empty token, and an empty input is one empty token.
pub open spec fn split_on(s: Seq<u8>, sep: u8) -> Seq<Seq<u8>>
    decreases s.len(),
    via split_on_dec
{
    match find_sep(s, sep) {
        Some(i) => seq![s.take(i)] + split_on(s.skip(i + 1), sep),
        None => seq![s],
    }
}

#[via_fn]
proof fn split_on_dec(s: Seq<u8>, sep: u8) {
    lemma_find_sep(s, sep);
}

/// Copy of the byte range `[from, to)`.
pub fn sub_bytes(v: &Vec<u8>, from: usize, to: usize) -> (r: Vec<u8>)
    requires
        from <= to <= v@.len(),
    ensures
        r@ == v@.subrange(from as int, to as int),
{
    let mut out: Vec<u8> = Vec::new();
    let mut i: usize = from;
    while i < to
        invariant
            from <= i <= to <= v@.len(),
            out@ =~= v@.subrange(from as int, i as int),
        decreases to - i,
    {
        out.push(v[i]);
        proof {
            assert(out@ =~= v@.subrange(from as int, i as int + 1));
        }
        i += 1;
    }
    out
}

/// Splits `v` on the separator byte.
pub fn split_bytes(v: &Vec<u8>, sep: u8) -> (r: Vec<Vec<u8>>)
    ensures
        r@.len() == split_on(v@, sep).len(),
        forall|i: int| 0 <= i < r@.len() ==> (#[trigger] r@[i]@) == split_on(v@, sep)[i],
        r@.len() >= 1,
{
    let mut out: Vec<Vec<u8>> = Vec::new();
    let ghost mut acc: Seq<Seq<u8>> = Seq::empty();
    let mut start: usize = 0;
    let mut j: usize = 0;
    proof {
        assert(v@.skip(0) =~= v@);
        assert(split_on(v@, sep) =~= acc + split_on(v@.skip(0), sep));
    }
    loop
        invariant
            start <= j <= v@.len(),
            forall|t: int| start <= t < j ==> v@[t] != sep,
            acc.len() == out@.len(),
            forall|i: int| 0 <= i < out@.len() ==> (#[trigger] out@[i]@) == acc[i],
            split_on(v@, sep) =~= acc + split_on(v@.skip(start as int), sep),
        decreases v@.len() - j, v@.len() - start,
    {
        if j == v.len() {
            let tail = sub_bytes(v, start, v.len());
            proof {
                lemma_find_sep_none(v@.skip(start as int), sep);
                assert(split_on(v@.skip(start as int), sep) == seq![v@.skip(start as int)]);
                assert(tail@ =~= v@.skip(start as int));
                acc = acc.push(tail@);
                assert(split_on(v@, sep) =~= acc);
            }
            out.push(tail);
            return out;
        }
        if v[j] == sep {
            let tok = sub_bytes(v, start, j);
            proof {
                lemma_find_sep_is(v@.skip(start as int), sep, j - start);
                assert(split_on(v@.skip(start as int), sep) == seq![
                    v@.skip(start as int).take(j - start),
                ] + split_on(v@.skip(start as int).skip(j - start + 1), sep));
                assert(tok@ =~= v@.skip(start as int).take(j - start));
                assert(v@.skip(start as int).skip(j - start + 1) =~= v@.skip(j + 1));
                acc = acc.push(tok@);
                assert(split_on(v@, sep) =~= acc + split_on(v@.skip(j + 1), sep));
            }
            out.push(tok);
            j += 1;
            start = j;
        } else {
            j += 1;
        }
    }
}

/// The value denoted by a dotted-quad IPv4 address; `None` when the text is
/// not four dot-separated decimal octets in range.
pub open spec fn parse_v4_spec(s: Seq<u8>) -> Option<u32> {
    let parts = split_on(s, 46);
    if parts.len() == 4 && (forall|i: int| 0 <= i < 4 ==> is_octet_text(#[trigger] parts[i])) {
        Some(
            (dec_val(parts[0]) * 0x1000000 + dec_val(parts[1]) * 0x10000 + dec_val(parts[2]) * 0x100
                + dec_val(parts[3])) as u32,
        )
    } else {
        None
    }
}

/// A decimal octet: nonempty digits denoting at most 255.
pub open spec fn is_octet_text(s: Seq<u8>) -> bool {
    s.len() > 0 && all_dec_digits(s) && dec_val(s) <= 255
}

/// Parses a dotted-quad IPv4 address.
pub fn parse_v4_addr(v: &Vec<u8>) -> (r: Option<u32>)
    ensures
        r == parse_v4_spec(v@),
{
    let parts = split_bytes(v, 46);
    if parts.len() != 4 {
        return None;
    }
    let mut vals: Vec<u32> = Vec::new();
    let mut i: usize = 0;
    while i < 4
        invariant
            i <= 4,
            parts@.len() == 4,
            vals@.len() == i,
            forall|t: int| 0 <= t < parts@.len() ==> (#[trigger] parts@[t]@) == split_on(v@, 46)[t],
            forall|t: int|
                0 <= t < i ==> is_octet_text(#[trigger] split_on(v@, 46)[t]) && vals@[t] == dec_val(
                    split_on(v@, 46)[t],
                ),
        decreases 4 - i,
    {
        match parse_u16_dec(&parts[i]) {
            Some(x) => {
                if x <= 255 {
                    vals.push(x as u32);
                } else {
                    return None;
                }
            },
            None => {
                return None;
            },
        }
        i += 1;
    }
    Some(vals[0] * 0x1000000 + vals[1] * 0x10000 + vals[2] * 0x100 + vals[3])
}

/// One IPv6 group: one to four hexadecimal digits.
pub open spec fn is_v6_group(s: Seq<u8>) -> bool {
    1 <= s.len() <= 4 && forall|i: int| 0 <= i < s.len() ==> is_hex_digit(#[trigger] s[i])
}

/// The value denoted by an IPv6 address written as eight colon-separated
/// groups of one to four hexadecimal digits (the form this crate itself
/// prints); `None` for any other text, zero-compression included.
pub open spec fn parse_v6_spec(s: Seq<u8>) -> Option<u128> {
    let parts = split_on(s, 58);
    if parts.len() == 8 && (forall|i: int| 0 <= i < 8 ==> is_v6_group(#[trigger] parts[i])) {
        Some(
            ((hex_val(parts[0]) as u128) << 112u32) | ((hex_val(parts[1]) as u128) << 96u32) | ((
            hex_val(parts[2]) as u128) << 80u32) | ((hex_val(parts[3]) as u128) << 64u32) | ((
            hex_val(parts[4]) as u128) << 48u32) | ((hex_val(parts[5]) as u128) << 32u32) | ((
            hex_val(parts[6]) as u128) << 16u32) | (hex_val(parts[7]) as u128),
        )
    } else {
        None
    }
}

/// A bound on the value of `i` hexadecimal digits.
pub open spec fn pow16(i: int) -> int {
    if i <= 0 {
        1
    } else if i == 1 {
        0x10
    } else if i == 2 {
        0x100
    } else if i == 3 {
        0x1000
    } else {
        0x10000
    }
}

/// Parses one IPv6 group.
pub fn parse_v6_group(v: &Vec<u8>) -> (r: Option<u16>)
    ensures
        r is Some <==> is_v6_group(v@),
        r matches Some(x) ==> x == hex_val(v@),
{
    if v.len() == 0 || v.len() > 4 {
        return None;
    }
    let mut i: usize = 0;
    let mut acc: u32 = 0;
    while i < v.len()
        invariant
            i <= v@.len() <= 4,
            forall|j: int| 0 <= j < i ==> is_hex_digit(#[trigger] v@[j]),
            acc == hex_val(v@.take(i as int)),
            acc < pow16(i as int),
        decreases v@.len() - i,
    {
        let d = match hex_digit_of(v[i]) {
            Some(d) => d,
            None => {
                return None;
            },
        };
        proof {
            assert(v@.take(i + 1).take(i as int) =~= v@.take(i as int));
            assert(v@.take(i + 1)[i as int] == v@[i as int]);
            assert(hex_val(v@.take(i + 1)) == hex_val(v@.take(i as int)) * 16 + hex_digit_val(
                v@[i as int],
            ));
        }
        acc = acc * 16 + (d as u32);
        i += 1;
    }
    proof {
        assert(v@.take(i as int) =~= v@);
    }
    Some(acc as u16)
}

/// Parses an eight-group IPv6 address.
pub fn parse_v6_addr(v: &Vec<u8>) -> (r: Option<u128>)
    ensures
        r == parse_v6_spec(v@),
{
    let parts = split_bytes(v, 58);
    if parts.len() != 8 {
        return None;
    }
    let mut vals: Vec<u16> = Vec::new();
    let mut i: usize = 0;
    while i < 8
        invariant
            i <= 8,
            parts@.len() == 8,
            vals@.len() == i,
            forall|t: int| 0 <= t < parts@.len() ==> (#[trigger] parts@[t]@) == split_on(v@, 58)[t],
            forall|t: int|
                0 <= t < i ==> is_v6_group(#[trigger] split_on(v@, 58)[t]) && vals@[t] == hex_val(
                    split_on(v@, 58)[t],
                ),
        decreases 8 - i,
    {
        match parse_v6_group(&parts[i]) {
            Some(x) => {
                vals.push(x);
            },
            None => {
                return None;
            },
        }
        i += 1;
    }
    Some(
        ((vals[0] as u128) << 112u32) | ((vals[1] as u128) << 96u32) | ((vals[2] as u128)
            << 80u32) | ((vals[3] as u128) << 64u32) | ((vals[4] as u128) << 48u32) | ((
        vals[5] as u128) << 32u32) | ((vals[6] as u128) << 16u32) | (vals[7] as u128),
    )
}


/// Why a control request was rejected.
#[derive(Clone, Copy, PartialEq, Eq, Structural, Debug)]
pub enum ControlError {
    /// The frame holds no blank line.
    Truncated,
    /// The first line is neither `SET <version>` nor `GET <version>`.
    UnknownCommand,
    /// The version is not a decimal number in range.
    BadVersion,
    /// A body line has no `=`, or trails a `GET`.
    BadLine,
    /// A recognized key carries an unusable value.
    BadValue,
    /// A key that this protocol does not know.
    UnknownKey,
    /// A peer attribute arrived before any `public_key`.
    OrphanAttribute,
}

/// One configuration update carried by a `SET`.
pub enum UpdateEvent {
    PrivateKey(Vec<u8>),
    ListenPort(u16),
    UpdatePeer(PeerInfo),
}

/// A parsed control request.
pub enum Command {
    SetConfig(u16, Vec<UpdateEvent>),
    GetConfig(u16),
}

/// Mathematical image of `PeerInfo`.
pub struct PeerInfoV {
    pub pub_key: Seq<u8>,
    pub psk: Option<Seq<u8>>,
    pub endpoint: Option<Endpoint>,
    pub allowed_ips: Seq<Prefix>,
}

/// Mathematical image of `UpdateEvent`.
pub enum UpdateEventV {
    PrivateKey(Seq<u8>),
    ListenPort(u16),
    UpdatePeer(PeerInfoV),
}

/// Mathematical image of `Command`.
pub enum CommandV {
    SetConfig(u16, Seq<UpdateEventV>),
    GetConfig(u16),
}

pub open spec fn info_view(i: PeerInfo) -> PeerInfoV {
    PeerInfoV {
        pub_key: i.pub_key@,
        psk: match i.psk {
            Some(k) => Some(k@),
            None => None,
        },
        endpoint: i.endpoint,
        allowed_ips: i.allowed_ips@,
    }
}

pub open spec fn event_view(e: UpdateEvent) -> UpdateEventV {
    match e {
        UpdateEvent::PrivateKey(k) => UpdateEventV::PrivateKey(k@),
        UpdateEvent::ListenPort(p) => UpdateEventV::ListenPort(p),
        UpdateEvent::UpdatePeer(i) => UpdateEventV::UpdatePeer(info_view(i)),
    }
}

pub open spec fn events_view(es: Seq<UpdateEvent>) -> Seq<UpdateEventV> {
    es.map_values(|e: UpdateEvent| event_view(e))
}

pub open spec fn cmd_view(c: Command) -> CommandV {
    match c {
        Command::SetConfig(v, items) => CommandV::SetConfig(v, events_view(items@)),
        Command::GetConfig(v) => CommandV::GetConfig(v),
    }
}

pub open spec fn opt_info_view(c: Option<PeerInfo>) -> Option<PeerInfoV> {
    match c {
        Some(i) => Some(info_view(i)),
        None => None,
    }
}

/// An update event the rest of the system can accept: keys are 32 bytes and
/// prefixes are well formed.
pub open spec fn event_wf(e: UpdateEvent) -> bool {
    match e {
        UpdateEvent::PrivateKey(k) => k@.len() == 32,
        UpdateEvent::ListenPort(_) => true,
        UpdateEvent::UpdatePeer(i) => peer_info_wf(i),
    }
}

/// Position of the first empty line, if any.
pub open spec fn find_empty(lines: Seq<Seq<u8>>) -> Option<int>
    decreases lines.len(),
{
    if lines.len() == 0 {
        None
    } else if lines[0].len() == 0 {
        Some(0)
    } else {
        match find_empty(lines.skip(1)) {
            Some(i) => Some(i + 1),
            None => None,
        }
    }
}

/// The index facts determine `find_empty`.
pub proof fn lemma_find_empty_is(lines: Seq<Seq<u8>>, i: int)
    requires
        0 <= i < lines.len(),
        lines[i].len() == 0,
        forall|j: int| 0 <= j < i ==> lines[j].len() != 0,
    ensures
        find_empty(lines) == Some(i),
    decreases lines.len(),
{
    if i > 0 {
        assert forall|j: int| 0 <= j < i - 1 implies lines.skip(1)[j].len() != 0 by {
            assert(lines[j + 1].len() != 0);
        }
        assert(lines.skip(1)[i - 1].len() == 0);
        lemma_find_empty_is(lines.skip(1), i - 1);
    }
}

/// No empty line determines `find_empty`.
pub proof fn lemma_find_empty_none(lines: Seq<Seq<u8>>)
    requires
        forall|j: int| 0 <= j < lines.len() ==> lines[j].len() != 0,
    ensures
        find_empty(lines) is None,
    decreases lines.len(),
{
    if lines.len() > 0 {
        assert forall|j: int| 0 <= j < lines.skip(1).len() implies lines.skip(1)[j].len() != 0 by {
            assert(lines[j + 1].len() != 0);
        }
        lemma_find_empty_none(lines.skip(1));
    }
}

/// A request line `<verb> <digits>`.
pub open spec fn is_verb(l: Seq<u8>, verb: Seq<u8>) -> bool {
    l.len() >= 4 && l.take(3) == verb && l[3] == 32
}

/// A decimal number that fits 16 bits; exactly `parse_u16_dec`'s domain.
pub open spec fn parse_version(s: Seq<u8>) -> Option<u16> {
    if s.len() > 0 && all_dec_digits(s) && dec_val(s) <= 0xffff {
        Some(dec_val(s) as u16)
    } else {
        None
    }
}

/// A 32-byte value written as 64 hexadecimal digits.
pub open spec fn parse_key32(s: Seq<u8>) -> Option<Seq<u8>> {
    if valid_hex(s) && hex_bytes(s).len() == 32 {
        Some(hex_bytes(s))
    } else {
        None
    }
}

/// A CIDR entry: `a.b.c.d/m` with `m` at most 32, or an eight-group IPv6
/// address with `m` at most 128.
pub open spec fn parse_prefix_spec(s: Seq<u8>) -> Option<Prefix> {
    match find_sep(s, 47) {
        None => None,
        Some(p) => {
            let a6 = parse_v6_spec(s.take(p));
            let a4 = parse_v4_spec(s.take(p));
            let m = s.skip(p + 1);
            if !(m.len() > 0 && all_dec_digits(m)) {
                None
            } else if a6 is Some && dec_val(m) <= 128 {
                Some(Prefix { is_v6: true, addr: a6->Some_0, masklen: dec_val(m) as u8 })
            } else if a4 is Some && dec_val(m) <= 32 {
                Some(Prefix { is_v6: false, addr: a4->Some_0 as u128, masklen: dec_val(m) as u8 })
            } else {
                None
            }
        },
    }
}

/// An endpoint: `a.b.c.d:port`, or `[v6]:port` with the address in the
/// eight-group IPv6 form.
pub open spec fn parse_endpoint_spec(s: Seq<u8>) -> Option<Endpoint> {
    if s.len() > 0 && s[0] == 91 {
        match find_sep(s, 93) {
            None => None,
            Some(q) => {
                let a = parse_v6_spec(s.subrange(1, q));
                let rest = s.skip(q + 1);
                if a is Some && rest.len() >= 1 && rest[0] == 58 && parse_version(
                    rest.skip(1),
                ) is Some {
                    Some(
                        Endpoint {
                            is_v6: true,
                            addr: a->Some_0,
                            port: parse_version(rest.skip(1))->Some_0,
                        },
                    )
                } else {
                    None
                }
            },
        }
    } else {
        match find_sep(s, 58) {
            None => None,
            Some(p) => {
                let a = parse_v4_spec(s.take(p));
                let port = parse_version(s.skip(p + 1));
                if a is Some && port is Some {
                    Some(Endpoint { is_v6: false, addr: a->Some_0 as u128, port: port->Some_0 })
                } else {
                    None
                }
            },
        }
    }
}

/// Closes an open peer block by appending its `UpdatePeer` event.
pub open spec fn flush(acc: Seq<UpdateEventV>, cur: Option<PeerInfoV>) -> Seq<UpdateEventV> {
    match cur {
        None => acc,
        Some(p) => acc.push(UpdateEventV::UpdatePeer(p)),
    }
}

/// Processes the `key=value` lines `i .. e` of a `SET` body, carrying the
/// events emitted so far and the open peer block.
pub open spec fn parse_items(
    lines: Seq<Seq<u8>>,
    i: int,
    e: int,
    acc: Seq<UpdateEventV>,
    cur: Option<PeerInfoV>,
    ver: u16,
) -> Result<CommandV, ControlError>
    decreases e - i,
{
    if i >= e {
        Ok(CommandV::SetConfig(ver, flush(acc, cur)))
    } else {
        let line = lines[i];
        match find_sep(line, 61) {
            None => Err(ControlError::BadLine),
            Some(p) => {
                let key = line.take(p);
                let val = line.skip(p + 1);
                if key == kw_private_key() {
                    match parse_key32(val) {
                        Some(k) => parse_items(
                            lines,
                            i + 1,
                            e,
                            flush(acc, cur).push(UpdateEventV::PrivateKey(k)),
                            None,
                            ver,
                        ),
                        None => Err(ControlError::BadValue),
                    }
                } else if key == kw_listen_port() {
                    match parse_version(val) {
                        Some(port) => parse_items(
                            lines,
                            i + 1,
                            e,
                            flush(acc, cur).push(UpdateEventV::ListenPort(port)),
                            None,
                            ver,
                        ),
                        None => Err(ControlError::BadValue),
                    }
                } else if key == kw_public_key() {
                    match parse_key32(val) {
                        Some(k) => parse_items(
                            lines,
                            i + 1,
                            e,
                            flush(acc, cur),
                            Some(
                                PeerInfoV {
                                    pub_key: k,
                                    psk: None,
                                    endpoint: None,
                                    allowed_ips: seq![],
                                },
                            ),
                            ver,
                        ),
                        None => Err(ControlError::BadValue),
                    }
                } else if key == kw_preshared_key() {
                    match cur {
                        None => Err(ControlError::OrphanAttribute),
                        Some(c) => match parse_key32(val) {
                            Some(k) => parse_items(
                                lines,
                                i + 1,
                                e,
                                acc,
                                Some(PeerInfoV { psk: Some(k), ..c }),
                                ver,
                            ),
                            None => Err(ControlError::BadValue),
                        },
                    }
                } else if key == kw_allowed_ip() {
                    match cur {
                        None => Err(ControlError::OrphanAttribute),
                        Some(c) => match parse_prefix_spec(val) {
                            Some(pre) => parse_items(
                                lines,
                                i + 1,
                                e,
                                acc,
                                Some(PeerInfoV { allowed_ips: c.allowed_ips.push(pre), ..c }),
                                ver,
                            ),
                            None => Err(ControlError::BadValue),
                        },
                    }
                } else if key == kw_endpoint() {
                    match cur {
                        None => Err(ControlError::OrphanAttribute),
                        Some(c) => match parse_endpoint_spec(val) {
                            Some(ep) => parse_items(
                                lines,
                                i + 1,
                                e,
                                acc,
                                Some(PeerInfoV { endpoint: Some(ep), ..c }),
                                ver,
                            ),
                            None => Err(ControlError::BadValue),
                        },
                    }
                } else {
                    Err(ControlError::UnknownKey)
                }
            },
        }
    }
}

/// The meaning of a whole request frame.
pub open spec fn parse_request_spec(s: Seq<u8>) -> Result<CommandV, ControlError> {
    let lines = split_on(s, 10);
    match find_empty(lines) {
        None => Err(ControlError::Truncated),
        Some(e) => {
            // the final token is the remainder after the last newline; a
            // blank line exists only when an empty token precedes it
            if e == lines.len() - 1 {
                Err(ControlError::Truncated)
            } else if e == 0 {
                Err(ControlError::UnknownCommand)
            } else {
                let l0 = lines[0];
                if is_verb(l0, kw_get_verb()) {
                    match parse_version(l0.skip(4)) {
                        None => Err(ControlError::BadVersion),
                        Some(ver) => if e == 1 {
                            Ok(CommandV::GetConfig(ver))
                        } else {
                            Err(ControlError::BadLine)
                        },
                    }
                } else if is_verb(l0, kw_set_verb()) {
                    match parse_version(l0.skip(4)) {
                        None => Err(ControlError::BadVersion),
                        Some(ver) => parse_items(lines, 1, e, seq![], None, ver),
                    }
                } else {
                    Err(ControlError::UnknownCommand)
                }
            }
        },
    }
}

/// Position of the first `sep` byte, as an index.
pub fn find_byte(v: &Vec<u8>, sep: u8) -> (r: Option<usize>)
    ensures
        r matches Some(p) ==> find_sep(v@, sep) == Some(p as int),
        r is None ==> find_sep(v@, sep) is None,
{
    let mut j: usize = 0;
    while j < v.len()
        invariant
            j <= v@.len(),
            forall|t: int| 0 <= t < j ==> v@[t] != sep,
        decreases v@.len() - j,
    {
        if v[j] == sep {
            proof {
                lemma_find_sep_is(v@, sep, j as int);
            }
            return Some(j);
        }
        j += 1;
    }
    proof {
        lemma_find_sep_none(v@, sep);
    }
    None
}

/// Parses one frame of the control protocol into a command; the result (and
/// each rejection) is exactly what `parse_request_spec` gives the frame.
pub fn parse_request(buf: &Vec<u8>) -> (r: Result<Command, ControlError>)
    ensures
        r matches Ok(c) ==> parse_request_spec(buf@) == Ok::<CommandV, ControlError>(cmd_view(c)),
        r matches Err(err) ==> parse_request_spec(buf@) == Err::<CommandV, ControlError>(err),
        r matches Ok(c) ==> (c matches Command::SetConfig(_, items) ==> forall|i: int|
            0 <= i < items@.len() ==> event_wf(#[trigger] items@[i])),
{
    let lines = split_bytes(buf, 10);
    let ghost linesv = split_on(buf@, 10);
    let mut e: usize = 0;
    let mut found: bool = false;
    while e < lines.len() && !found
        invariant
            e <= lines@.len(),
            lines@.len() == linesv.len(),
            forall|i: int| 0 <= i < lines@.len() ==> (#[trigger] lines@[i]@) == linesv[i],
            !found ==> forall|t: int| 0 <= t < e ==> linesv[t].len() != 0,
            found ==> e < lines@.len() && linesv[e as int].len() == 0 && (forall|t: int|
                0 <= t < e ==> linesv[t].len() != 0),
        decreases lines@.len() - e, (if found { 0int } else { 1int }),
    {
        if lines[e].len() == 0 {
            found = true;
        } else {
            e += 1;
        }
    }
    if !found {
        proof {
            lemma_find_empty_none(linesv);
        }
        return Err(ControlError::Truncated);
    }
    proof {
        lemma_find_empty_is(linesv, e as int);
    }
    if e == lines.len() - 1 {
        return Err(ControlError::Truncated);
    }
    if e == 0 {
        return Err(ControlError::UnknownCommand);
    }
    let l0 = &lines[0];
    let ghost l0v = linesv[0];
    let long_enough = l0.len() >= 4;
    let mut get_verb = false;
    let mut set_verb = false;
    if long_enough {
        let head = sub_bytes(l0, 0, 3);
        let space_ok = l0[3] == 32;
        let g = kw_get_verb_vec();
        let s_ = kw_set_verb_vec();
        get_verb = bytes_eq(&head, &g) && space_ok;
        set_verb = bytes_eq(&head, &s_) && space_ok;
        proof {
            assert(head@ =~= l0v.take(3));
        }
    }
    proof {
        assert(get_verb == is_verb(l0v, kw_get_verb()));
        assert(set_verb == is_verb(l0v, kw_set_verb()));
    }
    if !get_verb && !set_verb {
        return Err(ControlError::UnknownCommand);
    }
    let vtail = sub_bytes(l0, 4, l0.len());
    proof {
        assert(vtail@ =~= l0v.skip(4));
    }
    let ver = match parse_u16_dec(&vtail) {
        Some(v) => v,
        None => {
            return Err(ControlError::BadVersion);
        },
    };
    if get_verb {
        if e == 1 {
            return Ok(Command::GetConfig(ver));
        } else {
            return Err(ControlError::BadLine);
        }
    }
    let mut events: Vec<UpdateEvent> = Vec::new();
    let mut cur: Option<PeerInfo> = None;
    let mut i: usize = 1;
    proof {
        assert(events_view(events@) =~= Seq::<UpdateEventV>::empty());
    }
    while i < e
        invariant
            1 <= i <= e,
            e < lines@.len(),
            lines@.len() == linesv.len(),
            forall|t: int| 0 <= t < lines@.len() ==> (#[trigger] lines@[t]@) == linesv[t],
            parse_request_spec(buf@) == parse_items(linesv, 1, e as int, seq![], None, ver),
            parse_items(linesv, 1, e as int, seq![], None, ver) == parse_items(
                linesv,
                i as int,
                e as int,
                events_view(events@),
                opt_info_view(cur),
                ver,
            ),
            forall|t: int| 0 <= t < events@.len() ==> event_wf(#[trigger] events@[t]),
            cur matches Some(c) ==> peer_info_wf(c),
        decreases e - i,
    {
        let line = &lines[i];
        let ghost linev = linesv[i as int];
        let ghost accv = events_view(events@);
        let ghost curv = opt_info_view(cur);
        let p = match find_byte(line, 61) {
            Some(p) => p,
            None => {
                return Err(ControlError::BadLine);
            },
        };
        proof {
            lemma_find_sep(linev, 61);
        }
        let key = sub_bytes(line, 0, p);
        let val = sub_bytes(line, p + 1, line.len());
        proof {
            assert(key@ =~= linev.take(p as int));
            assert(val@ =~= linev.skip(p as int + 1));
        }
        let k_private = kw_private_key_vec();
        let k_port = kw_listen_port_vec();
        let k_public = kw_public_key_vec();
        let k_psk = kw_preshared_key_vec();
        let k_aip = kw_allowed_ip_vec();
        let k_ep = kw_endpoint_vec();
        if bytes_eq(&key, &k_private) {
            let k = match hex_decode(&val) {
                Ok(k) => k,
                Err(_) => {
                    return Err(ControlError::BadValue);
                },
            };
            if k.len() != 32 {
                return Err(ControlError::BadValue);
            }
            let c = cur;
            cur = None;
            match c {
                Some(pi) => events.push(UpdateEvent::UpdatePeer(pi)),
                None => {},
            }
            events.push(UpdateEvent::PrivateKey(k));
            proof {
                assert(events_view(events@) =~= flush(accv, curv).push(
                    UpdateEventV::PrivateKey(hex_bytes(val@)),
                ));
            }
        } else if bytes_eq(&key, &k_port) {
            let port = match parse_u16_dec(&val) {
                Some(v) => v,
                None => {
                    return Err(ControlError::BadValue);
                },
            };
            let c = cur;
            cur = None;
            match c {
                Some(pi) => events.push(UpdateEvent::UpdatePeer(pi)),
                None => {},
            }
            events.push(UpdateEvent::ListenPort(port));
            proof {
                assert(events_view(events@) =~= flush(accv, curv).push(
                    UpdateEventV::ListenPort(port),
                ));
            }
        } else if bytes_eq(&key, &k_public) {
            let k = match hex_decode(&val) {
                Ok(k) => k,
                Err(_) => {
                    return Err(ControlError::BadValue);
                },
            };
            if k.len() != 32 {
                return Err(ControlError::BadValue);
            }
            let c = cur;
            match c {
                Some(pi) => events.push(UpdateEvent::UpdatePeer(pi)),
                None => {},
            }
            cur = Some(
                PeerInfo { pub_key: k, psk: None, endpoint: None, allowed_ips: Vec::new() },
            );
            proof {
                assert(events_view(events@) =~= flush(accv, curv));
            }
        } else if bytes_eq(&key, &k_psk) {
            let c = match cur {
                Some(c) => c,
                None => {
                    return Err(ControlError::OrphanAttribute);
                },
            };
            let k = match hex_decode(&val) {
                Ok(k) => k,
                Err(_) => {
                    return Err(ControlError::BadValue);
                },
            };
            if k.len() != 32 {
                return Err(ControlError::BadValue);
            }
            cur = Some(
                PeerInfo {
                    pub_key: c.pub_key,
                    psk: Some(k),
                    endpoint: c.endpoint,
                    allowed_ips: c.allowed_ips,
                },
            );
        } else if bytes_eq(&key, &k_aip) {
            let c = match cur {
                Some(c) => c,
                None => {
                    return Err(ControlError::OrphanAttribute);
                },
            };
            let pre = match parse_prefix(&val) {
                Some(pre) => pre,
                None => {
                    return Err(ControlError::BadValue);
                },
            };
            let mut ips = c.allowed_ips;
            ips.push(pre);
            cur = Some(
                PeerInfo {
                    pub_key: c.pub_key,
                    psk: c.psk,
                    endpoint: c.endpoint,
                    allowed_ips: ips,
                },
            );
        } else if bytes_eq(&key, &k_ep) {
            let c = match cur {
                Some(c) => c,
                None => {
                    return Err(ControlError::OrphanAttribute);
                },
            };
            let ep = match parse_endpoint(&val) {
                Some(ep) => ep,
                None => {
                    return Err(ControlError::BadValue);
                },
            };
            cur = Some(
                PeerInfo {
                    pub_key: c.pub_key,
                    psk: c.psk,
                    endpoint: Some(ep),
                    allowed_ips: c.allowed_ips,
                },
            );
        } else {
            return Err(ControlError::UnknownKey);
        }
        i += 1;
    }
    let ghost accv = events_view(events@);
    let ghost curv = opt_info_view(cur);
    let c = cur;
    match c {
        Some(pi) => events.push(UpdateEvent::UpdatePeer(pi)),
        None => {},
    }
    proof {
        assert(events_view(events@) =~= flush(accv, curv));
    }
    Ok(Command::SetConfig(ver, events))
}

/// Parses a CIDR entry of either family.
pub fn parse_prefix(v: &Vec<u8>) -> (r: Option<Prefix>)
    ensures
        r == parse_prefix_spec(v@),
        r matches Some(p) ==> crate::ip::prefix_wf(p),
{
    let p = match find_byte(v, 47) {
        Some(p) => p,
        None => {
            return None;
        },
    };
    proof {
        lemma_find_sep(v@, 47);
        vstd::std_specs::vec::axiom_spec_len(v);
    }
    let left = sub_bytes(v, 0, p);
    let right = sub_bytes(v, p + 1, v.len());
    proof {
        assert(left@ =~= v@.take(p as int));
        assert(right@ =~= v@.skip(p as int + 1));
    }
    let m = match parse_u16_dec(&right) {
        Some(m) => m,
        None => {
            return None;
        },
    };
    let a6 = parse_v6_addr(&left);
    let a4 = parse_v4_addr(&left);
    match a6 {
        Some(a) if m <= 128 => Some(Prefix { is_v6: true, addr: a, masklen: m as u8 }),
        _ => match a4 {
            Some(a) if m <= 32 => Some(Prefix { is_v6: false, addr: a as u128, masklen: m as u8 }),
            _ => None,
        },
    }
}

/// Parses an endpoint of either family.
pub fn parse_endpoint(v: &Vec<u8>) -> (r: Option<Endpoint>)
    ensures
        r == parse_endpoint_spec(v@),
        r matches Some(e) ==> crate::peer::endpoint_wf(e),
{
    if v.len() > 0 && v[0] == 91 {
        let q = match find_byte(v, 93) {
            Some(q) => q,
            None => {
                return None;
            },
        };
        proof {
            lemma_find_sep(v@, 93);
            vstd::std_specs::vec::axiom_spec_len(v);
        }
        let addr = sub_bytes(v, 1, q);
        proof {
            assert(addr@ =~= v@.subrange(1, q as int));
        }
        let a = match parse_v6_addr(&addr) {
            Some(a) => a,
            None => {
                return None;
            },
        };
        if q + 1 >= v.len() || v[q + 1] != 58 {
            proof {
                assert(v@.skip(q as int + 1).len() >= 1 ==> v@.skip(q as int + 1)[0] == v@[q
                    + 1]);
            }
            return None;
        }
        let ptext = sub_bytes(v, q + 2, v.len());
        proof {
            assert(v@.skip(q as int + 1)[0] == v@[q + 1]);
            assert(ptext@ =~= v@.skip(q as int + 1).skip(1));
        }
        match parse_u16_dec(&ptext) {
            Some(port) => Some(Endpoint { is_v6: true, addr: a, port }),
            None => None,
        }
    } else {
        let p = match find_byte(v, 58) {
            Some(p) => p,
            None => {
                return None;
            },
        };
        proof {
            lemma_find_sep(v@, 58);
            vstd::std_specs::vec::axiom_spec_len(v);
        }
        let left = sub_bytes(v, 0, p);
        let right = sub_bytes(v, p + 1, v.len());
        proof {
            assert(left@ =~= v@.take(p as int));
            assert(right@ =~= v@.skip(p as int + 1));
        }
        let a = match parse_v4_addr(&left) {
            Some(a) => a,
            None => {
                return None;
            },
        };
        let port = match parse_u16_dec(&right) {
            Some(m) => m,
            None => {
                return None;
            },
        };
        Some(Endpoint { is_v6: false, addr: a as u128, port })
    }
}


/// The fixed reply to a successful `SET`: one status line per phase, then a
/// blank line.
pub open spec fn set_response_text() -> Seq<u8> {
    kw_errno0() + seq![10u8] + kw_errno0() + seq![10u8, 10u8]
}

pub fn set_response() -> (r: Vec<u8>)
    ensures
        r@ == set_response_text(),
{
    let mut out = kw_errno0_vec();
    out.push(10);
    let t = kw_errno0_vec();
    out.extend_from_slice(t.as_slice());
    out.push(10);
    out.push(10);
    proof {
        assert(out@ =~= set_response_text());
    }
    out
}

/// The `private_key=` line of a `GET` response, when a key is set.
pub open spec fn private_key_line(s: State) -> Seq<u8> {
    match s.interface_info.private_key {
        Some(k) => kw_private_key() + seq![61u8] + hex_lower(k@) + seq![10u8],
        None => seq![],
    }
}

/// The configuration blocks of the first `k` peers, in arena order.
pub open spec fn peer_blocks(ps: Seq<Peer>, k: int) -> Seq<u8>
    decreases k,
{
    if k <= 0 {
        seq![]
    } else {
        peer_blocks(ps, k - 1) + config_block(ps[k - 1])
    }
}

/// The whole `GET` response: the private key if set, one block per peer,
/// and the success trailer. A pure function of the state.
pub open spec fn get_response_text(s: State) -> Seq<u8> {
    private_key_line(s) + peer_blocks(s.peers@, s.peers@.len() as int) + kw_errno0() + seq![
        10u8,
        10u8,
    ]
}

/// Serializes the current configuration.
pub fn get_response(state: &State) -> (r: Vec<u8>)
    ensures
        r@ == get_response_text(*state),
{
    let mut out: Vec<u8> = Vec::new();
    match &state.interface_info.private_key {
        Some(k) => {
            let t = kw_private_key_vec();
            out.extend_from_slice(t.as_slice());
            out.push(61);
            let h = hex_encode(k);
            out.extend_from_slice(h.as_slice());
            out.push(10);
        },
        None => {},
    }
    proof {
        assert(out@ =~= private_key_line(*state) + peer_blocks(state.peers@, 0));
    }
    let mut i: usize = 0;
    while i < state.peers.len()
        invariant
            i <= state.peers@.len(),
            out@ == private_key_line(*state) + peer_blocks(state.peers@, i as int),
        decreases state.peers@.len() - i,
    {
        let b = state.peers[i].to_config_bytes();
        out.extend_from_slice(b.as_slice());
        proof {
            assert(out@ =~= private_key_line(*state) + peer_blocks(state.peers@, i as int + 1));
        }
        i += 1;
    }
    let t = kw_errno0_vec();
    out.extend_from_slice(t.as_slice());
    out.push(10);
    out.push(10);
    proof {
        assert(out@ =~= get_response_text(*state));
    }
    out
}

/// Two `GET` responses computed from one state are byte-identical: without
/// an intervening mutation, reading the configuration twice gives twice the
/// same bytes.
pub proof fn lemma_get_idempotent(s: &State, r1: Seq<u8>, r2: Seq<u8>)
    requires
        r1 == get_response_text(*s),
        r2 == get_response_text(*s),
    ensures
        r1 == r2,
{
}

} // verus!
