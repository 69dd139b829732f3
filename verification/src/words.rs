//! The fixed words of the local control protocol, as byte strings.

use vstd::prelude::*;

verus! {

/// The bytes of `SET`.
pub open spec fn kw_set_verb() -> Seq<u8> {
    seq![83u8, 69, 84]
}

pub fn kw_set_verb_vec() -> (r: Vec<u8>)
    ensures
        r@ == kw_set_verb(),
{
    let r: Vec<u8> = vec![83u8, 69, 84];
    proof {
        assert(r@ =~= kw_set_verb());
    }
    r
}

/// The bytes of `GET`.
pub open spec fn kw_get_verb() -> Seq<u8> {
    seq![71u8, 69, 84]
}

pub fn kw_get_verb_vec() -> (r: Vec<u8>)
    ensures
        r@ == kw_get_verb(),
{
    let r: Vec<u8> = vec![71u8, 69, 84];
    proof {
        assert(r@ =~= kw_get_verb());
    }
    r
}

/// The bytes of `private_key`.
pub open spec fn kw_private_key() -> Seq<u8> {
    seq![112u8, 114, 105, 118, 97, 116, 101, 95, 107, 101, 121]
}

pub fn kw_private_key_vec() -> (r: Vec<u8>)
    ensures
        r@ == kw_private_key(),
{
    let r: Vec<u8> = vec![112u8, 114, 105, 118, 97, 116, 101, 95, 107, 101, 121];
    proof {
        assert(r@ =~= kw_private_key());
    }
    r
}

/// The bytes of `listen_port`.
pub open spec fn kw_listen_port() -> Seq<u8> {
    seq![108u8, 105, 115, 116, 101, 110, 95, 112, 111, 114, 116]
}

pub fn kw_listen_port_vec() -> (r: Vec<u8>)
    ensures
        r@ == kw_listen_port(),
{
    let r: Vec<u8> = vec![108u8, 105, 115, 116, 101, 110, 95, 112, 111, 114, 116];
    proof {
        assert(r@ =~= kw_listen_port());
    }
    r
}

/// The bytes of `public_key`.
pub open spec fn kw_public_key() -> Seq<u8> {
    seq![112u8, 117, 98, 108, 105, 99, 95, 107, 101, 121]
}

pub fn kw_public_key_vec() -> (r: Vec<u8>)
    ensures
        r@ == kw_public_key(),
{
    let r: Vec<u8> = vec![112u8, 117, 98, 108, 105, 99, 95, 107, 101, 121];
    proof {
        assert(r@ =~= kw_public_key());
    }
    r
}

/// The bytes of `allowed_ip`.
pub open spec fn kw_allowed_ip() -> Seq<u8> {
    seq![97u8, 108, 108, 111, 119, 101, 100, 95, 105, 112]
}

pub fn kw_allowed_ip_vec() -> (r: Vec<u8>)
    ensures
        r@ == kw_allowed_ip(),
{
    let r: Vec<u8> = vec![97u8, 108, 108, 111, 119, 101, 100, 95, 105, 112];
    proof {
        assert(r@ =~= kw_allowed_ip());
    }
    r
}

/// The bytes of `endpoint`.
pub open spec fn kw_endpoint() -> Seq<u8> {
    seq![101u8, 110, 100, 112, 111, 105, 110, 116]
}

pub fn kw_endpoint_vec() -> (r: Vec<u8>)
    ensures
        r@ == kw_endpoint(),
{
    let r: Vec<u8> = vec![101u8, 110, 100, 112, 111, 105, 110, 116];
    proof {
        assert(r@ =~= kw_endpoint());
    }
    r
}

/// The bytes of `preshared_key`.
pub open spec fn kw_preshared_key() -> Seq<u8> {
    seq![112u8, 114, 101, 115, 104, 97, 114, 101, 100, 95, 107, 101, 121]
}

pub fn kw_preshared_key_vec() -> (r: Vec<u8>)
    ensures
        r@ == kw_preshared_key(),
{
    let r: Vec<u8> = vec![112u8, 114, 101, 115, 104, 97, 114, 101, 100, 95, 107, 101, 121];
    proof {
        assert(r@ =~= kw_preshared_key());
    }
    r
}

/// The bytes of `errno=0`.
pub open spec fn kw_errno0() -> Seq<u8> {
    seq![101u8, 114, 114, 110, 111, 61, 48]
}

pub fn kw_errno0_vec() -> (r: Vec<u8>)
    ensures
        r@ == kw_errno0(),
{
    let r: Vec<u8> = vec![101u8, 114, 114, 110, 111, 61, 48];
    proof {
        assert(r@ =~= kw_errno0());
    }
    r
}

/// The bytes of `/var/run/wireguard/`.
pub open spec fn kw_sock_dir() -> Seq<u8> {
    seq![47u8, 118, 97, 114, 47, 114, 117, 110, 47, 119, 105, 114, 101, 103, 117, 97, 114, 100, 47]
}

pub fn kw_sock_dir_vec() -> (r: Vec<u8>)
    ensures
        r@ == kw_sock_dir(),
{
    let r: Vec<u8> = vec![47u8, 118, 97, 114, 47, 114, 117, 110, 47, 119, 105, 114, 101, 103, 117, 97, 114, 100, 47];
    proof {
        assert(r@ =~= kw_sock_dir());
    }
    r
}

/// The bytes of `.sock`.
pub open spec fn kw_sock_ext() -> Seq<u8> {
    seq![46u8, 115, 111, 99, 107]
}

pub fn kw_sock_ext_vec() -> (r: Vec<u8>)
    ensures
        r@ == kw_sock_ext(),
{
    let r: Vec<u8> = vec![46u8, 115, 111, 99, 107];
    proof {
        assert(r@ =~= kw_sock_ext());
    }
    r
}

} // verus!
