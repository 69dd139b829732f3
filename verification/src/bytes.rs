//! Byte-level helpers: hexadecimal encoding and decoding (through the `hex`
//! crate), little-endian integers (through `byteorder`), byte comparison and
//! decimal formatting.

use vstd::prelude::*;
use byteorder::ByteOrder;

verus! {

/// Value of an ASCII hexadecimal digit, or -1 when the byte is no such digit.
pub open spec fn hex_digit_val(b: u8) -> int {
    if 48 <= b && b <= 57 {
        b - 48
    } else if 97 <= b && b <= 102 {
        b - 97 + 10
    } else if 65 <= b && b <= 70 {
        b - 65 + 10
    } else {
        -1
    }
}

pub open spec fn is_hex_digit(b: u8) -> bool {
    hex_digit_val(b) >= 0
}

/// A byte string that decodes as hexadecimal: even length, hex digits only.
pub open spec fn valid_hex(s: Seq<u8>) -> bool {
    s.len() % 2 == 0 && forall|i: int| 0 <= i < s.len() ==> is_hex_digit(#[trigger] s[i])
}

/// The bytes denoted by a hexadecimal string, two digits per byte.
pub open spec fn hex_bytes(s: Seq<u8>) -> Seq<u8>
    decreases s.len(),
{
    if s.len() < 2 {
        seq![]
    } else {
        seq![(hex_digit_val(s[0]) * 16 + hex_digit_val(s[1])) as u8] + hex_bytes(s.skip(2))
    }
}

/// The lowercase ASCII digit for a nibble value.
pub open spec fn hex_digit_char(v: int) -> u8 {
    if v < 10 {
        (48 + v) as u8
    } else {
        (97 + v - 10) as u8
    }
}

/// Lowercase hexadecimal text for a byte string, two digits per byte.
pub open spec fn hex_lower(b: Seq<u8>) -> Seq<u8>
    decreases b.len(),
{
    if b.len() == 0 {
        seq![]
    } else {
        seq![hex_digit_char(b[0] as int / 16), hex_digit_char(b[0] as int % 16)] + hex_lower(
            b.skip(1),
        )
    }
}

/// Relies on `hex::encode`: every input byte becomes two lowercase
/// hexadecimal digits, in input order.
#[verifier::external_body]
pub fn hex_encode(data: &Vec<u8>) -> (r: Vec<u8>)
    ensures
        r@ == hex_lower(data@),
{
    hex::encode(data).into_bytes()
}

#[verifier::external_type_specification]
#[verifier::external_body]
pub struct ExFromHexError(hex::FromHexError);

/// Relies on `hex::decode`: succeeds exactly on even-length strings of
/// hexadecimal digits (either case), and then returns the denoted bytes.
#[verifier::external_body]
pub fn hex_decode(data: &Vec<u8>) -> (r: Result<Vec<u8>, hex::FromHexError>)
    ensures
        r is Ok <==> valid_hex(data@),
        r matches Ok(v) ==> v@ == hex_bytes(data@),
{
    hex::decode(data)
}

/// Relies on byteorder's `LittleEndian::read_u32`: reads four bytes starting
/// at `off` as a little-endian integer.
#[verifier::external_body]
pub fn read_u32_le_at(buf: &Vec<u8>, off: usize) -> (r: u32)
    requires
        off + 4 <= buf@.len(),
    ensures
        r == vstd::bytes::spec_u32_from_le_bytes(buf@.subrange(off as int, off as int + 4)),
{
    byteorder::LittleEndian::read_u32(&buf[off..off + 4])
}

/// Relies on byteorder's `LittleEndian::write_u32`: produces the four
/// little-endian bytes of `n`.
#[verifier::external_body]
pub fn u32_le_bytes(n: u32) -> (r: Vec<u8>)
    ensures
        r@ == vstd::bytes::spec_u32_to_le_bytes(n),
{
    let mut buf = vec![0u8; 4];
    byteorder::LittleEndian::write_u32(&mut buf, n);
    buf
}

/// Byte-wise equality of two byte vectors.
pub fn bytes_eq(a: &Vec<u8>, b: &Vec<u8>) -> (r: bool)
    ensures
        r <==> a@ =~= b@,
{
    if a.len() != b.len() {
        return false;
    }
    let mut i: usize = 0;
    while i < a.len()
        invariant
            i <= a@.len(),
            a@.len() == b@.len(),
            forall|j: int| 0 <= j < i ==> a@[j] == b@[j],
        decreases a@.len() - i,
    {
        if a[i] != b[i] {
            return false;
        }
        i += 1;
    }
    true
}

/// The decimal digits of a number, most significant first.
pub open spec fn dec_rep(n: nat) -> Seq<u8>
    decreases n,
{
    if n < 10 {
        seq![(48 + n) as u8]
    } else {
        dec_rep(n / 10) + seq![(48 + n % 10) as u8]
    }
}

/// Formats a number in decimal.
pub fn format_u64_dec(n: u64) -> (r: Vec<u8>)
    ensures
        r@ == dec_rep(n as nat),
{
    let mut acc: Vec<u8> = Vec::new();
    let mut m: u64 = n;
    loop
        invariant
            dec_rep(n as nat) == dec_rep(m as nat).add(acc@),
        decreases m,
    {
        let ghost pre = acc@;
        let d: u8 = (m % 10) as u8;
        acc.insert(0, 48 + d);
        assert(acc@ =~= seq![(48 + d) as u8] + pre);
        if m < 10 {
            assert(dec_rep(m as nat) == seq![(48 + d) as u8]);
            assert(dec_rep(n as nat) =~= acc@);
            return acc;
        }
        proof {
            assert(dec_rep(m as nat) == dec_rep(m as nat / 10) + seq![(48 + m as nat % 10) as u8]);
            assert(dec_rep(m as nat).add(pre) =~= dec_rep(m as nat / 10).add(acc@));
        }
        m = m / 10;
    }
}

/// Whether every byte of `s` is an ASCII decimal digit.
pub open spec fn all_dec_digits(s: Seq<u8>) -> bool {
    forall|i: int| 0 <= i < s.len() ==> 48 <= #[trigger] s[i] <= 57
}

/// The value of a string of decimal digits.
pub open spec fn dec_val(s: Seq<u8>) -> int
    decreases s.len(),
{
    if s.len() == 0 {
        0
    } else {
        dec_val(s.take(s.len() - 1)) * 10 + (s[s.len() - 1] - 48)
    }
}

/// Parses an unsigned 16-bit decimal number; `None` when `s` is empty, holds
/// a non-digit, or denotes a value above 65535.
pub fn parse_u16_dec(s: &Vec<u8>) -> (r: Option<u16>)
    ensures
        r is Some <==> s@.len() > 0 && all_dec_digits(s@) && dec_val(s@) <= 0xffff,
        r matches Some(v) ==> v == dec_val(s@),
{
    if s.len() == 0 {
        return None;
    }
    let mut i: usize = 0;
    let mut acc: u64 = 0;
    let mut over: bool = false;
    while i < s.len()
        invariant
            i <= s@.len(),
            forall|j: int| 0 <= j < i ==> 48 <= #[trigger] s@[j] <= 57,
            !over ==> acc == dec_val(s@.take(i as int)) && acc <= 0xffff,
            over ==> dec_val(s@.take(i as int)) > 0xffff,
        decreases s@.len() - i,
    {
        let b = s[i];
        if b < 48 || b > 57 {
            return None;
        }
        proof {
            assert(s@.take(i + 1).take(i as int) =~= s@.take(i as int));
            assert(s@.take(i + 1)[i as int] == s@[i as int]);
            assert(dec_val(s@.take(i + 1)) == dec_val(s@.take(i as int)) * 10 + (s@[i as int]
                - 48));
            lemma_dec_val_nonneg(s@.take(i as int));
        }
        if !over {
            acc = acc * 10 + ((b - 48) as u64);
            if acc > 0xffff {
                over = true;
            }
        }
        i += 1;
    }
    proof {
        assert(s@.take(i as int) =~= s@);
    }
    if over {
        None
    } else {
        Some(acc as u16)
    }
}

/// The value of a digit string is never negative.
pub proof fn lemma_dec_val_nonneg(s: Seq<u8>)
    requires
        all_dec_digits(s),
    ensures
        dec_val(s) >= 0,
    decreases s.len(),
{
    if s.len() > 0 {
        assert(all_dec_digits(s.take(s.len() - 1)));
        lemma_dec_val_nonneg(s.take(s.len() - 1));
    }
}


/// The integer read from four bytes in big-endian order.
pub open spec fn be32(b0: u8, b1: u8, b2: u8, b3: u8) -> u32 {
    (b0 * 0x1000000 + b1 * 0x10000 + b2 * 0x100 + b3) as u32
}

/// Relies on byteorder's `BigEndian::read_u32`: reads four bytes starting at
/// `off` as a big-endian integer.
#[verifier::external_body]
pub fn read_u32_be_at(buf: &Vec<u8>, off: usize) -> (r: u32)
    requires
        off + 4 <= buf@.len(),
    ensures
        r == be32(
            buf@[off as int],
            buf@[off as int + 1],
            buf@[off as int + 2],
            buf@[off as int + 3],
        ),
{
    byteorder::BigEndian::read_u32(&buf[off..off + 4])
}

/// The integer read from sixteen bytes in big-endian order, starting at `off`.
pub open spec fn be128_at(s: Seq<u8>, off: int) -> u128 {
    (s[off] as u128) << 120 | (s[off + 1] as u128) << 112 | (s[off + 2] as u128) << 104 | (s[off
        + 3] as u128) << 96 | (s[off + 4] as u128) << 88 | (s[off + 5] as u128) << 80 | (s[off
        + 6] as u128) << 72 | (s[off + 7] as u128) << 64 | (s[off + 8] as u128) << 56 | (s[off
        + 9] as u128) << 48 | (s[off + 10] as u128) << 40 | (s[off + 11] as u128) << 32 | (s[off
        + 12] as u128) << 24 | (s[off + 13] as u128) << 16 | (s[off + 14] as u128) << 8 | (s[off
        + 15] as u128)
}

/// Relies on byteorder's `BigEndian::read_u128`: reads sixteen bytes starting
/// at `off` as a big-endian integer.
#[verifier::external_body]
pub fn read_u128_be_at(buf: &Vec<u8>, off: usize) -> (r: u128)
    requires
        off + 16 <= buf@.len(),
    ensures
        r == be128_at(buf@, off as int),
{
    byteorder::BigEndian::read_u128(&buf[off..off + 16])
}


/// The hexadecimal digit's value, as an executable step.
pub fn hex_digit_of(b: u8) -> (r: Option<u8>)
    ensures
        r is Some <==> is_hex_digit(b),
        r matches Some(v) ==> v == hex_digit_val(b),
{
    if 48 <= b && b <= 57 {
        Some(b - 48)
    } else if 97 <= b && b <= 102 {
        Some(b - 97 + 10)
    } else if 65 <= b && b <= 70 {
        Some(b - 65 + 10)
    } else {
        None
    }
}

/// The value of a string of hexadecimal digits.
pub open spec fn hex_val(s: Seq<u8>) -> int
    decreases s.len(),
{
    if s.len() == 0 {
        0
    } else {
        hex_val(s.take(s.len() - 1)) * 16 + hex_digit_val(s[s.len() - 1])
    }
}

} // verus!
