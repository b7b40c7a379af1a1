//! Byte-level building blocks of the correlation token: fixed-width
//! big-endian integers, sign-magnitude signed integers, length-prefixed
//! UTF-8 text and the lowercase hexadecimal text form of a byte string.
//!
//! Each encoder has a spec function giving its bytes, and each decoder a
//! spec parser `parse_*(s, pos)` giving the value read at `pos` and the
//! position after it. The lemmas show that parsing what was encoded gives
//! the value back, whatever follows it.
use vstd::prelude::*;
use vstd::utf8::*;
use vstd::string::*;

verus! {

broadcast use {encode_utf8_valid_utf8, encode_utf8_decode_utf8};

// ---------------------------------------------------------------------------
// Unsigned integers

pub open spec fn pow256(n: nat) -> nat
    decreases n,
{
    if n == 0 {
        1
    } else {
        256 * pow256((n - 1) as nat)
    }
}

/// The `n` low-order bytes of `x`, most significant first.
pub open spec fn be_bytes(x: nat, n: nat) -> Seq<u8>
    decreases n,
{
    if n == 0 {
        seq![]
    } else {
        be_bytes(x / 256, (n - 1) as nat).push((x % 256) as u8)
    }
}

/// The number that a byte string denotes, most significant byte first.
pub open spec fn be_value(s: Seq<u8>) -> nat
    decreases s.len(),
{
    if s.len() == 0 {
        0
    } else {
        be_value(s.drop_last()) * 256 + s.last() as nat
    }
}

pub proof fn lemma_pow256_8()
    ensures
        pow256(7) == 0x100_0000_0000_0000,
        pow256(8) == 0x1_0000_0000_0000_0000,
{
    reveal_with_fuel(pow256, 9);
}

pub proof fn lemma_be_bytes_len(x: nat, n: nat)
    ensures
        be_bytes(x, n).len() == n,
    decreases n,
{
    if n > 0 {
        lemma_be_bytes_len(x / 256, (n - 1) as nat);
    }
}

pub proof fn lemma_be_value_bound(s: Seq<u8>)
    ensures
        be_value(s) < pow256(s.len()),
    decreases s.len(),
{
    if s.len() > 0 {
        lemma_be_value_bound(s.drop_last());
        let h = be_value(s.drop_last());
        let p = pow256((s.len() - 1) as nat);
        let l = s.last() as nat;
        assert(h * 256 + l < 256 * p) by (nonlinear_arith)
            requires
                h < p,
                l < 256,
        ;
    }
}

pub proof fn lemma_be_round_trip(x: nat, n: nat)
    requires
        x < pow256(n),
    ensures
        be_value(be_bytes(x, n)) == x,
    decreases n,
{
    if n > 0 {
        let p = pow256((n - 1) as nat);
        assert(x / 256 < p) by (nonlinear_arith)
            requires
                x < 256 * p,
        ;
        lemma_be_round_trip(x / 256, (n - 1) as nat);
        let s = be_bytes(x, n);
        assert(s.drop_last() =~= be_bytes(x / 256, (n - 1) as nat));
        assert(x == (x / 256) * 256 + x % 256) by (nonlinear_arith);
    }
}

/// Appends the `n` low-order bytes of `x`, most significant first.
pub fn write_be(out: &mut Vec<u8>, x: u64, n: usize)
    requires
        n <= 8,
    ensures
        final(out)@ == old(out)@ + be_bytes(x as nat, n as nat),
    decreases n,
{
    if n > 0 {
        write_be(out, x / 256, n - 1);
        out.push((x % 256) as u8);
        proof {
            let prev = old(out)@ + be_bytes((x / 256) as nat, (n - 1) as nat);
            assert(prev.push((x % 256) as u8) =~= old(out)@ + be_bytes(x as nat, n as nat));
        }
    }
}

/// Reads the number held by the `n` bytes at `pos`, most significant first.
pub fn read_be(b: &Vec<u8>, pos: usize, n: usize) -> (r: u64)
    requires
        n <= 8,
        pos + n <= b@.len(),
    ensures
        r as nat == be_value(b@.subrange(pos as int, pos + n)),
    decreases n,
{
    if n == 0 {
        proof {
            assert(b@.subrange(pos as int, pos as int) =~= Seq::<u8>::empty());
        }
        0
    } else {
        let hi = read_be(b, pos, n - 1);
        let len = b.len();
        proof {
            assert(pos + n <= len);
            let s = b@.subrange(pos as int, pos + n);
            assert(s.drop_last() =~= b@.subrange(pos as int, pos + n - 1));
            lemma_be_value_bound(s.drop_last());
            lemma_pow256_8();
            lemma_pow256_mono((n - 1) as nat, 7);
        }
        hi * 256 + b[pos + n - 1] as u64
    }
}

pub proof fn lemma_pow256_mono(a: nat, b: nat)
    requires
        a <= b,
    ensures
        pow256(a) <= pow256(b),
    decreases b,
{
    if a < b {
        lemma_pow256_mono(a, (b - 1) as nat);
    }
}

pub open spec fn enc_u64(x: nat) -> Seq<u8> {
    be_bytes(x, 8)
}

#[verifier::opaque]
pub open spec fn parse_u64(s: Seq<u8>, pos: int) -> Option<(nat, int)> {
    if 0 <= pos && pos + 8 <= s.len() {
        Some((be_value(s.subrange(pos, pos + 8)), pos + 8))
    } else {
        None
    }
}

pub fn write_u64(out: &mut Vec<u8>, x: u64)
    ensures
        final(out)@ == old(out)@ + enc_u64(x as nat),
{
    write_be(out, x, 8);
}

pub fn read_u64(b: &Vec<u8>, pos: usize) -> (r: Option<(u64, usize)>)
    ensures
        match parse_u64(b@, pos as int) {
            Some((v, p)) => r matches Some((w, q)) && w as nat == v && q as int == p,
            None => r is None,
        },
{
    proof {
        reveal(parse_u64);
    }
    if pos <= b.len() && b.len() - pos >= 8 {
        let v = read_be(b, pos, 8);
        Some((v, pos + 8))
    } else {
        None
    }
}

pub proof fn lemma_u64_round_trip(pre: Seq<u8>, x: nat, rest: Seq<u8>)
    requires
        x < pow256(8),
    ensures
        parse_u64(pre + enc_u64(x) + rest, pre.len() as int) == Some((x, pre.len() + 8int)),
{
    reveal(parse_u64);
    lemma_be_bytes_len(x, 8);
    let s = pre + enc_u64(x) + rest;
    assert(s.subrange(pre.len() as int, pre.len() + 8int) =~= enc_u64(x));
    lemma_be_round_trip(x, 8);
}

// ---------------------------------------------------------------------------
// Tags and signed integers

pub open spec fn parse_u8(s: Seq<u8>, pos: int) -> Option<(u8, int)> {
    if 0 <= pos && pos < s.len() {
        Some((s[pos], pos + 1))
    } else {
        None
    }
}

pub fn read_u8(b: &Vec<u8>, pos: usize) -> (r: Option<(u8, usize)>)
    ensures
        match parse_u8(b@, pos as int) {
            Some((v, p)) => r matches Some((w, q)) && w == v && q as int == p,
            None => r is None,
        },
{
    if pos < b.len() {
        Some((b[pos], pos + 1))
    } else {
        None
    }
}

/// A sign byte (0 for non-negative, 1 for negative) and the magnitude.
pub open spec fn enc_int(x: int) -> Seq<u8> {
    if x < 0 {
        seq![1u8] + enc_u64((-x) as nat)
    } else {
        seq![0u8] + enc_u64(x as nat)
    }
}

/// Reads a signed integer in `[lo, hi]`; a negative zero is refused.
#[verifier::opaque]
pub open spec fn parse_int(s: Seq<u8>, pos: int, lo: int, hi: int) -> Option<(int, int)> {
    match parse_u8(s, pos) {
        Some((sign, p)) => match parse_u64(s, p) {
            Some((m, q)) => {
                if sign == 0 && m <= hi {
                    Some((m as int, q))
                } else if sign == 1 && m >= 1 && -m >= lo {
                    Some((-m, q))
                } else {
                    None
                }
            },
            None => None,
        },
        None => None,
    }
}

pub proof fn lemma_int_round_trip(pre: Seq<u8>, x: int, lo: int, hi: int, rest: Seq<u8>)
    requires
        lo <= x <= hi,
        -0x1_0000_0000_0000_0000 < lo,
        hi < 0x1_0000_0000_0000_0000,
    ensures
        enc_int(x).len() == 9,
        parse_int(pre + enc_int(x) + rest, pre.len() as int, lo, hi) == Some((x, pre.len() + 9int)),
{
    reveal(parse_int);
    lemma_pow256_8();
    lemma_be_bytes_len(if x < 0 { (-x) as nat } else { x as nat }, 8);
    let m: nat = if x < 0 { (-x) as nat } else { x as nat };
    let sign: u8 = if x < 0 { 1u8 } else { 0u8 };
    let s = pre + enc_int(x) + rest;
    assert(s =~= pre.push(sign) + enc_u64(m) + rest);
    lemma_u64_round_trip(pre.push(sign), m, rest);
}

pub fn write_i64(out: &mut Vec<u8>, x: i64)
    ensures
        final(out)@ == old(out)@ + enc_int(x as int),
{
    if x < 0 {
        out.push(1u8);
        let m: u64 = if x == i64::MIN {
            0x8000_0000_0000_0000u64
        } else {
            (-x) as u64
        };
        write_u64(out, m);
    } else {
        out.push(0u8);
        write_u64(out, x as u64);
    }
    proof {
        assert(final(out)@ =~= old(out)@ + enc_int(x as int));
    }
}

pub fn read_i64(b: &Vec<u8>, pos: usize) -> (r: Option<(i64, usize)>)
    ensures
        match parse_int(b@, pos as int, i64::MIN as int, i64::MAX as int) {
            Some((v, p)) => r matches Some((w, q)) && w as int == v && q as int == p,
            None => r is None,
        },
{
    proof {
        reveal(parse_int);
    }
    match read_u8(b, pos) {
        Some((sign, p)) => match read_u64(b, p) {
            Some((m, q)) => {
                if sign == 0 && m <= 0x7fff_ffff_ffff_ffffu64 {
                    Some((m as i64, q))
                } else if sign == 1 && m >= 1 && m <= 0x8000_0000_0000_0000u64 {
                    let v: i64 = if m == 0x8000_0000_0000_0000u64 {
                        i64::MIN
                    } else {
                        -(m as i64)
                    };
                    Some((v, q))
                } else {
                    None
                }
            },
            None => None,
        },
        None => None,
    }
}

pub fn read_i32(b: &Vec<u8>, pos: usize) -> (r: Option<(i32, usize)>)
    ensures
        match parse_int(b@, pos as int, i32::MIN as int, i32::MAX as int) {
            Some((v, p)) => r matches Some((w, q)) && w as int == v && q as int == p,
            None => r is None,
        },
{
    proof {
        reveal(parse_int);
    }
    match read_i64(b, pos) {
        Some((v, q)) => {
            if v >= i32::MIN as i64 && v <= i32::MAX as i64 {
                Some((v as i32, q))
            } else {
                None
            }
        },
        None => None,
    }
}

/// The high and the low 64 bits.
pub open spec fn enc_u128(x: nat) -> Seq<u8> {
    enc_u64(x / 0x1_0000_0000_0000_0000) + enc_u64(x % 0x1_0000_0000_0000_0000)
}

#[verifier::opaque]
pub open spec fn parse_u128(s: Seq<u8>, pos: int) -> Option<(nat, int)> {
    match parse_u64(s, pos) {
        Some((h, p)) => match parse_u64(s, p) {
            Some((l, q)) => Some((h * 0x1_0000_0000_0000_0000 + l, q)),
            None => None,
        },
        None => None,
    }
}

pub fn write_u128(out: &mut Vec<u8>, x: u128)
    ensures
        final(out)@ == old(out)@ + enc_u128(x as nat),
{
    write_u64(out, (x / 0x1_0000_0000_0000_0000u128) as u64);
    write_u64(out, (x % 0x1_0000_0000_0000_0000u128) as u64);
    proof {
        assert(final(out)@ =~= old(out)@ + enc_u128(x as nat));
    }
}

pub fn read_u128(b: &Vec<u8>, pos: usize) -> (r: Option<(u128, usize)>)
    ensures
        match parse_u128(b@, pos as int) {
            Some((v, p)) => r matches Some((w, q)) && w as nat == v && q as int == p,
            None => r is None,
        },
{
    proof {
        reveal(parse_u128);
        reveal(parse_u64);
    }
    match read_u64(b, pos) {
        Some((h, p)) => match read_u64(b, p) {
            Some((l, q)) => {
                proof {
                    lemma_pow256_8();
                    lemma_be_value_bound(b@.subrange(pos as int, pos + 8));
                    lemma_be_value_bound(b@.subrange(p as int, p + 8));
                    assert(h as nat * 0x1_0000_0000_0000_0000 + l as nat
                        <= 0xffff_ffff_ffff_ffff_ffff_ffff_ffff_ffff) by (nonlinear_arith)
                        requires
                            h <= 0xffff_ffff_ffff_ffff,
                            l <= 0xffff_ffff_ffff_ffff,
                    ;
                }
                Some(((h as u128) * 0x1_0000_0000_0000_0000u128 + l as u128, q))
            },
            None => None,
        },
        None => None,
    }
}

pub proof fn lemma_u128_round_trip(pre: Seq<u8>, x: nat, rest: Seq<u8>)
    requires
        x <= u128::MAX,
    ensures
        enc_u128(x).len() == 16,
        parse_u128(pre + enc_u128(x) + rest, pre.len() as int) == Some((x, pre.len() + 16int)),
{
    reveal(parse_u128);
    lemma_pow256_8();
    lemma_be_bytes_len(x % 0x1_0000_0000_0000_0000, 8);
    let h = x / 0x1_0000_0000_0000_0000;
    let l = x % 0x1_0000_0000_0000_0000;
    assert(h < 0x1_0000_0000_0000_0000) by (nonlinear_arith)
        requires
            x <= u128::MAX,
            h == x / 0x1_0000_0000_0000_0000,
    ;
    let s = pre + enc_u128(x) + rest;
    assert(s =~= pre + enc_u64(h) + (enc_u64(l) + rest));
    lemma_u64_round_trip(pre, h, enc_u64(l) + rest);
    lemma_be_bytes_len(h, 8);
    assert(s =~= (pre + enc_u64(h)) + enc_u64(l) + rest);
    lemma_u64_round_trip(pre + enc_u64(h), l, rest);
    assert(x == h * 0x1_0000_0000_0000_0000 + l) by (nonlinear_arith)
        requires
            h == x / 0x1_0000_0000_0000_0000,
            l == x % 0x1_0000_0000_0000_0000,
    ;
}

// ---------------------------------------------------------------------------
// Text

/// The UTF-8 byte length, then the UTF-8 bytes.
pub open spec fn enc_text(t: Seq<char>) -> Seq<u8> {
    enc_u64(encode_utf8(t).len()) + encode_utf8(t)
}

/// Text whose encoding fits the length prefix.
pub open spec fn text_fits(t: Seq<char>) -> bool {
    encode_utf8(t).len() <= u64::MAX
}

#[verifier::opaque]
pub open spec fn parse_text(s: Seq<u8>, pos: int) -> Option<(Seq<char>, int)> {
    match parse_u64(s, pos) {
        Some((n, p)) => {
            if p + n <= s.len() && valid_utf8(s.subrange(p, p + n)) {
                Some((decode_utf8(s.subrange(p, p + n)), p + n))
            } else {
                None
            }
        },
        None => None,
    }
}

/// Relies on String::from_utf8: it succeeds exactly on valid UTF-8, and
/// the string it returns holds those very bytes.
#[verifier::external_body]
fn string_from_utf8(b: Vec<u8>) -> (r: Option<String>)
    ensures
        r is Some <==> valid_utf8(b@),
        r matches Some(s) ==> encode_utf8(s@) == b@,
{
    String::from_utf8(b).ok()
}

pub fn write_text(out: &mut Vec<u8>, t: &String)
    ensures
        text_fits(t@),
        final(out)@ == old(out)@ + enc_text(t@),
{
    let bytes = t.as_str().as_bytes();
    let n = bytes.len();
    proof {
        assert(bytes@ == encode_utf8(t@));
    }
    write_u64(out, n as u64);
    let ghost mid = out@;
    let mut i: usize = 0;
    while i < n
        invariant
            n == bytes@.len(),
            i <= n,
            out@ == mid + bytes@.subrange(0, i as int),
        decreases n - i,
    {
        out.push(bytes[i]);
        i = i + 1;
        proof {
            assert(out@ =~= mid + bytes@.subrange(0, i as int));
        }
    }
    proof {
        assert(bytes@.subrange(0, n as int) =~= bytes@);
        assert(final(out)@ =~= old(out)@ + enc_text(t@));
    }
}

pub fn read_text(b: &Vec<u8>, pos: usize) -> (r: Option<(String, usize)>)
    ensures
        match parse_text(b@, pos as int) {
            Some((v, p)) => r matches Some((w, q)) && w@ == v && q as int == p,
            None => r is None,
        },
{
    proof {
        reveal(parse_text);
    }
    match read_u64(b, pos) {
        Some((n, p)) => {
            if p <= b.len() && n <= (b.len() - p) as u64 {
                let end = p + n as usize;
                let mut bytes: Vec<u8> = Vec::new();
                let mut i: usize = p;
                while i < end
                    invariant
                        p <= i <= end,
                        end <= b@.len(),
                        bytes@ == b@.subrange(p as int, i as int),
                    decreases end - i,
                {
                    bytes.push(b[i]);
                    i = i + 1;
                    proof {
                        assert(bytes@ =~= b@.subrange(p as int, i as int));
                    }
                }
                match string_from_utf8(bytes) {
                    Some(s) => Some((s, end)),
                    None => None,
                }
            } else {
                None
            }
        },
        None => None,
    }
}

pub proof fn lemma_text_round_trip(pre: Seq<u8>, t: Seq<char>, rest: Seq<u8>)
    requires
        text_fits(t),
    ensures
        enc_text(t).len() == 8 + encode_utf8(t).len(),
        parse_text(pre + enc_text(t) + rest, pre.len() as int) == Some(
            (t, pre.len() + enc_text(t).len() as int),
        ),
{
    reveal(parse_text);
    lemma_pow256_8();
    let e = encode_utf8(t);
    lemma_be_bytes_len(e.len(), 8);
    let s = pre + enc_text(t) + rest;
    assert(s =~= pre + enc_u64(e.len()) + (e + rest));
    lemma_u64_round_trip(pre, e.len(), e + rest);
    assert(s.subrange(pre.len() + 8int, pre.len() + 8int + e.len()) =~= e);
}

// ---------------------------------------------------------------------------
// Hexadecimal text

pub open spec fn hex_digit(v: nat) -> u8 {
    if v < 10 {
        (48 + v) as u8
    } else {
        (87 + v) as u8
    }
}

/// The value of a lowercase hexadecimal digit.
pub open spec fn digit_value(c: u8) -> Option<u8> {
    if 48 <= c <= 57 {
        Some((c - 48) as u8)
    } else if 97 <= c <= 102 {
        Some((c - 87) as u8)
    } else {
        None
    }
}

/// Each byte as two lowercase hexadecimal digits, high digit first.
pub open spec fn hex_of(s: Seq<u8>) -> Seq<u8>
    decreases s.len(),
{
    if s.len() == 0 {
        seq![]
    } else {
        hex_of(s.drop_last()) + seq![hex_digit(s.last() as nat / 16), hex_digit(s.last() as nat % 16)]
    }
}

pub proof fn lemma_hex_of_shape(s: Seq<u8>)
    ensures
        hex_of(s).len() == 2 * s.len(),
        forall|i: int|
            0 <= i < s.len() ==> {
                &&& #[trigger] hex_of(s)[2 * i] == hex_digit(s[i] as nat / 16)
                &&& hex_of(s)[2 * i + 1] == hex_digit(s[i] as nat % 16)
            },
    decreases s.len(),
{
    if s.len() > 0 {
        lemma_hex_of_shape(s.drop_last());
        assert forall|i: int| 0 <= i < s.len() implies {
            &&& #[trigger] hex_of(s)[2 * i] == hex_digit(s[i] as nat / 16)
            &&& hex_of(s)[2 * i + 1] == hex_digit(s[i] as nat % 16)
        } by {
            let d = s.drop_last();
            let tail = seq![hex_digit(s.last() as nat / 16), hex_digit(s.last() as nat % 16)];
            assert(hex_of(s) == hex_of(d) + tail);
            if i < s.len() - 1 {
                assert(d[i] == s[i]);
                assert(hex_of(s)[2 * i] == hex_of(d)[2 * i]);
                assert(hex_of(s)[2 * i + 1] == hex_of(d)[2 * i + 1]);
            } else {
                assert(i == d.len());
                assert(hex_of(s)[2 * i] == tail[0]);
                assert(hex_of(s)[2 * i + 1] == tail[1]);
            }
        }
    }
}

pub proof fn lemma_hex_digit_value(v: nat)
    requires
        v < 16,
    ensures
        digit_value(hex_digit(v)) == Some(v as u8),
{
}

pub proof fn lemma_hex_of_injective(a: Seq<u8>, b: Seq<u8>)
    requires
        hex_of(a) == hex_of(b),
    ensures
        a == b,
{
    lemma_hex_of_shape(a);
    lemma_hex_of_shape(b);
    assert(a.len() == b.len());
    assert forall|i: int| 0 <= i < a.len() implies a[i] == b[i] by {
        assert(hex_of(a)[2 * i] == hex_digit(a[i] as nat / 16));
        assert(hex_of(b)[2 * i] == hex_digit(b[i] as nat / 16));
        assert(hex_of(a)[2 * i + 1] == hex_digit(a[i] as nat % 16));
        assert(hex_of(b)[2 * i + 1] == hex_digit(b[i] as nat % 16));
        lemma_hex_digit_value(a[i] as nat / 16);
        lemma_hex_digit_value(b[i] as nat / 16);
        lemma_hex_digit_value(a[i] as nat % 16);
        lemma_hex_digit_value(b[i] as nat % 16);
        let x = a[i] as nat;
        let y = b[i] as nat;
        assert(hex_digit(x / 16) == hex_digit(y / 16));
        assert(hex_digit(x % 16) == hex_digit(y % 16));
        assert(x / 16 == y / 16);
        assert(x % 16 == y % 16);
        assert(x == 16 * (x / 16) + x % 16) by (nonlinear_arith);
        assert(y == 16 * (y / 16) + y % 16) by (nonlinear_arith);
    }
    assert(a =~= b);
}

/// The byte string whose hexadecimal text is `t`, if there is one.
pub open spec fn unhex(t: Seq<u8>) -> Option<Seq<u8>> {
    if exists|b: Seq<u8>| hex_of(b) == t {
        Some(choose|b: Seq<u8>| hex_of(b) == t)
    } else {
        None
    }
}

pub proof fn lemma_unhex_hex(b: Seq<u8>)
    ensures
        unhex(hex_of(b)) == Some(b),
{
    let t = hex_of(b);
    assert(exists|c: Seq<u8>| hex_of(c) == t);
    let c = choose|c: Seq<u8>| hex_of(c) == t;
    lemma_hex_of_injective(b, c);
}

/// Lowercase hexadecimal text of a byte string.
pub fn to_hex(b: &Vec<u8>) -> (r: Vec<u8>)
    ensures
        r@ == hex_of(b@),
{
    let mut out: Vec<u8> = Vec::new();
    let mut i: usize = 0;
    while i < b.len()
        invariant
            i <= b@.len(),
            out@ == hex_of(b@.subrange(0, i as int)),
        decreases b@.len() - i,
    {
        let v = b[i];
        let hi = v / 16;
        let lo = v % 16;
        out.push(if hi < 10 { 48 + hi } else { 87 + hi });
        out.push(if lo < 10 { 48 + lo } else { 87 + lo });
        proof {
            let next = b@.subrange(0, i + 1);
            assert(next.drop_last() =~= b@.subrange(0, i as int));
            assert(out@ =~= hex_of(next));
        }
        i = i + 1;
    }
    proof {
        assert(b@.subrange(0, b@.len() as int) =~= b@);
    }
    out
}

fn digit_value_exec(c: u8) -> (r: Option<u8>)
    ensures
        r == digit_value(c),
{
    if 48 <= c && c <= 57 {
        Some(c - 48)
    } else if 97 <= c && c <= 102 {
        Some(c - 87)
    } else {
        None
    }
}

/// The bytes whose hexadecimal text is `t`, if there are any.
pub fn from_hex(t: &Vec<u8>) -> (r: Option<Vec<u8>>)
    ensures
        match unhex(t@) {
            Some(b) => r matches Some(c) && c@ == b,
            None => r is None,
        },
{
    let r = from_hex_digits(t);
    proof {
        if r is Some {
            lemma_unhex_hex(r->Some_0@);
        }
    }
    r
}

fn from_hex_digits(t: &Vec<u8>) -> (r: Option<Vec<u8>>)
    ensures
        r matches Some(b) ==> hex_of(b@) == t@,
        r is None ==> forall|b: Seq<u8>| hex_of(b) != t@,
{
    if t.len() % 2 != 0 {
        proof {
            assert forall|b: Seq<u8>| hex_of(b) != t@ by {
                lemma_hex_of_shape(b);
            }
        }
        return None;
    }
    let n = t.len() / 2;
    let mut out: Vec<u8> = Vec::new();
    let mut i: usize = 0;
    while i < n
        invariant
            n * 2 == t@.len(),
            t@.len() <= usize::MAX,
            i <= n,
            out@.len() == i,
            hex_of(out@) == t@.subrange(0, 2 * i as int),
        decreases n - i,
    {
        let hi = digit_value_exec(t[2 * i]);
        let lo = digit_value_exec(t[2 * i + 1]);
        match (hi, lo) {
            (Some(h), Some(l)) => {
                let v: u8 = h * 16 + l;
                let ghost before = out@;
                out.push(v);
                proof {
                    assert(out@.drop_last() =~= before);
                    assert(v as nat / 16 == h as nat && v as nat % 16 == l as nat);
                    assert(hex_digit(h as nat) == t@[2 * i]);
                    assert(hex_digit(l as nat) == t@[2 * i + 1]);
                    assert(t@.subrange(0, 2 * (i + 1)) =~= t@.subrange(0, 2 * i as int) + seq![
                        t@[2 * i],
                        t@[2 * i + 1],
                    ]);
                }
                i = i + 1;
            },
            _ => {
                proof {
                    let j = (if hi is None { 2 * i } else { 2 * i + 1 }) as int;
                    assert(digit_value(t@[j]) is None);
                    assert forall|b: Seq<u8>| hex_of(b) != t@ by {
                        lemma_hex_of_shape(b);
                        if hex_of(b) == t@ {
                            let k = i as int;
                            assert(hex_of(b)[2 * k] == hex_digit(b[k] as nat / 16));
                            lemma_hex_digit_value(b[k] as nat / 16);
                            lemma_hex_digit_value(b[k] as nat % 16);
                        }
                    }
                }
                return None;
            },
        }
    }
    proof {
        assert(t@.subrange(0, 2 * n as int) =~= t@);
    }
    Some(out)
}

} // verus!
