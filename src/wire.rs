//! The MessagePack subset that every frame is written in, with the primitives
//! read and written through `rmp`.
use vstd::prelude::*;
use vstd::utf8::*;

verus! {

/// 256 to the power `n`.
pub open spec fn pow256(n: nat) -> nat
    decreases n,
{
    if n == 0 {
        1
    } else {
        256 * pow256((n - 1) as nat)
    }
}

/// The unsigned big-endian value of `s`.
pub open spec fn be(s: Seq<u8>) -> nat
    decreases s.len(),
{
    if s.len() == 0 {
        0
    } else {
        be(s.drop_last()) * 256 + s.last() as nat
    }
}

/// The `n` big-endian bytes of `v` (modulo `256^n`).
pub open spec fn be_bytes(v: nat, n: nat) -> Seq<u8>
    decreases n,
{
    if n == 0 {
        seq![]
    } else {
        be_bytes(v / 256, (n - 1) as nat).push((v % 256) as u8)
    }
}

/// The big-endian bytes of a value that fits read back as that value.
pub proof fn lemma_be_bytes(v: nat, n: nat)
    requires
        v < pow256(n),
    ensures
        be_bytes(v, n).len() == n,
        be(be_bytes(v, n)) == v,
    decreases n,
{
    if n > 0 {
        assert(v / 256 < pow256((n - 1) as nat)) by (nonlinear_arith)
            requires v < 256 * pow256((n - 1) as nat);
        lemma_be_bytes(v / 256, (n - 1) as nat);
        let s = be_bytes(v, n);
        assert(s.drop_last() == be_bytes(v / 256, (n - 1) as nat));
        assert((v / 256) * 256 + v % 256 == v) by (nonlinear_arith);
    }
}

/// A marker byte followed by an `n`-byte big-endian field: the field and the bytes taken.
pub open spec fn field_read(s: Seq<u8>, n: nat) -> Option<(nat, nat)> {
    if s.len() >= 1 + n {
        Some((be(s.subrange(1, 1 + n as int)), 1 + n))
    } else {
        None
    }
}

/// The two's complement reading of an `n`-byte unsigned value.
pub open spec fn signed_of(v: nat, n: nat) -> int {
    if 2 * v >= pow256(n) {
        v - pow256(n)
    } else {
        v as int
    }
}

pub open spec fn unsigned_field(s: Seq<u8>, n: nat) -> Option<(int, nat)> {
    match field_read(s, n) {
        Some((v, k)) => Some((v as int, k)),
        None => None,
    }
}

pub open spec fn signed_field(s: Seq<u8>, n: nat) -> Option<(int, nat)> {
    match field_read(s, n) {
        Some((v, k)) => Some((signed_of(v, n), k)),
        None => None,
    }
}

/// A positive fixint at the start of `s`: its value and the one byte it takes.
pub open spec fn pfix_read(s: Seq<u8>) -> Option<(u8, nat)> {
    if s.len() >= 1 && s[0] < 0x80 {
        Some((s[0], 1))
    } else {
        None
    }
}

/// Any MessagePack integer at the start of `s`: its value and the bytes it takes.
#[verifier::opaque]
pub open spec fn any_int_read(s: Seq<u8>) -> Option<(int, nat)> {
    if s.len() == 0 {
        None
    } else {
        let m = s[0];
        if m < 0x80 {
            Some((m as int, 1))
        } else if m >= 0xe0 {
            Some((m - 256, 1))
        } else if m == 0xcc {
            unsigned_field(s, 1)
        } else if m == 0xcd {
            unsigned_field(s, 2)
        } else if m == 0xce {
            unsigned_field(s, 4)
        } else if m == 0xcf {
            unsigned_field(s, 8)
        } else if m == 0xd0 {
            signed_field(s, 1)
        } else if m == 0xd1 {
            signed_field(s, 2)
        } else if m == 0xd2 {
            signed_field(s, 4)
        } else if m == 0xd3 {
            signed_field(s, 8)
        } else {
            None
        }
    }
}

/// A MessagePack integer at the start of `s` whose value fits an `i32`.
pub open spec fn int_read(s: Seq<u8>) -> Option<(i32, nat)> {
    match any_int_read(s) {
        Some((v, k)) => if i32::MIN <= v <= i32::MAX {
            Some((v as i32, k))
        } else {
            None
        },
        None => None,
    }
}

/// A str length prefix (fixstr, str8, str16, str32) at the start of `s`.
#[verifier::opaque]
pub open spec fn str_len_read(s: Seq<u8>) -> Option<(nat, nat)> {
    if s.len() == 0 {
        None
    } else if 0xa0 <= s[0] <= 0xbf {
        Some(((s[0] - 0xa0) as nat, 1))
    } else if s[0] == 0xd9 {
        field_read(s, 1)
    } else if s[0] == 0xda {
        field_read(s, 2)
    } else if s[0] == 0xdb {
        field_read(s, 4)
    } else {
        None
    }
}

/// A bin length prefix (bin8, bin16, bin32) at the start of `s`.
#[verifier::opaque]
pub open spec fn bin_len_read(s: Seq<u8>) -> Option<(nat, nat)> {
    if s.len() == 0 {
        None
    } else if s[0] == 0xc4 {
        field_read(s, 1)
    } else if s[0] == 0xc5 {
        field_read(s, 2)
    } else if s[0] == 0xc6 {
        field_read(s, 4)
    } else {
        None
    }
}

/// A map length prefix (fixmap, map16, map32) at the start of `s`.
#[verifier::opaque]
pub open spec fn map_len_read(s: Seq<u8>) -> Option<(nat, nat)> {
    if s.len() == 0 {
        None
    } else if 0x80 <= s[0] <= 0x8f {
        Some(((s[0] - 0x80) as nat, 1))
    } else if s[0] == 0xde {
        field_read(s, 2)
    } else if s[0] == 0xdf {
        field_read(s, 4)
    } else {
        None
    }
}

/// What a reader hands back: the value and how many of the `len` bytes remain.
pub open spec fn remaining<T>(r: Option<(T, nat)>, len: nat) -> Option<(T, usize)> {
    match r {
        Some((v, k)) => Some((v, (len - k) as usize)),
        None => None,
    }
}

/// The shortest MessagePack form of the integer `v`.
pub open spec fn sint_bytes(v: int) -> Seq<u8> {
    if -32 <= v < 0 {
        seq![(v + 256) as u8]
    } else if -128 <= v < -32 {
        seq![0xd0u8, (v + 256) as u8]
    } else if -32768 <= v < -128 {
        seq![0xd1u8] + be_bytes((v + 0x1_0000) as nat, 2)
    } else if -0x8000_0000 <= v < -32768 {
        seq![0xd2u8] + be_bytes((v + 0x1_0000_0000) as nat, 4)
    } else if v < -0x8000_0000 {
        seq![0xd3u8] + be_bytes((v + 0x1_0000_0000_0000_0000) as nat, 8)
    } else if v < 128 {
        seq![v as u8]
    } else if v < 256 {
        seq![0xccu8, v as u8]
    } else if v < 0x1_0000 {
        seq![0xcdu8] + be_bytes(v as nat, 2)
    } else if v < 0x1_0000_0000 {
        seq![0xceu8] + be_bytes(v as nat, 4)
    } else {
        seq![0xcfu8] + be_bytes(v as nat, 8)
    }
}

/// The shortest str length prefix for `n` bytes.
pub open spec fn str_len_bytes(n: nat) -> Seq<u8> {
    if n < 32 {
        seq![(0xa0 + n) as u8]
    } else if n < 256 {
        seq![0xd9u8, n as u8]
    } else if n < 0x1_0000 {
        seq![0xdau8] + be_bytes(n, 2)
    } else {
        seq![0xdbu8] + be_bytes(n, 4)
    }
}

/// The shortest bin length prefix for `n` bytes.
pub open spec fn bin_len_bytes(n: nat) -> Seq<u8> {
    if n < 256 {
        seq![0xc4u8, n as u8]
    } else if n < 0x1_0000 {
        seq![0xc5u8] + be_bytes(n, 2)
    } else {
        seq![0xc6u8] + be_bytes(n, 4)
    }
}

/// The shortest map length prefix for `n` pairs.
pub open spec fn map_len_bytes(n: nat) -> Seq<u8> {
    if n < 16 {
        seq![(0x80 + n) as u8]
    } else if n < 0x1_0000 {
        seq![0xdeu8] + be_bytes(n, 2)
    } else {
        seq![0xdfu8] + be_bytes(n, 4)
    }
}

/// A str: its length prefix and its bytes.
pub open spec fn str_bytes(b: Seq<u8>) -> Seq<u8> {
    str_len_bytes(b.len()) + b
}

/// A bin: its length prefix and its bytes.
pub open spec fn bin_bytes(b: Seq<u8>) -> Seq<u8> {
    bin_len_bytes(b.len()) + b
}

/// The powers of 256 that the field widths use.
pub proof fn lemma_pow256_values()
    ensures
        pow256(1) == 256,
        pow256(2) == 0x1_0000,
        pow256(4) == 0x1_0000_0000,
        pow256(8) == 0x1_0000_0000_0000_0000,
{
    reveal_with_fuel(pow256, 9);
}

/// A marker byte, an `n`-byte field holding `v`, and anything after: the field reads back.
pub proof fn lemma_field_read(m: u8, v: nat, n: nat, rest: Seq<u8>)
    requires
        v < pow256(n),
    ensures
        field_read(seq![m] + be_bytes(v, n) + rest, n) == Some((v, 1 + n)),
{
    lemma_be_bytes(v, n);
    let s = seq![m] + be_bytes(v, n) + rest;
    assert(s.subrange(1, 1 + n as int) =~= be_bytes(v, n));
}

/// Every integer of `i32` written by the shortest form reads back, whatever follows it.
pub proof fn lemma_sint_round_trip(v: i32, rest: Seq<u8>)
    ensures
        int_read(sint_bytes(v as int) + rest) == Some((v, sint_bytes(v as int).len())),
{
    reveal(any_int_read);
    reveal(str_len_read);
    reveal(bin_len_read);
    reveal(map_len_read);
    lemma_pow256_values();
    let x = v as int;
    let s = sint_bytes(x) + rest;
    if -32 <= x < 0 {
        assert(s[0] == (x + 256) as u8);
    } else if -128 <= x < -32 {
        assert(s =~= seq![0xd0u8] + be_bytes((x + 256) as nat, 1) + rest) by {
            reveal_with_fuel(be_bytes, 2);
        }
        lemma_field_read(0xd0, (x + 256) as nat, 1, rest);
        lemma_be_bytes((x + 256) as nat, 1);
    } else if -32768 <= x < -128 {
        lemma_field_read(0xd1, (x + 0x1_0000) as nat, 2, rest);
        lemma_be_bytes((x + 0x1_0000) as nat, 2);
    } else if x < -32768 {
        lemma_field_read(0xd2, (x + 0x1_0000_0000) as nat, 4, rest);
        lemma_be_bytes((x + 0x1_0000_0000) as nat, 4);
    } else if x < 128 {
    } else if x < 256 {
        assert(s =~= seq![0xccu8] + be_bytes(x as nat, 1) + rest) by {
            reveal_with_fuel(be_bytes, 2);
        }
        lemma_field_read(0xcc, x as nat, 1, rest);
        lemma_be_bytes(x as nat, 1);
    } else if x < 0x1_0000 {
        lemma_field_read(0xcd, x as nat, 2, rest);
        lemma_be_bytes(x as nat, 2);
    } else {
        lemma_field_read(0xce, x as nat, 4, rest);
        lemma_be_bytes(x as nat, 4);
    }
}

/// A str length prefix reads back, whatever follows it.
pub proof fn lemma_str_len_round_trip(n: nat, rest: Seq<u8>)
    requires
        n <= u32::MAX,
    ensures
        str_len_read(str_len_bytes(n) + rest) == Some((n, str_len_bytes(n).len())),
{
    reveal(any_int_read);
    reveal(str_len_read);
    reveal(bin_len_read);
    reveal(map_len_read);
    lemma_pow256_values();
    let s = str_len_bytes(n) + rest;
    if n < 32 {
    } else if n < 256 {
        assert(s =~= seq![0xd9u8] + be_bytes(n, 1) + rest) by {
            reveal_with_fuel(be_bytes, 2);
        }
        lemma_field_read(0xd9, n, 1, rest);
        lemma_be_bytes(n, 1);
    } else if n < 0x1_0000 {
        lemma_field_read(0xda, n, 2, rest);
        lemma_be_bytes(n, 2);
    } else {
        lemma_field_read(0xdb, n, 4, rest);
        lemma_be_bytes(n, 4);
    }
}

/// A bin length prefix reads back, whatever follows it.
pub proof fn lemma_bin_len_round_trip(n: nat, rest: Seq<u8>)
    requires
        n <= u32::MAX,
    ensures
        bin_len_read(bin_len_bytes(n) + rest) == Some((n, bin_len_bytes(n).len())),
{
    reveal(any_int_read);
    reveal(str_len_read);
    reveal(bin_len_read);
    reveal(map_len_read);
    lemma_pow256_values();
    let s = bin_len_bytes(n) + rest;
    if n < 256 {
        assert(s =~= seq![0xc4u8] + be_bytes(n, 1) + rest) by {
            reveal_with_fuel(be_bytes, 2);
        }
        lemma_field_read(0xc4, n, 1, rest);
        lemma_be_bytes(n, 1);
    } else if n < 0x1_0000 {
        lemma_field_read(0xc5, n, 2, rest);
        lemma_be_bytes(n, 2);
    } else {
        lemma_field_read(0xc6, n, 4, rest);
        lemma_be_bytes(n, 4);
    }
}

/// A map length prefix reads back, whatever follows it.
pub proof fn lemma_map_len_round_trip(n: nat, rest: Seq<u8>)
    requires
        n <= u32::MAX,
    ensures
        map_len_read(map_len_bytes(n) + rest) == Some((n, map_len_bytes(n).len())),
{
    reveal(any_int_read);
    reveal(str_len_read);
    reveal(bin_len_read);
    reveal(map_len_read);
    lemma_pow256_values();
    if n < 16 {
    } else if n < 0x1_0000 {
        lemma_field_read(0xde, n, 2, rest);
        lemma_be_bytes(n, 2);
    } else {
        lemma_field_read(0xdf, n, 4, rest);
        lemma_be_bytes(n, 4);
    }
}

/// What a length reader hands back: the length and how many of the `len` bytes remain.
pub open spec fn remaining_len(r: Option<(nat, nat)>, len: nat) -> Option<(u32, usize)> {
    match r {
        Some((v, k)) => Some((v as u32, (len - k) as usize)),
        None => None,
    }
}

/// Relies on rmp::decode::read_pfix: one byte below 0x80, else an error.
#[verifier::external_body]
pub(crate) fn read_pfix(buf: &[u8]) -> (r: Option<(u8, usize)>)
    ensures
        r == remaining(pfix_read(buf@), buf@.len()),
{
    let mut rd = buf;
    match rmp::decode::read_pfix(&mut rd) {
        Ok(v) => Some((v, rd.len())),
        Err(_) => None,
    }
}

/// Relies on rmp::decode::read_int for `i32`: any integer marker with its big-endian
/// field, refused when the field is cut short or the value does not fit.
#[verifier::external_body]
pub(crate) fn read_i32(buf: &[u8]) -> (r: Option<(i32, usize)>)
    ensures
        r == remaining(int_read(buf@), buf@.len()),
{
    let mut rd = buf;
    match rmp::decode::read_int::<i32, _>(&mut rd) {
        Ok(v) => Some((v, rd.len())),
        Err(_) => None,
    }
}

/// Relies on rmp::decode::read_str_len: a fixstr, str8, str16 or str32 prefix.
#[verifier::external_body]
pub(crate) fn read_str_len(buf: &[u8]) -> (r: Option<(u32, usize)>)
    ensures
        r == remaining_len(str_len_read(buf@), buf@.len()),
{
    let mut rd = buf;
    match rmp::decode::read_str_len(&mut rd) {
        Ok(v) => Some((v, rd.len())),
        Err(_) => None,
    }
}

/// Relies on rmp::decode::read_bin_len: a bin8, bin16 or bin32 prefix.
#[verifier::external_body]
pub(crate) fn read_bin_len(buf: &[u8]) -> (r: Option<(u32, usize)>)
    ensures
        r == remaining_len(bin_len_read(buf@), buf@.len()),
{
    let mut rd = buf;
    match rmp::decode::read_bin_len(&mut rd) {
        Ok(v) => Some((v, rd.len())),
        Err(_) => None,
    }
}

/// Relies on rmp::decode::read_map_len: a fixmap, map16 or map32 prefix.
#[verifier::external_body]
pub(crate) fn read_map_len(buf: &[u8]) -> (r: Option<(u32, usize)>)
    ensures
        r == remaining_len(map_len_read(buf@), buf@.len()),
{
    let mut rd = buf;
    match rmp::decode::read_map_len(&mut rd) {
        Ok(v) => Some((v, rd.len())),
        Err(_) => None,
    }
}

/// Relies on rmp::encode::write_pfix: appends the single byte `v` (it panics from 0x80 up).
#[verifier::external_body]
pub(crate) fn write_pfix(out: &mut Vec<u8>, v: u8)
    requires
        v < 0x80,
    ensures
        final(out)@ == old(out)@.push(v),
{
    let _ = rmp::encode::write_pfix(out, v);
}

/// Relies on rmp::encode::write_sint: appends the shortest form of `v`.
#[verifier::external_body]
pub(crate) fn write_sint(out: &mut Vec<u8>, v: i64)
    ensures
        final(out)@ == old(out)@ + sint_bytes(v as int),
{
    let _ = rmp::encode::write_sint(out, v);
}

/// Relies on rmp::encode::write_str_len: appends the shortest str prefix for `n` bytes.
#[verifier::external_body]
pub(crate) fn write_str_len(out: &mut Vec<u8>, n: u32)
    ensures
        final(out)@ == old(out)@ + str_len_bytes(n as nat),
{
    let _ = rmp::encode::write_str_len(out, n);
}

/// Relies on rmp::encode::write_bin_len: appends the shortest bin prefix for `n` bytes.
#[verifier::external_body]
pub(crate) fn write_bin_len(out: &mut Vec<u8>, n: u32)
    ensures
        final(out)@ == old(out)@ + bin_len_bytes(n as nat),
{
    let _ = rmp::encode::write_bin_len(out, n);
}

/// Relies on rmp::encode::write_map_len: appends the shortest map prefix for `n` pairs.
#[verifier::external_body]
pub(crate) fn write_map_len(out: &mut Vec<u8>, n: u32)
    ensures
        final(out)@ == old(out)@ + map_len_bytes(n as nat),
{
    let _ = rmp::encode::write_map_len(out, n);
}

/// Appends the bytes of `b` to `out`.
pub fn push_all(out: &mut Vec<u8>, b: &[u8])
    ensures
        final(out)@ == old(out)@ + b@,
{
    let mut i: usize = 0;
    while i < b.len()
        invariant
            i <= b@.len(),
            out@ == old(out)@ + b@.subrange(0, i as int),
        decreases b@.len() - i,
    {
        out.push(b[i]);
        i = i + 1;
        assert(b@.subrange(0, i as int) =~= b@.subrange(0, i - 1 as int).push(b@[i - 1]));
    }
    assert(b@.subrange(0, i as int) =~= b@);
}

/// Appends a str of the bytes `b`: its length prefix, then the bytes.
pub fn push_str(out: &mut Vec<u8>, b: &[u8])
    requires
        b@.len() <= u32::MAX,
    ensures
        final(out)@ == old(out)@ + str_bytes(b@),
{
    write_str_len(out, b.len() as u32);
    push_all(out, b);
    assert(final(out)@ =~= old(out)@ + str_bytes(b@));
}

/// Appends a bin of the bytes `b`: its length prefix, then the bytes.
pub fn push_bin(out: &mut Vec<u8>, b: &[u8])
    requires
        b@.len() <= u32::MAX,
    ensures
        final(out)@ == old(out)@ + bin_bytes(b@),
{
    write_bin_len(out, b.len() as u32);
    push_all(out, b);
    assert(final(out)@ =~= old(out)@ + bin_bytes(b@));
}

/// The `n` bytes of `data` from `pos` on, where there are that many.
pub fn take_bytes(data: &[u8], pos: usize, n: u32) -> (r: Option<Vec<u8>>)
    requires
        pos <= data@.len(),
    ensures
        pos + n <= data@.len() ==> r is Some && r->0@ == data@.subrange(pos as int, pos + n),
        pos + n > data@.len() ==> r is None,
{
    if n as usize > data.len() - pos {
        None
    } else {
        let s = vstd::slice::slice_subrange(data, pos, pos + n as usize);
        Some(vstd::slice::slice_to_vec(s))
    }
}

/// A str at the start of `s`: its bytes and the bytes it takes with its prefix.
pub open spec fn str_read(s: Seq<u8>) -> Option<(Seq<u8>, nat)> {
    match str_len_read(s) {
        Some((n, k)) => if k + n <= s.len() {
            Some((s.subrange(k as int, (k + n) as int), k + n))
        } else {
            None
        },
        None => None,
    }
}

/// A bin at the start of `s`: its bytes and the bytes it takes with its prefix.
pub open spec fn bin_read(s: Seq<u8>) -> Option<(Seq<u8>, nat)> {
    match bin_len_read(s) {
        Some((n, k)) => if k + n <= s.len() {
            Some((s.subrange(k as int, (k + n) as int), k + n))
        } else {
            None
        },
        None => None,
    }
}

/// A str holding valid UTF-8 at the start of `s`: its characters and the bytes it takes.
pub open spec fn text_read(s: Seq<u8>) -> Option<(Seq<char>, nat)> {
    match str_read(s) {
        Some((b, k)) => if valid_utf8(b) {
            Some((decode_utf8(b), k))
        } else {
            None
        },
        None => None,
    }
}

/// The part of `data` from `pos` on.
pub open spec fn from(data: Seq<u8>, pos: int) -> Seq<u8> {
    data.subrange(pos, data.len() as int)
}

/// A big-endian value is below 256 to the power of its length.
pub proof fn lemma_be_bound(s: Seq<u8>)
    ensures
        be(s) < pow256(s.len()),
    decreases s.len(),
{
    if s.len() > 0 {
        lemma_be_bound(s.drop_last());
        let a = be(s.drop_last());
        let p = pow256((s.len() - 1) as nat);
        assert(a * 256 + s.last() < 256 * p) by (nonlinear_arith)
            requires a < p, s.last() < 256;
    }
}

/// A field of at most four bytes fits a `u32`.
pub proof fn lemma_field_fits(s: Seq<u8>, n: nat)
    requires
        n <= 8,
    ensures
        field_read(s, n) matches Some((v, k)) ==> k == 1 + n && (n <= 4 ==> v <= u32::MAX),
{
    if s.len() >= 1 + n {
        lemma_be_bound(s.subrange(1, 1 + n as int));
        lemma_pow256_values();
        reveal_with_fuel(pow256, 5);
    }
}

/// Each primitive reader takes at least one byte and no more than there are.
pub proof fn lemma_reads_bounded(s: Seq<u8>)
    ensures
        str_len_read(s) matches Some((n, k)) ==> 1 <= k <= s.len(),
        bin_len_read(s) matches Some((n, k)) ==> 1 <= k <= s.len(),
        map_len_read(s) matches Some((n, k)) ==> 1 <= k <= s.len(),
        int_read(s) matches Some((v, k)) ==> 1 <= k <= s.len(),
        pfix_read(s) matches Some((v, k)) ==> 1 <= k <= s.len(),
        str_read(s) matches Some((b, k)) ==> 1 <= k <= s.len(),
        bin_read(s) matches Some((b, k)) ==> 1 <= k <= s.len(),
        text_read(s) matches Some((b, k)) ==> 1 <= k <= s.len(),
        str_len_read(s) matches Some((n, k)) ==> n <= u32::MAX,
        bin_len_read(s) matches Some((n, k)) ==> n <= u32::MAX,
        map_len_read(s) matches Some((n, k)) ==> n <= u32::MAX,
{
    reveal(any_int_read);
    reveal(str_len_read);
    reveal(bin_len_read);
    reveal(map_len_read);
    lemma_field_fits(s, 1);
    lemma_field_fits(s, 2);
    lemma_field_fits(s, 4);
    lemma_field_fits(s, 8);
}

/// Relies on String::from_utf8: it accepts exactly the valid UTF-8 sequences and keeps
/// their characters.
#[verifier::external_body]
pub(crate) fn string_from_utf8(b: Vec<u8>) -> (r: Option<String>)
    ensures
        r is Some <==> valid_utf8(b@),
        r matches Some(t) ==> t@ == decode_utf8(b@),
{
    String::from_utf8(b).ok()
}

/// Reads a str at `pos`: its bytes and the position after it.
pub fn read_str(data: &[u8], pos: usize) -> (r: Option<(Vec<u8>, usize)>)
    requires
        pos <= data@.len(),
    ensures
        match str_read(from(data@, pos as int)) {
            Some((b, k)) => r matches Some((x, q)) && x@ == b && q == pos + k && q <= data@.len(),
            None => r is None,
        },
{
    let rest = vstd::slice::slice_subrange(data, pos, data.len());
    proof {
        lemma_reads_bounded(rest@);
    }
    match read_str_len(rest) {
        None => None,
        Some((n, rem)) => {
            let p = data.len() - rem;
            match take_bytes(data, p, n) {
                Some(b) => {
                    assert(b@ =~= from(data@, pos as int).subrange((p - pos) as int, p - pos + n));
                    Some((b, p + n as usize))
                },
                None => None,
            }
        },
    }
}

/// Reads a bin at `pos`: its bytes and the position after it.
pub fn read_bin(data: &[u8], pos: usize) -> (r: Option<(Vec<u8>, usize)>)
    requires
        pos <= data@.len(),
    ensures
        match bin_read(from(data@, pos as int)) {
            Some((b, k)) => r matches Some((x, q)) && x@ == b && q == pos + k && q <= data@.len(),
            None => r is None,
        },
{
    let rest = vstd::slice::slice_subrange(data, pos, data.len());
    proof {
        lemma_reads_bounded(rest@);
    }
    match read_bin_len(rest) {
        None => None,
        Some((n, rem)) => {
            let p = data.len() - rem;
            match take_bytes(data, p, n) {
                Some(b) => {
                    assert(b@ =~= from(data@, pos as int).subrange((p - pos) as int, p - pos + n));
                    Some((b, p + n as usize))
                },
                None => None,
            }
        },
    }
}

/// Reads a str of valid UTF-8 at `pos`: the string and the position after it.
pub fn read_text(data: &[u8], pos: usize) -> (r: Option<(String, usize)>)
    requires
        pos <= data@.len(),
    ensures
        match text_read(from(data@, pos as int)) {
            Some((t, k)) => r matches Some((x, q)) && x@ == t && q == pos + k && q <= data@.len(),
            None => r is None,
        },
{
    match read_str(data, pos) {
        None => None,
        Some((b, p)) => match string_from_utf8(b) {
            Some(t) => Some((t, p)),
            None => None,
        },
    }
}

/// A str reads back, whatever follows it.
pub proof fn lemma_str_round_trip(b: Seq<u8>, rest: Seq<u8>)
    requires
        b.len() <= u32::MAX,
    ensures
        str_read(str_bytes(b) + rest) == Some((b, str_bytes(b).len())),
{
    lemma_str_len_round_trip(b.len(), b + rest);
    let s = str_bytes(b) + rest;
    assert(s =~= str_len_bytes(b.len()) + (b + rest));
    let k = str_len_bytes(b.len()).len();
    assert(s.subrange(k as int, (k + b.len()) as int) =~= b);
}

/// A bin reads back, whatever follows it.
pub proof fn lemma_bin_round_trip(b: Seq<u8>, rest: Seq<u8>)
    requires
        b.len() <= u32::MAX,
    ensures
        bin_read(bin_bytes(b) + rest) == Some((b, bin_bytes(b).len())),
{
    lemma_bin_len_round_trip(b.len(), b + rest);
    let s = bin_bytes(b) + rest;
    assert(s =~= bin_len_bytes(b.len()) + (b + rest));
    let k = bin_len_bytes(b.len()).len();
    assert(s.subrange(k as int, (k + b.len()) as int) =~= b);
}

/// The UTF-8 form of a string, written as a str, reads back as that string.
pub proof fn lemma_text_round_trip(t: Seq<char>, rest: Seq<u8>)
    requires
        encode_utf8(t).len() <= u32::MAX,
    ensures
        text_read(str_bytes(encode_utf8(t)) + rest) == Some((t, str_bytes(encode_utf8(t)).len())),
{
    lemma_str_round_trip(encode_utf8(t), rest);
    encode_utf8_valid_utf8(t);
    encode_utf8_decode_utf8(t);
}

/// Byte strings written one after another, each as a str.
pub open spec fn strs_bytes(h: Seq<Seq<u8>>) -> Seq<u8>
    decreases h.len(),
{
    if h.len() == 0 {
        seq![]
    } else {
        strs_bytes(h.drop_last()) + str_bytes(h.last())
    }
}

/// `n` strs one after another at the start of `s`: their bytes and the bytes they take.
pub open spec fn strs_read(s: Seq<u8>, n: nat) -> Option<(Seq<Seq<u8>>, nat)>
    decreases n,
{
    if n == 0 {
        Some((seq![], 0))
    } else {
        match strs_read(s, (n - 1) as nat) {
            Some((h, k)) => match str_read(from(s, k as int)) {
                Some((b, j)) => Some((h.push(b), k + j)),
                None => None,
            },
            None => None,
        }
    }
}

/// Strs that read take no more than there is, one entry per str.
pub proof fn lemma_strs_bounded(s: Seq<u8>, n: nat)
    ensures
        strs_read(s, n) matches Some((h, k)) ==> k <= s.len() && h.len() == n,
    decreases n,
{
    if n > 0 {
        lemma_strs_bounded(s, (n - 1) as nat);
        if let Some((h, k)) = strs_read(s, (n - 1) as nat) {
            lemma_reads_bounded(from(s, k as int));
        }
    }
}

/// Reads `n` strs one after another from `pos`: their bytes and the position after them.
pub fn read_strs(data: &[u8], pos: usize, n: u64) -> (r: Option<(Vec<Vec<u8>>, usize)>)
    requires
        pos <= data@.len(),
    ensures
        match strs_read(from(data@, pos as int), n as nat) {
            Some((h, k)) => r matches Some((x, q)) && x@.map_values(|v: Vec<u8>| v@) == h && q
                == pos + k && q <= data@.len(),
            None => r is None,
        },
{
    let mut out: Vec<Vec<u8>> = Vec::new();
    let mut p: usize = pos;
    let mut i: u64 = 0;
    while i < n
        invariant
            pos <= p <= data@.len(),
            i <= n,
            strs_read(from(data@, pos as int), i as nat) == Some(
                (out@.map_values(|v: Vec<u8>| v@), (p - pos) as nat),
            ),
        decreases n - i,
    {
        let ghost s = from(data@, pos as int);
        assert(from(s, (p - pos) as int) =~= from(data@, p as int));
        match read_str(data, p) {
            None => {
                proof {
                    let j = (i + 1) as nat;
                    assert(strs_read(s, j) is None);
                    lemma_strs_none_stays(s, j, n as nat);
                }
                return None;
            },
            Some((b, q)) => {
                proof {
                    lemma_reads_bounded(from(data@, p as int));
                }
                out.push(b);
                p = q;
                i = i + 1;
            },
        }
    }
    Some((out, p))
}

/// Once a count of strs fails to read, every larger count fails too.
pub proof fn lemma_strs_none_stays(s: Seq<u8>, j: nat, n: nat)
    requires
        strs_read(s, j) is None,
        j <= n,
    ensures
        strs_read(s, n) is None,
    decreases n - j,
{
    if j < n {
        lemma_strs_none_stays(s, j + 1, n);
    }
}

/// Byte strings written as strs read back, whatever follows them.
pub proof fn lemma_strs_round_trip(h: Seq<Seq<u8>>, rest: Seq<u8>)
    requires
        forall|i: int| 0 <= i < h.len() ==> (#[trigger] h[i]).len() <= u32::MAX,
    ensures
        strs_read(strs_bytes(h) + rest, h.len()) == Some((h, strs_bytes(h).len())),
    decreases h.len(),
{
    if h.len() > 0 {
        let init = h.drop_last();
        let tail = str_bytes(h.last()) + rest;
        assert(strs_bytes(h) + rest =~= strs_bytes(init) + tail);
        lemma_strs_round_trip(init, tail);
        let s = strs_bytes(h) + rest;
        assert(from(s, strs_bytes(init).len() as int) =~= tail);
        lemma_str_round_trip(h.last(), rest);
        assert(init.push(h.last()) =~= h);
    }
}

/// Reading from `a` on and then from `b` on reads from `a + b` on.
pub broadcast proof fn lemma_from_from(d: Seq<u8>, a: int, b: int)
    requires
        0 <= a <= d.len(),
        0 <= b <= d.len() - a,
    ensures
        #[trigger] from(from(d, a), b) == from(d, a + b),
{
    assert(from(from(d, a), b) =~= from(d, a + b));
}

/// Reads a positive fixint at `pos`: its value and the position after it.
pub fn pfix_at(data: &[u8], pos: usize) -> (r: Option<(u8, usize)>)
    requires
        pos <= data@.len(),
    ensures
        match pfix_read(from(data@, pos as int)) {
            Some((v, k)) => r matches Some((w, q)) && w == v && q == pos + k && q <= data@.len(),
            None => r is None,
        },
{
    let rest = vstd::slice::slice_subrange(data, pos, data.len());
    proof {
        lemma_reads_bounded(rest@);
    }
    match read_pfix(rest) {
        Some((v, rem)) => Some((v, data.len() - rem)),
        None => None,
    }
}

/// Reads an integer that fits an `i32` at `pos`: its value and the position after it.
pub fn int_at(data: &[u8], pos: usize) -> (r: Option<(i32, usize)>)
    requires
        pos <= data@.len(),
    ensures
        match int_read(from(data@, pos as int)) {
            Some((v, k)) => r matches Some((w, q)) && w == v && q == pos + k && q <= data@.len(),
            None => r is None,
        },
{
    let rest = vstd::slice::slice_subrange(data, pos, data.len());
    proof {
        lemma_reads_bounded(rest@);
    }
    match read_i32(rest) {
        Some((v, rem)) => Some((v, data.len() - rem)),
        None => None,
    }
}

/// Reads a map length at `pos`: the number of pairs and the position after it.
pub fn map_len_at(data: &[u8], pos: usize) -> (r: Option<(u32, usize)>)
    requires
        pos <= data@.len(),
    ensures
        match map_len_read(from(data@, pos as int)) {
            Some((n, k)) => r matches Some((w, q)) && w == n && q == pos + k && q <= data@.len(),
            None => r is None,
        },
{
    let rest = vstd::slice::slice_subrange(data, pos, data.len());
    proof {
        lemma_reads_bounded(rest@);
    }
    match read_map_len(rest) {
        Some((n, rem)) => Some((n, data.len() - rem)),
        None => None,
    }
}

/// The byte strings held in a vector of byte vectors.
pub open spec fn bytes_of(h: Seq<Vec<u8>>) -> Seq<Seq<u8>> {
    h.map_values(|v: Vec<u8>| v@)
}

/// Two positive fixints.
pub open spec fn two_pfix_read(s: Seq<u8>) -> Option<(u8, u8, nat)> {
    match pfix_read(s) {
        Some((a, k1)) => match pfix_read(from(s, k1 as int)) {
            Some((b, k2)) => Some((a, b, k1 + k2)),
            None => None,
        },
        None => None,
    }
}

/// Two integers that fit an `i32`.
pub open spec fn two_int_read(s: Seq<u8>) -> Option<(i32, i32, nat)> {
    match int_read(s) {
        Some((a, k1)) => match int_read(from(s, k1 as int)) {
            Some((b, k2)) => Some((a, b, k1 + k2)),
            None => None,
        },
        None => None,
    }
}

/// The headers of a MESSAGE: a map length, then that many key/value pairs of strs.
pub open spec fn headers_read(s: Seq<u8>) -> Option<(Seq<Seq<u8>>, nat)> {
    match map_len_read(s) {
        Some((n, k1)) => match strs_read(from(s, k1 as int), 2 * n) {
            Some((h, k2)) => Some((h, k1 + k2)),
            None => None,
        },
        None => None,
    }
}

/// Headers that can be written: whole key/value pairs, each entry and the pair count
/// within the 32-bit lengths of the format.
pub open spec fn headers_fit(h: Seq<Seq<u8>>) -> bool {
    &&& h.len() % 2 == 0
    &&& h.len() / 2 <= u32::MAX
    &&& forall|i: int| 0 <= i < h.len() ==> (#[trigger] h[i]).len() <= u32::MAX
}

/// Writes the headers of a MESSAGE: their pair count, then each entry as a str.
pub fn write_headers(out: &mut Vec<u8>, headers: &Vec<Vec<u8>>)
    requires
        headers_fit(bytes_of(headers@)),
    ensures
        final(out)@ == old(out)@ + map_len_bytes(headers@.len() / 2) + strs_bytes(
            bytes_of(headers@),
        ),
{
    write_map_len(out, (headers.len() / 2) as u32);
    let ghost start = out@;
    let mut i: usize = 0;
    while i < headers.len()
        invariant
            i <= headers@.len(),
            headers_fit(bytes_of(headers@)),
            out@ == start + strs_bytes(bytes_of(headers@.subrange(0, i as int))),
        decreases headers@.len() - i,
    {
        assert(bytes_of(headers@)[i as int].len() <= u32::MAX);
        push_str(out, headers[i].as_slice());
        i = i + 1;
        assert(bytes_of(headers@.subrange(0, i as int)).drop_last() =~= bytes_of(
            headers@.subrange(0, i - 1 as int),
        ));
    }
    assert(headers@.subrange(0, i as int) =~= headers@);
}


/// The fields that open a MESSAGE in both tables: id, package id, headers, payload.
pub open spec fn message_front_read(s: Seq<u8>) -> Option<
    (i32, i32, Seq<Seq<u8>>, Seq<u8>, nat),
> {
    match two_int_read(s) {
        Some((id, pkg_id, k1)) => match headers_read(from(s, k1 as int)) {
            Some((headers, k2)) => match bin_read(from(s, (k1 + k2) as int)) {
                Some((payload, k3)) => Some((id, pkg_id, headers, payload, k1 + k2 + k3)),
                None => None,
            },
            None => None,
        },
        None => None,
    }
}

/// The bytes of those fields: two integers, the headers as a map, the payload as a bin.
pub open spec fn message_front_bytes(
    id: i32,
    pkg_id: i32,
    headers: Seq<Seq<u8>>,
    payload: Seq<u8>,
) -> Seq<u8> {
    sint_bytes(id as int) + sint_bytes(pkg_id as int) + map_len_bytes(headers.len() / 2)
        + strs_bytes(headers) + bin_bytes(payload)
}

/// Reads the fields that open a MESSAGE at `pos`, and the position after them.
pub fn read_message_front(data: &[u8], pos: usize) -> (r: Option<
    (i32, i32, Vec<Vec<u8>>, Vec<u8>, usize),
>)
    requires
        pos <= data@.len(),
    ensures
        match message_front_read(from(data@, pos as int)) {
            Some((id, pkg_id, h, pl, k)) => r matches Some((a, b, x, y, q)) && a == id && b
                == pkg_id && bytes_of(x@) == h && y@ == pl && q == pos + k && q <= data@.len(),
            None => r is None,
        },
{
    let ghost s = from(data@, pos as int);
    let (id, pos1) = match int_at(data, pos) {
        Some(t) => t,
        None => return None,
    };
    proof {
        lemma_from_from(data@, pos as int, pos1 - pos);
    }
    let (pkg_id, pos2) = match int_at(data, pos1) {
        Some(t) => t,
        None => return None,
    };
    proof {
        lemma_from_from(data@, pos as int, pos2 - pos);
        lemma_from_from(data@, pos2 as int, 0);
    }
    assert(two_int_read(s) == Some((id, pkg_id, (pos2 - pos) as nat)));
    let (pairs, pos3) = match map_len_at(data, pos2) {
        Some(t) => t,
        None => return None,
    };
    proof {
        lemma_from_from(data@, pos2 as int, pos3 - pos2);
    }
    let (headers, pos4) = match read_strs(data, pos3, 2 * pairs as u64) {
        Some(t) => t,
        None => return None,
    };
    proof {
        lemma_from_from(data@, pos2 as int, pos4 - pos2);
        lemma_from_from(data@, pos as int, pos4 - pos);
    }
    assert(headers_read(from(s, (pos2 - pos) as int)) == Some(
        (bytes_of(headers@), (pos4 - pos2) as nat),
    ));
    let (payload, pos5) = match read_bin(data, pos4) {
        Some(t) => t,
        None => return None,
    };
    Some((id, pkg_id, headers, payload, pos5))
}

/// Those fields read back from their own bytes, whatever follows them.
pub proof fn lemma_message_front_round_trip(
    id: i32,
    pkg_id: i32,
    headers: Seq<Seq<u8>>,
    payload: Seq<u8>,
    rest: Seq<u8>,
)
    requires
        headers_fit(headers),
        payload.len() <= u32::MAX,
    ensures
        message_front_read(message_front_bytes(id, pkg_id, headers, payload) + rest) == Some(
            (id, pkg_id, headers, payload, message_front_bytes(id, pkg_id, headers, payload).len()),
        ),
{
    broadcast use lemma_from_from;

    let a = sint_bytes(id as int);
    let b = sint_bytes(pkg_id as int);
    let c = map_len_bytes(headers.len() / 2);
    let d = strs_bytes(headers);
    let e = bin_bytes(payload);
    let s = message_front_bytes(id, pkg_id, headers, payload) + rest;
    assert(s =~= a + (b + (c + (d + (e + rest)))));
    lemma_sint_round_trip(id, b + (c + (d + (e + rest))));
    assert(from(s, a.len() as int) =~= b + (c + (d + (e + rest))));
    lemma_sint_round_trip(pkg_id, c + (d + (e + rest)));
    assert(from(s, (a.len() + b.len()) as int) =~= c + (d + (e + rest)));
    assert(two_int_read(s) == Some((id, pkg_id, a.len() + b.len())));
    let t = c + (d + (e + rest));
    lemma_map_len_round_trip(headers.len() / 2, d + (e + rest));
    assert(from(t, c.len() as int) =~= d + (e + rest));
    assert(2 * (headers.len() / 2) == headers.len());
    lemma_strs_round_trip(headers, e + rest);
    assert(headers_read(t) == Some((headers, c.len() + d.len())));
    assert(from(s, (a.len() + b.len() + c.len() + d.len()) as int) =~= e + rest);
    lemma_bin_round_trip(payload, rest);
}

/// Each of `n` strs read one after another fits the format's 32-bit length.
pub proof fn lemma_strs_fit(s: Seq<u8>, n: nat)
    ensures
        strs_read(s, n) matches Some((h, k)) ==> h.len() == n && forall|i: int|
            0 <= i < h.len() ==> (#[trigger] h[i]).len() <= u32::MAX,
    decreases n,
{
    if n > 0 {
        lemma_strs_fit(s, (n - 1) as nat);
        lemma_strs_bounded(s, (n - 1) as nat);
        if let Some((h, k)) = strs_read(s, (n - 1) as nat) {
            lemma_reads_bounded(from(s, k as int));
        }
    }
}

/// The headers and payload of a MESSAGE that was read can be written again.
pub proof fn lemma_front_fits(s: Seq<u8>)
    ensures
        message_front_read(s) matches Some((id, pkg_id, h, pl, k)) ==> headers_fit(h)
            && pl.len() <= u32::MAX,
{
    if let Some((id, pkg_id, k1)) = two_int_read(s) {
        let t = from(s, k1 as int);
        lemma_reads_bounded(t);
        if let Some((n, j)) = map_len_read(t) {
            lemma_strs_fit(from(t, j as int), 2 * n);
        }
        if let Some((h, k2)) = headers_read(t) {
            lemma_reads_bounded(from(s, (k1 + k2) as int));
        }
    }
}

/// Reading from `k` on in `t` followed by `u` reads `t` from `k` on, then `u`.
pub proof fn lemma_from_append(t: Seq<u8>, u: Seq<u8>, k: int)
    requires
        0 <= k <= t.len(),
    ensures
        from(t + u, k) == from(t, k) + u,
{
    assert(from(t + u, k) =~= from(t, k) + u);
}

proof fn lemma_field_extend(t: Seq<u8>, u: Seq<u8>, n: nat)
    ensures
        field_read(t, n) is Some ==> field_read(t + u, n) == field_read(t, n),
{
    if t.len() >= 1 + n {
        assert((t + u).subrange(1, 1 + n as int) =~= t.subrange(1, 1 + n as int));
    }
}

/// A primitive that reads from `t` reads the same from `t` followed by anything.
pub proof fn lemma_prim_extend(t: Seq<u8>, u: Seq<u8>)
    ensures
        pfix_read(t) is Some ==> pfix_read(t + u) == pfix_read(t),
        int_read(t) is Some ==> int_read(t + u) == int_read(t),
        map_len_read(t) is Some ==> map_len_read(t + u) == map_len_read(t),
        str_read(t) is Some ==> str_read(t + u) == str_read(t),
        bin_read(t) is Some ==> bin_read(t + u) == bin_read(t),
        text_read(t) is Some ==> text_read(t + u) == text_read(t),
{
    reveal(any_int_read);
    reveal(str_len_read);
    reveal(bin_len_read);
    reveal(map_len_read);
    lemma_field_extend(t, u, 1);
    lemma_field_extend(t, u, 2);
    lemma_field_extend(t, u, 4);
    lemma_field_extend(t, u, 8);
    lemma_reads_bounded(t);
    if let Some((n, k)) = str_len_read(t) {
        if k + n <= t.len() {
            assert((t + u).subrange(k as int, (k + n) as int) =~= t.subrange(k as int, (k + n) as int));
        }
    }
    if let Some((n, k)) = bin_len_read(t) {
        if k + n <= t.len() {
            assert((t + u).subrange(k as int, (k + n) as int) =~= t.subrange(k as int, (k + n) as int));
        }
    }
}

/// Strs that read from `t` read the same from `t` followed by anything.
pub proof fn lemma_strs_extend(t: Seq<u8>, u: Seq<u8>, n: nat)
    ensures
        strs_read(t, n) is Some ==> strs_read(t + u, n) == strs_read(t, n),
    decreases n,
{
    if n > 0 {
        lemma_strs_extend(t, u, (n - 1) as nat);
        lemma_strs_bounded(t, (n - 1) as nat);
        if let Some((h, k)) = strs_read(t, (n - 1) as nat) {
            lemma_from_append(t, u, k as int);
            lemma_prim_extend(from(t, k as int), u);
        }
    }
}

/// The fields that open a MESSAGE, when they read from `t`, read the same from `t`
/// followed by anything, and take no more than `t`.
pub proof fn lemma_front_extend(t: Seq<u8>, u: Seq<u8>)
    ensures
        two_pfix_read(t) matches Some((a, b, k)) ==> k <= t.len() && two_pfix_read(t + u)
            == two_pfix_read(t),
        two_int_read(t) matches Some((a, b, k)) ==> k <= t.len() && two_int_read(t + u)
            == two_int_read(t),
        message_front_read(t) matches Some((a, b, h, pl, k)) ==> k <= t.len()
            && message_front_read(t + u) == message_front_read(t),
{
    lemma_prim_extend(t, u);
    lemma_reads_bounded(t);
    if let Some((a, k1)) = pfix_read(t) {
        lemma_from_append(t, u, k1 as int);
        lemma_prim_extend(from(t, k1 as int), u);
        lemma_reads_bounded(from(t, k1 as int));
    }
    if let Some((a, k1)) = int_read(t) {
        lemma_from_append(t, u, k1 as int);
        lemma_prim_extend(from(t, k1 as int), u);
        lemma_reads_bounded(from(t, k1 as int));
    }
    if let Some((id, pkg_id, k1)) = two_int_read(t) {
        assert(k1 <= t.len());
        let t1 = from(t, k1 as int);
        lemma_from_append(t, u, k1 as int);
        lemma_prim_extend(t1, u);
        lemma_reads_bounded(t1);
        if let Some((n, j)) = map_len_read(t1) {
            lemma_from_append(t1, u, j as int);
            lemma_strs_extend(from(t1, j as int), u, 2 * n);
            lemma_strs_bounded(from(t1, j as int), 2 * n);
        }
        if let Some((h, k2)) = headers_read(t1) {
            assert(k1 + k2 <= t.len());
            lemma_from_append(t, u, (k1 + k2) as int);
            lemma_prim_extend(from(t, (k1 + k2) as int), u);
            lemma_reads_bounded(from(t, (k1 + k2) as int));
        }
    }
}

/// A one-byte field below 0x80, written in the shortest form, is a positive fixint.
pub proof fn lemma_small_sint(v: u8, rest: Seq<u8>)
    requires
        v < 0x80,
    ensures
        sint_bytes(v as int) == seq![v],
        pfix_read(sint_bytes(v as int) + rest) == Some((v, 1nat)),
{
    assert(sint_bytes(v as int) =~= seq![v]);
}

} // verus!
