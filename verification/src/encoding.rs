use vstd::prelude::*;
use crate::error::Error;
use crate::input::Input;
use crate::output::Output;

verus! {

/// The base-128 bytes of `v`, least significant group first, when `k` bytes of
/// the number have been written already. Every byte but the last carries a
/// continuation bit; a ninth byte carries eight bits and ends the number.
pub open spec fn unsigned_var_bytes_from(v: u64, k: nat) -> Seq<u8>
    decreases 8 - k,
{
    if k >= 8 || v < 0x80 {
        seq![(v & 0xff) as u8]
    } else {
        seq![((v & 0x7f) | 0x80) as u8] + unsigned_var_bytes_from(v >> 7, k + 1)
    }
}

/// The variable-length bytes of an unsigned number.
pub open spec fn unsigned_var_bytes(v: u64) -> Seq<u8> {
    unsigned_var_bytes_from(v, 0)
}

/// Reads a base-128 number at the head of `s`, of which `k` bytes have been
/// read already: the number and how many bytes it took, or `None` where `s`
/// ends too early.
pub open spec fn parse_unsigned_var_from(s: Seq<u8>, k: nat) -> Option<(u64, nat)>
    decreases 8 - k,
{
    if s.len() == 0 {
        None
    } else if k >= 8 || s[0] < 0x80 {
        Some((s[0] as u64, 1nat))
    } else {
        match parse_unsigned_var_from(s.skip(1), k + 1) {
            Some((rest, n)) => Some((((s[0] & 0x7f) as u64) | (rest << 7), n + 1)),
            None => None,
        }
    }
}

/// Reads a variable-length unsigned number at the head of `s`.
pub open spec fn parse_unsigned_var(s: Seq<u8>) -> Option<(u64, nat)> {
    parse_unsigned_var_from(s, 0)
}

/// The unsigned number that stands for a signed one: small magnitudes of
/// either sign become small numbers.
pub open spec fn zigzag(v: i64) -> u64 {
    if v >= 0 {
        (2 * v) as u64
    } else {
        (-2 * v - 1) as u64
    }
}

/// The signed number that an unsigned one stands for.
pub open spec fn unzigzag(u: u64) -> i64 {
    if u % 2 == 0 {
        (u / 2) as i64
    } else {
        (-(u / 2) - 1) as i64
    }
}

/// The variable-length bytes of a signed number.
pub open spec fn signed_var_bytes(v: i64) -> Seq<u8> {
    unsigned_var_bytes(zigzag(v))
}

/// Reads a variable-length signed number at the head of `s`.
pub open spec fn parse_signed_var(s: Seq<u8>) -> Option<(i64, nat)> {
    match parse_unsigned_var(s) {
        Some((u, n)) => Some((unzigzag(u), n)),
        None => None,
    }
}

/// A number of which `k` groups are written has at most `64 - 7k` bits left.
spec fn fits_after(v: u64, k: nat) -> bool {
    k <= 8 && (k > 0 ==> v >> ((64 - 7 * k) as u64) == 0)
}

proof fn lemma_unsigned_var_round_trip_from(v: u64, k: nat, tail: Seq<u8>)
    requires
        fits_after(v, k),
    ensures
        parse_unsigned_var_from(unsigned_var_bytes_from(v, k) + tail, k) == Some(
            (v, unsigned_var_bytes_from(v, k).len()),
        ),
    decreases 8 - k,
{
    let bytes = unsigned_var_bytes_from(v, k);
    let s = bytes + tail;
    if k >= 8 {
        assert(v >> 8 == 0);
        assert(((v & 0xff) as u8) as u64 == v) by (bit_vector)
            requires
                v >> 8 == 0,
        ;
        assert(s[0] == bytes[0]);
    } else if v < 0x80 {
        assert(((v & 0xff) as u8) as u64 == v && ((v & 0xff) as u8) < 0x80) by (bit_vector)
            requires
                v < 0x80,
        ;
        assert(s[0] == bytes[0]);
    } else {
        let head = ((v & 0x7f) | 0x80) as u8;
        let rest_bytes = unsigned_var_bytes_from(v >> 7, k + 1);
        assert(s[0] == head);
        assert(s.skip(1) =~= rest_bytes + tail);
        assert(head >= 0x80 && ((head & 0x7f) as u64) | ((v >> 7) << 7) == v) by (bit_vector)
            requires
                head == ((v & 0x7f) | 0x80) as u8,
        ;
        let sh = (64 - 7 * k) as u64;
        let sh1 = (64 - 7 * (k + 1)) as u64;
        assert((v >> 7) >> sh1 == 0) by (bit_vector)
            requires
                sh1 == 57 || (sh1 + 7 == sh && sh1 <= 50 && v >> sh == 0),
        ;
        lemma_unsigned_var_round_trip_from(v >> 7, k + 1, tail);
    }
}

/// Reading a written unsigned number gives it back, whatever follows it.
pub proof fn lemma_unsigned_var_round_trip(v: u64, tail: Seq<u8>)
    ensures
        parse_unsigned_var(unsigned_var_bytes(v) + tail) == Some(
            (v, unsigned_var_bytes(v).len()),
        ),
{
    lemma_unsigned_var_round_trip_from(v, 0, tail);
}

/// Reading a written signed number gives it back, whatever follows it.
pub proof fn lemma_signed_var_round_trip(v: i64, tail: Seq<u8>)
    ensures
        parse_signed_var(signed_var_bytes(v) + tail) == Some((v, signed_var_bytes(v).len())),
{
    lemma_unsigned_var_round_trip(zigzag(v), tail);
}

proof fn lemma_parse_unsigned_var_len(s: Seq<u8>, k: nat)
    ensures
        parse_unsigned_var_from(s, k) matches Some((_, n)) ==> 1 <= n <= s.len(),
    decreases 8 - k,
{
    if s.len() == 0 {
    } else if k >= 8 || s[0] < 0x80 {
    } else {
        lemma_parse_unsigned_var_len(s.skip(1), k + 1);
    }
}

/// Writes an unsigned number in its variable-length form.
pub fn encode_unsigned_var_long(output: &mut Output, value: u64) -> (r: Result<(), Error>)
    ensures
        r is Ok,
        final(output)@ == old(output)@ + unsigned_var_bytes(value),
{
    let mut v: u64 = value;
    let mut k: u32 = 0;
    while k < 8 && v >= 0x80
        invariant
            k <= 8,
            old(output)@ + unsigned_var_bytes(value) == output@ + unsigned_var_bytes_from(
                v,
                k as nat,
            ),
        decreases 8 - k,
    {
        let ghost before = output@;
        let _ = output.write_byte(((v & 0x7f) | 0x80) as u8);
        assert(before + unsigned_var_bytes_from(v, k as nat) =~= output@
            + unsigned_var_bytes_from(v >> 7, (k + 1) as nat));
        v = v >> 7;
        k = k + 1;
    }
    let ghost before = output@;
    let _ = output.write_byte((v & 0xff) as u8);
    assert(before + unsigned_var_bytes_from(v, k as nat) =~= output@);
    Ok(())
}

fn decode_unsigned_var_from(input: &mut Input, k: u32) -> (r: Result<u64, Error>)
    requires
        old(input).wf(),
        k <= 8,
    ensures
        final(input).wf(),
        match parse_unsigned_var_from(old(input).remaining(), k as nat) {
            Some((v, n)) => r == Ok::<u64, Error>(v) && final(input).remaining() == old(
                input,
            ).remaining().skip(n as int),
            None => r is Err,
        },
    decreases 8 - k,
{
    let ghost s = input.remaining();
    let b = match input.read_byte() {
        Ok(b) => b,
        Err(e) => {
            return Err(e);
        },
    };
    if k >= 8 || b < 0x80 {
        return Ok(b as u64);
    }
    match decode_unsigned_var_from(input, k + 1) {
        Ok(rest) => {
            proof {
                let n = parse_unsigned_var_from(s.skip(1), (k + 1) as nat)->Some_0.1;
                lemma_parse_unsigned_var_len(s.skip(1), (k + 1) as nat);
                assert(s.skip(1).skip(n as int) =~= s.skip(n as int + 1));
            }
            Ok(((b & 0x7f) as u64) | (rest << 7))
        },
        Err(e) => Err(e),
    }
}

/// Reads an unsigned number in its variable-length form; fails where the input
/// ends inside the number.
pub fn decode_unsigned_var_long(input: &mut Input) -> (r: Result<u64, Error>)
    requires
        old(input).wf(),
    ensures
        final(input).wf(),
        match parse_unsigned_var(old(input).remaining()) {
            Some((v, n)) => r == Ok::<u64, Error>(v) && final(input).remaining() == old(
                input,
            ).remaining().skip(n as int),
            None => r is Err,
        },
{
    decode_unsigned_var_from(input, 0)
}

/// Writes a signed number in its variable-length form.
pub fn encode_signed_var_long(output: &mut Output, value: i64) -> (r: Result<(), Error>)
    ensures
        r is Ok,
        final(output)@ == old(output)@ + signed_var_bytes(value),
{
    let u: u64 = if value >= 0 {
        (value as u64) * 2
    } else {
        ((-(value + 1)) as u64) * 2 + 1
    };
    encode_unsigned_var_long(output, u)
}

/// Reads a signed number in its variable-length form; fails where the input
/// ends inside the number.
pub fn decode_signed_var_long(input: &mut Input) -> (r: Result<i64, Error>)
    requires
        old(input).wf(),
    ensures
        final(input).wf(),
        match parse_signed_var(old(input).remaining()) {
            Some((v, n)) => r == Ok::<i64, Error>(v) && final(input).remaining() == old(
                input,
            ).remaining().skip(n as int),
            None => r is Err,
        },
{
    match decode_unsigned_var_long(input) {
        Ok(u) => {
            if u % 2 == 0 {
                Ok((u / 2) as i64)
            } else {
                Ok(-((u / 2) as i64) - 1)
            }
        },
        Err(e) => Err(e),
    }
}

/// The largest count that a bin can hold. The byte format stores a count as the
/// double one above it, and every whole number below two to the power 53 is a
/// double.
pub const MAX_COUNT: u64 = 0x1f_ffff_ffff_fffe;

/// The position of the highest set bit of `n`, and zero for zero.
pub open spec fn top_bit(n: u64) -> u64
    decreases n,
{
    if n < 2 {
        0
    } else {
        (1 + top_bit(n / 2)) as u64
    }
}

/// The double one above the whole number `c`, as its bit pattern less the bit
/// pattern of the double one: the exponent above the fraction.
pub open spec fn count_raw(c: u64) -> u64 {
    let n = (c + 1) as u64;
    let e = top_bit(n);
    (e << 52) | ((n ^ (1u64 << e)) << ((52 - e) as u64))
}

/// The whole number one below the double that `raw` stands for, or `None`
/// where that double is no whole number from one to two to the power 53.
pub open spec fn raw_count(raw: u64) -> Option<u64> {
    let e = raw >> 52;
    let frac = raw & 0xf_ffff_ffff_ffff;
    if e > 52 {
        None
    } else if frac & (((1u64 << ((52 - e) as u64)) - 1) as u64) != 0 {
        None
    } else {
        Some((((1u64 << e) | (frac >> ((52 - e) as u64))) - 1) as u64)
    }
}

/// The bits of a double in the order in which they are written: turned left by
/// six, so that the exponent's low bits and the fraction's high bits come first.
pub open spec fn rotate_left_6(raw: u64) -> u64 {
    (raw << 6) | (raw >> 58)
}

/// The inverse of `rotate_left_6`.
pub open spec fn rotate_right_6(bits: u64) -> u64 {
    (bits >> 6) | (bits << 58)
}

/// The bytes of `bits`, most significant group first, when `k` bytes have been
/// written already. Trailing zero bits are not written; every byte but the last
/// carries a continuation bit; a ninth byte carries eight bits.
pub open spec fn var_bits_bytes_from(bits: u64, k: nat) -> Seq<u8>
    decreases 8 - k,
{
    if k >= 8 {
        seq![(bits >> 56) as u8]
    } else if bits << 7 == 0 {
        seq![(bits >> 57) as u8]
    } else {
        seq![((bits >> 57) | 0x80) as u8] + var_bits_bytes_from(bits << 7, k + 1)
    }
}

/// Reads bits written most significant group first at the head of `s`, of
/// which `k` bytes have been read already.
pub open spec fn parse_var_bits_from(s: Seq<u8>, k: nat) -> Option<(u64, nat)>
    decreases 8 - k,
{
    if s.len() == 0 {
        None
    } else if k >= 8 {
        Some(((s[0] as u64) << 56, 1nat))
    } else if s[0] < 0x80 {
        Some(((s[0] as u64) << 57, 1nat))
    } else {
        match parse_var_bits_from(s.skip(1), k + 1) {
            Some((rest, n)) => Some(((((s[0] & 0x7f) as u64) << 57) | (rest >> 7), n + 1)),
            None => None,
        }
    }
}

/// The variable-length bytes of a double given as `raw`: the bit pattern of
/// the double one above it, less the bit pattern of the double one.
pub open spec fn var_double_bytes(raw: u64) -> Seq<u8> {
    var_bits_bytes_from(rotate_left_6(raw), 0)
}

/// Reads a variable-length double at the head of `s`, in the same raw form.
pub open spec fn parse_var_double(s: Seq<u8>) -> Option<(u64, nat)> {
    match parse_var_bits_from(s, 0) {
        Some((bits, n)) => Some((rotate_right_6(bits), n)),
        None => None,
    }
}

spec fn low_groups_clear(bits: u64, k: nat) -> bool {
    k <= 8 && (k > 0 ==> bits << ((64 - 7 * k) as u64) == 0)
}

proof fn lemma_var_bits_round_trip_from(bits: u64, k: nat, tail: Seq<u8>)
    requires
        low_groups_clear(bits, k),
    ensures
        parse_var_bits_from(var_bits_bytes_from(bits, k) + tail, k) == Some(
            (bits, var_bits_bytes_from(bits, k).len()),
        ),
    decreases 8 - k,
{
    let bytes = var_bits_bytes_from(bits, k);
    let s = bytes + tail;
    assert(s[0] == bytes[0]);
    if k >= 8 {
        assert((((bits >> 56) as u8) as u64) << 56 == bits) by (bit_vector)
            requires
                bits << 8 == 0,
        ;
    } else if bits << 7 == 0 {
        let head = (bits >> 57) as u8;
        assert(head < 0x80 && (head as u64) << 57 == bits) by (bit_vector)
            requires
                head == (bits >> 57) as u8,
                bits << 7 == 0,
        ;
    } else {
        let head = ((bits >> 57) | 0x80) as u8;
        assert(s.skip(1) =~= var_bits_bytes_from(bits << 7, k + 1) + tail);
        assert(head >= 0x80 && (((head & 0x7f) as u64) << 57) | ((bits << 7) >> 7) == bits)
            by (bit_vector)
            requires
                head == ((bits >> 57) | 0x80) as u8,
        ;
        let sh = (64 - 7 * k) as u64;
        let sh1 = (64 - 7 * (k + 1)) as u64;
        assert((bits << 7) << sh1 == 0) by (bit_vector)
            requires
                sh1 == 57 || (sh1 + 7 == sh && sh1 <= 50 && bits << sh == 0),
        ;
        lemma_var_bits_round_trip_from(bits << 7, k + 1, tail);
    }
}

proof fn lemma_parse_var_bits_len(s: Seq<u8>, k: nat)
    ensures
        parse_var_bits_from(s, k) matches Some((_, n)) ==> 1 <= n <= s.len(),
    decreases 8 - k,
{
    if s.len() == 0 || k >= 8 || s[0] < 0x80 {
    } else {
        lemma_parse_var_bits_len(s.skip(1), k + 1);
    }
}

/// Reading a written double gives it back, whatever follows it.
pub proof fn lemma_var_double_round_trip(raw: u64, tail: Seq<u8>)
    ensures
        parse_var_double(var_double_bytes(raw) + tail) == Some(
            (raw, var_double_bytes(raw).len()),
        ),
{
    lemma_var_bits_round_trip_from(rotate_left_6(raw), 0, tail);
    assert(rotate_right_6(rotate_left_6(raw)) == raw) by (bit_vector);
}

proof fn lemma_top_bit(n: u64)
    requires
        n >= 1,
    ensures
        top_bit(n) <= 63,
        n >> top_bit(n) == 1,
    decreases n,
{
    if n < 2 {
        assert(n >> 0 == 1) by (bit_vector)
            requires
                n == 1,
        ;
    } else {
        lemma_top_bit(n / 2);
        let e = top_bit(n / 2);
        assert(n >> ((1 + e) as u64) == 1) by (bit_vector)
            requires
                (n / 2) >> e == 1,
                e <= 63,
        ;
        assert(e < 63) by (bit_vector)
            requires
                (n / 2) >> e == 1,
                e <= 63,
        ;
    }
}

/// The count that was stored is the count that is read.
pub proof fn lemma_count_round_trip(c: u64)
    requires
        c <= MAX_COUNT,
    ensures
        raw_count(count_raw(c)) == Some(c),
{
    let n = (c + 1) as u64;
    lemma_top_bit(n);
    let e = top_bit(n);
    assert(e <= 52) by (bit_vector)
        requires
            n >> e == 1,
            e <= 63,
            n <= 0x1f_ffff_ffff_ffff,
    ;
    let raw = (e << 52) | ((n ^ (1u64 << e)) << ((52 - e) as u64));
    let sh = (52 - e) as u64;
    assert(raw >> 52 == e && (raw & 0xf_ffff_ffff_ffff) == (n ^ (1u64 << e)) << sh) by (bit_vector)
        requires
            raw == (e << 52) | ((n ^ (1u64 << e)) << sh),
            n >> e == 1,
            e <= 52,
            sh == 52 - e,
    ;
    let frac = (n ^ (1u64 << e)) << sh;
    assert(frac & (((1u64 << sh) - 1) as u64) == 0 && ((1u64 << e) | (frac >> sh)) == n)
        by (bit_vector)
        requires
            frac == (n ^ (1u64 << e)) << sh,
            n >> e == 1,
            e <= 52,
            sh == 52 - e,
    ;
}

/// The raw double of a whole count.
pub fn count_to_raw(c: u64) -> (r: u64)
    requires
        c <= MAX_COUNT,
    ensures
        r == count_raw(c),
{
    let n: u64 = c + 1;
    let mut m: u64 = n;
    let mut e: u64 = 0;
    proof {
        lemma_top_bit(n);
    }
    while m >= 2
        invariant
            1 <= m <= n,
            e <= 63,
            top_bit(n) == e + top_bit(m),
            e + top_bit(m) <= 63,
        decreases m,
    {
        proof {
            lemma_top_bit(m / 2);
        }
        m = m / 2;
        e = e + 1;
    }
    proof {
        assert(e <= 52) by (bit_vector)
            requires
                n >> e == 1,
                e <= 63,
                n <= 0x1f_ffff_ffff_ffff,
        ;
    }
    (e << 52) | ((n ^ (1u64 << e)) << (52 - e))
}

/// The whole count of a raw double, where it has one.
pub fn raw_to_count(raw: u64) -> (r: Option<u64>)
    ensures
        r == raw_count(raw),
        r matches Some(c) ==> c <= MAX_COUNT,
{
    let e: u64 = raw >> 52;
    let frac: u64 = raw & 0xf_ffff_ffff_ffff;
    if e > 52 {
        return None;
    }
    let sh: u64 = 52 - e;
    assert((1u64 << sh) >= 1 && (1u64 << e) >= 1 && ((1u64 << e) | (frac >> sh))
        <= 0x1f_ffff_ffff_ffff && ((1u64 << e) | (frac >> sh)) >= 1) by (bit_vector)
        requires
            e <= 52,
            sh == 52 - e,
            frac == raw & 0xf_ffff_ffff_ffff,
    ;
    if frac & ((1u64 << sh) - 1) != 0 {
        return None;
    }
    Some(((1u64 << e) | (frac >> sh)) - 1)
}

/// Writes a double, given in raw form, in its variable-length form.
pub fn encode_var_double(output: &mut Output, raw: u64) -> (r: Result<(), Error>)
    ensures
        r is Ok,
        final(output)@ == old(output)@ + var_double_bytes(raw),
{
    let mut bits: u64 = (raw << 6) | (raw >> 58);
    let mut k: u32 = 0;
    while k < 8
        invariant
            k <= 8,
            old(output)@ + var_double_bytes(raw) == output@ + var_bits_bytes_from(bits, k as nat),
        decreases 8 - k,
    {
        let next: u8 = (bits >> 57) as u8;
        let rest: u64 = bits << 7;
        let ghost before = output@;
        if rest == 0 {
            let _ = output.write_byte(next);
            assert(before + var_bits_bytes_from(bits, k as nat) =~= output@);
            return Ok(());
        }
        let _ = output.write_byte(next | 0x80);
        assert((next | 0x80) == ((bits >> 57) | 0x80) as u8) by (bit_vector)
            requires
                next == (bits >> 57) as u8,
        ;
        assert(before + var_bits_bytes_from(bits, k as nat) =~= output@ + var_bits_bytes_from(
            rest,
            (k + 1) as nat,
        ));
        bits = rest;
        k = k + 1;
    }
    let ghost before = output@;
    let _ = output.write_byte((bits >> 56) as u8);
    assert(before + var_bits_bytes_from(bits, k as nat) =~= output@);
    Ok(())
}

fn decode_var_bits_from(input: &mut Input, k: u32) -> (r: Result<u64, Error>)
    requires
        old(input).wf(),
        k <= 8,
    ensures
        final(input).wf(),
        match parse_var_bits_from(old(input).remaining(), k as nat) {
            Some((v, n)) => r == Ok::<u64, Error>(v) && final(input).remaining() == old(
                input,
            ).remaining().skip(n as int),
            None => r is Err,
        },
    decreases 8 - k,
{
    let ghost s = input.remaining();
    let b = match input.read_byte() {
        Ok(b) => b,
        Err(e) => {
            return Err(e);
        },
    };
    if k >= 8 {
        return Ok((b as u64) << 56);
    }
    if b < 0x80 {
        return Ok((b as u64) << 57);
    }
    match decode_var_bits_from(input, k + 1) {
        Ok(rest) => {
            proof {
                let n = parse_var_bits_from(s.skip(1), (k + 1) as nat)->Some_0.1;
                lemma_parse_var_bits_len(s.skip(1), (k + 1) as nat);
                assert(s.skip(1).skip(n as int) =~= s.skip(n as int + 1));
            }
            Ok((((b & 0x7f) as u64) << 57) | (rest >> 7))
        },
        Err(e) => Err(e),
    }
}

/// Reads a double in its variable-length form and gives it in raw form; fails
/// where the input ends inside it.
pub fn decode_var_double(input: &mut Input) -> (r: Result<u64, Error>)
    requires
        old(input).wf(),
    ensures
        final(input).wf(),
        match parse_var_double(old(input).remaining()) {
            Some((v, n)) => r == Ok::<u64, Error>(v) && final(input).remaining() == old(
                input,
            ).remaining().skip(n as int),
            None => r is Err,
        },
{
    match decode_var_bits_from(input, 0) {
        Ok(bits) => Ok((bits >> 6) | (bits << 58)),
        Err(e) => Err(e),
    }
}

/// A parsed variable-length number or double took at least one byte and no
/// more than there were.
pub proof fn lemma_parse_len(s: Seq<u8>)
    ensures
        parse_unsigned_var(s) matches Some((_, n)) ==> 1 <= n <= s.len(),
        parse_signed_var(s) matches Some((_, n)) ==> 1 <= n <= s.len(),
        parse_var_double(s) matches Some((_, n)) ==> 1 <= n <= s.len(),
{
    lemma_parse_unsigned_var_len(s, 0);
    lemma_parse_var_bits_len(s, 0);
}

} // verus!
