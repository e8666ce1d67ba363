//! The fixed-order binary encoding of stored rows and events.
use vstd::arithmetic::power2::*;
use vstd::prelude::*;
use vstd::string::*;
use vstd::utf8::*;

use crate::binary64::F64;

verus! {

/// The low `width` bytes of `x`, lowest first.
pub open spec fn le_bytes(x: nat, width: nat) -> Seq<u8>
    decreases width,
{
    if width == 0 {
        Seq::empty()
    } else {
        seq![(x % 256) as u8] + le_bytes(x / 256, (width - 1) as nat)
    }
}

/// The number that the bytes `s` stand for, lowest first.
pub open spec fn le_value(s: Seq<u8>) -> nat
    decreases s.len(),
{
    if s.len() == 0 {
        0
    } else {
        s[0] as nat + 256 * le_value(s.skip(1))
    }
}

/// What is left of `x` once its `i` lowest bytes are dropped.
pub open spec fn le_rest(x: nat, i: nat) -> nat
    decreases i,
{
    if i == 0 {
        x
    } else {
        le_rest(x / 256, (i - 1) as nat)
    }
}

pub proof fn lemma_le_rest_step(x: nat, i: nat)
    ensures
        le_rest(x, i + 1) == le_rest(x, i) / 256,
    decreases i,
{
    reveal_with_fuel(le_rest, 2);
    if i > 0 {
        lemma_le_rest_step(x / 256, (i - 1) as nat);
    }
}

/// Byte `i` of `x`.
pub proof fn lemma_le_bytes_at(x: nat, width: nat, i: nat)
    requires
        i < width,
    ensures
        le_bytes(x, width).len() == width,
        le_bytes(x, width)[i as int] == (le_rest(x, i) % 256) as u8,
        le_rest(x, i + 1) == le_rest(x, i) / 256,
    decreases width,
{
    lemma_le_bytes_len(x, width);
    lemma_le_rest_step(x, i);
    if i > 0 {
        lemma_le_bytes_at(x / 256, (width - 1) as nat, (i - 1) as nat);
    }
}

pub proof fn lemma_le_bytes_len(x: nat, width: nat)
    ensures
        le_bytes(x, width).len() == width,
    decreases width,
{
    if width > 0 {
        lemma_le_bytes_len(x / 256, (width - 1) as nat);
    }
}

proof fn lemma_le_value_bytes(x: nat, width: nat)
    requires
        x < pow2(8 * width),
    ensures
        le_value(le_bytes(x, width)) == x,
    decreases width,
{
    if width == 0 {
        lemma2_to64();
    } else {
        let w = (width - 1) as nat;
        lemma_pow2_adds(8, 8 * w);
        lemma2_to64();
        assert(x / 256 < pow2(8 * w));
        lemma_le_value_bytes(x / 256, w);
        assert(le_bytes(x, width).skip(1) =~= le_bytes(x / 256, w));
    }
}

proof fn lemma_le_value_bound(s: Seq<u8>)
    ensures
        le_value(s) < pow2(8 * s.len()),
    decreases s.len(),
{
    lemma2_to64();
    if s.len() > 0 {
        lemma_le_value_bound(s.skip(1));
        lemma_pow2_adds(8, 8 * (s.len() - 1) as nat);
        assert(8 * s.len() == 8 + 8 * (s.len() - 1));
    }
}

/// The bytes of a truth value.
pub open spec fn bool_bytes(b: bool) -> Seq<u8> {
    seq![
        if b {
            1u8
        } else {
            0u8
        },
    ]
}

/// The bytes of a number, by its bit pattern.
pub open spec fn f64_bytes(x: F64) -> Seq<u8> {
    le_bytes(x.bits as nat, 8)
}

/// The bytes of the numbers in `v`, one after the other.
pub open spec fn f64s_bytes(v: Seq<F64>) -> Seq<u8>
    decreases v.len(),
{
    if v.len() == 0 {
        Seq::empty()
    } else {
        f64s_bytes(v.drop_last()) + f64_bytes(v.last())
    }
}

/// The bytes of a list of numbers: its length, then the numbers.
pub open spec fn vec_f64_bytes(v: Seq<F64>) -> Seq<u8> {
    le_bytes(v.len(), 8) + f64s_bytes(v)
}

/// The bytes of a text: its length in bytes, then its UTF-8 form.
pub open spec fn str_bytes(s: Seq<char>) -> Seq<u8> {
    le_bytes(encode_utf8(s).len(), 8) + encode_utf8(s)
}

/// The bytes of an optional number: whether it is there, then the number if it is.
pub open spec fn opt_f64_bytes(x: Option<F64>) -> Seq<u8> {
    match x {
        Some(v) => bool_bytes(true) + f64_bytes(v),
        None => bool_bytes(false),
    }
}

/// The bytes of an optional truth value: whether it is there, then the value if it is.
pub open spec fn opt_bool_bytes(x: Option<bool>) -> Seq<u8> {
    match x {
        Some(v) => bool_bytes(true) + bool_bytes(v),
        None => bool_bytes(false),
    }
}

pub(crate) fn push_u64(out: &mut Vec<u8>, x: u64)
    ensures
        final(out)@ == old(out)@ + le_bytes(x as nat, 8),
{
    let mut rest = x;
    let mut i: usize = 0;
    while i < 8
        invariant
            i <= 8,
            rest == le_rest(x as nat, i as nat),
            out@.len() == old(out)@.len() + i,
            out@.take(old(out)@.len() as int) == old(out)@,
            forall|j: int|
                0 <= j < i ==> out@[old(out)@.len() + j] == #[trigger] le_bytes(x as nat, 8)[j],
        decreases 8 - i,
    {
        proof {
            lemma_le_bytes_at(x as nat, 8, i as nat);
        }
        let ghost before = out@;
        out.push((rest % 256) as u8);
        assert(out@.take(old(out)@.len() as int) =~= before.take(old(out)@.len() as int));
        rest = rest / 256;
        i = i + 1;
    }
    proof {
        lemma_le_bytes_len(x as nat, 8);
        assert forall|j: int| 0 <= j < out@.len() implies out@[j] == (old(out)@ + le_bytes(
            x as nat,
            8,
        ))[j] by {
            if j < old(out)@.len() {
                assert(out@.take(old(out)@.len() as int)[j] == out@[j]);
            } else {
                assert(le_bytes(x as nat, 8)[j - old(out)@.len()] == out@[j]);
            }
        }
        assert(out@ =~= old(out)@ + le_bytes(x as nat, 8));
    }
}

pub(crate) fn push_u32(out: &mut Vec<u8>, x: u32)
    ensures
        final(out)@ == old(out)@ + le_bytes(x as nat, 4),
{
    out.push((x % 256) as u8);
    out.push((x / 256 % 256) as u8);
    out.push((x / 256 / 256 % 256) as u8);
    out.push((x / 256 / 256 / 256) as u8);
    proof {
        reveal_with_fuel(le_bytes, 5);
        assert(out@ =~= old(out)@ + le_bytes(x as nat, 4));
    }
}

pub(crate) fn push_f64(out: &mut Vec<u8>, x: F64)
    ensures
        final(out)@ == old(out)@ + f64_bytes(x),
{
    push_u64(out, x.bits);
}

pub(crate) fn push_bool(out: &mut Vec<u8>, b: bool)
    ensures
        final(out)@ == old(out)@ + bool_bytes(b),
{
    out.push(
        if b {
            1
        } else {
            0
        },
    );
    assert(out@ =~= old(out)@ + bool_bytes(b));
}

pub(crate) fn push_str(out: &mut Vec<u8>, s: &str)
    ensures
        final(out)@ == old(out)@ + str_bytes(s@),
{
    let bytes = s.as_bytes();
    push_u64(out, bytes.len() as u64);
    out.extend_from_slice(bytes);
    assert(out@ =~= old(out)@ + str_bytes(s@));
}

pub(crate) fn push_vec_f64(out: &mut Vec<u8>, v: &[F64])
    ensures
        final(out)@ == old(out)@ + vec_f64_bytes(v@),
{
    push_u64(out, v.len() as u64);
    let ghost start = out@;
    let mut i: usize = 0;
    while i < v.len()
        invariant
            i <= v@.len(),
            out@ == start + f64s_bytes(v@.take(i as int)),
        decreases v@.len() - i,
    {
        push_f64(out, v[i]);
        proof {
            let t = v@.take(i + 1);
            assert(t.drop_last() =~= v@.take(i as int));
            assert(t.last() == v@[i as int]);
            assert(out@ =~= start + f64s_bytes(t));
        }
        i = i + 1;
    }
    assert(v@.take(v@.len() as int) =~= v@);
    assert(out@ =~= old(out)@ + vec_f64_bytes(v@));
}

pub(crate) fn push_opt_f64(out: &mut Vec<u8>, x: Option<F64>)
    ensures
        final(out)@ == old(out)@ + opt_f64_bytes(x),
{
    match x {
        Some(v) => {
            push_bool(out, true);
            push_f64(out, v);
        },
        None => push_bool(out, false),
    }
    assert(out@ =~= old(out)@ + opt_f64_bytes(x));
}

pub(crate) fn push_opt_bool(out: &mut Vec<u8>, x: Option<bool>)
    ensures
        final(out)@ == old(out)@ + opt_bool_bytes(x),
{
    match x {
        Some(v) => {
            push_bool(out, true);
            push_bool(out, v);
        },
        None => push_bool(out, false),
    }
    assert(out@ =~= old(out)@ + opt_bool_bytes(x));
}

/// Reads a number of eight bytes: it and what follows, if there are eight bytes.
#[verifier::opaque]
pub open spec fn read_u64(d: Seq<u8>) -> Option<(u64, Seq<u8>)> {
    if d.len() < 8 {
        None
    } else {
        Some((le_value(d.take(8)) as u64, d.skip(8)))
    }
}

/// Reads a number of four bytes.
#[verifier::opaque]
pub open spec fn read_u32(d: Seq<u8>) -> Option<(u32, Seq<u8>)> {
    if d.len() < 4 {
        None
    } else {
        Some((le_value(d.take(4)) as u32, d.skip(4)))
    }
}

/// Reads a number by its bit pattern.
#[verifier::opaque]
pub open spec fn read_f64(d: Seq<u8>) -> Option<(F64, Seq<u8>)> {
    match read_u64(d) {
        Some((bits, rest)) => Some((F64 { bits }, rest)),
        None => None,
    }
}

/// Reads a truth value: any byte but zero is true.
#[verifier::opaque]
pub open spec fn read_bool(d: Seq<u8>) -> Option<(bool, Seq<u8>)> {
    if d.len() == 0 {
        None
    } else {
        Some((d[0] != 0, d.skip(1)))
    }
}

/// Reads a text: its length in bytes, then that many bytes of valid UTF-8.
#[verifier::opaque]
pub open spec fn read_str(d: Seq<u8>) -> Option<(Seq<char>, Seq<u8>)> {
    match read_u64(d) {
        Some((n, rest)) => if n <= rest.len() && valid_utf8(rest.take(n as int)) {
            Some((decode_utf8(rest.take(n as int)), rest.skip(n as int)))
        } else {
            None
        },
        None => None,
    }
}

/// The `n` numbers at the start of `d`.
pub open spec fn f64s_of(d: Seq<u8>, n: nat) -> Seq<F64> {
    Seq::new(n, |i: int| F64 { bits: le_value(d.subrange(8 * i, 8 * i + 8)) as u64 })
}

/// Reads a list of numbers: its length, then that many numbers.
#[verifier::opaque]
pub open spec fn read_vec_f64(d: Seq<u8>) -> Option<(Seq<F64>, Seq<u8>)> {
    match read_u64(d) {
        Some((n, rest)) => if 8 * n <= rest.len() {
            Some((f64s_of(rest, n as nat), rest.skip(8 * n)))
        } else {
            None
        },
        None => None,
    }
}

/// Reads an optional number.
#[verifier::opaque]
pub open spec fn read_opt_f64(d: Seq<u8>) -> Option<(Option<F64>, Seq<u8>)> {
    match read_bool(d) {
        Some((true, rest)) => match read_f64(rest) {
            Some((x, rest)) => Some((Some(x), rest)),
            None => None,
        },
        Some((false, rest)) => Some((None, rest)),
        None => None,
    }
}

/// Reads an optional truth value.
#[verifier::opaque]
pub open spec fn read_opt_bool(d: Seq<u8>) -> Option<(Option<bool>, Seq<u8>)> {
    match read_bool(d) {
        Some((true, rest)) => match read_bool(rest) {
            Some((x, rest)) => Some((Some(x), rest)),
            None => None,
        },
        Some((false, rest)) => Some((None, rest)),
        None => None,
    }
}

pub(crate) fn take_u64(data: &mut &[u8]) -> (r: Option<u64>)
    ensures
        match read_u64(old(data)@) {
            Some((x, rest)) => r == Some(x) && final(data)@ == rest,
            None => r is None,
        },
{
    proof {
        reveal(read_u64);
    }
    if data.len() < 8 {
        return None;
    }
    let (head, tail) = data.split_at(8);
    *data = tail;
    let mut x: u64 = 0;
    let mut i: usize = 8;
    while i > 0
        invariant
            i <= 8,
            head@.len() == 8,
            x == le_value(head@.skip(i as int)),
        decreases i,
    {
        i = i - 1;
        proof {
            lemma_le_value_bound(head@.skip(i as int));
            lemma_eight_bytes_at_most((8 - i) as nat);
            assert(head@.skip(i as int).skip(1) =~= head@.skip(i + 1));
        }
        x = x * 256 + head[i] as u64;
    }
    assert(head@.skip(0) =~= old(data)@.take(8));
    assert(data@ =~= old(data)@.skip(8));
    Some(x)
}

proof fn lemma_eight_bytes_at_most(n: nat)
    requires
        n <= 8,
    ensures
        pow2(8 * n) <= 0x1_0000_0000_0000_0000,
{
    lemma2_to64();
    if n < 8 {
        lemma_pow2_strictly_increases(8 * n, 64);
    }
}

pub(crate) fn take_u32(data: &mut &[u8]) -> (r: Option<u32>)
    ensures
        match read_u32(old(data)@) {
            Some((x, rest)) => r == Some(x) && final(data)@ == rest,
            None => r is None,
        },
{
    proof {
        reveal(read_u32);
    }
    if data.len() < 4 {
        return None;
    }
    let (head, tail) = data.split_at(4);
    *data = tail;
    let high: u32 = head[2] as u32 + 256 * (head[3] as u32);
    let x: u32 = head[0] as u32 + 256 * (head[1] as u32 + 256 * high);
    proof {
        reveal_with_fuel(le_value, 5);
        let h = head@;
        assert(h.skip(1).skip(1) =~= h.skip(2));
        assert(h.skip(2).skip(1) =~= h.skip(3));
        assert(h.skip(3).skip(1) =~= h.skip(4));
        assert(le_value(h) == x);
        assert(h =~= old(data)@.take(4));
        assert(data@ =~= old(data)@.skip(4));
    }
    Some(x)
}

pub(crate) fn take_f64(data: &mut &[u8]) -> (r: Option<F64>)
    ensures
        match read_f64(old(data)@) {
            Some((x, rest)) => r == Some(x) && final(data)@ == rest,
            None => r is None,
        },
{
    proof {
        reveal(read_f64);
    }
    match take_u64(data) {
        Some(bits) => Some(F64 { bits }),
        None => None,
    }
}

pub(crate) fn take_bool(data: &mut &[u8]) -> (r: Option<bool>)
    ensures
        match read_bool(old(data)@) {
            Some((x, rest)) => r == Some(x) && final(data)@ == rest,
            None => r is None,
        },
{
    proof {
        reveal(read_bool);
    }
    if data.len() == 0 {
        return None;
    }
    let (head, tail) = data.split_at(1);
    *data = tail;
    assert(data@ =~= old(data)@.skip(1));
    Some(head[0] != 0)
}

/// Calls `std::str::from_utf8`, which returns the text that `bytes` encode if they are
/// valid UTF-8, and an error if they are not.
#[verifier::external_body]
fn text_of(bytes: &[u8]) -> (r: Option<&str>)
    ensures
        match r {
            Some(s) => valid_utf8(bytes@) && s@ == decode_utf8(bytes@),
            None => !valid_utf8(bytes@),
        },
{
    std::str::from_utf8(bytes).ok()
}

pub(crate) fn take_str(data: &mut &[u8]) -> (r: Option<String>)
    ensures
        match (read_str(old(data)@), r) {
            (Some((x, rest)), Some(s)) => s@ == x && final(data)@ == rest,
            (None, None) => true,
            _ => false,
        },
{
    proof {
        reveal(read_str);
    }
    let n = take_u64(data)?;
    if n > data.len() as u64 {
        return None;
    }
    let ghost before = data@;
    let (head, tail) = data.split_at(n as usize);
    let text = text_of(head);
    *data = tail;
    assert(head@ =~= before.take(n as int));
    assert(data@ =~= before.skip(n as int));
    match text {
        Some(s) => Some(s.to_owned()),
        None => None,
    }
}

pub(crate) fn take_vec_f64(data: &mut &[u8]) -> (r: Option<Vec<F64>>)
    ensures
        match (read_vec_f64(old(data)@), r) {
            (Some((x, rest)), Some(v)) => v@ == x && final(data)@ == rest,
            (None, None) => true,
            _ => false,
        },
{
    proof {
        reveal(read_vec_f64);
    }
    let n = take_u64(data)?;
    if n > data.len() as u64 / 8 {
        return None;
    }
    let ghost start = data@;
    let mut v: Vec<F64> = Vec::new();
    let mut i: u64 = 0;
    while i < n
        invariant
            i <= n,
            8 * n <= start.len(),
            data@ == start.skip(8 * i),
            v@ == f64s_of(start, i as nat),
        decreases n - i,
    {
        proof {
            reveal(read_f64);
            reveal(read_u64);
        }
        let x = take_f64(data)?;
        v.push(x);
        proof {
            assert(start.skip(8 * i).take(8) =~= start.subrange(8 * i, 8 * i + 8));
            assert(start.skip(8 * i).skip(8) =~= start.skip(8 * (i + 1)));
            assert(v@ =~= f64s_of(start, (i + 1) as nat));
        }
        i = i + 1;
    }
    Some(v)
}

pub(crate) fn take_opt_f64(data: &mut &[u8]) -> (r: Option<Option<F64>>)
    ensures
        match read_opt_f64(old(data)@) {
            Some((x, rest)) => r == Some(x) && final(data)@ == rest,
            None => r is None,
        },
{
    proof {
        reveal(read_opt_f64);
    }
    if take_bool(data)? {
        Some(Some(take_f64(data)?))
    } else {
        Some(None)
    }
}

pub(crate) fn take_opt_bool(data: &mut &[u8]) -> (r: Option<Option<bool>>)
    ensures
        match read_opt_bool(old(data)@) {
            Some((x, rest)) => r == Some(x) && final(data)@ == rest,
            None => r is None,
        },
{
    proof {
        reveal(read_opt_bool);
    }
    if take_bool(data)? {
        Some(Some(take_bool(data)?))
    } else {
        Some(None)
    }
}

/// Reading a written number gives it back, whatever follows it.
pub proof fn u64_round_trip(x: u64, rest: Seq<u8>)
    ensures
        read_u64(le_bytes(x as nat, 8) + rest) == Some((x, rest)),
{
    reveal(read_u64);
    lemma2_to64();
    lemma_le_bytes_len(x as nat, 8);
    lemma_le_value_bytes(x as nat, 8);
    let d = le_bytes(x as nat, 8) + rest;
    assert(d.take(8) =~= le_bytes(x as nat, 8));
    assert(d.skip(8) =~= rest);
}

/// Reading a written number of four bytes gives it back, whatever follows it.
pub proof fn u32_round_trip(x: u32, rest: Seq<u8>)
    ensures
        read_u32(le_bytes(x as nat, 4) + rest) == Some((x, rest)),
{
    reveal(read_u32);
    lemma2_to64();
    lemma_le_bytes_len(x as nat, 4);
    lemma_le_value_bytes(x as nat, 4);
    let d = le_bytes(x as nat, 4) + rest;
    assert(d.take(4) =~= le_bytes(x as nat, 4));
    assert(d.skip(4) =~= rest);
}

/// Reading a written number gives back its bit pattern, whatever follows it.
pub proof fn f64_round_trip(x: F64, rest: Seq<u8>)
    ensures
        read_f64(f64_bytes(x) + rest) == Some((x, rest)),
{
    reveal(read_f64);
    u64_round_trip(x.bits, rest);
}

/// Reading a written truth value gives it back, whatever follows it.
pub proof fn bool_round_trip(b: bool, rest: Seq<u8>)
    ensures
        read_bool(bool_bytes(b) + rest) == Some((b, rest)),
{
    reveal(read_bool);
    assert((bool_bytes(b) + rest).skip(1) =~= rest);
}

/// Reading a written text gives it back, whatever follows it.
pub proof fn str_round_trip(s: Seq<char>, rest: Seq<u8>)
    requires
        encode_utf8(s).len() <= u64::MAX,
    ensures
        read_str(str_bytes(s) + rest) == Some((s, rest)),
{
    reveal(read_str);
    let body = encode_utf8(s);
    u64_round_trip(body.len() as u64, body + rest);
    assert(str_bytes(s) + rest =~= le_bytes(body.len(), 8) + (body + rest));
    assert((body + rest).take(body.len() as int) =~= body);
    assert((body + rest).skip(body.len() as int) =~= rest);
    encode_utf8_valid_utf8(s);
    encode_utf8_decode_utf8(s);
}

proof fn lemma_f64s_bytes(v: Seq<F64>, rest: Seq<u8>)
    ensures
        f64s_bytes(v).len() == 8 * v.len(),
        f64s_of(f64s_bytes(v) + rest, v.len()) == v,
    decreases v.len(),
{
    let d = f64s_bytes(v) + rest;
    if v.len() == 0 {
        assert(f64s_of(d, 0) =~= v);
    } else {
        let last = f64_bytes(v.last());
        let init = v.drop_last();
        lemma_le_bytes_len(v.last().bits as nat, 8);
        lemma2_to64();
        lemma_le_value_bytes(v.last().bits as nat, 8);
        lemma_f64s_bytes(init, last + rest);
        assert(d =~= f64s_bytes(init) + (last + rest));
        assert forall|i: int| 0 <= i < v.len() implies f64s_of(d, v.len())[i] == v[i] by {
            if i < init.len() {
                assert(f64s_of(d, init.len())[i] == init[i]);
            } else {
                assert(d.subrange(8 * i, 8 * i + 8) =~= last);
            }
        }
        assert(f64s_of(d, v.len()) =~= v);
    }
}

/// Reading a written list gives it back, whatever follows it.
pub proof fn vec_f64_round_trip(v: Seq<F64>, rest: Seq<u8>)
    requires
        v.len() <= u64::MAX,
    ensures
        read_vec_f64(vec_f64_bytes(v) + rest) == Some((v, rest)),
{
    reveal(read_vec_f64);
    let body = f64s_bytes(v);
    lemma_f64s_bytes(v, rest);
    u64_round_trip(v.len() as u64, body + rest);
    assert(vec_f64_bytes(v) + rest =~= le_bytes(v.len(), 8) + (body + rest));
    assert((body + rest).skip((8 * v.len()) as int) =~= rest);
}

/// Reading a written optional number gives it back, whatever follows it.
pub proof fn opt_f64_round_trip(x: Option<F64>, rest: Seq<u8>)
    ensures
        read_opt_f64(opt_f64_bytes(x) + rest) == Some((x, rest)),
{
    reveal(read_opt_f64);
    match x {
        Some(v) => {
            bool_round_trip(true, f64_bytes(v) + rest);
            f64_round_trip(v, rest);
            assert(opt_f64_bytes(x) + rest =~= bool_bytes(true) + (f64_bytes(v) + rest));
        },
        None => bool_round_trip(false, rest),
    }
}

/// Reading a written optional truth value gives it back, whatever follows it.
pub proof fn opt_bool_round_trip(x: Option<bool>, rest: Seq<u8>)
    ensures
        read_opt_bool(opt_bool_bytes(x) + rest) == Some((x, rest)),
{
    reveal(read_opt_bool);
    match x {
        Some(v) => {
            bool_round_trip(true, bool_bytes(v) + rest);
            bool_round_trip(v, rest);
            assert(opt_bool_bytes(x) + rest =~= bool_bytes(true) + (bool_bytes(v) + rest));
        },
        None => bool_round_trip(false, rest),
    }
}

/// Joining bytes is associative.
pub proof fn lemma_joined(a: Seq<u8>, b: Seq<u8>, rest: Seq<u8>)
    ensures
        (a + b) + rest == a + (b + rest),
{
    assert((a + b) + rest =~= a + (b + rest));
}

/// Numbers are stored with their lowest byte first, in as many bytes as they have.
pub proof fn numbers_are_stored_low_byte_first(x: u64, n: u32)
    ensures
        ({
            let s = le_bytes(x as nat, 8);
            &&& s.len() == 8
            &&& s[0] == x % 256
            &&& s[1] == x / 0x100 % 256
            &&& s[2] == x / 0x1_0000 % 256
            &&& s[3] == x / 0x100_0000 % 256
            &&& s[4] == x / 0x1_0000_0000 % 256
            &&& s[5] == x / 0x100_0000_0000 % 256
            &&& s[6] == x / 0x1_0000_0000_0000 % 256
            &&& s[7] == x / 0x100_0000_0000_0000
        }),
        ({
            let s = le_bytes(n as nat, 4);
            &&& s.len() == 4
            &&& s[0] == n % 256
            &&& s[1] == n / 0x100 % 256
            &&& s[2] == n / 0x1_0000 % 256
            &&& s[3] == n / 0x100_0000
        }),
{
    let y = x as nat;
    let m = n as nat;
    lemma_le_bytes_at(y, 8, 0);
    lemma_le_bytes_at(y, 8, 1);
    lemma_le_bytes_at(y, 8, 2);
    lemma_le_bytes_at(y, 8, 3);
    lemma_le_bytes_at(y, 8, 4);
    lemma_le_bytes_at(y, 8, 5);
    lemma_le_bytes_at(y, 8, 6);
    lemma_le_bytes_at(y, 8, 7);
    lemma_le_bytes_at(m, 4, 0);
    lemma_le_bytes_at(m, 4, 1);
    lemma_le_bytes_at(m, 4, 2);
    lemma_le_bytes_at(m, 4, 3);
    assert(le_rest(y, 1) == y / 0x100);
    assert(le_rest(m, 1) == m / 0x100);
    assert(le_rest(y, 2) == y / 0x1_0000);
    assert(le_rest(m, 2) == m / 0x1_0000);
    assert(le_rest(y, 3) == y / 0x100_0000);
    assert(le_rest(m, 3) == m / 0x100_0000);
    assert(le_rest(y, 4) == y / 0x1_0000_0000);
    assert(le_rest(y, 5) == y / 0x100_0000_0000);
    assert(le_rest(y, 6) == y / 0x1_0000_0000_0000);
    assert(le_rest(y, 7) == y / 0x100_0000_0000_0000);
}

/// Numbers with a fraction are stored by their bit pattern, truth values as one and zero, what
/// may be missing after a truth value that says so, and lists and texts after their length.
pub proof fn values_are_stored_plainly(x: F64, b: bool, s: Seq<char>, v: Seq<F64>)
    ensures
        f64_bytes(x) == le_bytes(x.bits as nat, 8),
        bool_bytes(true) == seq![1u8],
        bool_bytes(false) == seq![0u8],
        opt_f64_bytes(None) == seq![0u8],
        opt_f64_bytes(Some(x)) == seq![1u8] + le_bytes(x.bits as nat, 8),
        opt_bool_bytes(None) == seq![0u8],
        opt_bool_bytes(Some(b)) == seq![
            1u8,
            if b {
                1u8
            } else {
                0u8
            },
        ],
        str_bytes(s).len() == 8 + encode_utf8(s).len(),
        str_bytes(s).skip(8) == encode_utf8(s),
        str_bytes(s).take(8) == le_bytes(encode_utf8(s).len(), 8),
        vec_f64_bytes(v).take(8) == le_bytes(v.len(), 8),
        vec_f64_bytes(v.push(x)).skip(8) == vec_f64_bytes(v).skip(8) + f64_bytes(x),
        vec_f64_bytes(Seq::empty()).skip(8).len() == 0,
{
    lemma_le_bytes_len(encode_utf8(s).len(), 8);
    lemma_le_bytes_len(v.len(), 8);
    lemma_le_bytes_len(v.push(x).len(), 8);
    lemma_le_bytes_len(0, 8);
    assert(v.push(x).drop_last() =~= v);
    assert(str_bytes(s).skip(8) =~= encode_utf8(s));
    assert(str_bytes(s).take(8) =~= le_bytes(encode_utf8(s).len(), 8));
    assert(vec_f64_bytes(v).take(8) =~= le_bytes(v.len(), 8));
    assert(vec_f64_bytes(v).skip(8) =~= f64s_bytes(v));
    assert(vec_f64_bytes(v.push(x)).skip(8) =~= f64s_bytes(v.push(x)));
}

/// A stored list takes eight bytes for its length and eight for each number.
pub proof fn lists_take_eight_bytes_each(v: Seq<F64>)
    ensures
        vec_f64_bytes(v).len() == 8 + 8 * v.len(),
{
    lemma_f64s_bytes(v, Seq::empty());
    lemma_le_bytes_len(v.len(), 8);
}

/// Any byte but zero is read as true, and too few bytes are read as nothing.
pub proof fn short_data_holds_nothing(d: Seq<u8>)
    ensures
        d.len() > 0 ==> read_bool(d) == Some((d[0] != 0, d.skip(1))),
        d.len() == 0 ==> read_bool(d) is None,
        read_u64(d) is None <==> d.len() < 8,
        read_f64(d) is None <==> d.len() < 8,
        read_u32(d) is None <==> d.len() < 4,
        d.len() < 8 ==> read_str(d) is None && read_vec_f64(d) is None,
        d.len() > 0 && d[0] == 0 ==> read_opt_f64(d) == Some((None::<F64>, d.skip(1))),
        0 < d.len() < 9 && d[0] != 0 ==> read_opt_f64(d) is None,
        d.len() == 1 && d[0] != 0 ==> read_opt_bool(d) is None,
{
    reveal(read_u64);
    reveal(read_u32);
    reveal(read_f64);
    reveal(read_bool);
    reveal(read_str);
    reveal(read_vec_f64);
    reveal(read_opt_f64);
    reveal(read_opt_bool);
}

} // verus!
