//! Command-line values and summary statistics.
use vstd::prelude::*;
use vstd::string::*;

use crate::binary64::sort::sorted;
use crate::binary64::F64;
use crate::error::{invalid, Error, Result};
use crate::executor::report::{Span, MEGABYTE};
use crate::prediction::historical::{Q50, Q90, Q95};
use crate::text::{chars_of, text_from};

verus! {

/// A white-space character.
pub open spec fn is_space(c: char) -> bool {
    ||| '\u{9}' <= c <= '\u{d}'
    ||| c == ' '
    ||| c == '\u{85}'
    ||| c == '\u{a0}'
    ||| c == '\u{1680}'
    ||| '\u{2000}' <= c <= '\u{200a}'
    ||| c == '\u{2028}'
    ||| c == '\u{2029}'
    ||| c == '\u{202f}'
    ||| c == '\u{205f}'
    ||| c == '\u{3000}'
}

fn space(c: char) -> (r: bool)
    ensures
        r == is_space(c),
{
    ('\u{9}' <= c && c <= '\u{d}') || c == ' ' || c == '\u{85}' || c == '\u{a0}' || c == '\u{1680}'
        || ('\u{2000}' <= c && c <= '\u{200a}') || c == '\u{2028}' || c == '\u{2029}' || c
        == '\u{202f}' || c == '\u{205f}' || c == '\u{3000}'
}

/// `s` without the white space at its start.
pub open spec fn trim_start(s: Seq<char>) -> Seq<char>
    decreases s.len(),
{
    if s.len() > 0 && is_space(s[0]) {
        trim_start(s.skip(1))
    } else {
        s
    }
}

/// `s` without the white space at its end.
pub open spec fn trim_end(s: Seq<char>) -> Seq<char>
    decreases s.len(),
{
    if s.len() > 0 && is_space(s.last()) {
        trim_end(s.drop_last())
    } else {
        s
    }
}

/// `s` without the white space around it.
pub open spec fn trimmed(s: Seq<char>) -> Seq<char> {
    trim_end(trim_start(s))
}

fn trim(v: &Vec<char>) -> (r: Vec<char>)
    ensures
        r@ == trimmed(v@),
{
    let n = v.len();
    let mut i: usize = 0;
    assert(v@.skip(0) =~= v@);
    while i < n && space(v[i])
        invariant
            n == v@.len(),
            i <= n,
            trim_start(v@) == trim_start(v@.skip(i as int)),
        decreases n - i,
    {
        assert(v@.skip(i as int).skip(1) =~= v@.skip(i + 1));
        i = i + 1;
    }
    let ghost start = v@.skip(i as int);
    assert(trim_start(start) == start);
    let mut j: usize = n;
    assert(v@.subrange(i as int, n as int) =~= start);
    while j > i && space(v[j - 1])
        invariant
            n == v@.len(),
            i <= j <= n,
            trim_end(start) == trim_end(v@.subrange(i as int, j as int)),
        decreases j,
    {
        assert(v@.subrange(i as int, j as int).drop_last() =~= v@.subrange(i as int, j - 1));
        j = j - 1;
    }
    assert(trim_end(v@.subrange(i as int, j as int)) == v@.subrange(i as int, j as int));
    let mut r: Vec<char> = Vec::new();
    r.extend_from_slice(vstd::slice::slice_subrange(v.as_slice(), i, j));
    assert(r@ =~= v@.subrange(i as int, j as int));
    r
}

/// The lower-case form of an ASCII letter; other characters stay.
pub open spec fn lower_char(c: char) -> char {
    if 'A' <= c <= 'Z' {
        (c as u32 + 32) as char
    } else {
        c
    }
}

/// `s` with its ASCII letters in lower case.
pub open spec fn lowered(s: Seq<char>) -> Seq<char> {
    s.map_values(|c: char| lower_char(c))
}

fn lower(v: &Vec<char>) -> (r: Vec<char>)
    ensures
        r@ == lowered(v@),
{
    let mut r: Vec<char> = Vec::new();
    let mut i: usize = 0;
    while i < v.len()
        invariant
            i <= v@.len(),
            r@.len() == i,
            forall|j: int| 0 <= j < i ==> r@[j] == lower_char(v@[j]),
        decreases v@.len() - i,
    {
        let c = v[i];
        r.push(
            if 'A' <= c && c <= 'Z' {
                (c as u8 + 32) as char
            } else {
                c
            },
        );
        i = i + 1;
    }
    assert(r@ =~= lowered(v@));
    r
}

/// `s` ends with `suffix`.
pub open spec fn ends_in(s: Seq<char>, suffix: Seq<char>) -> bool {
    suffix.len() <= s.len() && s.skip(s.len() - suffix.len()) == suffix
}

/// `s` without the `k` characters at its end.
pub open spec fn without_end(s: Seq<char>, k: nat) -> Seq<char> {
    s.take(s.len() - k)
}

fn has_suffix(v: &Vec<char>, suffix: &Vec<char>) -> (r: bool)
    ensures
        r == ends_in(v@, suffix@),
{
    if suffix.len() > v.len() {
        return false;
    }
    let n = v.len();
    let off = n - suffix.len();
    let mut i: usize = 0;
    while i < suffix.len()
        invariant
            n == v@.len(),
            off + suffix@.len() == n,
            i <= suffix@.len(),
            forall|j: int| 0 <= j < i ==> v@[off + j] == suffix@[j],
        decreases suffix@.len() - i,
    {
        if v[off + i] != suffix[i] {
            assert(v@.skip(off as int)[i as int] != suffix@[i as int]);
            return false;
        }
        i = i + 1;
    }
    assert(v@.skip(off as int) =~= suffix@);
    true
}

/// A size in lower case, split into its number and what its unit is worth in bytes.
pub open spec fn split_size(s: Seq<char>) -> (Seq<char>, F64) {
    if ends_in(s, "gib"@) {
        (without_end(s, 3), F64 { bits: 0x41D0_0000_0000_0000 })
    } else if ends_in(s, "mib"@) {
        (without_end(s, 3), F64 { bits: 0x4130_0000_0000_0000 })
    } else if ends_in(s, "kib"@) {
        (without_end(s, 3), F64 { bits: 0x4090_0000_0000_0000 })
    } else if ends_in(s, "gb"@) {
        (without_end(s, 2), F64 { bits: 0x41CD_CD65_0000_0000 })
    } else if ends_in(s, "mb"@) {
        (without_end(s, 2), F64 { bits: 0x412E_8480_0000_0000 })
    } else if ends_in(s, "kb"@) {
        (without_end(s, 2), F64 { bits: 0x408F_4000_0000_0000 })
    } else if ends_in(s, "b"@) {
        (without_end(s, 1), F64::one())
    } else {
        (s, F64::one())
    }
}

fn unit_of(v: &Vec<char>) -> (r: (usize, F64))
    ensures
        r.0 <= v@.len(),
        split_size(v@) == (without_end(v@, r.0 as nat), r.1),
{
    proof {
        reveal_strlit("gib");
        reveal_strlit("mib");
        reveal_strlit("kib");
        reveal_strlit("gb");
        reveal_strlit("mb");
        reveal_strlit("kb");
        reveal_strlit("b");
        assert(without_end(v@, 0) =~= v@);
    }
    // 2^30, 2^20 and 2^10 bytes.
    if has_suffix(v, &chars_of("gib")) {
        return (3, F64 { bits: 0x41D0_0000_0000_0000 });
    }
    if has_suffix(v, &chars_of("mib")) {
        return (3, F64 { bits: 0x4130_0000_0000_0000 });
    }
    if has_suffix(v, &chars_of("kib")) {
        return (3, F64 { bits: 0x4090_0000_0000_0000 });
    }
    // 10^9, 10^6 and 10^3 bytes.
    if has_suffix(v, &chars_of("gb")) {
        return (2, F64 { bits: 0x41CD_CD65_0000_0000 });
    }
    if has_suffix(v, &chars_of("mb")) {
        return (2, F64 { bits: 0x412E_8480_0000_0000 });
    }
    if has_suffix(v, &chars_of("kb")) {
        return (2, F64 { bits: 0x408F_4000_0000_0000 });
    }
    if has_suffix(v, &chars_of("b")) {
        return (1, F64::one());
    }
    (0, F64::one())
}

/// The text that a size is read from: without white space around it, in lower case.
pub open spec fn size_text(s: Seq<char>) -> Seq<char> {
    lowered(trimmed(s))
}

fn clean_size(s: &str) -> (v: Vec<char>)
    ensures
        v@ == size_text(s@),
{
    lower(&trim(&chars_of(s)))
}

/// The number in a size such as "256MiB", "1GiB", "500MB", "100kb" or "4096", as text.
pub fn size_number(s: &str) -> (r: String)
    ensures
        r@ == trimmed(split_size(size_text(s@)).0),
{
    let mut v = clean_size(s);
    let (k, _) = unit_of(&v);
    let n = v.len();
    v.truncate(n - k);
    assert(v@ =~= split_size(size_text(s@)).0);
    let t = trim(&v);
    text_from(&t)
}

/// The bytes of a size such as "256MiB", "1GiB", "500MB", "100kb" or "4096".  `number` is the
/// value of `size_number(s)`, `None` where that is no number.
pub fn parse_size(s: &str, number: Option<F64>) -> (r: Result<u64>)
    ensures
        match (number, r) {
            (Some(v), Ok(n)) => n == v.times(split_size(size_text(s@)).1).to_u64(),
            (None, Err(e)) => e matches Error::Invalid(m) && m@ == "bad size: "@ + size_text(s@),
            _ => false,
        },
{
    let v = clean_size(s);
    match number {
        Some(x) => {
            let (_, unit) = unit_of(&v);
            Ok(x.times(unit).to_u64())
        },
        None => {
            let mut m = "bad size: ".to_owned();
            let t = text_from(&v);
            m.append(t.as_str());
            Err(Error::Invalid(m))
        },
    }
}

/// The value that the argument at `i` gives to `key`, as `key=value` or as `key` before its
/// value.
pub open spec fn value_at(args: Seq<String>, key: Seq<char>, i: int) -> Option<Seq<char>> {
    let a = args[i]@;
    if key.len() <= a.len() && a.take(key.len() as int) == key {
        if a.len() > key.len() && a[key.len() as int] == '=' {
            Some(a.skip(key.len() as int + 1))
        } else if a.len() == key.len() && i + 1 < args.len() {
            Some(args[i + 1]@)
        } else {
            None
        }
    } else {
        None
    }
}

/// The first value that the arguments from `i` on give to `key`, else `default`.
pub open spec fn value_from(
    args: Seq<String>,
    key: Seq<char>,
    default: Seq<char>,
    i: nat,
) -> Seq<char>
    decreases args.len() - i,
{
    if i >= args.len() {
        default
    } else {
        match value_at(args, key, i as int) {
            Some(v) => v,
            None => value_from(args, key, default, i + 1),
        }
    }
}

/// The value of `key` among the arguments, written `key=value` or `key value`; `default` without
/// one.
pub fn get_arg(args: &Vec<String>, key: &str, default: &str) -> (r: String)
    ensures
        r@ == value_from(args@, key@, default@, 0),
{
    let k = chars_of(key);
    let mut i: usize = 0;
    while i < args.len()
        invariant
            k@ == key@,
            i <= args@.len(),
            value_from(args@, key@, default@, 0) == value_from(args@, key@, default@, i as nat),
        decreases args@.len() - i,
    {
        let a = chars_of(args[i].as_str());
        if has_prefix(&a, &k) {
            if a.len() > k.len() && a[k.len()] == '=' {
                let rest = vstd::slice::slice_subrange(a.as_slice(), k.len() + 1, a.len());
                assert(rest@ =~= a@.skip(k@.len() as int + 1));
                return text_from(rest);
            }
            if a.len() == k.len() && i + 1 < args.len() {
                return args[i + 1].clone();
            }
        }
        i = i + 1;
    }
    default.to_owned()
}

fn has_prefix(v: &Vec<char>, prefix: &Vec<char>) -> (r: bool)
    ensures
        r == (prefix@.len() <= v@.len() && v@.take(prefix@.len() as int) == prefix@),
{
    if prefix.len() > v.len() {
        return false;
    }
    let mut i: usize = 0;
    while i < prefix.len()
        invariant
            prefix@.len() <= v@.len(),
            i <= prefix@.len(),
            forall|j: int| 0 <= j < i ==> v@[j] == prefix@[j],
        decreases prefix@.len() - i,
    {
        if v[i] != prefix[i] {
            assert(v@.take(prefix@.len() as int)[i as int] != prefix@[i as int]);
            return false;
        }
        i = i + 1;
    }
    assert(v@.take(prefix@.len() as int) =~= prefix@);
    true
}

/// The deadline that `text` gives: none if it is empty.  `number` is the value of `text`, `None`
/// where it is no number.
pub fn deadline_arg(text: &str, number: Option<F64>) -> (r: Result<Option<F64>>)
    ensures
        match r {
            Ok(None) => text@.len() == 0,
            Ok(Some(d)) => text@.len() > 0 && number == Some(d),
            Err(e) => text@.len() > 0 && number is None && (e matches Error::Invalid(m) && m@
                == "bad --deadline-ms"@),
        },
{
    if text.is_empty() {
        return Ok(None);
    }
    match number {
        Some(d) => Ok(Some(d)),
        None => Err(invalid("bad --deadline-ms")),
    }
}

/// The sum of some numbers, from the first on; zero for none.
pub open spec fn total(v: Seq<F64>) -> F64
    decreases v.len(),
{
    if v.len() == 0 {
        F64::zero()
    } else if v.len() == 1 {
        v[0]
    } else {
        total(v.drop_last()).plus(v.last())
    }
}

/// The sum of some numbers, from the first on.
pub fn sum(v: &[F64]) -> (r: F64)
    ensures
        r == total(v@),
{
    if v.len() == 0 {
        return F64::zero();
    }
    let mut r = v[0];
    let mut i: usize = 1;
    assert(v@.take(1) =~= seq![v@[0]]);
    while i < v.len()
        invariant
            1 <= i <= v@.len(),
            r == total(v@.take(i as int)),
        decreases v@.len() - i,
    {
        r = r.plus(v[i]);
        assert(v@.take(i + 1).drop_last() =~= v@.take(i as int));
        assert(v@.take(i + 1).last() == v@[i as int]);
        i = i + 1;
    }
    assert(v@.take(v@.len() as int) =~= v@);
    r
}

/// The mean of some numbers; NaN for none.
pub open spec fn average(v: Seq<F64>) -> F64 {
    total(v).over(F64::from_u64(v.len() as u64))
}

/// The mean of some numbers.
pub fn mean(v: &[F64]) -> (r: F64)
    ensures
        r == average(v@),
{
    sum(v).over(F64::from_u64(v.len() as u64))
}

/// The mean of the sizes of some numbers.
pub fn mean_abs(v: &[F64]) -> (r: F64)
    ensures
        r == average(v@.map_values(|x: F64| x.abs())),
{
    let mut a: Vec<F64> = Vec::new();
    let mut i: usize = 0;
    while i < v.len()
        invariant
            i <= v@.len(),
            a@.len() == i,
            forall|j: int| 0 <= j < i ==> a@[j] == v@[j].abs(),
        decreases v@.len() - i,
    {
        a.push(v[i].abs());
        i = i + 1;
    }
    assert(a@ =~= v@.map_values(|x: F64| x.abs()));
    mean(&a)
}

/// Statistics of some durations, in ms.
#[derive(Debug, Clone, Copy)]
pub struct Stats {
    pub n: usize,
    pub mean_ms: F64,
    pub std_ms: F64,
    pub min_ms: F64,
    pub p50_ms: F64,
    pub p90_ms: F64,
    pub p95_ms: F64,
    pub max_ms: F64,
    /// Throughput: the bytes of one operation over its mean duration, in megabytes per second.
    pub mb_s: F64,
}

/// The quantile `q` of the ordered numbers `v`.
pub open spec fn ordered_quantile(v: Seq<F64>, q: F64) -> F64 {
    let i = F64::from_u64(v.len() as u64).minus(F64::one()).times(q).round_to_u64();
    if i < v.len() {
        v[i as int]
    } else {
        v.last()
    }
}

/// The squares of the distances of `v` from `mean`.
pub open spec fn squares(v: Seq<F64>, mean: F64) -> Seq<F64> {
    v.map_values(|x: F64| x.minus(mean).times(x.minus(mean)))
}

/// The throughput of operations over `bytes` that take `mean_s` seconds on average.
pub open spec fn rate(bytes: u64, mean_s: F64) -> F64 {
    if F64::zero().less(mean_s) {
        F64::from_u64(bytes).over(mean_s).over(F64 { bits: MEGABYTE })
    } else {
        F64::zero()
    }
}

fn pick(v: &Vec<F64>, q: F64) -> (r: F64)
    requires
        v@.len() > 0,
    ensures
        r == ordered_quantile(v@, q),
{
    let n = v.len();
    let i = F64::from_u64(n as u64).minus(F64::one()).times(q).round_to_u64();
    if i < n as u64 {
        v[i as usize]
    } else {
        v[n - 1]
    }
}

/// The statistics of some durations of an operation over `bytes`.
pub fn stats(durs: &[Span], bytes: u64) -> (r: Stats)
    requires
        durs@.len() > 0,
    ensures
        ({
            let v = crate::binary64::sort::ascending(durs@.map_values(|d: Span| d.as_ms()));
            &&& r.n == durs@.len()
            &&& r.mean_ms == average(v)
            &&& crate::binary64::root::is_sqrt(average(squares(v, r.mean_ms)), r.std_ms)
            &&& r.min_ms == v[0]
            &&& r.p50_ms == ordered_quantile(v, F64 { bits: Q50 })
            &&& r.p90_ms == ordered_quantile(v, F64 { bits: Q90 })
            &&& r.p95_ms == ordered_quantile(v, F64 { bits: Q95 })
            &&& r.max_ms == v.last()
            &&& r.mb_s == rate(bytes, average(durs@.map_values(|d: Span| d.as_secs())))
        }),
{
    let n = durs.len();
    let mut ms: Vec<F64> = Vec::new();
    let mut secs: Vec<F64> = Vec::new();
    let mut i: usize = 0;
    while i < n
        invariant
            n == durs@.len(),
            i <= n,
            ms@.len() == i,
            secs@.len() == i,
            forall|j: int| 0 <= j < i ==> ms@[j] == durs@[j].as_ms(),
            forall|j: int| 0 <= j < i ==> secs@[j] == durs@[j].as_secs(),
        decreases n - i,
    {
        ms.push(durs[i].as_ms());
        secs.push(durs[i].as_secs());
        i = i + 1;
    }
    assert(ms@ =~= durs@.map_values(|d: Span| d.as_ms()));
    assert(secs@ =~= durs@.map_values(|d: Span| d.as_secs()));
    let v = sorted(&ms);
    proof {
        crate::binary64::sort::ascending_is_sorted(ms@);
    }
    let mean_ms = mean(&v);
    let mut sq: Vec<F64> = Vec::new();
    let mut j: usize = 0;
    while j < v.len()
        invariant
            j <= v@.len(),
            sq@.len() == j,
            forall|l: int|
                0 <= l < j ==> sq@[l] == v@[l].minus(mean_ms).times(v@[l].minus(mean_ms)),
        decreases v@.len() - j,
    {
        let d = v[j].minus(mean_ms);
        sq.push(d.times(d));
        j = j + 1;
    }
    assert(sq@ =~= squares(v@, mean_ms));
    let mean_s = mean(&secs);
    Stats {
        n,
        mean_ms,
        std_ms: mean(&sq).sqrt(),
        min_ms: v[0],
        p50_ms: pick(&v, F64 { bits: Q50 }),
        p90_ms: pick(&v, F64 { bits: Q90 }),
        p95_ms: pick(&v, F64 { bits: Q95 }),
        max_ms: v[v.len() - 1],
        mb_s: if F64::zero().less(mean_s) {
            F64::from_u64(bytes).over(mean_s).over(F64 { bits: MEGABYTE })
        } else {
            F64::zero()
        },
    }
}

/// A unit at the end of a size is taken off, and worth its bytes: 1024 to the power of three, two
/// and one, 1000 to the power of three, two and one, and one; a text that ends in no unit counts
/// bytes.
pub proof fn units_are_worth_their_bytes(t: Seq<char>)
    ensures
        split_size(t + "gib"@) == (t, F64 { bits: 0x41D0_0000_0000_0000 }),
        split_size(t + "mib"@) == (t, F64 { bits: 0x4130_0000_0000_0000 }),
        split_size(t + "kib"@) == (t, F64 { bits: 0x4090_0000_0000_0000 }),
        split_size(t + "gb"@) == (t, F64 { bits: 0x41CD_CD65_0000_0000 }),
        split_size(t + "mb"@) == (t, F64 { bits: 0x412E_8480_0000_0000 }),
        split_size(t + "kb"@) == (t, F64 { bits: 0x408F_4000_0000_0000 }),
        t.len() == 0 || (t.last() != 'i' && t.last() != 'g' && t.last() != 'm' && t.last() != 'k')
            ==> split_size(t + "b"@) == (t, F64::one()),
        t.len() == 0 || t.last() != 'b' ==> split_size(t) == (t, F64::one()),
{
    reveal_strlit("gib");
    reveal_strlit("mib");
    reveal_strlit("kib");
    reveal_strlit("gb");
    reveal_strlit("mb");
    reveal_strlit("kb");
    reveal_strlit("b");
    lemma_end(t, "gib"@);
    lemma_end(t, "mib"@);
    lemma_end(t, "kib"@);
    lemma_end(t, "gb"@);
    lemma_end(t, "mb"@);
    lemma_end(t, "kb"@);
    lemma_end(t, "b"@);
    lemma_other_end(t + "mib"@, "gib"@, 3);
    lemma_other_end(t + "kib"@, "gib"@, 3);
    lemma_other_end(t + "kib"@, "mib"@, 3);
    lemma_other_end(t + "gb"@, "gib"@, 2);
    lemma_other_end(t + "gb"@, "mib"@, 2);
    lemma_other_end(t + "gb"@, "kib"@, 2);
    lemma_other_end(t + "mb"@, "gib"@, 2);
    lemma_other_end(t + "mb"@, "mib"@, 2);
    lemma_other_end(t + "mb"@, "kib"@, 2);
    lemma_other_end(t + "mb"@, "gb"@, 2);
    lemma_other_end(t + "kb"@, "gib"@, 2);
    lemma_other_end(t + "kb"@, "mib"@, 2);
    lemma_other_end(t + "kb"@, "kib"@, 2);
    lemma_other_end(t + "kb"@, "gb"@, 2);
    lemma_other_end(t + "kb"@, "mb"@, 2);
    if t.len() == 0 || (t.last() != 'i' && t.last() != 'g' && t.last() != 'm' && t.last() != 'k') {
        lemma_other_end(t + "b"@, "gib"@, 2);
        lemma_other_end(t + "b"@, "mib"@, 2);
        lemma_other_end(t + "b"@, "kib"@, 2);
        lemma_other_end(t + "b"@, "gb"@, 2);
        lemma_other_end(t + "b"@, "mb"@, 2);
        lemma_other_end(t + "b"@, "kb"@, 2);
    }
    if t.len() == 0 || t.last() != 'b' {
        lemma_other_end(t, "gib"@, 1);
        lemma_other_end(t, "mib"@, 1);
        lemma_other_end(t, "kib"@, 1);
        lemma_other_end(t, "gb"@, 1);
        lemma_other_end(t, "mb"@, 1);
        lemma_other_end(t, "kb"@, 1);
        lemma_other_end(t, "b"@, 1);
    }
}

/// What is appended is at the end, and comes off again.
proof fn lemma_end(t: Seq<char>, suffix: Seq<char>)
    ensures
        ends_in(t + suffix, suffix),
        without_end(t + suffix, suffix.len()) == t,
{
    assert((t + suffix).skip(t.len() as int) =~= suffix);
    assert(without_end(t + suffix, suffix.len()) =~= t);
}

/// A text with another character `k` places from its end does not end in `suffix`.
proof fn lemma_other_end(s: Seq<char>, suffix: Seq<char>, k: int)
    requires
        0 < k <= suffix.len(),
        s.len() < k || s[s.len() - k] != suffix[suffix.len() - k],
    ensures
        !ends_in(s, suffix),
{
    if ends_in(s, suffix) {
        assert(s.skip(s.len() - suffix.len())[suffix.len() - k] == s[s.len() - k]);
    }
}

/// An argument `key=value` gives the key its value, and so does `key` before its value; one that
/// begins otherwise gives it none.
pub proof fn arguments_give_values(args: Seq<String>, key: Seq<char>, value: Seq<char>, i: int)
    requires
        0 <= i < args.len(),
    ensures
        args[i]@ == key.push('=') + value ==> value_at(args, key, i) == Some(value),
        args[i]@ == key && i + 1 < args.len() ==> value_at(args, key, i) == Some(args[i + 1]@),
        args[i]@ == key && i + 1 == args.len() ==> value_at(args, key, i) is None,
        args[i]@.len() < key.len() ==> value_at(args, key, i) is None,
        args[i]@.len() > key.len() && args[i]@[key.len() as int] != '=' ==> value_at(args, key, i)
            is None,
        (exists|j: int| 0 <= j < key.len() && j < args[i]@.len() && args[i]@[j] != key[j])
            ==> value_at(args, key, i) is None,
{
    let a = args[i]@;
    let n = key.len() as int;
    if a == key.push('=') + value {
        assert(a.take(n) =~= key);
        assert(a.skip(n + 1) =~= value);
    }
    if a == key {
        assert(a.take(n) =~= key);
    }
    if exists|j: int| 0 <= j < key.len() && j < a.len() && a[j] != key[j] {
        let j = choose|j: int| 0 <= j < key.len() && j < a.len() && a[j] != key[j];
        if n <= a.len() {
            assert(a.take(n)[j] == a[j]);
        }
    }
}

/// The first argument that gives a value counts; where none does, the default.
pub proof fn first_value_counts(
    args: Seq<String>,
    key: Seq<char>,
    default: Seq<char>,
    from: nat,
    i: int,
)
    requires
        from <= i <= args.len(),
        forall|j: int| from <= j < i ==> #[trigger] value_at(args, key, j) is None,
        i < args.len() ==> value_at(args, key, i) is Some,
    ensures
        i < args.len() ==> value_from(args, key, default, from) == value_at(args, key, i)->0,
        i == args.len() ==> value_from(args, key, default, from) == default,
    decreases i - from,
{
    if from < i {
        assert(value_at(args, key, from as int) is None);
        first_value_counts(args, key, default, from + 1, i);
    }
}

/// A sum grows by each number that is added at its end, and one number is its own sum and its own
/// mean.
pub proof fn sums_grow_at_the_end(v: Seq<F64>, x: F64)
    ensures
        v.len() > 0 ==> total(v.push(x)) == total(v).plus(x),
        total(seq![x]) == x,
        x.is_finite() ==> average(seq![x]) == x,
        total(Seq::empty()) == F64::zero(),
{
    assert(v.push(x).drop_last() =~= v);
    if x.is_finite() {
        crate::binary64::order::one_is_whole();
        crate::binary64::order::one_changes_no_quotient(x);
    }
}

/// Larger numbers never have a smaller sum, nor a smaller mean.
pub proof fn larger_numbers_have_larger_means(v: Seq<F64>, w: Seq<F64>)
    requires
        v.len() == w.len(),
        0 < v.len() <= u64::MAX,
        forall|i: int|
            0 <= i < v.len() ==> crate::binary64::order::is_amount(#[trigger] v[i])
                && crate::binary64::order::is_amount(w[i]) && v[i].at_most(w[i]),
    ensures
        total(v).at_most(total(w)),
        average(v).at_most(average(w)),
        crate::binary64::order::is_amount(total(v)),
        crate::binary64::order::is_amount(total(w)),
    decreases v.len(),
{
    if v.len() > 1 {
        larger_numbers_have_larger_means(v.drop_last(), w.drop_last());
        let a = total(v.drop_last());
        let b = total(w.drop_last());
        let x = v.last();
        let y = w.last();
        crate::binary64::order::amounts_add_up(a, x);
        crate::binary64::order::amounts_add_up(b, y);
        if b.is_finite() && x.is_finite() {
            crate::binary64::order::plus_keeps_order(a, b, x);
            crate::binary64::order::plus_keeps_order(x, y, b);
        } else {
            reveal(F64::spec_plus);
        }
    } else {
        assert(crate::binary64::order::is_amount(v[0]));
    }
    let n = F64::from_u64(v.len() as u64);
    crate::binary64::order::from_u64_keeps_order(v.len() as u64, v.len() as u64);
    crate::binary64::order::over_keeps_order(total(v), total(w), n);
}

/// The quantiles of ordered durations are those that the observation store has of the durations.
pub proof fn quantiles_agree(s: Seq<F64>, q: F64)
    requires
        0 < s.len() < 0x20_0000_0000_0000,
    ensures
        ordered_quantile(crate::binary64::sort::ascending(s), q)
            == crate::observation::aggregate::quantile(s, q),
{
    crate::binary64::sort::ascending_is_sorted(s);
    crate::binary64::order::one_more_whole((s.len() - 1) as u64);
    let v = crate::binary64::sort::ascending(s);
    assert(v.len() == s.len()) by {
        v.to_multiset_ensures();
        s.to_multiset_ensures();
    }
}

/// A throughput is in millions of bytes per second, none without time, never less for more bytes
/// and never more for a longer time.
pub proof fn throughputs_are_bytes_over_time(bytes: u64, more: u64, mean_s: F64, longer_s: F64)
    requires
        bytes <= more,
        F64::zero().less(mean_s),
        mean_s.at_most(longer_s),
        longer_s.is_finite(),
    ensures
        rate(bytes, F64::one()) == F64::from_u64(bytes).over(F64 { bits: 0x412E_8480_0000_0000 }),
        rate(bytes, mean_s).at_most(rate(more, mean_s)),
        rate(bytes, longer_s).at_most(rate(bytes, mean_s)),
        rate(bytes, F64::zero()) == F64::zero(),
{
    let mega = F64 { bits: MEGABYTE };
    let a = F64::from_u64(bytes);
    let b = F64::from_u64(more);
    crate::binary64::order::from_u64_keeps_order(bytes, more);
    crate::binary64::order::over_keeps_order(a, b, mean_s);
    crate::binary64::order::over_keeps_order(a.over(mean_s), b.over(mean_s), mega);
    crate::binary64::order::over_more_is_less(a, mean_s, longer_s);
    crate::binary64::order::over_keeps_order(a.over(longer_s), a.over(mean_s), mega);
    crate::binary64::order::one_changes_no_quotient(a);
}

/// Trimming takes the white space off both ends and nothing else: what is between white space
/// comes out as it is, and white space alone leaves nothing.
pub proof fn trimming_leaves_the_text(before: Seq<char>, t: Seq<char>, after: Seq<char>)
    requires
        forall|i: int| 0 <= i < before.len() ==> is_space(#[trigger] before[i]),
        forall|i: int| 0 <= i < after.len() ==> is_space(#[trigger] after[i]),
        t.len() > 0 ==> !is_space(t[0]) && !is_space(t.last()),
    ensures
        trimmed(before + t + after) == t,
{
    let s = before + t + after;
    if t.len() > 0 {
        lemma_trim_start(before, t + after);
        assert(s =~= before + (t + after));
        lemma_trim_end(t, after);
    } else {
        let none = Seq::<char>::empty();
        assert(s =~= (before + after) + none);
        lemma_trim_start(before + after, none);
        assert(t =~= none);
    }
}

proof fn lemma_trim_start(spaces: Seq<char>, rest: Seq<char>)
    requires
        forall|i: int| 0 <= i < spaces.len() ==> is_space(#[trigger] spaces[i]),
        rest.len() > 0 ==> !is_space(rest[0]),
    ensures
        trim_start(spaces + rest) == rest,
    decreases spaces.len(),
{
    if spaces.len() > 0 {
        assert((spaces + rest).skip(1) =~= spaces.skip(1) + rest);
        assert(is_space(spaces[0]));
        lemma_trim_start(spaces.skip(1), rest);
    } else {
        assert(spaces + rest =~= rest);
    }
}

proof fn lemma_trim_end(t: Seq<char>, spaces: Seq<char>)
    requires
        forall|i: int| 0 <= i < spaces.len() ==> is_space(#[trigger] spaces[i]),
        t.len() > 0 ==> !is_space(t.last()),
    ensures
        trim_end(t + spaces) == t,
    decreases spaces.len(),
{
    if spaces.len() > 0 {
        assert((t + spaces).drop_last() =~= t + spaces.drop_last());
        assert((t + spaces).last() == spaces[spaces.len() - 1]);
        lemma_trim_end(t, spaces.drop_last());
    } else {
        assert(t + spaces =~= t);
    }
}

/// Lower case is the same text with its capital letters replaced: it has as many characters, none
/// of them a capital letter, the others stay, and doing it twice is doing it once.
pub proof fn lower_case_has_no_capitals(s: Seq<char>, i: int)
    requires
        0 <= i < s.len(),
    ensures
        lowered(s).len() == s.len(),
        !('A' <= lowered(s)[i] <= 'Z'),
        !('A' <= s[i] <= 'Z') ==> lowered(s)[i] == s[i],
        'A' <= s[i] <= 'Z' ==> lowered(s)[i] as u32 == s[i] as u32 + 32,
        lowered(lowered(s))[i] == lowered(s)[i],
{
}

/// White space is what Unicode says it is: tab to carriage return, space, next line, the fixed
/// spaces and the separators; no letter, digit, point or sign is.
pub proof fn white_space_is_that_of_unicode(c: char)
    ensures
        is_space(' ') && is_space('\u{9}') && is_space('\u{a}') && is_space('\u{b}') && is_space(
            '\u{c}',
        ) && is_space('\u{d}'),
        is_space('\u{85}') && is_space('\u{a0}') && is_space('\u{1680}') && is_space('\u{2028}')
            && is_space('\u{2029}') && is_space('\u{202f}') && is_space('\u{205f}') && is_space(
            '\u{3000}',
        ),
        '\u{2000}' <= c <= '\u{200a}' ==> is_space(c),
        '!' <= c <= '~' ==> !is_space(c),
        c > '\u{3000}' ==> !is_space(c),
        c < '\u{9}' ==> !is_space(c),
{
}

/// The squares of the distances are never negative, and nothing where all numbers are the mean.
pub proof fn squares_are_not_negative(v: Seq<F64>, mean: F64, i: int)
    requires
        0 <= i < v.len(),
        v[i].minus(mean).is_finite(),
    ensures
        squares(v, mean).len() == v.len(),
        F64::zero().at_most(squares(v, mean)[i]),
        v[i] == mean && mean.is_finite() ==> squares(v, mean)[i].magnitude() == 0,
{
    let d = v[i].minus(mean);
    crate::binary64::order::signs_of_products(d, d);
    if v[i] == mean && mean.is_finite() {
        crate::binary64::order::difference_with_itself(mean);
        crate::binary64::order::zero_of_anything_is_zero(d, d);
    }
}

} // verus!
