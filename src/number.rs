//! Decimal text to integers, and the decoders of time and port values.
use vstd::prelude::*;
use vstd::utf8::valid_utf8;

verus! {

pub open spec fn is_digit(b: u8) -> bool {
    48 <= b && b <= 57
}

pub open spec fn all_digits(s: Seq<u8>) -> bool {
    forall|k: int| 0 <= k < s.len() ==> is_digit(#[trigger] s[k])
}

/// The value of a run of decimal digits.
pub open spec fn digits_value(s: Seq<u8>) -> nat
    decreases s.len(),
{
    if s.len() == 0 {
        0
    } else {
        digits_value(s.drop_last()) * 10 + (s.last() - 48) as nat
    }
}

/// Text of an unsigned integer: an optional `+`, then one or more digits.
pub open spec fn unsigned_text(s: Seq<u8>) -> Option<nat> {
    let d = if s.len() > 0 && s[0] == 43u8 { s.drop_first() } else { s };
    if d.len() > 0 && all_digits(d) {
        Some(digits_value(d))
    } else {
        None
    }
}

/// Text of a signed integer: an optional `+` or `-`, then one or more digits.
pub open spec fn signed_text(s: Seq<u8>) -> Option<int> {
    if s.len() > 0 && s[0] == 45u8 {
        let d = s.drop_first();
        if d.len() > 0 && all_digits(d) {
            Some(-digits_value(d))
        } else {
            None
        }
    } else {
        match unsigned_text(s) {
            Some(v) => Some(v as int),
            None => None,
        }
    }
}

pub open spec fn u64_text(s: Seq<u8>) -> Option<u64> {
    match unsigned_text(s) {
        Some(v) => if v <= u64::MAX { Some(v as u64) } else { None },
        None => None,
    }
}

pub open spec fn u16_text(s: Seq<u8>) -> Option<u16> {
    match unsigned_text(s) {
        Some(v) => if v <= u16::MAX { Some(v as u16) } else { None },
        None => None,
    }
}

pub open spec fn i32_text(s: Seq<u8>) -> Option<i32> {
    match signed_text(s) {
        Some(v) => if i32::MIN <= v <= i32::MAX { Some(v as i32) } else { None },
        None => None,
    }
}

/// Why a text is not an integer of the asked type.
#[derive(Clone, Copy, Debug, PartialEq, Eq, Structural)]
pub enum IntError {
    /// The bytes are not valid UTF-8.
    Encoding,
    /// The text is not an optional sign and one or more digits.
    Digits,
    /// The number does not fit the type.
    Overflow,
}

/// The error for text `s` that is not an integer of the asked type, where
/// `syntax` says whether it has the form of one.
pub open spec fn int_error(s: Seq<u8>, syntax: bool) -> IntError {
    if !valid_utf8(s) {
        IntError::Encoding
    } else if !syntax {
        IntError::Digits
    } else {
        IntError::Overflow
    }
}

/// The value `v` of text `s`, or why there is none.
pub open spec fn int_result<T>(v: Option<T>, s: Seq<u8>, syntax: bool) -> Result<T, IntError> {
    match v {
        Some(x) => Ok(x),
        None => Err(int_error(s, syntax)),
    }
}

/// Seconds between the NTP epoch (1900) and the Unix epoch (1970).
pub const NTP_EPOCH_OFFSET: u64 = 2208988800;

/// A time value of a `t=` line: the text `0` stands for `sentinel`; any
/// other value is an NTP second count, returned as a Unix second count.
/// A count before the Unix epoch is malformed.
pub open spec fn time_text(s: Seq<u8>, sentinel: u64) -> Option<u64> {
    if s == seq![48u8] {
        Some(sentinel)
    } else {
        match u64_text(s) {
            Some(v) => if v >= NTP_EPOCH_OFFSET { Some((v - NTP_EPOCH_OFFSET) as u64) } else { None },
            None => None,
        }
    }
}

/// Index of the first `/` in `s` at or after `k`, or `s.len()` if there is none.
pub open spec fn first_slash(s: Seq<u8>, k: int) -> int
    decreases s.len() - k,
{
    if k >= s.len() {
        s.len() as int
    } else if s[k] == 47u8 {
        k
    } else {
        first_slash(s, k + 1)
    }
}

/// The port field of an `m=` line: `port` or `port/count`, the count being 1
/// when absent.
pub open spec fn port_text(s: Seq<u8>) -> Option<(u16, i32)> {
    let idx = first_slash(s, 0);
    if idx < s.len() {
        match (u16_text(s.subrange(0, idx)), i32_text(s.subrange(idx + 1, s.len() as int))) {
            (Some(p), Some(n)) => Some((p, n)),
            _ => None,
        }
    } else {
        match u16_text(s) {
            Some(p) => Some((p, 1i32)),
            None => None,
        }
    }
}

proof fn lemma_prefix_value(s: Seq<u8>, k: int)
    requires
        0 <= k <= s.len(),
        all_digits(s),
    ensures
        digits_value(s.subrange(0, k)) <= digits_value(s),
    decreases s.len(),
{
    if k < s.len() {
        assert(s.drop_last() =~= s.subrange(0, s.len() - 1));
        assert(s.drop_last().subrange(0, k) =~= s.subrange(0, k));
        lemma_prefix_value(s.drop_last(), k);
    } else {
        assert(s.subrange(0, k) =~= s);
    }
}

/// The value of the digits `s[from..to]` if they are one or more digits with
/// a value of at most `max`.
fn digits_upto(s: &[u8], from: usize, to: usize, max: u64) -> (r: Option<u64>)
    requires
        from <= to <= s@.len(),
    ensures
        ({
            let d = s@.subrange(from as int, to as int);
            r == (if d.len() > 0 && all_digits(d) && digits_value(d) <= max {
                Some(digits_value(d) as u64)
            } else {
                None
            })
        }),
{
    let ghost d = s@.subrange(from as int, to as int);
    if from == to {
        return None;
    }
    let mut acc: u64 = 0;
    let mut k: usize = from;
    while k < to
        invariant
            from <= k <= to <= s@.len(),
            d == s@.subrange(from as int, to as int),
            all_digits(s@.subrange(from as int, k as int)),
            acc as nat == digits_value(s@.subrange(from as int, k as int)),
            acc <= max,
        decreases to - k,
    {
        let b = s[k];
        let ghost pre = s@.subrange(from as int, k as int);
        let ghost next = s@.subrange(from as int, k + 1);
        assert(next.drop_last() =~= pre);
        if b < 48 || b > 57 {
            assert(d[k - from] == b);
            return None;
        }
        assert(all_digits(next)) by {
            assert forall|j: int| 0 <= j < next.len() implies is_digit(#[trigger] next[j]) by {
                if j < pre.len() {
                    assert(next[j] == pre[j]);
                }
            }
        }
        let digit: u64 = (b - 48) as u64;
        let big = digit > max || acc > (max - digit) / 10;
        if big {
            assert(digits_value(next) > max) by (nonlinear_arith)
                requires
                    digits_value(next) == acc * 10 + digit,
                    digit > max || acc > (max - digit) / 10,
                    digit <= 9,
            ;
            assert(d.subrange(0, (k + 1 - from) as int) =~= next);
            proof {
                if all_digits(d) {
                    lemma_prefix_value(d, (k + 1 - from) as int);
                }
            }
            return None;
        }
        assert(acc * 10 + digit <= max) by (nonlinear_arith)
            requires
                acc <= (max - digit) / 10,
                digit <= max,
        ;
        acc = acc * 10 + digit;
        k = k + 1;
    }
    assert(d =~= s@.subrange(from as int, k as int));
    Some(acc)
}

/// Unsigned integer text in `s[from..to]` with a value of at most `max`.
fn unsigned_upto(s: &[u8], from: usize, to: usize, max: u64) -> (r: Option<u64>)
    requires
        from <= to <= s@.len(),
    ensures
        r == (match unsigned_text(s@.subrange(from as int, to as int)) {
            Some(v) => if v <= max { Some(v as u64) } else { None },
            None => None,
        }),
{
    let ghost t = s@.subrange(from as int, to as int);
    if from < to && s[from] == 43u8 {
        assert(t.drop_first() =~= s@.subrange(from + 1, to as int));
        digits_upto(s, from + 1, to, max)
    } else {
        digits_upto(s, from, to, max)
    }
}

/// Relies on std::str::from_utf8: it succeeds exactly on valid UTF-8.
#[verifier::external_body]
fn is_utf8(s: &[u8]) -> (r: bool)
    ensures
        r == valid_utf8(s@),
{
    std::str::from_utf8(s).is_ok()
}

/// Whether `s[from..to]` is one or more digits.
fn only_digits(s: &[u8], from: usize, to: usize) -> (r: bool)
    requires
        from <= to <= s@.len(),
    ensures
        r == ({
            let d = s@.subrange(from as int, to as int);
            d.len() > 0 && all_digits(d)
        }),
{
    let ghost d = s@.subrange(from as int, to as int);
    let mut k: usize = from;
    while k < to
        invariant
            from <= k <= to <= s@.len(),
            d == s@.subrange(from as int, to as int),
            forall|j: int| from <= j < k ==> is_digit(#[trigger] s@[j]),
        decreases to - k,
    {
        if s[k] < 48 || s[k] > 57 {
            assert(!is_digit(d[k - from]));
            return false;
        }
        k = k + 1;
    }
    assert forall|j: int| 0 <= j < d.len() implies is_digit(#[trigger] d[j]) by {
        assert(d[j] == s@[from + j]);
    }
    from < to
}

/// Why `s[from..to]`, which is not an integer of the asked type, is not one;
/// `signed` says whether a leading `-` is allowed.
fn classify(s: &[u8], from: usize, to: usize, signed: bool) -> (r: IntError)
    requires
        from <= to <= s@.len(),
    ensures
        ({
            let t = s@.subrange(from as int, to as int);
            r == int_error(t, if signed { signed_text(t) is Some } else { unsigned_text(t) is Some })
        }),
{
    let ghost t = s@.subrange(from as int, to as int);
    if !is_utf8(&s[from..to]) {
        return IntError::Encoding;
    }
    let signs = from < to && (s[from] == 43u8 || (signed && s[from] == 45u8));
    let syntax = if signs {
        assert(t.drop_first() =~= s@.subrange(from + 1, to as int));
        only_digits(s, from + 1, to)
    } else {
        only_digits(s, from, to)
    };
    if syntax {
        IntError::Overflow
    } else {
        IntError::Digits
    }
}

/// Reads `s[from..to]` as a `u64`.
pub fn to_u64(s: &[u8], from: usize, to: usize) -> (r: Result<u64, IntError>)
    requires
        from <= to <= s@.len(),
    ensures
        ({
            let t = s@.subrange(from as int, to as int);
            r == int_result(u64_text(t), t, unsigned_text(t) is Some)
        }),
{
    match unsigned_upto(s, from, to, u64::MAX) {
        Some(v) => Ok(v),
        None => Err(classify(s, from, to, false)),
    }
}

/// Reads `s[from..to]` as a `u16`.
pub fn to_u16(s: &[u8], from: usize, to: usize) -> (r: Result<u16, IntError>)
    requires
        from <= to <= s@.len(),
    ensures
        ({
            let t = s@.subrange(from as int, to as int);
            r == int_result(u16_text(t), t, unsigned_text(t) is Some)
        }),
{
    match unsigned_upto(s, from, to, 65535) {
        Some(v) => Ok(v as u16),
        None => Err(classify(s, from, to, false)),
    }
}

/// Reads `s[from..to]` as an `i32`.
pub fn to_i32(s: &[u8], from: usize, to: usize) -> (r: Result<i32, IntError>)
    requires
        from <= to <= s@.len(),
    ensures
        ({
            let t = s@.subrange(from as int, to as int);
            r == int_result(i32_text(t), t, signed_text(t) is Some)
        }),
{
    let ghost t = s@.subrange(from as int, to as int);
    let v = if from < to && s[from] == 45u8 {
        assert(t.drop_first() =~= s@.subrange(from + 1, to as int));
        match digits_upto(s, from + 1, to, 2147483648) {
            Some(m) => Some((0i64 - m as i64) as i32),
            None => None,
        }
    } else {
        match unsigned_upto(s, from, to, 2147483647) {
            Some(v) => Some(v as i32),
            None => None,
        }
    };
    match v {
        Some(v) => Ok(v),
        None => Err(classify(s, from, to, true)),
    }
}

/// Decodes the time value in `s[from..to]`, `0` giving `sentinel`.
pub fn decode_time(s: &[u8], from: usize, to: usize, sentinel: u64) -> (r: Option<u64>)
    requires
        from <= to <= s@.len(),
    ensures
        r == time_text(s@.subrange(from as int, to as int), sentinel),
{
    let ghost t = s@.subrange(from as int, to as int);
    if to - from == 1 && s[from] == 48u8 {
        assert(t =~= seq![48u8]);
        return Some(sentinel);
    }
    assert(t != seq![48u8]) by {
        if t == seq![48u8] {
            assert(t[0] == s[from as int]);
        }
    }
    match to_u64(s, from, to) {
        Ok(v) => if v >= NTP_EPOCH_OFFSET { Some(v - NTP_EPOCH_OFFSET) } else { None },
        Err(_) => None,
    }
}

/// Decodes the port field in `s[from..to]`: `port` or `port/count`.
pub fn decode_port(s: &[u8], from: usize, to: usize) -> (r: Option<(u16, i32)>)
    requires
        from <= to <= s@.len(),
    ensures
        r == port_text(s@.subrange(from as int, to as int)),
{
    let ghost t = s@.subrange(from as int, to as int);
    let mut k: usize = from;
    while k < to && s[k] != 47u8
        invariant
            from <= k <= to <= s@.len(),
            t == s@.subrange(from as int, to as int),
            first_slash(t, 0) == first_slash(t, k - from),
        decreases to - k,
    {
        assert(t[k - from] == s[k as int]);
        k = k + 1;
    }
    assert(first_slash(t, k - from) == k - from) by {
        if k < to {
            assert(t[k - from] == s[k as int]);
        }
    }
    if k < to {
        assert(t.subrange(0, k - from) =~= s@.subrange(from as int, k as int));
        assert(t.subrange(k - from + 1, t.len() as int) =~= s@.subrange(k + 1, to as int));
        match (to_u16(s, from, k), to_i32(s, k + 1, to)) {
            (Ok(p), Ok(n)) => Some((p, n)),
            _ => None,
        }
    } else {
        match to_u16(s, from, to) {
            Ok(p) => Some((p, 1i32)),
            Err(_) => None,
        }
    }
}

} // verus!
