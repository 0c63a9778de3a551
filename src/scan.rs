//! Decoding of scanned keys and the decision taken on each scanned entry.
use vstd::prelude::*;
use crate::error::VersionedError;
use crate::key::{hex8, hex_char, hex_n, lemma_hex_n_len, pow16, prefix_of, version_key_of, VersionRange};

verus! {

/// The byte `+`, which may lead a number's text.
pub const PLUS: u8 = 43;

pub open spec fn is_hex_digit(c: u8) -> bool {
    (48 <= c <= 57) || (65 <= c <= 70) || (97 <= c <= 102)
}

/// The value of a hex digit, either case.
pub open spec fn digit_value(c: u8) -> nat {
    if 48 <= c <= 57 {
        (c - 48) as nat
    } else if 65 <= c <= 70 {
        (c - 55) as nat
    } else {
        (c - 87) as nat
    }
}

/// The value of a string of hex digits, most significant first.
pub open spec fn digits_value(s: Seq<u8>) -> nat
    decreases s.len(),
{
    if s.len() == 0 {
        0
    } else {
        digits_value(s.drop_last()) * 16 + digit_value(s.last())
    }
}

/// The digits of a number's text: without a leading `+`, when more follows it.
pub open spec fn hex_digits(s: Seq<u8>) -> Seq<u8> {
    if s.len() > 1 && s[0] == PLUS {
        s.drop_first()
    } else {
        s
    }
}

/// The `u32` that the text `s` gives read in base 16, as `u32::from_str_radix`
/// reads it: an optional `+`, then one or more digits of either case.
pub open spec fn hex_value(s: Seq<u8>) -> Option<u32> {
    let d = hex_digits(s);
    if d.len() > 0 && (forall|i: int| 0 <= i < d.len() ==> is_hex_digit(#[trigger] d[i]))
        && digits_value(d) <= u32::MAX {
        Some(digits_value(d) as u32)
    } else {
        None
    }
}

proof fn lemma_digits_grow(s: Seq<u8>, i: int, j: int)
    requires
        0 <= i <= j <= s.len(),
    ensures
        digits_value(s.subrange(0, i)) <= digits_value(s.subrange(0, j)),
    decreases j - i,
{
    if i < j {
        lemma_digits_grow(s, i, j - 1);
        assert(s.subrange(0, j).drop_last() =~= s.subrange(0, j - 1));
    }
}

/// Reads `s` as a base-16 `u32`.
pub fn parse_hex_u32(s: &[u8]) -> (r: Option<u32>)
    ensures
        r == hex_value(s@),
{
    let start: usize = if s.len() > 1 && s[0] == PLUS {
        1
    } else {
        0
    };
    let ghost d = hex_digits(s@);
    assert(d =~= s@.subrange(start as int, s@.len() as int));
    if start >= s.len() {
        assert(d.len() == 0);
        return None;
    }
    let mut acc: u64 = 0;
    let mut over = false;
    let mut i: usize = start;
    while i < s.len()
        invariant
            start <= i <= s@.len(),
            d == s@.subrange(start as int, s@.len() as int),
            d == hex_digits(s@),
            forall|k: int| 0 <= k < i - start ==> is_hex_digit(#[trigger] d[k]),
            !over ==> acc == digits_value(d.subrange(0, i - start)) && acc <= u32::MAX,
            over ==> digits_value(d.subrange(0, i - start)) > u32::MAX,
        decreases s@.len() - i,
    {
        let c = s[i];
        assert(c == d[i - start]);
        if !((48 <= c && c <= 57) || (65 <= c && c <= 70) || (97 <= c && c <= 102)) {
            assert(!is_hex_digit(d[i - start]));
            return None;
        }
        let dv: u64 = if 48 <= c && c <= 57 {
            (c - 48) as u64
        } else if 65 <= c && c <= 70 {
            (c - 55) as u64
        } else {
            (c - 87) as u64
        };
        assert(d.subrange(0, i + 1 - start).drop_last() =~= d.subrange(0, i - start));
        if !over {
            let n = acc * 16 + dv;
            if n > 0xFFFF_FFFF {
                over = true;
            } else {
                acc = n;
            }
        }
        i = i + 1;
    }
    assert(d.subrange(0, d.len() as int) =~= d);
    if over {
        None
    } else {
        Some(acc as u32)
    }
}

/// Whether bytes are valid UTF-8, as `std::str::from_utf8` decides it.
pub uninterp spec fn utf8_valid(b: Seq<u8>) -> bool;

/// Relies on `std::str::from_utf8`: whether the bytes are valid UTF-8.
#[verifier::external_body]
fn is_utf8(b: &[u8]) -> (r: bool)
    ensures
        r == utf8_valid(b@),
{
    std::str::from_utf8(b).is_ok()
}

/// The version that a key's text after the field prefix (`base_len` bytes)
/// gives, where `utf8_ok` tells whether that text is UTF-8.
pub open spec fn suffix_version(key: Seq<u8>, base_len: nat, utf8_ok: bool) -> Result<
    u32,
    VersionedError,
> {
    if key.len() < base_len {
        Err(VersionedError::VersionEmpty)
    } else if !utf8_ok {
        Err(VersionedError::VersionUtf)
    } else {
        match hex_value(key.subrange(base_len as int, key.len() as int)) {
            Some(v) => Ok(v),
            None => Err(VersionedError::VersionParse),
        }
    }
}

/// Whether every byte is ASCII.
pub open spec fn is_ascii_bytes(b: Seq<u8>) -> bool {
    forall|i: int| 0 <= i < b.len() ==> b[i] < 128
}

/// Whether bytes are UTF-8: ASCII always is; other bytes as `from_utf8` decides.
pub open spec fn is_utf8_text(b: Seq<u8>) -> bool {
    is_ascii_bytes(b) || utf8_valid(b)
}

/// The version that a scanned key carries after its field prefix.
pub open spec fn key_version(key: Seq<u8>, base_len: nat) -> Result<u32, VersionedError> {
    suffix_version(
        key,
        base_len,
        key.len() >= base_len && is_utf8_text(key.subrange(base_len as int, key.len() as int)),
    )
}

/// Whether every byte of `b` is ASCII.
pub fn ascii_bytes(b: &[u8]) -> (r: bool)
    ensures
        r == is_ascii_bytes(b@),
{
    let mut i: usize = 0;
    while i < b.len()
        invariant
            i <= b@.len(),
            forall|k: int| 0 <= k < i ==> b@[k] < 128,
        decreases b@.len() - i,
    {
        if b[i] >= 128 {
            return false;
        }
        i = i + 1;
    }
    true
}

/// Reads the version after the first `base_len` bytes of `key`, given whether
/// that text is UTF-8.
pub fn version_from_key(key: &[u8], base_len: usize, utf8_ok: bool) -> (r: Result<
    u32,
    VersionedError,
>)
    ensures
        r == suffix_version(key@, base_len as nat, utf8_ok),
{
    if key.len() < base_len {
        return Err(VersionedError::VersionEmpty);
    }
    if !utf8_ok {
        return Err(VersionedError::VersionUtf);
    }
    let suffix = vstd::slice::slice_subrange(key, base_len, key.len());
    match parse_hex_u32(suffix) {
        Some(v) => Ok(v),
        None => Err(VersionedError::VersionParse),
    }
}

/// Reads the version after the first `base_len` bytes of `key`.
pub fn decode_version(key: &[u8], base_len: usize) -> (r: Result<u32, VersionedError>)
    ensures
        r == key_version(key@, base_len as nat),
{
    if key.len() < base_len {
        return Err(VersionedError::VersionEmpty);
    }
    let suffix = vstd::slice::slice_subrange(key, base_len, key.len());
    let ok = ascii_bytes(suffix) || is_utf8(suffix);
    version_from_key(key, base_len, ok)
}

/// What the scan does with one entry.
pub enum Step<T> {
    /// The key carries no version in range: go on to the next older entry.
    Skip,
    /// The newest version in range, and its decoded value.
    Found(u32, T),
    /// The newest version in range failed to decode: nothing is found.
    Stop,
}

/// Decides on one scanned entry of a field whose prefix is `base_len` bytes
/// long: a key without a version in `range` is skipped; otherwise the value is
/// decoded with `parse`, and the scan ends there, found or not.
pub fn scan_entry<T, F: Fn(&[u8]) -> Option<T>>(
    key: &[u8],
    value: &[u8],
    base_len: usize,
    range: &VersionRange,
    parse: &F,
) -> (r: Step<T>)
    requires
        forall|b: &[u8]| parse.requires((b,)),
    ensures
        match key_version(key@, base_len as nat) {
            Ok(v) => if range.spec_contains(v) {
                match r {
                    Step::Found(w, t) => w == v && parse.ensures((value,), Some(t)),
                    Step::Stop => parse.ensures((value,), None),
                    Step::Skip => false,
                }
            } else {
                r is Skip
            },
            Err(_) => r is Skip,
        },
{
    match decode_version(key, base_len) {
        Ok(v) => if range.contains(v) {
            match parse(value) {
                Some(t) => Step::Found(v, t),
                None => Step::Stop,
            }
        } else {
            Step::Skip
        },
        Err(_) => Step::Skip,
    }
}


proof fn lemma_pow16_positive(n: nat)
    ensures
        pow16(n) > 0,
    decreases n,
{
    if n > 0 {
        lemma_pow16_positive((n - 1) as nat);
    }
}

proof fn lemma_hex_n_digits(v: nat, n: nat)
    ensures
        forall|i: int| 0 <= i < n ==> is_hex_digit(#[trigger] hex_n(v, n)[i]),
        forall|i: int| 0 <= i < n ==> #[trigger] hex_n(v, n)[i] < 128,
        digits_value(hex_n(v, n)) == v % pow16(n),
    decreases n,
{
    lemma_hex_n_len(v, n);
    if n > 0 {
        let m = (n - 1) as nat;
        lemma_hex_n_digits(v / 16, m);
        lemma_hex_n_len(v / 16, m);
        lemma_pow16_positive(m);
        assert(hex_n(v, n).drop_last() =~= hex_n(v / 16, m));
        assert(digit_value(hex_char(v % 16)) == v % 16);
        vstd::arithmetic::div_mod::lemma_mod_breakdown(v as int, 16, pow16(m) as int);
    }
}

/// A version key read back after its field prefix gives the version it was
/// written with.
pub proof fn lemma_version_key_round_trip(ns: Seq<u8>, id: u32, field: Seq<u8>, ver: u32)
    ensures
        key_version(
            version_key_of(ns, id, field, ver),
            prefix_of(ns, id, field).len(),
        ) == Ok::<u32, VersionedError>(ver),
{
    let key = version_key_of(ns, id, field, ver);
    let p = prefix_of(ns, id, field);
    lemma_hex_n_digits(ver as nat, 8);
    lemma_hex_n_len(ver as nat, 8);
    reveal_with_fuel(pow16, 9);
    assert(pow16(8) == 4294967296);
    assert(key.subrange(p.len() as int, key.len() as int) =~= hex8(ver));
    assert(hex_digits(hex8(ver)) == hex8(ver));
}


/// `parse` gives `out` for the bytes `bytes`.
pub open spec fn parse_gives<T, F: Fn(&[u8]) -> Option<T>>(
    parse: F,
    bytes: Seq<u8>,
    out: Option<T>,
) -> bool {
    exists|b: &[u8]| b@ == bytes && #[trigger] parse.ensures((b,), out)
}

/// What the scan does after one step of the store's iterator.
pub enum Flow<T> {
    /// Go on to the next older entry.
    Continue,
    /// The scan ends with this result.
    Done(Result<Option<(u32, T)>, VersionedError>),
}

/// One step of the descending scan of a field whose prefix is `base_len`
/// bytes long, given what the store's iterator yielded: an exhausted scan
/// finds nothing; a store error ends the call with that error; an entry
/// without a version in `range` is passed over; the first entry in range
/// ends the scan, with its decoded value, or with nothing when `parse`
/// rejects it (older versions are not tried).
pub fn scan_step<T, F: Fn(&[u8]) -> Option<T>>(
    item: Option<Result<(Vec<u8>, Vec<u8>), sled::Error>>,
    base_len: usize,
    range: &VersionRange,
    parse: &F,
) -> (r: Flow<T>)
    requires
        forall|b: &[u8]| parse.requires((b,)),
    ensures
        match item {
            None => r == Flow::<T>::Done(Ok(None)),
            Some(Err(e)) => r == Flow::<T>::Done(Err(VersionedError::Sled(e))),
            Some(Ok((key, value))) => match key_version(key@, base_len as nat) {
                Ok(v) => if range.spec_contains(v) {
                    match r {
                        Flow::Done(Ok(Some((w, t)))) => w == v && parse_gives(
                            parse,
                            value@,
                            Some(t),
                        ),
                        Flow::Done(Ok(None)) => parse_gives(parse, value@, None),
                        _ => false,
                    }
                } else {
                    r is Continue
                },
                Err(_) => r is Continue,
            },
        },
{
    match item {
        None => Flow::Done(Ok(None)),
        Some(Err(e)) => Flow::Done(Err(VersionedError::Sled(e))),
        Some(Ok((key, value))) => {
            let bytes = value.as_slice();
            match scan_entry(key.as_slice(), bytes, base_len, range, parse) {
                Step::Skip => Flow::Continue,
                Step::Found(v, t) => {
                    assert(parse.ensures((bytes,), Some(t)));
                    Flow::Done(Ok(Some((v, t))))
                },
                Step::Stop => {
                    assert(parse.ensures((bytes,), None::<T>));
                    Flow::Done(Ok(None))
                },
            }
        },
    }
}

} // verus!
