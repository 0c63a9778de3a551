//! Counters: a `u32` stored as four big-endian bytes, advanced by one.
use vstd::prelude::*;
use crate::error::VersionedError;

verus! {

/// The counter value that stored bytes hold: exactly four bytes, big-endian.
pub open spec fn counter_value(b: Seq<u8>) -> Option<u32> {
    if b.len() == 4 {
        Some(((b[0] as u32) << 24u32) | ((b[1] as u32) << 16u32) | ((b[2] as u32) << 8u32) | (
        b[3] as u32))
    } else {
        None
    }
}

/// What the increment transform stores, given what was stored: `1` when
/// nothing was; the next value for a counter below `u32::MAX`; for a counter
/// at `u32::MAX`, empty bytes, which are no counter (it is exhausted); other
/// bytes unchanged.
pub open spec fn next_counter_of(old: Option<Seq<u8>>) -> Seq<u8> {
    match old {
        None => be_bytes(1),
        Some(b) => match counter_value(b) {
            Some(n) => if n < u32::MAX {
                be_bytes((n + 1) as u32)
            } else {
                Seq::empty()
            },
            None => b,
        },
    }
}

/// The four big-endian bytes of `v`.
pub open spec fn be_bytes(v: u32) -> Seq<u8> {
    seq![(v >> 24) as u8, (v >> 16) as u8, (v >> 8) as u8, v as u8]
}

pub proof fn lemma_be_round_trip(v: u32)
    ensures
        counter_value(be_bytes(v)) == Some(v),
{
    assert(((((v >> 24u32) as u8) as u32) << 24u32) | ((((v >> 16u32) as u8) as u32) << 16u32)
        | ((((v >> 8u32) as u8) as u32) << 8u32) | ((v as u8) as u32) == v) by (bit_vector);
}

/// Writes `v` as four big-endian bytes.
pub fn counter_bytes(v: u32) -> (r: Vec<u8>)
    ensures
        r@ == be_bytes(v),
{
    let r = vec![(v >> 24) as u8, (v >> 16) as u8, (v >> 8) as u8, v as u8];
    assert(r@ =~= be_bytes(v));
    r
}

/// Reads a counter from stored bytes.
pub fn read_counter(b: &[u8]) -> (r: Option<u32>)
    ensures
        r == counter_value(b@),
{
    if b.len() == 4 {
        let v: u32 = ((b[0] as u32) << 24u32) | ((b[1] as u32) << 16u32) | ((b[2] as u32) << 8u32)
            | (b[3] as u32);
        Some(v)
    } else {
        None
    }
}

/// The increment transform: what a counter holding `old` holds next.
pub fn increment(old: Option<&[u8]>) -> (r: Option<Vec<u8>>)
    ensures
        r matches Some(b) && b@ == next_counter_of(
            match old {
                Some(o) => Some(o@),
                None => None,
            },
        ),
{
    match old {
        None => Some(counter_bytes(1)),
        Some(b) => match read_counter(b) {
            Some(n) => if n < u32::MAX {
                Some(counter_bytes(n + 1))
            } else {
                Some(Vec::new())
            },
            None => Some(slice_to_owned(b)),
        },
    }
}

fn slice_to_owned(b: &[u8]) -> (r: Vec<u8>)
    ensures
        r@ == b@,
{
    let mut r: Vec<u8> = Vec::with_capacity(b.len());
    crate::key::push_bytes(&mut r, b);
    assert(r@ =~= b@);
    r
}

/// The outcome of an increment, given what the store returned for it: the
/// counter that the bytes hold; `CounterInvalid` when there are none or they
/// are no counter; a store error passed on.
pub open spec fn counter_outcome(fetched: Result<Option<Seq<u8>>, VersionedError>) -> Result<
    u32,
    VersionedError,
> {
    match fetched {
        Ok(Some(b)) => match counter_value(b) {
            Some(n) => Ok(n),
            None => Err(VersionedError::CounterInvalid),
        },
        Ok(None) => Err(VersionedError::CounterInvalid),
        Err(e) => Err(e),
    }
}

/// Bytes fetched from the store, as a value.
pub open spec fn fetched_view(fetched: Result<Option<Vec<u8>>, VersionedError>) -> Result<
    Option<Seq<u8>>,
    VersionedError,
> {
    match fetched {
        Ok(Some(b)) => Ok(Some(b@)),
        Ok(None) => Ok(None),
        Err(e) => Err(e),
    }
}

/// Reads the counter out of what the store returned for an increment.
pub fn counter_result(fetched: Result<Option<Vec<u8>>, VersionedError>) -> (r: Result<
    u32,
    VersionedError,
>)
    ensures
        r == counter_outcome(fetched_view(fetched)),
{
    match fetched {
        Ok(Some(b)) => match read_counter(b.as_slice()) {
            Some(n) => Ok(n),
            None => Err(VersionedError::CounterInvalid),
        },
        Ok(None) => Err(VersionedError::CounterInvalid),
        Err(e) => Err(e),
    }
}

/// A counter that the increment stores is never zero.
pub proof fn lemma_increment_positive(old: Option<Seq<u8>>)
    ensures
        counter_value(next_counter_of(old)) matches Some(n) ==> n >= 1,
{
    match old {
        None => lemma_be_round_trip(1),
        Some(b) => match counter_value(b) {
            Some(n) => if n < u32::MAX {
                lemma_be_round_trip((n + 1) as u32);
            },
            None => {},
        },
    }
}

/// What a counter holds after `n` increments, one after another, from `start`.
pub open spec fn after_increments(start: Option<Seq<u8>>, n: nat) -> Option<Seq<u8>>
    decreases n,
{
    if n == 0 {
        start
    } else {
        Some(next_counter_of(after_increments(start, (n - 1) as nat)))
    }
}

/// The value of a counter, an absent one counting as zero.
pub open spec fn start_value(start: Option<Seq<u8>>) -> Option<nat> {
    match start {
        None => Some(0),
        Some(b) => match counter_value(b) {
            Some(k) => Some(k as nat),
            None => None,
        },
    }
}

/// Increments applied one after another to a counter holding `k` (or none,
/// for `k` zero) leave it at `k + n`, and the `i`-th of them hands out
/// `k + i`: each value from `k + 1` to `k + n` exactly once.
pub proof fn lemma_serial_increments(start: Option<Seq<u8>>, k: nat, n: nat)
    requires
        start_value(start) == Some(k),
        k + n <= u32::MAX,
    ensures
        n > 0 ==> counter_value(after_increments(start, n)->0) == Some((k + n) as u32),
        forall|i: nat|
            1 <= i <= n ==> counter_value((#[trigger] after_increments(start, i))->0) == Some(
                (k + i) as u32,
            ),
        forall|i: nat, j: nat|
            1 <= i <= n && 1 <= j <= n && i != j ==> counter_value(
                (#[trigger] after_increments(start, i))->0,
            ) != counter_value((#[trigger] after_increments(start, j))->0),
    decreases n,
{
    if n > 0 {
        lemma_serial_increments(start, k, (n - 1) as nat);
        let prev = after_increments(start, (n - 1) as nat);
        if n == 1 {
            match start {
                None => lemma_be_round_trip(1),
                Some(b) => lemma_be_round_trip((k + 1) as u32),
            }
        } else {
            lemma_be_round_trip((k + n) as u32);
        }
        assert(counter_value(after_increments(start, n)->0) == Some((k + n) as u32));
    }
    assert forall|i: nat|
        1 <= i <= n implies counter_value((#[trigger] after_increments(start, i))->0) == Some(
            (k + i) as u32,
        ) by {
        if i < n {
            lemma_serial_increments(start, k, (n - 1) as nat);
        }
    }
}

} // verus!
