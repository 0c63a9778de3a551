//! Key encoding: fixed-width uppercase hex for entity IDs and versions, so
//! that byte order of keys follows numeric order.
use vstd::prelude::*;
use vstd::string::StringSliceAdditionalSpecFns;

verus! {

/// The separator between key segments, `/`.
pub const SLASH: u8 = 47;

/// 16 to the power `n`.
pub open spec fn pow16(n: nat) -> nat
    decreases n,
{
    if n == 0 {
        1
    } else {
        16 * pow16((n - 1) as nat)
    }
}

/// The uppercase hex digit for `d` (below 16).
pub open spec fn hex_char(d: nat) -> u8 {
    if d < 10 {
        (48 + d) as u8
    } else {
        (55 + d) as u8
    }
}

/// The lowest `n` hex digits of `v`, most significant first, zero-padded.
pub open spec fn hex_n(v: nat, n: nat) -> Seq<u8>
    decreases n,
{
    if n == 0 {
        Seq::empty()
    } else {
        hex_n(v / 16, (n - 1) as nat).push(hex_char(v % 16))
    }
}

/// The 8-digit uppercase hex text of `v`.
pub open spec fn hex8(v: u32) -> Seq<u8> {
    hex_n(v as nat, 8)
}

/// `{namespace}/{entity:08X}/{field}`: the key of a counter.
pub open spec fn counter_key_of(ns: Seq<u8>, id: u32, field: Seq<u8>) -> Seq<u8> {
    ns + seq![SLASH] + hex8(id) + seq![SLASH] + field
}

/// `{namespace}/{entity:08X}/{field}/`: the prefix shared by all versions of a field.
pub open spec fn prefix_of(ns: Seq<u8>, id: u32, field: Seq<u8>) -> Seq<u8> {
    counter_key_of(ns, id, field).push(SLASH)
}

/// `{namespace}/{entity:08X}/{field}/{version:08X}`: the key of one version.
pub open spec fn version_key_of(ns: Seq<u8>, id: u32, field: Seq<u8>, ver: u32) -> Seq<u8> {
    prefix_of(ns, id, field) + hex8(ver)
}

/// Strict lexicographic order on byte strings, as the store orders its keys.
pub open spec fn lex_lt(x: Seq<u8>, y: Seq<u8>) -> bool {
    (exists|i: int|
        0 <= i < x.len() && i < y.len() && #[trigger] x.subrange(0, i) == y.subrange(0, i) && x[i]
            < y[i]) || (x.len() < y.len() && x == y.subrange(0, x.len() as int))
}

pub proof fn lemma_hex_n_len(v: nat, n: nat)
    ensures
        hex_n(v, n).len() == n,
    decreases n,
{
    if n > 0 {
        lemma_hex_n_len(v / 16, (n - 1) as nat);
    }
}

proof fn lemma_hex_n_order(a: nat, b: nat, n: nat) -> (i: int)
    requires
        a < b < pow16(n),
    ensures
        0 <= i < n,
        hex_n(a, n).subrange(0, i) == hex_n(b, n).subrange(0, i),
        hex_n(a, n)[i] < hex_n(b, n)[i],
    decreases n,
{
    let m = (n - 1) as nat;
    let p = pow16(m);
    lemma_hex_n_len(a / 16, m);
    lemma_hex_n_len(b / 16, m);
    assert(a / 16 <= b / 16) by (nonlinear_arith)
        requires
            a < b,
    ;
    if a / 16 < b / 16 {
        assert(b / 16 < p) by (nonlinear_arith)
            requires
                b < 16 * p,
        ;
        let i = lemma_hex_n_order(a / 16, b / 16, m);
        assert(hex_n(a, n).subrange(0, i) =~= hex_n(a / 16, m).subrange(0, i));
        assert(hex_n(b, n).subrange(0, i) =~= hex_n(b / 16, m).subrange(0, i));
        i
    } else {
        assert(a % 16 < b % 16) by (nonlinear_arith)
            requires
                a < b,
                a / 16 == b / 16,
        ;
        assert(hex_n(a, n).subrange(0, m as int) =~= hex_n(b, n).subrange(0, m as int));
        m as int
    }
}

proof fn lemma_lex_lt_frame(p: Seq<u8>, x: Seq<u8>, y: Seq<u8>, s: Seq<u8>, t: Seq<u8>, i: int)
    requires
        0 <= i < x.len(),
        x.len() == y.len(),
        x.subrange(0, i) == y.subrange(0, i),
        x[i] < y[i],
    ensures
        lex_lt(p + x + s, p + y + t),
{
    let xx = p + x + s;
    let yy = p + y + t;
    let j = p.len() + i;
    assert(xx.subrange(0, j) =~= p + x.subrange(0, i));
    assert(yy.subrange(0, j) =~= p + y.subrange(0, i));
    assert(xx[j] == x[i]);
    assert(yy[j] == y[i]);
}

/// The hex text of entity IDs sorts as the IDs do: for `a < b`, every key of
/// entity `a` sorts before every key of entity `b` in the same namespace, for
/// counter keys and version keys alike.
pub proof fn lemma_entity_order(ns: Seq<u8>, a: u32, b: u32, fa: Seq<u8>, fb: Seq<u8>, va: u32, vb: u32)
    requires
        a < b,
    ensures
        lex_lt(counter_key_of(ns, a, fa), counter_key_of(ns, b, fb)),
        lex_lt(version_key_of(ns, a, fa, va), version_key_of(ns, b, fb, vb)),
{
    reveal_with_fuel(pow16, 9);
    assert(pow16(8) == 4294967296);
    let i = lemma_hex_n_order(a as nat, b as nat, 8);
    lemma_hex_n_len(a as nat, 8);
    lemma_hex_n_len(b as nat, 8);
    let p = ns + seq![SLASH];
    let sa = seq![SLASH] + fa;
    let sb = seq![SLASH] + fb;
    lemma_lex_lt_frame(p, hex8(a), hex8(b), sa, sb, i);
    assert(counter_key_of(ns, a, fa) =~= p + hex8(a) + sa);
    assert(counter_key_of(ns, b, fb) =~= p + hex8(b) + sb);
    let ta = sa.push(SLASH) + hex8(va);
    let tb = sb.push(SLASH) + hex8(vb);
    lemma_lex_lt_frame(p, hex8(a), hex8(b), ta, tb, i);
    assert(version_key_of(ns, a, fa, va) =~= p + hex8(a) + ta);
    assert(version_key_of(ns, b, fb, vb) =~= p + hex8(b) + tb);
}

/// Versions of one field sort as their numbers do.
pub proof fn lemma_version_order(ns: Seq<u8>, id: u32, field: Seq<u8>, a: u32, b: u32)
    requires
        a < b,
    ensures
        lex_lt(version_key_of(ns, id, field, a), version_key_of(ns, id, field, b)),
{
    reveal_with_fuel(pow16, 9);
    assert(pow16(8) == 4294967296);
    let i = lemma_hex_n_order(a as nat, b as nat, 8);
    lemma_hex_n_len(a as nat, 8);
    lemma_hex_n_len(b as nat, 8);
    let p = prefix_of(ns, id, field);
    lemma_lex_lt_frame(p, hex8(a), hex8(b), Seq::empty(), Seq::empty(), i);
    assert(p + hex8(a) + Seq::<u8>::empty() =~= version_key_of(ns, id, field, a));
    assert(p + hex8(b) + Seq::<u8>::empty() =~= version_key_of(ns, id, field, b));
}


/// Appends `b` to `out`.
pub fn push_bytes(out: &mut Vec<u8>, b: &[u8])
    ensures
        final(out)@ == old(out)@ + b@,
{
    let mut i: usize = 0;
    while i < b.len()
        invariant
            i <= b@.len(),
            out@ == old(out)@ + b@.subrange(0, i as int),
        decreases b@.len() - i,
    {
        out.push(b[i]);
        i = i + 1;
        assert(b@.subrange(0, i as int) =~= b@.subrange(0, i - 1).push(b@[i - 1]));
    }
    assert(b@.subrange(0, b@.len() as int) =~= b@);
}

/// Appends the lowest `n` hex digits of `v`, most significant first.
pub fn push_hex(out: &mut Vec<u8>, v: u32, n: u32)
    ensures
        final(out)@ == old(out)@ + hex_n(v as nat, n as nat),
    decreases n,
{
    if n > 0 {
        push_hex(out, v / 16, n - 1);
        let d = v % 16;
        let c: u8 = if d < 10 {
            48 + d as u8
        } else {
            55 + d as u8
        };
        out.push(c);
        assert(final(out)@ =~= old(out)@ + hex_n(v as nat, n as nat));
    }
}

/// The key of a counter: `{namespace}/{entity:08X}/{field}`.
pub fn counter_key(ns: &str, id: u32, field: &str) -> (r: Vec<u8>)
    ensures
        r@ == counter_key_of(ns.spec_bytes(), id, field.spec_bytes()),
{
    let mut r: Vec<u8> = Vec::with_capacity(32);
    push_bytes(&mut r, ns.as_bytes());
    r.push(SLASH);
    push_hex(&mut r, id, 8);
    r.push(SLASH);
    push_bytes(&mut r, field.as_bytes());
    assert(r@ =~= counter_key_of(ns.spec_bytes(), id, field.spec_bytes()));
    r
}

/// The prefix shared by all versions of a field: `{namespace}/{entity:08X}/{field}/`.
pub fn field_prefix(ns: &str, id: u32, field: &str) -> (r: Vec<u8>)
    ensures
        r@ == prefix_of(ns.spec_bytes(), id, field.spec_bytes()),
{
    let mut r = counter_key(ns, id, field);
    r.push(SLASH);
    r
}

/// The key of one version of a field: `{namespace}/{entity:08X}/{field}/{version:08X}`.
pub fn version_key(ns: &str, id: u32, field: &str, ver: u32) -> (r: Vec<u8>)
    ensures
        r@ == version_key_of(ns.spec_bytes(), id, field.spec_bytes(), ver),
{
    let mut r = field_prefix(ns, id, field);
    push_hex(&mut r, ver, 8);
    r
}

/// One end of a range of versions.
#[derive(Clone, Copy, Debug, PartialEq, Eq, Structural)]
pub enum VersionBound {
    Included(u32),
    Excluded(u32),
    Unbounded,
}

/// A range of versions, each end inclusive, exclusive or open.
#[derive(Clone, Copy, Debug, PartialEq, Eq, Structural)]
pub struct VersionRange {
    pub start: VersionBound,
    pub end: VersionBound,
}

/// One end of a range of keys, as handed to the store.
#[derive(Debug)]
pub enum KeyBound {
    Included(Vec<u8>),
    Excluded(Vec<u8>),
}

/// A key bound as bytes: inclusive or not, and the key.
pub open spec fn key_bound_view(b: KeyBound) -> (bool, Seq<u8>) {
    match b {
        KeyBound::Included(k) => (true, k@),
        KeyBound::Excluded(k) => (false, k@),
    }
}

pub open spec fn above_start(start: VersionBound, v: u32) -> bool {
    match start {
        VersionBound::Included(s) => s <= v,
        VersionBound::Excluded(s) => s < v,
        VersionBound::Unbounded => true,
    }
}

pub open spec fn below_end(end: VersionBound, v: u32) -> bool {
    match end {
        VersionBound::Included(e) => v <= e,
        VersionBound::Excluded(e) => v < e,
        VersionBound::Unbounded => true,
    }
}

impl VersionRange {
    /// Whether `v` lies in the range.
    pub open spec fn spec_contains(self, v: u32) -> bool {
        above_start(self.start, v) && below_end(self.end, v)
    }

    /// Every version: `..`.
    pub fn full() -> (r: VersionRange)
        ensures
            forall|v: u32| r.spec_contains(v),
    {
        VersionRange { start: VersionBound::Unbounded, end: VersionBound::Unbounded }
    }

    /// Whether `v` lies in the range.
    pub fn contains(&self, v: u32) -> (r: bool)
        ensures
            r == self.spec_contains(v),
    {
        let lo_ok = match self.start {
            VersionBound::Included(s) => s <= v,
            VersionBound::Excluded(s) => s < v,
            VersionBound::Unbounded => true,
        };
        let hi_ok = match self.end {
            VersionBound::Included(e) => v <= e,
            VersionBound::Excluded(e) => v < e,
            VersionBound::Unbounded => true,
        };
        lo_ok && hi_ok
    }
}

/// The lower key bound for a range of versions under `prefix`; an open end
/// becomes the sentinel `00000000`, included.
pub open spec fn lo_key_of(prefix: Seq<u8>, start: VersionBound) -> (bool, Seq<u8>) {
    match start {
        VersionBound::Included(v) => (true, prefix + hex8(v)),
        VersionBound::Excluded(v) => (false, prefix + hex8(v)),
        VersionBound::Unbounded => (true, prefix + hex8(0)),
    }
}

/// The upper key bound for a range of versions under `prefix`; an open end
/// becomes the sentinel `FFFFFFFF`, included.
pub open spec fn hi_key_of(prefix: Seq<u8>, end: VersionBound) -> (bool, Seq<u8>) {
    match end {
        VersionBound::Included(v) => (true, prefix + hex8(v)),
        VersionBound::Excluded(v) => (false, prefix + hex8(v)),
        VersionBound::Unbounded => (true, prefix + hex8(0xFFFF_FFFF)),
    }
}

fn bound_key(prefix: &Vec<u8>, b: VersionBound, open_value: u32) -> (r: KeyBound)
    ensures
        key_bound_view(r) == (match b {
            VersionBound::Included(v) => (true, prefix@ + hex8(v)),
            VersionBound::Excluded(v) => (false, prefix@ + hex8(v)),
            VersionBound::Unbounded => (true, prefix@ + hex8(open_value)),
        }),
{
    let mut k = prefix.clone();
    match b {
        VersionBound::Included(v) => {
            push_hex(&mut k, v, 8);
            KeyBound::Included(k)
        },
        VersionBound::Excluded(v) => {
            push_hex(&mut k, v, 8);
            KeyBound::Excluded(k)
        },
        VersionBound::Unbounded => {
            push_hex(&mut k, open_value, 8);
            KeyBound::Included(k)
        },
    }
}

/// The pair of key bounds that covers the versions of `range` under `prefix`.
pub fn key_bounds(prefix: &Vec<u8>, range: &VersionRange) -> (r: (KeyBound, KeyBound))
    ensures
        key_bound_view(r.0) == lo_key_of(prefix@, range.start),
        key_bound_view(r.1) == hi_key_of(prefix@, range.end),
{
    (bound_key(prefix, range.start, 0), bound_key(prefix, range.end, 0xFFFF_FFFF))
}

} // verus!
