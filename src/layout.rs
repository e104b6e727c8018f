//! Slots of a byte buffer: slot `k` of a buffer of `sz`-byte slots is the
//! byte range `[k * sz, k * sz + sz)`.
use vstd::prelude::*;

verus! {

/// The bytes of slot `k`.
pub open spec fn slot(buf: Seq<u8>, sz: nat, k: int) -> Seq<u8> {
    buf.subrange(k * sz, k * sz + sz)
}

/// `buf` with the bytes from offset `at` on replaced by `bytes`.
pub open spec fn splice(buf: Seq<u8>, at: int, bytes: Seq<u8>) -> Seq<u8> {
    buf.subrange(0, at) + bytes + buf.subrange(at + bytes.len(), buf.len() as int)
}

/// Slot `k` ends no later than slot `n` starts.
pub proof fn lemma_slot_before(sz: nat, k: int, n: int)
    requires
        0 <= k < n,
    ensures
        0 <= k * sz,
        k * sz + sz <= n * sz,
{
    assert(0 <= k * sz) by (nonlinear_arith)
        requires
            0 <= k,
    ;
    assert((n - k) * sz >= sz) by (nonlinear_arith)
        requires
            n - k >= 1,
    ;
    assert((n - k) * sz == n * sz - k * sz) by (nonlinear_arith);
}

/// Slot `k + 1` starts where slot `k` ends.
pub proof fn lemma_slot_next(sz: nat, k: int)
    ensures
        (k + 1) * sz == k * sz + sz,
{
    assert((k + 1) * sz == k * sz + sz) by (nonlinear_arith);
}

/// Writing one slot changes that slot only.
pub proof fn lemma_slot_of_splice(buf: Seq<u8>, sz: nat, n: nat, k: int, bytes: Seq<u8>, m: int)
    requires
        buf.len() == n * sz,
        bytes.len() == sz,
        0 <= k < n,
        0 <= m < n,
    ensures
        slot(splice(buf, k * sz, bytes), sz, m) == if m == k {
            bytes
        } else {
            slot(buf, sz, m)
        },
{
    lemma_slot_before(sz, k, n as int);
    lemma_slot_before(sz, m, n as int);
    if m < k {
        lemma_slot_before(sz, m, k);
    } else if k < m {
        lemma_slot_before(sz, k, m);
    }
    let s = splice(buf, k * sz, bytes);
    if m == k {
        assert(slot(s, sz, m) =~= bytes);
    } else {
        assert(slot(s, sz, m) =~= slot(buf, sz, m));
    }
}

/// Overwrites the bytes from offset `at` on with `bytes`.
pub fn write_bytes(buf: &mut Vec<u8>, at: usize, bytes: &Vec<u8>)
    requires
        at + bytes@.len() <= old(buf)@.len(),
    ensures
        final(buf)@ == splice(old(buf)@, at as int, bytes@),
{
    let ghost before = buf@;
    let len = buf.len();
    let n = bytes.len();
    let mut j: usize = 0;
    while j < n
        invariant
            j <= n,
            n == bytes@.len(),
            at + n <= buf@.len(),
            buf@.len() == before.len(),
            len == buf@.len(),
            forall|p: int|
                0 <= p < buf@.len() ==> buf@[p] == if at <= p < at + j {
                    bytes@[p - at]
                } else {
                    before[p]
                },
        decreases n - j,
    {
        buf.set(at + j, bytes[j]);
        j += 1;
    }
    assert(buf@ =~= splice(before, at as int, bytes@));
}

/// Overwrites `n` bytes from offset `at` on with zeros.
pub fn zero_bytes(buf: &mut Vec<u8>, at: usize, n: usize)
    requires
        at + n <= old(buf)@.len(),
    ensures
        final(buf)@ == splice(old(buf)@, at as int, Seq::new(n as nat, |_i: int| 0u8)),
{
    let ghost before = buf@;
    let len = buf.len();
    let mut j: usize = 0;
    while j < n
        invariant
            j <= n,
            at + n <= buf@.len(),
            buf@.len() == before.len(),
            len == buf@.len(),
            forall|p: int|
                0 <= p < buf@.len() ==> buf@[p] == if at <= p < at + j {
                    0u8
                } else {
                    before[p]
                },
        decreases n - j,
    {
        buf.set(at + j, 0u8);
        j += 1;
    }
    assert(buf@ =~= splice(before, at as int, Seq::new(n as nat, |_i: int| 0u8)));
}

/// Copies the `n` bytes at offset `from` over the `n` bytes at offset `to`;
/// the two ranges do not overlap.
pub fn move_bytes(buf: &mut Vec<u8>, from: usize, to: usize, n: usize)
    requires
        from + n <= old(buf)@.len(),
        to + n <= old(buf)@.len(),
        from + n <= to || to + n <= from,
    ensures
        final(buf)@ == splice(old(buf)@, to as int, old(buf)@.subrange(from as int, from + n)),
{
    let ghost before = buf@;
    let len = buf.len();
    let mut j: usize = 0;
    while j < n
        invariant
            j <= n,
            from + n <= buf@.len(),
            to + n <= buf@.len(),
            from + n <= to || to + n <= from,
            buf@.len() == before.len(),
            len == buf@.len(),
            forall|p: int|
                0 <= p < buf@.len() ==> buf@[p] == if to <= p < to + j {
                    before[p - to + from]
                } else {
                    before[p]
                },
        decreases n - j,
    {
        let b = buf[from + j];
        buf.set(to + j, b);
        j += 1;
    }
    assert(buf@ =~= splice(before, to as int, before.subrange(from as int, from + n)));
}

/// Overwrites slot `k` with `bytes`.
pub fn put_slot(buf: &mut Vec<u8>, sz: usize, n: usize, k: usize, bytes: &Vec<u8>)
    requires
        old(buf)@.len() == n * sz,
        bytes@.len() == sz,
        k < n,
    ensures
        final(buf)@.len() == old(buf)@.len(),
        forall|m: int|
            0 <= m < n ==> slot(final(buf)@, sz as nat, m) == if m == k {
                bytes@
            } else {
                slot(old(buf)@, sz as nat, m)
            },
{
    let ghost before = buf@;
    let total = buf.len();
    proof {
        lemma_slot_before(sz as nat, k as int, n as int);
    }
    write_bytes(buf, k * sz, bytes);
    assert forall|m: int| 0 <= m < n implies slot(buf@, sz as nat, m) == if m == k {
        bytes@
    } else {
        slot(before, sz as nat, m)
    } by {
        lemma_slot_of_splice(before, sz as nat, n as nat, k as int, bytes@, m);
    }
}

/// Overwrites slot `k` with zeros.
pub fn clear_slot(buf: &mut Vec<u8>, sz: usize, n: usize, k: usize)
    requires
        old(buf)@.len() == n * sz,
        k < n,
    ensures
        final(buf)@.len() == old(buf)@.len(),
        forall|m: int|
            0 <= m < n && m != k ==> slot(final(buf)@, sz as nat, m) == slot(
                old(buf)@,
                sz as nat,
                m,
            ),
{
    let ghost before = buf@;
    let total = buf.len();
    let ghost zeros = Seq::new(sz as nat, |_i: int| 0u8);
    proof {
        lemma_slot_before(sz as nat, k as int, n as int);
    }
    zero_bytes(buf, k * sz, sz);
    assert forall|m: int| 0 <= m < n && m != k implies slot(buf@, sz as nat, m) == slot(
        before,
        sz as nat,
        m,
    ) by {
        lemma_slot_of_splice(before, sz as nat, n as nat, k as int, zeros, m);
    }
}

/// Moves slots `at .. last - 1` one slot up: afterwards slot `m` holds what
/// slot `m - 1` held, for `at < m <= last`, and every other slot is as before.
pub fn shift_up(buf: &mut Vec<u8>, sz: usize, n: usize, at: usize, last: usize)
    requires
        old(buf)@.len() == n * sz,
        at <= last < n,
    ensures
        final(buf)@.len() == old(buf)@.len(),
        forall|m: int|
            0 <= m < n ==> slot(final(buf)@, sz as nat, m) == if at < m <= last {
                slot(old(buf)@, sz as nat, m - 1)
            } else {
                slot(old(buf)@, sz as nat, m)
            },
{
    let ghost before = buf@;
    let total = buf.len();
    let mut j: usize = last;
    while j > at
        invariant
            at <= j <= last < n,
            buf@.len() == n * sz,
            total == buf@.len(),
            forall|m: int|
                0 <= m < n ==> slot(buf@, sz as nat, m) == if j < m <= last {
                    slot(before, sz as nat, m - 1)
                } else {
                    slot(before, sz as nat, m)
                },
        decreases j,
    {
        let ghost cur = buf@;
        proof {
            lemma_slot_before(sz as nat, j as int, n as int);
            lemma_slot_next(sz as nat, j - 1);
        }
        let to = j * sz;
        move_bytes(buf, to - sz, to, sz);
        assert forall|m: int| 0 <= m < n implies slot(buf@, sz as nat, m) == if j - 1 < m
            <= last {
            slot(before, sz as nat, m - 1)
        } else {
            slot(before, sz as nat, m)
        } by {
            lemma_slot_of_splice(cur, sz as nat, n as nat, j as int, slot(cur, sz as nat, j - 1), m);
        }
        j -= 1;
    }
}

/// Moves slots `at + 1 .. last` one slot down: afterwards slot `m` holds what
/// slot `m + 1` held, for `at <= m < last`, and every other slot is as before.
pub fn shift_down(buf: &mut Vec<u8>, sz: usize, n: usize, at: usize, last: usize)
    requires
        old(buf)@.len() == n * sz,
        at <= last < n,
    ensures
        final(buf)@.len() == old(buf)@.len(),
        forall|m: int|
            0 <= m < n ==> slot(final(buf)@, sz as nat, m) == if at <= m < last {
                slot(old(buf)@, sz as nat, m + 1)
            } else {
                slot(old(buf)@, sz as nat, m)
            },
{
    let ghost before = buf@;
    let total = buf.len();
    let mut j: usize = at;
    while j < last
        invariant
            at <= j <= last < n,
            buf@.len() == n * sz,
            total == buf@.len(),
            forall|m: int|
                0 <= m < n ==> slot(buf@, sz as nat, m) == if at <= m < j {
                    slot(before, sz as nat, m + 1)
                } else {
                    slot(before, sz as nat, m)
                },
        decreases last - j,
    {
        let ghost cur = buf@;
        proof {
            lemma_slot_before(sz as nat, j + 1, n as int);
            lemma_slot_next(sz as nat, j as int);
        }
        let to = j * sz;
        move_bytes(buf, to + sz, to, sz);
        assert forall|m: int| 0 <= m < n implies slot(buf@, sz as nat, m) == if at <= m < j
            + 1 {
            slot(before, sz as nat, m + 1)
        } else {
            slot(before, sz as nat, m)
        } by {
            lemma_slot_of_splice(cur, sz as nat, n as nat, j as int, slot(cur, sz as nat, j + 1), m);
        }
        j += 1;
    }
}

} // verus!
