use vstd::prelude::*;

verus! {

/// The number of bytes that `memmove` copies at a time.
pub const WORD_SIZE: usize = 8;

/// Memory after `n` bytes are copied from `src` to `dest` as if through a
/// buffer: each destination byte gets the old source byte.
pub open spec fn copied(mem: Seq<u8>, dest: int, src: int, n: int) -> Seq<u8> {
    Seq::new(mem.len(), |i: int| if dest <= i < dest + n { mem[src + (i - dest)] } else { mem[i] })
}

/// Memory after `memmove`: the whole words of the range are copied as if
/// through a buffer; when the source lies below the destination, the tail
/// bytes are copied last, so a tail byte whose source the word copy already
/// overwrote gets the byte that was written there.
pub open spec fn moved(mem: Seq<u8>, dest: int, src: int, n: int) -> Seq<u8> {
    let fast = (n / 8) * 8;
    let d = dest - src;
    Seq::new(
        mem.len(),
        |i: int|
            if dest <= i < dest + n {
                let k = i - dest;
                if src < dest && fast <= k && 0 <= k - d < fast {
                    mem[src + (k - d)]
                } else {
                    mem[src + k]
                }
            } else {
                mem[i]
            },
    )
}

/// Copies the word at `src` to `dest` (both within `mem`).
fn copy_word(mem: &mut Vec<u8>, dest: usize, src: usize)
    requires
        dest + 8 <= old(mem)@.len(),
        src + 8 <= old(mem)@.len(),
    ensures
        final(mem)@ == copied(old(mem)@, dest as int, src as int, 8),
{
    assert(mem.len() == mem@.len());
    let mut word = [0u8; 8];
    let mut t: usize = 0;
    while t < 8
        invariant
            src + 8 <= mem@.len(),
            mem@ == old(mem)@,
            mem.len() == mem@.len(),
            0 <= t <= 8,
            forall|j: int| 0 <= j < t ==> word@[j] == mem@[src + j],
        decreases 8 - t,
    {
        word[t] = mem[src + t];
        t = t + 1;
    }
    let mut t: usize = 0;
    while t < 8
        invariant
            dest + 8 <= mem@.len(),
            src + 8 <= mem@.len(),
            mem@.len() == old(mem)@.len(),
            mem.len() == mem@.len(),
            0 <= t <= 8,
            forall|j: int| 0 <= j < 8 ==> word@[j] == old(mem)@[src + j],
            forall|i: int|
                0 <= i < mem@.len() ==> #[trigger] mem@[i] == (if dest <= i < dest + t {
                    old(mem)@[src + (i - dest)]
                } else {
                    old(mem)@[i]
                }),
        decreases 8 - t,
    {
        mem.set(dest + t, word[t]);
        t = t + 1;
    }
    assert(mem@ =~= copied(old(mem)@, dest as int, src as int, 8));
}

/// Copies `n` bytes from `src` to `dest`, whole words first; returns `dest`.
pub fn memmove(mem: &mut Vec<u8>, dest: usize, src: usize, n: usize) -> (r: usize)
    requires
        dest + n <= old(mem)@.len(),
        src + n <= old(mem)@.len(),
    ensures
        r == dest,
        final(mem)@ == moved(old(mem)@, dest as int, src as int, n as int),
{
    let ghost start = mem@;
    assert(mem.len() == mem@.len());
    let n_usize: usize = n / WORD_SIZE;
    let n_fast: usize = n_usize * WORD_SIZE;
    assert(n_fast <= n);
    if src < dest {
        let mut i: usize = n_fast;
        while i != 0
            invariant
                start == old(mem)@,
                dest + n <= mem@.len(),
                src + n <= mem@.len(),
                mem@.len() == start.len(),
                mem.len() == mem@.len(),
                src < dest,
                n_fast == (n / 8) * 8,
                n_fast <= n,
                i <= n_fast,
                i % 8 == 0,
                forall|p: int|
                    0 <= p < mem@.len() ==> #[trigger] mem@[p] == (if dest + i <= p < dest + n_fast {
                        start[src + (p - dest)]
                    } else {
                        start[p]
                    }),
            decreases i,
        {
            i = i - WORD_SIZE;
            let ghost before = mem@;
            copy_word(mem, dest + i, src + i);
            assert forall|p: int| 0 <= p < mem@.len() implies #[trigger] mem@[p] == (if dest + i <= p
                < dest + n_fast {
                start[src + (p - dest)]
            } else {
                start[p]
            }) by {
                if dest + i <= p < dest + i + 8 {
                    assert(mem@[p] == before[src + i + (p - (dest + i))]);
                }
            }
        }
        let mut i: usize = n;
        while i != n_fast
            invariant
                start == old(mem)@,
                dest + n <= mem@.len(),
                src + n <= mem@.len(),
                mem@.len() == start.len(),
                mem.len() == mem@.len(),
                src < dest,
                n_fast == (n / 8) * 8,
                n_fast <= i <= n,
                forall|p: int|
                    0 <= p < mem@.len() ==> #[trigger] mem@[p] == (if dest <= p < dest + n_fast {
                        start[src + (p - dest)]
                    } else if dest + i <= p < dest + n {
                        moved(start, dest as int, src as int, n as int)[p]
                    } else {
                        start[p]
                    }),
            decreases i - n_fast,
        {
            i = i - 1;
            let v = mem[src + i];
            mem.set(dest + i, v);
        }
        assert(mem@ =~= moved(start, dest as int, src as int, n as int));
    } else {
        let mut i: usize = 0;
        while i < n_fast
            invariant
                start == old(mem)@,
                dest + n <= mem@.len(),
                src + n <= mem@.len(),
                mem@.len() == start.len(),
                mem.len() == mem@.len(),
                dest <= src,
                n_fast == (n / 8) * 8,
                n_fast <= n,
                i <= n_fast,
                i % 8 == 0,
                forall|p: int|
                    0 <= p < mem@.len() ==> #[trigger] mem@[p] == (if dest <= p < dest + i {
                        start[src + (p - dest)]
                    } else {
                        start[p]
                    }),
            decreases n_fast - i,
        {
            let ghost before = mem@;
            copy_word(mem, dest + i, src + i);
            assert forall|p: int| 0 <= p < mem@.len() implies #[trigger] mem@[p] == (if dest <= p
                < dest + i + 8 {
                start[src + (p - dest)]
            } else {
                start[p]
            }) by {
                if dest + i <= p < dest + i + 8 {
                    assert(mem@[p] == before[src + i + (p - (dest + i))]);
                }
            }
            i = i + WORD_SIZE;
        }
        while i < n
            invariant
                start == old(mem)@,
                dest + n <= mem@.len(),
                src + n <= mem@.len(),
                mem@.len() == start.len(),
                mem.len() == mem@.len(),
                dest <= src,
                n_fast <= i <= n,
                forall|p: int|
                    0 <= p < mem@.len() ==> #[trigger] mem@[p] == (if dest <= p < dest + i {
                        start[src + (p - dest)]
                    } else {
                        start[p]
                    }),
            decreases n - i,
        {
            let v = mem[src + i];
            mem.set(dest + i, v);
            i = i + 1;
        }
        assert(mem@ =~= moved(start, dest as int, src as int, n as int));
    }
    dest
}

/// `memmove` copies exactly, as if through a buffer, whenever the
/// destination does not lie above an overlapping source or the length is a
/// whole number of words.
pub proof fn lemma_memmove_exact(mem: Seq<u8>, dest: int, src: int, n: int)
    requires
        0 <= n,
        dest <= src || src + n <= dest || n % 8 == 0,
    ensures
        moved(mem, dest, src, n) == copied(mem, dest, src, n),
{
    assert(moved(mem, dest, src, n) =~= copied(mem, dest, src, n));
}

/// Memory after `n` bytes are copied one after the other from the lowest
/// address up: when the destination lies above an overlapping source, the
/// copy reads bytes that it wrote itself, so the first `dest - src` source
/// bytes repeat through the destination.
pub open spec fn forward_copied(mem: Seq<u8>, dest: int, src: int, n: int) -> Seq<u8> {
    Seq::new(
        mem.len(),
        |i: int|
            if dest <= i < dest + n {
                if src < dest {
                    mem[src + (i - dest) % (dest - src)]
                } else {
                    mem[src + (i - dest)]
                }
            } else {
                mem[i]
            },
    )
}

/// A forward copy is an exact copy unless the destination lies above an
/// overlapping source.
pub proof fn lemma_forward_copy_exact(mem: Seq<u8>, dest: int, src: int, n: int)
    requires
        0 <= n,
        dest <= src || src + n <= dest,
    ensures
        forward_copied(mem, dest, src, n) == copied(mem, dest, src, n),
{
    assert forall|i: int| 0 <= i < mem.len() implies #[trigger] forward_copied(mem, dest, src, n)[i]
        == copied(mem, dest, src, n)[i] by {
        if dest <= i < dest + n && src < dest {
            vstd::arithmetic::div_mod::lemma_small_mod((i - dest) as nat, (dest - src) as nat);
        }
    }
    assert(forward_copied(mem, dest, src, n) =~= copied(mem, dest, src, n));
}

/// Copies `count` bytes from `src` to `dest`, one byte after the other from
/// the lowest address up (a `rep movsb` copy).
pub fn memcpy(mem: &mut Vec<u8>, dest: usize, src: usize, count: usize)
    requires
        dest + count <= old(mem)@.len(),
        src + count <= old(mem)@.len(),
    ensures
        final(mem)@ == forward_copied(old(mem)@, dest as int, src as int, count as int),
{
    let ghost start = mem@;
    assert(mem.len() == mem@.len());
    let mut i: usize = 0;
    while i < count
        invariant
            start == old(mem)@,
            dest + count <= mem@.len(),
            src + count <= mem@.len(),
            mem@.len() == start.len(),
            mem.len() == mem@.len(),
            0 <= i <= count,
            forall|p: int|
                0 <= p < mem@.len() ==> #[trigger] mem@[p] == (if dest <= p < dest + i {
                    forward_copied(start, dest as int, src as int, count as int)[p]
                } else {
                    start[p]
                }),
        decreases count - i,
    {
        let v = mem[src + i];
        proof {
            if src < dest {
                let d = dest - src;
                if src + i < dest {
                    vstd::arithmetic::div_mod::lemma_small_mod(i as nat, d as nat);
                } else {
                    assert(mem@[src + i] == start[src + (src + i - dest) % d]);
                    vstd::arithmetic::div_mod::lemma_mod_sub_multiples_vanish(i as int, d as int);
                    assert((i - d) % (d as int) == (i as int) % (d as int));
                }
            }
        }
        mem.set(dest + i, v);
        i = i + 1;
    }
    assert(mem@ =~= forward_copied(start, dest as int, src as int, count as int));
}

/// Sets `count` bytes from `dest` on to `val`.
pub fn memset(mem: &mut Vec<u8>, dest: usize, val: u8, count: usize)
    requires
        dest + count <= old(mem)@.len(),
    ensures
        final(mem)@ == Seq::new(
            old(mem)@.len(),
            |i: int|
                if dest <= i < dest + count {
                    val
                } else {
                    old(mem)@[i]
                },
        ),
{
    let ghost start = mem@;
    assert(mem.len() == mem@.len());
    let mut i: usize = 0;
    while i < count
        invariant
            start == old(mem)@,
            dest + count <= mem@.len(),
            mem@.len() == start.len(),
            mem.len() == mem@.len(),
            0 <= i <= count,
            forall|p: int|
                0 <= p < mem@.len() ==> #[trigger] mem@[p] == (if dest <= p < dest + i {
                    val
                } else {
                    start[p]
                }),
        decreases count - i,
    {
        mem.set(dest + i, val);
        i = i + 1;
    }
    assert(mem@ =~= Seq::new(
        start.len(),
        |i: int|
            if dest <= i < dest + count {
                val
            } else {
                start[i]
            },
    ));
}

/// The result of `memcmp`: the scan stops at the first position where the
/// two ranges hold equal bytes and then gives 0; when every position
/// differs, it gives 1 if the last source byte is above the last
/// destination byte and -1 otherwise. Empty ranges give 0.
pub open spec fn compare_result(mem: Seq<u8>, dest: usize, src: usize, count: usize) -> int {
    if count == 0 {
        0
    } else if exists|k: int| 0 <= k < count && #[trigger] mem[src + k] == mem[dest + k] {
        0
    } else if mem[src + count - 1] > mem[dest + count - 1] {
        1
    } else {
        -1
    }
}

/// Scans the two ranges from the start while their bytes differ (a
/// `repnz cmpsb` scan), as described by `compare_result`.
pub fn memcmp(mem: &Vec<u8>, dest: usize, src: usize, count: usize) -> (r: isize)
    requires
        dest + count <= mem@.len(),
        src + count <= mem@.len(),
    ensures
        r == compare_result(mem@, dest, src, count),
{
    assert(mem.len() == mem@.len());
    if count == 0 {
        return 0;
    }
    let mut k: usize = 0;
    while k < count
        invariant
            0 < count,
            dest + count <= mem@.len(),
            src + count <= mem@.len(),
            mem.len() == mem@.len(),
            0 <= k <= count,
            forall|j: int| 0 <= j < k ==> #[trigger] mem@[src + j] != mem@[dest + j],
        decreases count - k,
    {
        if mem[src + k] == mem[dest + k] {
            return 0;
        }
        k = k + 1;
    }
    if mem[src + count - 1] > mem[dest + count - 1] {
        1
    } else {
        -1
    }
}

} // verus!
