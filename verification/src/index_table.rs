//! Table mapping a weak signature value to the block it was computed from:
//! the block's position in the base file and its strong signature.

use vstd::prelude::*;
use vstd::arithmetic::div_mod::{
    lemma_add_mod_noop_right, lemma_mod_bound, lemma_mod_multiples_basic,
};

use crate::signatures::{
    byte_sum, spec_sign, strong_digest_of, WeakSignature, WeakSignatureBlock,
};
use crate::signatures::compute_strong_signature;

verus! {

/// One table entry: the strong signature of a base block and that block's
/// index.
#[derive(Debug, Clone, PartialEq, Eq)]
pub struct IndexTableChunk {
    pub strong_signature: String,
    pub index: usize,
}

/// Association table from weak signature value to chunk.  Adding an entry
/// under an existing key replaces that key's chunk (last writer wins).
#[derive(Debug, Clone, PartialEq, Eq)]
pub struct IndexTable {
    pub entries: Vec<(i64, IndexTableChunk)>,
}

/// Scan the entries from position `k` on for the first one keyed `sig`.
pub open spec fn spec_find_at(
    s: Seq<(i64, IndexTableChunk)>,
    sig: i64,
    k: int,
) -> Option<IndexTableChunk>
    decreases s.len() - k,
{
    if k < 0 || k >= s.len() {
        None
    } else if s[k].0 == sig {
        Some(s[k].1)
    } else {
        spec_find_at(s, sig, k + 1)
    }
}

/// The chunk stored under key `sig`, if any.
pub open spec fn spec_find(s: Seq<(i64, IndexTableChunk)>, sig: i64) -> Option<IndexTableChunk> {
    spec_find_at(s, sig, 0)
}

impl IndexTable {
    pub fn new() -> (r: Self)
        ensures
            r.entries@.len() == 0,
    {
        Self { entries: Vec::new() }
    }

    /// Record the block with the given strong signature and index under the
    /// weak signature's combined value, replacing any entry already keyed by
    /// that value.
    #[verifier::loop_isolation(false)]
    pub fn add(&mut self, weak_signature: WeakSignatureBlock, strong_signature: String, index: usize)
        ensures
            final(self).entries@.len() <= old(self).entries@.len() + 1,
            forall|k: int|
                0 <= k < final(self).entries@.len() ==> (final(self).entries@[k] == (
                weak_signature.signature,
                IndexTableChunk { strong_signature: strong_signature, index: index },
            ) || (k < old(self).entries@.len() && final(self).entries@[k] == old(
                self,
            ).entries@[k])),
            spec_find(final(self).entries@, weak_signature.signature) matches Some(c) && c.index
                == index && c.strong_signature@ == strong_signature@,
            forall|s2: i64|
                s2 != weak_signature.signature ==> spec_find(final(self).entries@, s2) == spec_find(
                    old(self).entries@,
                    s2,
                ),
    {
        let sig = weak_signature.get_signature();
        let chunk = IndexTableChunk { strong_signature, index };
        let ghost entries0 = self.entries@;
        let n = self.entries.len();
        let mut i: usize = 0;
        while i < n
            invariant
                0 <= i <= n,
                n == self.entries@.len(),
                self.entries@ == entries0,
                forall|k: int| 0 <= k < i ==> entries0[k].0 != sig,
                forall|s2: i64| spec_find(entries0, s2) == spec_find_at(entries0, s2, 0),
            decreases n - i,
        {
            if self.entries[i].0 == sig {
                let ghost pre = self.entries@;
                self.entries[i] = (sig, chunk);
                proof {
                    assert(self.entries@ == pre.update(i as int, self.entries@[i as int]));
                    lemma_find_update(pre, self.entries@, sig, i as int);
                }
                return ;
            }
            i = i + 1;
        }
        self.entries.push((sig, chunk));
        proof {
            lemma_find_push(entries0, sig, self.entries@[n as int].1);
        }
    }

    /// Look up a weak signature value; yield the stored block index and a
    /// copy of the strong signature.
    pub fn find(&self, signature: i64) -> (r: Option<(usize, String)>)
        ensures
            match r {
                Some((idx, strong)) => spec_find(self.entries@, signature) matches Some(c)
                    && c.index == idx && c.strong_signature@ == strong@,
                None => spec_find(self.entries@, signature) is None,
            },
    {
        let n = self.entries.len();
        let mut i: usize = 0;
        while i < n
            invariant
                0 <= i <= n,
                n == self.entries@.len(),
                spec_find(self.entries@, signature) == spec_find_at(
                    self.entries@,
                    signature,
                    i as int,
                ),
            decreases n - i,
        {
            if self.entries[i].0 == signature {
                let chunk = &self.entries[i].1;
                return Some((chunk.index, chunk.strong_signature.clone()));
            }
            i = i + 1;
        }
        None
    }

    /// Look up the block index stored for a strong signature, scanning the
    /// entries in order.
    pub fn find_index(&self, strong_signature: String) -> (r: Option<usize>)
        ensures
            match r {
                Some(idx) => exists|k: int|
                    0 <= k < self.entries@.len() && self.entries@[k].1.strong_signature@
                        == strong_signature@ && self.entries@[k].1.index == idx,
                None => forall|k: int|
                    0 <= k < self.entries@.len() ==> self.entries@[k].1.strong_signature@
                        != strong_signature@,
            },
    {
        let n = self.entries.len();
        let mut i: usize = 0;
        while i < n
            invariant
                0 <= i <= n,
                n == self.entries@.len(),
                forall|k: int|
                    0 <= k < i ==> self.entries@[k].1.strong_signature@ != strong_signature@,
            decreases n - i,
        {
            if self.entries[i].1.strong_signature == strong_signature {
                return Some(self.entries[i].1.index);
            }
            i = i + 1;
        }
        None
    }
}

/// A found chunk is stored in the table under the key it was found by.
pub proof fn lemma_find_member(s: Seq<(i64, IndexTableChunk)>, sig: i64, k: int)
    requires
        0 <= k,
        spec_find_at(s, sig, k) is Some,
    ensures
        exists|j: int| k <= j < s.len() && s[j] == (sig, spec_find_at(s, sig, k).unwrap()),
    decreases s.len() - k,
{
    if k < s.len() && s[k].0 != sig {
        lemma_find_member(s, sig, k + 1);
    }
}

/// One table entry faithfully describes `base`: when the base is shorter
/// than a block, the entry is the degenerate whole-base one; otherwise it
/// names a full block of the base, carries that block's strong signature,
/// and is keyed by that block's weak signature value.
pub open spec fn entry_ok(e: (i64, IndexTableChunk), base: Seq<u8>, b: int) -> bool {
    if base.len() < b {
        e.1.index == 0 && e.1.strong_signature@ == strong_digest_of(base)
    } else {
        0 <= e.1.index && e.1.index * b + b <= base.len() && e.1.strong_signature@
            == strong_digest_of(base.subrange(e.1.index * b, e.1.index * b + b)) && e.0
            == spec_sign(base, e.1.index * b, b).signature
    }
}

/// Every entry of the table faithfully describes `base`.
pub open spec fn table_wf(entries: Seq<(i64, IndexTableChunk)>, base: Seq<u8>, b: int) -> bool {
    forall|k: int| 0 <= k < entries.len() ==> entry_ok(#[trigger] entries[k], base, b)
}

/// Every block-aligned full window of `base` can be looked up under its
/// weak signature value.
pub open spec fn table_complete(entries: Seq<(i64, IndexTableChunk)>, base: Seq<u8>, b: int) -> bool {
    forall|off: int|
        0 <= off && off + b <= base.len() && #[trigger] (off % b) == 0 ==> spec_find(
            entries,
            spec_sign(base, off, b).signature,
        ) is Some
}

/// Build the index table of `base`: one entry per non-overlapping
/// block-aligned window, each weak signature computed on its own window; a
/// tail shorter than a block is discarded.  A base shorter than one block
/// gets a single entry at index 0 keyed by the plain byte sum mod 2^16,
/// with the strong signature of the whole base.
pub fn build_index_table(base: &[u8], block_size: usize) -> (r: IndexTable)
    requires
        block_size >= 1,
    ensures
        table_wf(r.entries@, base@, block_size as int),
        table_complete(r.entries@, base@, block_size as int),
        base@.len() < block_size ==> r.entries@.len() == 1 && spec_find(
            r.entries@,
            (byte_sum(base@, 0, base@.len() as int) % 65536) as i64,
        ) is Some,
{
    let mut table = IndexTable::new();
    let blen = base.len();
    if blen < block_size {
        let strong = compute_strong_signature(base);
        let mut weak_val: i64 = 0;
        let mut i: usize = 0;
        while i < blen
            invariant
                0 <= i <= blen,
                blen == base@.len(),
                weak_val == byte_sum(base@, 0, i as int) % 65536,
            decreases blen - i,
        {
            proof {
                lemma_mod_bound(byte_sum(base@, 0, i as int), 65536);
                lemma_add_mod_noop_right(
                    byte_sum(base@, 0, i as int) % 65536,
                    0,
                    65536,
                );
            }
            let x = base[i] as i64;
            proof {
                lemma_add_mod_noop_right(x as int, byte_sum(base@, 0, i as int), 65536);
            }
            weak_val = (weak_val + x) % 65536;
            i = i + 1;
            proof {
                assert(byte_sum(base@, 0, i as int)
                    == byte_sum(base@, 0, (i - 1) as int) + base@[i - 1]);
            }
        }
        let weak = WeakSignatureBlock::new(0, weak_val, weak_val, weak_val);
        table.add(weak, strong, 0);
        proof {
            assert(table.entries@.len() == 1);
        }
        table
    } else {
        let signer = WeakSignature::new(block_size, vstd::slice::slice_to_vec(base));
        let mut i: usize = 0;
        let mut off: usize = 0;
        while block_size <= blen - off
            invariant
                blen == base@.len(),
                blen >= block_size >= 1,
                off == i * block_size,
                i <= off,
                0 <= off <= blen,
                signer.block_size == block_size,
                signer.data@ == base@,
                table_wf(table.entries@, base@, block_size as int),
                forall|o2: int|
                    0 <= o2 && o2 + block_size <= off && #[trigger] (o2 % (block_size as int))
                        == 0 ==> spec_find(
                        table.entries@,
                        spec_sign(base@, o2, block_size as int).signature,
                    ) is Some,
            decreases blen - off,
        {
            let ghost b = block_size as int;
            let sign = signer.sign(off);
            let strong = compute_strong_signature(&base[off..off + block_size]);
            proof {
                assert(base@.subrange(off as int, off as int + b)
                    == base@.subrange(off as int, (off + block_size) as int));
            }
            let ghost pre = table.entries@;
            table.add(sign, strong, i);
            proof {
                lemma_mod_multiples_basic(i as int, b);
                assert(off as int % b == 0);
                assert(entry_ok(
                    (sign.signature, IndexTableChunk { strong_signature: strong, index: i }),
                    base@,
                    b,
                ));
                assert forall|o2: int|
                    0 <= o2 && o2 + block_size <= off + block_size && #[trigger] (o2 % b)
                        == 0 implies spec_find(
                    table.entries@,
                    spec_sign(base@, o2, b).signature,
                ) is Some by {
                    if o2 + block_size <= off {
                        assert(spec_find(pre, spec_sign(base@, o2, b).signature) is Some);
                        if spec_sign(base@, o2, b).signature == sign.signature {
                        } else {
                        }
                    } else {
                        assert(o2 == off as int) by {
                            assert(o2 % b == 0 && off as int % b == 0);
                            assert(off as int - b < o2 <= off as int);
                            if o2 < off as int {
                                let d = off as int - o2;
                                vstd::arithmetic::div_mod::lemma_sub_mod_noop(
                                    off as int,
                                    o2,
                                    b,
                                );
                                vstd::arithmetic::div_mod::lemma_small_mod(
                                    d as nat,
                                    b as nat,
                                );
                                vstd::arithmetic::div_mod::lemma_small_mod(0, b as nat);
                            }
                        }
                    }
                }
            }
            i = i + 1;
            off = off + block_size;
            proof {
                assert(off == i * block_size) by (nonlinear_arith)
                    requires
                        off == (i - 1) * block_size + block_size,
                ;
            }
        }
        proof {
            let b = block_size as int;
            assert forall|o2: int|
                0 <= o2 && o2 + block_size <= blen && #[trigger] (o2 % (block_size as int))
                    == 0 implies spec_find(
                table.entries@,
                spec_sign(base@, o2, block_size as int).signature,
            ) is Some by {
                lemma_mod_multiples_basic(i as int, b);
                assert(o2 < off) by {
                    assert(o2 + block_size <= blen);
                    assert(blen - off < block_size);
                }
                assert(o2 + block_size <= off) by {
                    if o2 + b > off as int {
                        let d = off as int - o2;
                        vstd::arithmetic::div_mod::lemma_sub_mod_noop(off as int, o2, b);
                        vstd::arithmetic::div_mod::lemma_small_mod(d as nat, b as nat);
                        vstd::arithmetic::div_mod::lemma_small_mod(0, b as nat);
                    }
                }
            }
        }
        table
    }
}

/// Replacing the chunk at the first position keyed `sig` makes lookups of
/// `sig` yield the new chunk and leaves every other key's lookup unchanged.
proof fn lemma_find_update(
    pre: Seq<(i64, IndexTableChunk)>,
    post: Seq<(i64, IndexTableChunk)>,
    sig: i64,
    i: int,
)
    requires
        0 <= i < pre.len(),
        post == pre.update(i, (sig, post[i].1)),
        pre[i].0 == sig,
        forall|k: int| 0 <= k < i ==> pre[k].0 != sig,
    ensures
        spec_find(post, sig) == Some(post[i].1),
        forall|s2: i64| s2 != sig ==> spec_find(post, s2) == spec_find(pre, s2),
{
    assert forall|s2: i64| s2 != sig implies spec_find(post, s2) == spec_find(pre, s2) by {
        lemma_find_at_same(pre, post, s2, 0);
    }
    lemma_find_at_first_match(post, sig, 0, i);
}

/// Two entry sequences of equal length whose keys agree everywhere and whose
/// chunks agree wherever the key is `s2` have the same lookup for `s2`.
proof fn lemma_find_at_same(
    pre: Seq<(i64, IndexTableChunk)>,
    post: Seq<(i64, IndexTableChunk)>,
    s2: i64,
    k: int,
)
    requires
        pre.len() == post.len(),
        forall|j: int| 0 <= j < pre.len() ==> pre[j].0 == post[j].0,
        forall|j: int| 0 <= j < pre.len() && pre[j].0 == s2 ==> pre[j].1 == post[j].1,
    ensures
        spec_find_at(post, s2, k) == spec_find_at(pre, s2, k),
    decreases pre.len() - k,
{
    if 0 <= k < pre.len() && pre[k].0 != s2 {
        lemma_find_at_same(pre, post, s2, k + 1);
    }
}

/// When no entry before `i` is keyed `sig` and the entry at `i` is, the scan
/// from `k` on (for `k <= i`) stops at `i`.
proof fn lemma_find_at_first_match(s: Seq<(i64, IndexTableChunk)>, sig: i64, k: int, i: int)
    requires
        0 <= k <= i < s.len(),
        s[i].0 == sig,
        forall|j: int| 0 <= j < i ==> s[j].0 != sig,
    ensures
        spec_find_at(s, sig, k) == Some(s[i].1),
    decreases i - k,
{
    if k < i {
        lemma_find_at_first_match(s, sig, k + 1, i);
    }
}

/// Appending an entry with a fresh key leaves old lookups intact except for
/// that key, whose lookup now yields the new chunk if it was absent.
proof fn lemma_find_push(s: Seq<(i64, IndexTableChunk)>, sig: i64, chunk: IndexTableChunk)
    requires
        forall|j: int| 0 <= j < s.len() ==> s[j].0 != sig,
    ensures
        spec_find(s.push((sig, chunk)), sig) == Some(chunk),
        forall|s2: i64| s2 != sig ==> spec_find(s.push((sig, chunk)), s2) == spec_find(s, s2),
{
    lemma_find_at_first_match(s.push((sig, chunk)), sig, 0, s.len() as int);
    assert forall|s2: i64| s2 != sig implies spec_find(s.push((sig, chunk)), s2) == spec_find(
        s,
        s2,
    ) by {
        lemma_find_at_push(s, sig, chunk, s2, 0);
    }
}

/// Scanning for a key other than the appended one is unaffected by the append.
proof fn lemma_find_at_push(
    s: Seq<(i64, IndexTableChunk)>,
    sig: i64,
    chunk: IndexTableChunk,
    s2: i64,
    k: int,
)
    requires
        s2 != sig,
        0 <= k,
    ensures
        spec_find_at(s.push((sig, chunk)), s2, k) == spec_find_at(s, s2, k),
    decreases s.len() + 1 - k,
{
    let t = s.push((sig, chunk));
    if k < s.len() {
        lemma_find_at_push(s, sig, chunk, s2, k + 1);
    } else if k == s.len() {
        assert(t[k].0 == sig);
        assert(spec_find_at(t, s2, k + 1) is None);
    }
}

} // verus!
