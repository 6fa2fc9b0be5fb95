//! Deltas: ordered sequences of copy-from-base and literal-bytes operations,
//! with their application to a base file.

use vstd::prelude::*;
use vstd::arithmetic::div_mod::{
    lemma_fundamental_div_mod_converse, lemma_mod_add_multiples_vanish,
    lemma_mod_multiples_basic,
};

use crate::index_table::{
    entry_ok, lemma_find_member, spec_find, table_complete, table_wf, IndexTable,
    IndexTableChunk,
};
use crate::index_table::build_index_table;
use crate::signatures::{
    compute_strong_signature, spec_sign, strong_digest_of, WeakSignature, WeakSignatureBlock,
};
use vstd::string::StringExecFns;
use vstd::utf8::{decode_utf8, valid_utf8};
use crate::codec::utf8_to_string;

verus! {

/// One delta operation: copy base block `i`, or emit literal bytes.
#[derive(Debug, Clone)]
pub enum Ops {
    Index(usize),
    Block(Vec<u8>),
}

/// Mathematical form of one delta operation.
pub enum OpsV {
    Index(int),
    Block(Seq<u8>),
}

impl View for Ops {
    type V = OpsV;

    open spec fn view(&self) -> OpsV {
        match self {
            Ops::Index(i) => OpsV::Index(*i as int),
            Ops::Block(v) => OpsV::Block(v@),
        }
    }
}

/// Failure of applying a delta.
#[derive(Debug, Clone, Copy, PartialEq, Eq, Structural)]
pub enum DeltaError {
    /// An `Index(i)` op references a block starting at or past the end of
    /// the base.
    InvalidBlockIndex,
}

/// An ordered list of delta operations.
#[derive(Debug, Clone)]
pub struct Delta {
    pub ops: Vec<Ops>,
}

impl View for Delta {
    type V = Seq<OpsV>;

    open spec fn view(&self) -> Seq<OpsV> {
        Seq::new(self.ops@.len(), |k: int| self.ops@[k]@)
    }
}

/// The bytes one operation contributes: block `i` of the base (truncated at
/// the end of the base), or the literal bytes themselves.
pub open spec fn op_bytes(op: OpsV, base: Seq<u8>, b: int) -> Seq<u8> {
    match op {
        OpsV::Index(i) => base.subrange(
            i * b,
            if i * b + b <= base.len() {
                i * b + b
            } else {
                base.len() as int
            },
        ),
        OpsV::Block(v) => v,
    }
}

/// An operation is applicable when any block it references starts inside
/// the base.
pub open spec fn op_ok(op: OpsV, base: Seq<u8>, b: int) -> bool {
    match op {
        OpsV::Index(i) => 0 <= i && i * b < base.len(),
        OpsV::Block(_) => true,
    }
}

/// Result of applying a delta to `base` with block size `b`: the
/// concatenation of each operation's bytes, or nothing if any operation is
/// out of bounds.
pub open spec fn spec_apply(ops: Seq<OpsV>, base: Seq<u8>, b: int) -> Option<Seq<u8>>
    decreases ops.len(),
{
    if ops.len() == 0 {
        Some(Seq::empty())
    } else if spec_apply(ops.drop_last(), base, b) is Some && op_ok(ops.last(), base, b) {
        Some(spec_apply(ops.drop_last(), base, b).unwrap() + op_bytes(ops.last(), base, b))
    } else {
        None
    }
}

/// Every `Index` op in the sequence starts inside the base.
pub open spec fn ops_in_bounds(ops: Seq<OpsV>, base: Seq<u8>, b: int) -> bool {
    forall|k: int| 0 <= k < ops.len() ==> op_ok(#[trigger] ops[k], base, b)
}

/// Applying a delta succeeds exactly when every `Index(i)` op references a
/// block starting inside the base, i.e. `i * b < |base|`; a tail block
/// shorter than `b` is truncated, never a failure.
pub proof fn lemma_apply_ok_iff(ops: Seq<OpsV>, base: Seq<u8>, b: int)
    ensures
        spec_apply(ops, base, b) is Some <==> ops_in_bounds(ops, base, b),
    decreases ops.len(),
{
    if ops.len() > 0 {
        lemma_apply_ok_iff(ops.drop_last(), base, b);
        if ops_in_bounds(ops, base, b) {
            assert(ops_in_bounds(ops.drop_last(), base, b));
            assert(op_ok(ops.last(), base, b));
        } else if ops_in_bounds(ops.drop_last(), base, b) && op_ok(ops.last(), base, b) {
            assert forall|k: int| 0 <= k < ops.len() implies op_ok(#[trigger] ops[k], base, b) by {
                if k < ops.len() - 1 {
                    assert(op_ok(ops.drop_last()[k], base, b));
                }
            }
        }
    }
}

/// No two adjacent operations are both literal blocks.
pub open spec fn coalesced(ops: Seq<OpsV>) -> bool {
    forall|k: int|
        0 <= k && k + 1 < ops.len() ==> !((#[trigger] ops[k]) is Block && ops[k + 1] is Block)
}

/// Every literal block of the operation list holds valid UTF-8.
pub open spec fn blocks_utf8(ops: Seq<OpsV>) -> bool {
    forall|k: int|
        0 <= k < ops.len() ==> ((#[trigger] ops[k]) matches OpsV::Block(v) ==> valid_utf8(v))
}

/// What one operation renders as in the dump: a literal block as its UTF-8
/// text, a copy op for block `i` as `<b*i*>`.
pub open spec fn op_dump(op: OpsV) -> Seq<char> {
    match op {
        OpsV::Index(i) => seq!['<', 'b', '*'] + crate::decimal::dec_digits(i) + seq!['*', '>'],
        OpsV::Block(v) => decode_utf8(v),
    }
}

/// What a delta renders as: each operation's rendering, in order.
pub open spec fn spec_dump(ops: Seq<OpsV>) -> Seq<char>
    decreases ops.len(),
{
    if ops.len() == 0 {
        Seq::empty()
    } else {
        spec_dump(ops.drop_last()) + op_dump(ops.last())
    }
}

/// What `add_byte` does to the operation list: append the byte to a
/// trailing literal block, or start a new one-byte literal block.
pub open spec fn spec_add_byte(ops: Seq<OpsV>, byte: u8) -> Seq<OpsV> {
    if ops.len() > 0 {
        match ops.last() {
            OpsV::Block(bs) => ops.drop_last().push(OpsV::Block(bs.push(byte))),
            OpsV::Index(_) => ops.push(OpsV::Block(seq![byte])),
        }
    } else {
        ops.push(OpsV::Block(seq![byte]))
    }
}

impl Delta {
    pub fn new() -> (r: Self)
        ensures
            r@.len() == 0,
    {
        Self { ops: Vec::new() }
    }

    pub fn add_block(&mut self, block: Vec<u8>)
        ensures
            final(self)@ == old(self)@.push(OpsV::Block(block@)),
    {
        self.ops.push(Ops::Block(block));
        proof {
            assert(final(self)@ =~= old(self)@.push(OpsV::Block(block@)));
        }
    }

    pub fn add_index(&mut self, index: usize)
        ensures
            final(self)@ == old(self)@.push(OpsV::Index(index as int)),
    {
        self.ops.push(Ops::Index(index));
        proof {
            assert(final(self)@ =~= old(self)@.push(OpsV::Index(index as int)));
        }
    }

    /// Append a single literal byte, coalescing it into a trailing literal
    /// block when there is one.  Consecutive literal bytes therefore always
    /// end up within a single `Block` op, and an operation list with no two
    /// adjacent literal blocks keeps that shape.
    pub fn add_byte(&mut self, byte: u8)
        ensures
            final(self)@ == spec_add_byte(old(self)@, byte),
            coalesced(old(self)@) ==> coalesced(final(self)@),
    {
        let n = self.ops.len();
        if n == 0 {
            let mut v: Vec<u8> = Vec::new();
            v.push(byte);
            self.add_block(v);
            proof {
                assert(final(self)@ =~= spec_add_byte(old(self)@, byte));
            }
            return ;
        }
        let is_block = match &self.ops[n - 1] {
            Ops::Block(_) => true,
            Ops::Index(_) => false,
        };
        if is_block {
            let last = self.ops.remove(n - 1);
            match last {
                Ops::Block(mut bs) => {
                    bs.push(byte);
                    self.ops.push(Ops::Block(bs));
                    proof {
                        assert(old(self).ops@.remove(n - 1) =~= old(self).ops@.drop_last());
                        assert(final(self)@ =~= spec_add_byte(old(self)@, byte));
                        if coalesced(old(self)@) {
                            lemma_coalesced_add_byte(old(self)@, byte);
                        }
                    }
                },
                Ops::Index(i) => {
                    proof {
                        assert(false);
                    }
                    self.ops.push(Ops::Index(i));
                },
            }
        } else {
            let mut v: Vec<u8> = Vec::new();
            v.push(byte);
            self.add_block(v);
            proof {
                assert(final(self)@ =~= spec_add_byte(old(self)@, byte));
                if coalesced(old(self)@) {
                    lemma_coalesced_add_byte(old(self)@, byte);
                }
            }
        }
    }

    /// Render the delta for inspection: literal blocks as their UTF-8
    /// text, a copy op for block `i` as `<b*i*>`.  Defined for deltas
    /// whose literal blocks hold valid UTF-8.
    pub fn dump(&self) -> (r: String)
        requires
            blocks_utf8(self@),
        ensures
            r@ == spec_dump(self@),
    {
        let mut out = String::new();
        let n = self.ops.len();
        let mut j: usize = 0;
        proof {
            reveal_strlit("<b*");
            reveal_strlit("*>");
        }
        while j < n
            invariant
                0 <= j <= n,
                n == self.ops@.len(),
                n == self@.len(),
                blocks_utf8(self@),
                out@ == spec_dump(self@.subrange(0, j as int)),
            decreases n - j,
        {
            proof {
                assert(self@.subrange(0, j + 1).drop_last() =~= self@.subrange(0, j as int));
                assert(self@.subrange(0, j + 1).last() == self@[j as int]);
            }
            match &self.ops[j] {
                Ops::Index(index) => {
                    let digits = crate::decimal::usize_to_decimal(*index);
                    out.append("<b*");
                    out.append(digits.as_str());
                    out.append("*>");
                    proof {
                        reveal_strlit("<b*");
                        reveal_strlit("*>");
                        assert("<b*"@ =~= seq!['<', 'b', '*']);
                        assert("*>"@ =~= seq!['*', '>']);
                        assert(out@ =~= spec_dump(self@.subrange(0, j + 1)));
                    }
                },
                Ops::Block(bytes) => {
                    let text = utf8_to_string(bytes.as_slice());
                    match text {
                        Some(s) => {
                            out.append(s.as_str());
                            proof {
                                assert(out@ =~= spec_dump(self@.subrange(0, j + 1)));
                            }
                        },
                        None => {
                            proof {
                                assert(false);
                            }
                        },
                    }
                },
            }
            j = j + 1;
        }
        proof {
            assert(self@.subrange(0, n as int) =~= self@);
        }
        out
    }

    /// A delta is valid when it holds at least one operation.
    pub fn is_valid(&self) -> (r: bool)
        ensures
            r == (self@.len() != 0),
    {
        !self.ops.is_empty()
    }

    /// Apply this delta to the given base file bytes.  Succeeds with the
    /// reconstruction exactly when every referenced block starts inside the
    /// base; otherwise reports the invalid block index.
    pub fn apply(&self, base: &[u8], block_size: usize) -> (r: Result<Vec<u8>, DeltaError>)
        ensures
            match r {
                Ok(out) => spec_apply(self@, base@, block_size as int) == Some(out@),
                Err(e) => spec_apply(self@, base@, block_size as int) is None && e
                    == DeltaError::InvalidBlockIndex,
            },
    {
        let mut output: Vec<u8> = Vec::new();
        let n = self.ops.len();
        let blen = base.len();
        let mut j: usize = 0;
        while j < n
            invariant
                0 <= j <= n,
                n == self.ops@.len(),
                n == self@.len(),
                blen == base@.len(),
                spec_apply(self@.subrange(0, j as int), base@, block_size as int) == Some(
                    output@,
                ),
            decreases n - j,
        {
            let ghost prefix = self@.subrange(0, j as int);
            let ghost b = block_size as int;
            proof {
                assert(self@.subrange(0, j + 1).drop_last() =~= prefix);
                assert(self@.subrange(0, j + 1).last() == self@[j as int]);
            }
            match &self.ops[j] {
                Ops::Index(index) => {
                    let index = *index;
                    let start_opt = index.checked_mul(block_size);
                    match start_opt {
                        None => {
                            proof {
                                assert(index * block_size > usize::MAX);
                                assert(!op_ok(self@[j as int], base@, b));
                                lemma_apply_ok_iff(self@, base@, b);
                            }
                            return Err(DeltaError::InvalidBlockIndex);
                        },
                        Some(start) => {
                            if start >= blen {
                                proof {
                                    assert(!op_ok(self@[j as int], base@, b));
                                    lemma_apply_ok_iff(self@, base@, b);
                                }
                                return Err(DeltaError::InvalidBlockIndex);
                            }
                            let end = if block_size <= blen - start {
                                start + block_size
                            } else {
                                blen
                            };
                            let piece = &base[start..end];
                            output.extend_from_slice(piece);
                            proof {
                                assert(op_ok(self@[j as int], base@, b));
                                assert(piece@ == op_bytes(self@[j as int], base@, b));
                            }
                        },
                    }
                },
                Ops::Block(bytes) => {
                    output.extend_from_slice(bytes.as_slice());
                    proof {
                        assert(op_bytes(self@[j as int], base@, b) == bytes@);
                    }
                },
            }
            j = j + 1;
        }
        proof {
            assert(self@.subrange(0, n as int) =~= self@);
        }
        Ok(output)
    }
}

/// The bytes a table entry standing for segment `j` of `base` covers: the
/// whole base when it is shorter than a block, else full block `j`.
pub open spec fn base_seg(base: Seq<u8>, b: int, j: int) -> Seq<u8> {
    if base.len() < b {
        base
    } else {
        base.subrange(j * b, j * b + b)
    }
}

/// The segment indices a table for `base` can reference.
pub open spec fn seg_index_valid(base: Seq<u8>, b: int, j: int) -> bool {
    if base.len() < b {
        j == 0
    } else {
        0 <= j && j * b + b <= base.len()
    }
}

/// Strong signatures separate `base` from `new`: any full window of `new`
/// whose strong signature equals that of a referenceable base segment holds
/// exactly that segment's bytes.
pub open spec fn collision_free(base: Seq<u8>, newf: Seq<u8>, b: int) -> bool {
    forall|i: int, j: int|
        0 <= i && i + b <= newf.len() && seg_index_valid(base, b, j) && #[trigger] strong_digest_of(
            newf.subrange(i, i + b),
        ) == #[trigger] strong_digest_of(base_seg(base, b, j)) ==> newf.subrange(i, i + b)
            == base_seg(base, b, j)
}

/// Weak signatures separate the aligned full blocks of `base`: two of them
/// with the same combined weak value hold the same bytes.
pub open spec fn weak_distinct(base: Seq<u8>, b: int) -> bool {
    forall|o1: int, o2: int|
        0 <= o1 && o1 + b <= base.len() && o1 % b == 0 && 0 <= o2 && o2 + b <= base.len() && o2 % b
            == 0 && #[trigger] spec_sign(base, o1, b).signature == #[trigger] spec_sign(
            base,
            o2,
            b,
        ).signature ==> base.subrange(o1, o1 + b) == base.subrange(o2, o2 + b)
}

/// Every operation is a copy-from-base op.
pub open spec fn all_index(ops: Seq<OpsV>) -> bool {
    forall|k: int| 0 <= k < ops.len() ==> (#[trigger] ops[k]) is Index
}

/// The delta computed for identical inputs of at least one block: one
/// `Index` op per aligned full block, then the tail bytes, if any, as a
/// single literal block.
pub open spec fn identity_shape(ops: Seq<OpsV>, x: Seq<u8>, b: int) -> bool {
    let nb = x.len() as int / b;
    let tail = x.len() as int % b;
    all_index(ops.subrange(0, nb)) && (if tail == 0 {
        ops.len() == nb
    } else {
        ops.len() == nb + 1 && ops[nb] == OpsV::Block(x.subrange(x.len() - tail, x.len() as int))
    })
}

/// The hypotheses under which `diff` of a buffer against a table built from
/// that same buffer yields the identity-shaped delta.
pub open spec fn self_table_hyp(
    entries: Seq<(i64, IndexTableChunk)>,
    newf: Seq<u8>,
    b: int,
) -> bool {
    newf.len() >= b && table_wf(entries, newf, b) && table_complete(entries, newf, b)
        && weak_distinct(newf, b) && collision_free(newf, newf, b)
}

/// Unfolding of `spec_apply` over a push.
proof fn lemma_apply_push(ops: Seq<OpsV>, op: OpsV, base: Seq<u8>, b: int)
    ensures
        spec_apply(ops.push(op), base, b) == (if spec_apply(ops, base, b) is Some && op_ok(
            op,
            base,
            b,
        ) {
            Some(spec_apply(ops, base, b).unwrap() + op_bytes(op, base, b))
        } else {
            None
        }),
{
    assert(ops.push(op).drop_last() =~= ops);
    assert(ops.push(op).last() == op);
}

/// Appending a copy op never creates two adjacent literal blocks.
proof fn lemma_coalesced_push_index(ops: Seq<OpsV>, idx: int)
    requires
        coalesced(ops),
    ensures
        coalesced(ops.push(OpsV::Index(idx))),
{
    let r = ops.push(OpsV::Index(idx));
    assert forall|k: int| 0 <= k && k + 1 < r.len() implies !((#[trigger] r[k]) is Block && r[k + 1]
        is Block) by {
        if k + 1 < r.len() - 1 {
            assert(r[k] == ops[k] && r[k + 1] == ops[k + 1]);
        } else {
            assert(r[k + 1] == OpsV::Index(idx));
        }
    }
}

/// Appending a literal block after a copy op (or to an empty list) never
/// creates two adjacent literal blocks.
proof fn lemma_coalesced_push_block(ops: Seq<OpsV>, v: Seq<u8>)
    requires
        coalesced(ops),
        ops.len() == 0 || ops.last() is Index,
    ensures
        coalesced(ops.push(OpsV::Block(v))),
{
    let r = ops.push(OpsV::Block(v));
    assert forall|k: int| 0 <= k && k + 1 < r.len() implies !((#[trigger] r[k]) is Block && r[k + 1]
        is Block) by {
        if k + 1 < r.len() - 1 {
            assert(r[k] == ops[k] && r[k + 1] == ops[k + 1]);
        } else {
            assert(r[k] == ops.last());
        }
    }
}

/// A confirmed match is sound: when the table is faithful to `base`, the
/// signatures are collision free, and the strong signature of the window of
/// `new` at `i` equals the one stored for segment `idx`, that segment is a
/// full block of the base holding exactly the window's bytes.
proof fn lemma_match_step(
    entries: Seq<(i64, IndexTableChunk)>,
    base: Seq<u8>,
    newf: Seq<u8>,
    b: int,
    i: int,
    sig: i64,
    idx: usize,
    strongv: Seq<char>,
)
    requires
        b >= 1,
        0 <= i,
        i + b <= newf.len(),
        table_wf(entries, base, b),
        collision_free(base, newf, b),
        spec_find(entries, sig) matches Some(c) && c.index == idx && c.strong_signature@
            == strongv,
        strong_digest_of(newf.subrange(i, i + b)) == strongv,
    ensures
        idx * b + b <= base.len(),
        base.subrange(idx * b, idx * b + b) == newf.subrange(i, i + b),
{
    let c = spec_find(entries, sig).unwrap();
    lemma_find_member(entries, sig, 0);
    let j = choose|j: int| 0 <= j < entries.len() && entries[j] == (sig, c);
    assert(entry_ok(entries[j], base, b));
    if base.len() < b {
        assert(seg_index_valid(base, b, 0));
        assert(base_seg(base, b, 0) == base);
        assert(strong_digest_of(base_seg(base, b, 0)) == strongv);
        assert(newf.subrange(i, i + b) == base_seg(base, b, 0));
        assert(newf.subrange(i, i + b).len() == b);
        assert(false);
    } else {
        let o = c.index * b;
        assert(seg_index_valid(base, b, c.index as int));
        assert(base_seg(base, b, c.index as int) == base.subrange(o, o + b));
        assert(strong_digest_of(base_seg(base, b, c.index as int)) == strongv);
        assert(newf.subrange(i, i + b) == base_seg(base, b, c.index as int));
    }
}

impl Delta {
    /// Compute the delta that rebuilds `new` out of literal bytes and
    /// copy-from-base ops, using `table` to find candidate blocks.  The
    /// result is coalesced, and applying it to any base that the table
    /// faithfully indexes reproduces `new` exactly, provided the strong
    /// signatures are collision free between that base and `new`.  When the
    /// table indexes `new` itself completely and weak values separate its
    /// blocks, the delta consists of copy ops over the aligned prefix with
    /// at most one literal tail.
    #[verifier::loop_isolation(false)]
    #[verifier::rlimit(60)]
    pub fn diff_with_table(table: &IndexTable, new: &[u8], block_size: usize) -> (r: Delta)
        requires
            block_size >= 1,
        ensures
            coalesced(r@),
            forall|base: Seq<u8>|
                table_wf(table.entries@, base, block_size as int) && collision_free(
                    base,
                    new@,
                    block_size as int,
                ) ==> spec_apply(r@, base, block_size as int) == Some(new@),
            self_table_hyp(table.entries@, new@, block_size as int) ==> identity_shape(
                r@,
                new@,
                block_size as int,
            ),
    {
        let ghost b = block_size as int;
        let mut delta = Delta::new();
        let nlen = new.len();

        // A new file shorter than one block is emitted whole as a literal.
        if nlen < block_size {
            if nlen > 0 {
                delta.add_block(vstd::slice::slice_to_vec(new));
                proof {
                    lemma_apply_push(Seq::<OpsV>::empty(), OpsV::Block(new@), Seq::<u8>::empty(), b);
                    assert forall|base: Seq<u8>|
                        table_wf(table.entries@, base, b) && collision_free(base, new@, b) implies
                        spec_apply(delta@, base, b) == Some(new@) by {
                        assert(delta@ =~= Seq::<OpsV>::empty().push(OpsV::Block(new@)));
                        lemma_apply_push(Seq::<OpsV>::empty(), OpsV::Block(new@), base, b);
                        assert(Seq::<u8>::empty() + new@ =~= new@);
                    }
                }
            } else {
                proof {
                    assert forall|base: Seq<u8>|
                        table_wf(table.entries@, base, b) && collision_free(base, new@, b) implies
                        spec_apply(delta@, base, b) == Some(new@) by {
                        assert(new@ =~= Seq::<u8>::empty());
                    }
                }
            }
            return delta;
        }

        let signer = WeakSignature::new(block_size, vstd::slice::slice_to_vec(new));
        let mut unmatched: Vec<u8> = Vec::new();
        let mut i: usize = 0;
        let mut prev_hash: Option<WeakSignatureBlock> = Some(signer.sign(0));

        while block_size <= nlen - i
            invariant
                0 <= i <= nlen,
                prev_hash matches Some(h) ==> h == spec_sign(new@, i as int, b) && i + block_size
                    <= nlen,
                i + block_size <= nlen ==> prev_hash is Some,
                coalesced(delta@),
                delta@.len() == 0 || delta@.last() is Index,
                forall|base: Seq<u8>|
                    table_wf(table.entries@, base, b) && collision_free(base, new@, b)
                        ==> ((#[trigger] spec_apply(delta@, base, b)) matches Some(out) && out
                        + unmatched@ == new@.subrange(0, i as int)),
                self_table_hyp(table.entries@, new@, b) ==> (i as int % b == 0 && unmatched@.len()
                    == 0 && all_index(delta@) && delta@.len() * b == i),
            decreases nlen - i,
        {
            let cur_hash = match prev_hash {
                Some(h) => h,
                None => {
                    let s = signer.sign(i);
                    prev_hash = Some(s);
                    s
                },
            };
            let mut took_match = false;
            let ghost pre_ops = delta@;
            let ghost pre_unm = unmatched@;
            let found = table.find(cur_hash.get_signature());
            match found {
                Some(pair) => {
                    let (base_index, strong) = pair;
                    let strong2 = compute_strong_signature(&new[i..i + block_size]);
                    if strong == strong2 {
                        took_match = true;
                        if unmatched.len() > 0 {
                            let blk = unmatched;
                            unmatched = Vec::new();
                            delta.add_block(blk);
                        }
                        delta.add_index(base_index);
                        proof {
                            let ops1 = if pre_unm.len() > 0 {
                                pre_ops.push(OpsV::Block(pre_unm))
                            } else {
                                pre_ops
                            };
                            assert(delta@ == ops1.push(OpsV::Index(base_index as int)));
                            // coalescence
                            if pre_unm.len() > 0 {
                                lemma_coalesced_push_block(pre_ops, pre_unm);
                            }
                            lemma_coalesced_push_index(ops1, base_index as int);
                            // round trip, for every faithful base
                            assert forall|base: Seq<u8>|
                                table_wf(table.entries@, base, b) && collision_free(
                                    base,
                                    new@,
                                    b,
                                ) implies (#[trigger] spec_apply(delta@, base, b)) matches Some(
                                out,
                            ) && out + unmatched@ == new@.subrange(0, i + block_size) by {
                                let out0 = spec_apply(pre_ops, base, b).unwrap();
                                assert(out0 + pre_unm == new@.subrange(0, i as int));
                                lemma_apply_push(pre_ops, OpsV::Block(pre_unm), base, b);
                                let out1 = spec_apply(ops1, base, b).unwrap();
                                assert(out1 == new@.subrange(0, i as int)) by {
                                    if pre_unm.len() > 0 {
                                    } else {
                                        assert(out0 + pre_unm =~= out0);
                                    }
                                }
                                lemma_match_step(
                                    table.entries@,
                                    base,
                                    new@,
                                    b,
                                    i as int,
                                    cur_hash.signature,
                                    base_index,
                                    strong@,
                                );
                                lemma_apply_push(ops1, OpsV::Index(base_index as int), base, b);
                                assert(op_ok(OpsV::Index(base_index as int), base, b));
                                assert(op_bytes(OpsV::Index(base_index as int), base, b)
                                    == new@.subrange(i as int, i + block_size));
                                assert(out1 + new@.subrange(i as int, i + block_size)
                                    + unmatched@ =~= new@.subrange(0, i + block_size));
                            }
                            // identity shape bookkeeping
                            if self_table_hyp(table.entries@, new@, b) {
                                assert(pre_unm.len() == 0);
                                assert(delta@ == pre_ops.push(OpsV::Index(base_index as int)));
                                lemma_mod_add_multiples_vanish(i as int, b);
                                assert((i + block_size) as int % b == 0);
                                let dl = delta@.len() as int;
                                let pl = pre_ops.len() as int;
                                assert(dl * b == pl * b + b) by (nonlinear_arith)
                                    requires
                                        dl == pl + 1,
                                ;
                            }
                        }
                        i = i + block_size;
                        if block_size <= nlen - i {
                            let s = signer.sign(i);
                            prev_hash = Some(s);
                        } else {
                            prev_hash = None;
                        }
                    } else {
                        proof {
                            if self_table_hyp(table.entries@, new@, b) {
                                let c = spec_find(table.entries@, cur_hash.signature).unwrap();
                                lemma_find_member(table.entries@, cur_hash.signature, 0);
                                let j = choose|j: int|
                                    0 <= j < table.entries@.len() && table.entries@[j] == (
                                    cur_hash.signature,
                                    c,
                                    );
                                assert(entry_ok(table.entries@[j], new@, b));
                                let o1 = c.index * b;
                                lemma_mod_multiples_basic(c.index as int, b);
                                assert(new@.subrange(o1, o1 + b) == new@.subrange(
                                    i as int,
                                    i + b,
                                ));
                                assert(strong_digest_of(new@.subrange(o1, o1 + b))
                                    == strong_digest_of(new@.subrange(i as int, i + b)));
                                assert(false);
                            }
                        }
                    }
                },
                None => {
                    proof {
                        if self_table_hyp(table.entries@, new@, b) {
                            assert(spec_find(
                                table.entries@,
                                spec_sign(new@, i as int, b).signature,
                            ) is Some);
                            assert(false);
                        }
                    }
                },
            }
            if !took_match {
                let x = new[i];
                unmatched.push(x);
                proof {
                    assert forall|base: Seq<u8>|
                        table_wf(table.entries@, base, b) && collision_free(base, new@, b) implies (
                    #[trigger] spec_apply(delta@, base, b)) matches Some(out) && out + unmatched@
                        == new@.subrange(0, i + 1) by {
                        let out0 = spec_apply(pre_ops, base, b).unwrap();
                        assert(out0 + pre_unm == new@.subrange(0, i as int));
                        assert(out0 + pre_unm.push(x) =~= new@.subrange(0, i + 1));
                    }
                }
                i = i + 1;
                if block_size <= nlen - i {
                    let nh = signer.compute_next_signature(cur_hash);
                    prev_hash = Some(nh);
                } else {
                    prev_hash = None;
                }
            }
        }

        let ghost i_loop = i as int;
        let ghost unm_loop = unmatched@;
        let ghost ops_loop = delta@;

        // Any tail shorter than a block joins the unmatched bytes.
        if i < nlen {
            let tail = vstd::slice::slice_subrange(new, i, nlen);
            unmatched.extend_from_slice(tail);
        }
        let ghost unm_tail = unmatched@;

        if unmatched.len() > 0 {
            let blk = unmatched;
            unmatched = Vec::new();
            delta.add_block(blk);
            proof {
                lemma_coalesced_push_block(ops_loop, unm_tail);
            }
        }

        proof {
            assert(unm_tail == unm_loop + new@.subrange(i_loop, nlen as int));
            assert forall|base: Seq<u8>|
                table_wf(table.entries@, base, b) && collision_free(base, new@, b) implies
                spec_apply(delta@, base, b) == Some(new@) by {
                let out0 = spec_apply(ops_loop, base, b).unwrap();
                assert(out0 + unm_loop == new@.subrange(0, i_loop));
                assert(out0 + unm_tail =~= new@.subrange(0, nlen as int));
                assert(new@.subrange(0, nlen as int) =~= new@);
                if unm_tail.len() > 0 {
                    lemma_apply_push(ops_loop, OpsV::Block(unm_tail), base, b);
                } else {
                    assert(out0 + unm_tail =~= out0);
                }
            }
            if self_table_hyp(table.entries@, new@, b) {
                let q = ops_loop.len() as int;
                let t = nlen - i_loop;
                assert(0 <= t < b);
                lemma_fundamental_div_mod_converse(nlen as int, b, q, t);
                lemma_fundamental_div_mod_converse(i_loop, b, q, 0);
                assert(nlen as int / b == q && nlen as int % b == t);
                if t == 0 {
                    assert(unm_tail.len() == 0);
                    assert(delta@ == ops_loop);
                    assert(delta@.subrange(0, q) =~= delta@);
                } else {
                    assert(unm_tail =~= new@.subrange(i_loop, nlen as int));
                    assert(delta@ == ops_loop.push(OpsV::Block(unm_tail)));
                    assert(delta@.subrange(0, q) =~= ops_loop);
                    assert(delta@[q] == OpsV::Block(new@.subrange(nlen - t, nlen as int)));
                }
            }
        }
        delta
    }

    /// Compute the delta from `base` to `new`: build the index table of the
    /// base, then scan `new` with the rolling weak signature, confirming
    /// candidate matches by strong signature.  Applying the result to
    /// `base` reproduces `new` whenever the strong signatures are collision
    /// free; on identical inputs of at least one block whose blocks are
    /// separated by their weak signatures, the delta is copy ops over the
    /// aligned prefix with at most one literal tail.
    pub fn diff(base: &[u8], new: &[u8], block_size: usize) -> (r: Delta)
        requires
            block_size >= 1,
        ensures
            coalesced(r@),
            collision_free(base@, new@, block_size as int) ==> spec_apply(
                r@,
                base@,
                block_size as int,
            ) == Some(new@),
            (base@ == new@ && new@.len() >= block_size && weak_distinct(new@, block_size as int)
                && collision_free(new@, new@, block_size as int)) ==> identity_shape(
                r@,
                new@,
                block_size as int,
            ),
    {
        let table = build_index_table(base, block_size);
        Delta::diff_with_table(&table, new, block_size)
    }
}

/// Appending one byte through `add_byte` keeps the no-two-adjacent-blocks
/// shape of an operation list.
pub proof fn lemma_coalesced_add_byte(ops: Seq<OpsV>, byte: u8)
    requires
        coalesced(ops),
    ensures
        coalesced(spec_add_byte(ops, byte)),
{
    let r = spec_add_byte(ops, byte);
    if ops.len() > 0 && ops.last() matches OpsV::Block(bs) {
        assert forall|k: int|
            0 <= k && k + 1 < r.len() implies !((#[trigger] r[k]) is Block && r[k + 1]
            is Block) by {
            if k + 1 < r.len() - 1 {
                assert(r[k] == ops[k] && r[k + 1] == ops[k + 1]);
            } else {
                assert(r[k] == ops[k]);
                assert(!(ops[k] is Block && ops[k + 1] is Block));
            }
        }
    } else {
        assert forall|k: int|
            0 <= k && k + 1 < r.len() implies !((#[trigger] r[k]) is Block && r[k + 1]
            is Block) by {
            if k + 1 < r.len() - 1 {
                assert(r[k] == ops[k] && r[k + 1] == ops[k + 1]);
            } else if ops.len() > 0 {
                assert(r[k] == ops[k]);
                assert(!(ops.last() is Block));
            }
        }
    }
}


/// A window of the underlying data: where it starts and how long it is.
#[derive(Debug, Clone, Copy)]
pub struct Block {
    pub offset: u64,
    pub size: u64,
}

/// A run of reconstructed output bytes.
#[derive(Debug, Clone)]
pub struct OutputBlock {
    data: Vec<u8>,
}

impl View for OutputBlock {
    type V = Seq<u8>;

    closed spec fn view(&self) -> Seq<u8> {
        self.data@
    }
}

impl OutputBlock {
    pub fn new(data: Vec<u8>) -> (r: Self)
        ensures
            r@ == data@,
    {
        Self { data }
    }
}

} // verus!
