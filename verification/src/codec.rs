//! Deterministic binary codec for the message union: a one-byte variant
//! tag followed by the fields in order, integers big-endian, strings and
//! byte runs length-prefixed.  On the wire each message body is preceded
//! by its big-endian `u32` length.

use vstd::prelude::*;
use vstd::utf8::{decode_utf8, encode_utf8, encode_utf8_decode_utf8, encode_utf8_valid_utf8, valid_utf8};

use crate::index_table::{IndexTable, IndexTableChunk};
use crate::messages::{
    ChunkV, ClientServerOpts, ClientServerOptsV, DataMessage, DataMessageV, FlistEntry,
    FlistEntryV, Message, MessageV, SSHMessageError, SSHMessageErrorV,
};
use crate::messages::table_view;

verus! {

// ------------------------------------------------------------------
// Spec-level encoders
// ------------------------------------------------------------------

pub open spec fn senc_u32(x: u32) -> Seq<u8> {
    seq![(x >> 24) as u8, (x >> 16) as u8, (x >> 8) as u8, x as u8]
}

pub open spec fn senc_u64(x: u64) -> Seq<u8> {
    seq![
        (x >> 56) as u8,
        (x >> 48) as u8,
        (x >> 40) as u8,
        (x >> 32) as u8,
        (x >> 24) as u8,
        (x >> 16) as u8,
        (x >> 8) as u8,
        x as u8,
    ]
}

pub open spec fn senc_i64(x: i64) -> Seq<u8> {
    senc_u64(x as u64)
}

pub open spec fn senc_bool(x: bool) -> Seq<u8> {
    seq![
        if x {
            1u8
        } else {
            0u8
        },
    ]
}

pub open spec fn senc_bytes(v: Seq<u8>) -> Seq<u8> {
    senc_u64(v.len() as u64) + v
}

pub open spec fn senc_str(s: Seq<char>) -> Seq<u8> {
    senc_bytes(encode_utf8(s))
}

pub open spec fn senc_opt_u32(o: Option<u32>) -> Seq<u8> {
    match o {
        Option::None => seq![0u8],
        Option::Some(x) => seq![1u8] + senc_u32(x),
    }
}

pub open spec fn senc_str_list_from(xs: Seq<Seq<char>>, k: int) -> Seq<u8>
    decreases xs.len() - k,
{
    if k < 0 || k >= xs.len() {
        Seq::empty()
    } else {
        senc_str(xs[k]) + senc_str_list_from(xs, k + 1)
    }
}

pub open spec fn senc_str_list(xs: Seq<Seq<char>>) -> Seq<u8> {
    senc_u64(xs.len() as u64) + senc_str_list_from(xs, 0)
}

pub open spec fn senc_chunk(e: (i64, ChunkV)) -> Seq<u8> {
    senc_i64(e.0) + senc_str(e.1.strong_signature) + senc_u64(e.1.index as u64)
}

pub open spec fn senc_table_from(xs: Seq<(i64, ChunkV)>, k: int) -> Seq<u8>
    decreases xs.len() - k,
{
    if k < 0 || k >= xs.len() {
        Seq::empty()
    } else {
        senc_chunk(xs[k]) + senc_table_from(xs, k + 1)
    }
}

pub open spec fn senc_table(xs: Seq<(i64, ChunkV)>) -> Seq<u8> {
    senc_u64(xs.len() as u64) + senc_table_from(xs, 0)
}

pub open spec fn senc_opts(o: ClientServerOptsV) -> Seq<u8> {
    senc_str(o.to) + senc_bool(o.delete) + senc_bool(o.recursive) + senc_bool(o.dry_run)
        + senc_bool(o.verbose) + senc_str_list(o.exclude)
}

pub open spec fn senc_flist(f: FlistEntryV) -> Seq<u8> {
    senc_u32(f.index) + senc_str(f.filename) + senc_u64(f.size) + senc_i64(f.mtime) + senc_u32(
        f.mode,
    ) + senc_opt_u32(f.uid) + senc_opt_u32(f.gid) + senc_bool(f.is_dir) + senc_bool(f.is_symlink)
}

pub open spec fn senc_err(e: SSHMessageErrorV) -> Seq<u8> {
    match e {
        SSHMessageErrorV::IoError(s) => seq![0u8] + senc_str(s),
        SSHMessageErrorV::TransferError(s) => seq![1u8] + senc_str(s),
        SSHMessageErrorV::FatalError(s) => seq![2u8] + senc_str(s),
    }
}

/// The stable variant tag of each message.
pub open spec fn msg_tag(m: MessageV) -> u8 {
    match m {
        MessageV::Sync => 0u8,
        MessageV::Ack => 1u8,
        MessageV::Nack => 2u8,
        MessageV::Arguments(_) => 3u8,
        MessageV::Data(_) => 4u8,
        MessageV::Redo(_) => 5u8,
        MessageV::Done => 6u8,
        MessageV::Error(_) => 7u8,
        MessageV::Info(_) => 8u8,
        MessageV::Warning(_) => 9u8,
        MessageV::FlistEntry(_) => 10u8,
        MessageV::FlistEnd => 11u8,
        MessageV::FileIndex(_) => 12u8,
        MessageV::Restore(_) => 13u8,
        MessageV::Deleted(_) => 14u8,
        MessageV::Success(_) => 15u8,
        MessageV::Degenerate(_) => 16u8,
        MessageV::Stats(_) => 17u8,
        MessageV::IoTimeout => 18u8,
        MessageV::NoSend(_) => 19u8,
    }
}

pub open spec fn senc_payload(m: MessageV) -> Seq<u8> {
    match m {
        MessageV::Sync => Seq::empty(),
        MessageV::Ack => Seq::empty(),
        MessageV::Nack => Seq::empty(),
        MessageV::Arguments(o) => senc_opts(o),
        MessageV::Data(d) => senc_u32(d.file_index) + senc_table(d.map),
        MessageV::Redo(x) => senc_u32(x),
        MessageV::Done => Seq::empty(),
        MessageV::Error(e) => senc_err(e),
        MessageV::Info(s) => senc_str(s),
        MessageV::Warning(s) => senc_str(s),
        MessageV::FlistEntry(f) => senc_flist(f),
        MessageV::FlistEnd => Seq::empty(),
        MessageV::FileIndex(x) => senc_u32(x),
        MessageV::Restore(v) => senc_bytes(v),
        MessageV::Deleted(x) => senc_u32(x),
        MessageV::Success(x) => senc_u32(x),
        MessageV::Degenerate(x) => senc_u32(x),
        MessageV::Stats(v) => senc_bytes(v),
        MessageV::IoTimeout => Seq::empty(),
        MessageV::NoSend(x) => senc_u32(x),
    }
}

/// The full body encoding of a message: its tag, then its fields.
pub open spec fn senc_message(m: MessageV) -> Seq<u8> {
    seq![msg_tag(m)] + senc_payload(m)
}

// ------------------------------------------------------------------
// Well-formedness: every length fits its length prefix
// ------------------------------------------------------------------

pub open spec fn str_wf(s: Seq<char>) -> bool {
    encode_utf8(s).len() <= u64::MAX
}

pub open spec fn str_list_wf(xs: Seq<Seq<char>>) -> bool {
    xs.len() <= u64::MAX && forall|k: int| 0 <= k < xs.len() ==> str_wf(#[trigger] xs[k])
}

pub open spec fn table_v_wf(xs: Seq<(i64, ChunkV)>) -> bool {
    xs.len() <= u64::MAX && forall|k: int|
        0 <= k < xs.len() ==> str_wf((#[trigger] xs[k]).1.strong_signature)
}

/// The messages whose encoding decodes back to them: every string, byte
/// run and list is short enough for its length prefix.
pub open spec fn msg_wf(m: MessageV) -> bool {
    match m {
        MessageV::Arguments(o) => str_wf(o.to) && str_list_wf(o.exclude),
        MessageV::Data(d) => table_v_wf(d.map),
        MessageV::Error(e) => match e {
            SSHMessageErrorV::IoError(s) => str_wf(s),
            SSHMessageErrorV::TransferError(s) => str_wf(s),
            SSHMessageErrorV::FatalError(s) => str_wf(s),
        },
        MessageV::Info(s) => str_wf(s),
        MessageV::Warning(s) => str_wf(s),
        MessageV::FlistEntry(f) => str_wf(f.filename),
        MessageV::Restore(v) => v.len() <= u64::MAX,
        MessageV::Stats(v) => v.len() <= u64::MAX,
        _ => true,
    }
}

// ------------------------------------------------------------------
// Spec-level decoders
// ------------------------------------------------------------------

pub open spec fn sdec_u8(s: Seq<u8>, p: int) -> Option<(u8, int)> {
    if 0 <= p && p + 1 <= s.len() {
        Some((s[p], p + 1))
    } else {
        None
    }
}

pub open spec fn sdec_u32(s: Seq<u8>, p: int) -> Option<(u32, int)> {
    if 0 <= p && p + 4 <= s.len() {
        Some(
            (
                ((s[p] as u32) << 24 | (s[p + 1] as u32) << 16 | (s[p + 2] as u32) << 8 | (s[p + 3]
                    as u32)),
                p + 4,
            ),
        )
    } else {
        None
    }
}

pub open spec fn sdec_u64(s: Seq<u8>, p: int) -> Option<(u64, int)> {
    if 0 <= p && p + 8 <= s.len() {
        Some(
            (
                ((s[p] as u64) << 56 | (s[p + 1] as u64) << 48 | (s[p + 2] as u64) << 40 | (s[p + 3]
                    as u64) << 32 | (s[p + 4] as u64) << 24 | (s[p + 5] as u64) << 16 | (s[p + 6]
                    as u64) << 8 | (s[p + 7] as u64)),
                p + 8,
            ),
        )
    } else {
        None
    }
}

pub open spec fn sdec_i64(s: Seq<u8>, p: int) -> Option<(i64, int)> {
    match sdec_u64(s, p) {
        Some((x, q)) => Some((x as i64, q)),
        None => None,
    }
}

pub open spec fn sdec_bool(s: Seq<u8>, p: int) -> Option<(bool, int)> {
    match sdec_u8(s, p) {
        Some((x, q)) => if x == 0 {
            Some((false, q))
        } else if x == 1 {
            Some((true, q))
        } else {
            None
        },
        None => None,
    }
}

pub open spec fn sdec_bytes(s: Seq<u8>, p: int) -> Option<(Seq<u8>, int)> {
    match sdec_u64(s, p) {
        Some((n, q)) => if q + n <= s.len() {
            Some((s.subrange(q, q + n), q + n))
        } else {
            None
        },
        None => None,
    }
}

pub open spec fn sdec_str(s: Seq<u8>, p: int) -> Option<(Seq<char>, int)> {
    match sdec_bytes(s, p) {
        Some((bs, q)) => if valid_utf8(bs) {
            Some((decode_utf8(bs), q))
        } else {
            None
        },
        None => None,
    }
}

pub open spec fn sdec_opt_u32(s: Seq<u8>, p: int) -> Option<(Option<u32>, int)> {
    match sdec_u8(s, p) {
        Some((t, q)) => if t == 0 {
            Some((Option::<u32>::None, q))
        } else if t == 1 {
            match sdec_u32(s, q) {
                Some((x, q2)) => Some((Some(x), q2)),
                None => None,
            }
        } else {
            None
        },
        None => None,
    }
}

pub open spec fn sdec_str_list_from(s: Seq<u8>, p: int, cnt: int) -> Option<(Seq<Seq<char>>, int)>
    decreases cnt,
{
    if cnt <= 0 {
        Some((Seq::empty(), p))
    } else {
        match sdec_str(s, p) {
            Some((x, q)) => match sdec_str_list_from(s, q, cnt - 1) {
                Some((xs, q2)) => Some((seq![x] + xs, q2)),
                None => None,
            },
            None => None,
        }
    }
}

pub open spec fn sdec_str_list(s: Seq<u8>, p: int) -> Option<(Seq<Seq<char>>, int)> {
    match sdec_u64(s, p) {
        Some((n, q)) => sdec_str_list_from(s, q, n as int),
        None => None,
    }
}

pub open spec fn sdec_chunk(s: Seq<u8>, p: int) -> Option<((i64, ChunkV), int)> {
    match sdec_i64(s, p) {
        Some((w, q)) => match sdec_str(s, q) {
            Some((strong, q2)) => match sdec_u64(s, q2) {
                Some((idx, q3)) => if idx <= usize::MAX as u64 {
                    Some(((w, ChunkV { strong_signature: strong, index: idx as usize }), q3))
                } else {
                    None
                },
                None => None,
            },
            None => None,
        },
        None => None,
    }
}

pub open spec fn sdec_table_from(s: Seq<u8>, p: int, cnt: int) -> Option<
    (Seq<(i64, ChunkV)>, int),
>
    decreases cnt,
{
    if cnt <= 0 {
        Some((Seq::empty(), p))
    } else {
        match sdec_chunk(s, p) {
            Some((e, q)) => match sdec_table_from(s, q, cnt - 1) {
                Some((xs, q2)) => Some((seq![e] + xs, q2)),
                None => None,
            },
            None => None,
        }
    }
}

pub open spec fn sdec_table(s: Seq<u8>, p: int) -> Option<(Seq<(i64, ChunkV)>, int)> {
    match sdec_u64(s, p) {
        Some((n, q)) => sdec_table_from(s, q, n as int),
        None => None,
    }
}

pub open spec fn sdec_opts(s: Seq<u8>, p: int) -> Option<(ClientServerOptsV, int)> {
    match sdec_str(s, p) {
        Some((to, p1)) => match sdec_bool(s, p1) {
            Some((delete, p2)) => match sdec_bool(s, p2) {
                Some((recursive, p3)) => match sdec_bool(s, p3) {
                    Some((dry_run, p4)) => match sdec_bool(s, p4) {
                        Some((verbose, p5)) => match sdec_str_list(s, p5) {
                            Some((exclude, p6)) => Some(
                                (
                                    ClientServerOptsV {
                                        to,
                                        delete,
                                        recursive,
                                        dry_run,
                                        verbose,
                                        exclude,
                                    },
                                    p6,
                                ),
                            ),
                            None => None,
                        },
                        None => None,
                    },
                    None => None,
                },
                None => None,
            },
            None => None,
        },
        None => None,
    }
}

pub open spec fn sdec_flist(s: Seq<u8>, p: int) -> Option<(FlistEntryV, int)> {
    match sdec_u32(s, p) {
        Some((index, p1)) => match sdec_str(s, p1) {
            Some((filename, p2)) => match sdec_u64(s, p2) {
                Some((size, p3)) => match sdec_i64(s, p3) {
                    Some((mtime, p4)) => match sdec_u32(s, p4) {
                        Some((mode, p5)) => match sdec_opt_u32(s, p5) {
                            Some((uid, p6)) => match sdec_opt_u32(s, p6) {
                                Some((gid, p7)) => match sdec_bool(s, p7) {
                                    Some((is_dir, p8)) => match sdec_bool(s, p8) {
                                        Some((is_symlink, p9)) => Some(
                                            (
                                                FlistEntryV {
                                                    index,
                                                    filename,
                                                    size,
                                                    mtime,
                                                    mode,
                                                    uid,
                                                    gid,
                                                    is_dir,
                                                    is_symlink,
                                                },
                                                p9,
                                            ),
                                        ),
                                        None => None,
                                    },
                                    None => None,
                                },
                                None => None,
                            },
                            None => None,
                        },
                        None => None,
                    },
                    None => None,
                },
                None => None,
            },
            None => None,
        },
        None => None,
    }
}

pub open spec fn sdec_err(s: Seq<u8>, p: int) -> Option<(SSHMessageErrorV, int)> {
    match sdec_u8(s, p) {
        Some((t, q)) => match sdec_str(s, q) {
            Some((msg, q2)) => if t == 0 {
                Some((SSHMessageErrorV::IoError(msg), q2))
            } else if t == 1 {
                Some((SSHMessageErrorV::TransferError(msg), q2))
            } else if t == 2 {
                Some((SSHMessageErrorV::FatalError(msg), q2))
            } else {
                None
            },
            None => None,
        },
        None => None,
    }
}

/// Decode one message body starting at `p`.
pub open spec fn sdec_message(s: Seq<u8>, p: int) -> Option<(MessageV, int)> {
    match sdec_u8(s, p) {
        None => None,
        Some((tag, q)) => if tag == 0 {
            Some((MessageV::Sync, q))
        } else if tag == 1 {
            Some((MessageV::Ack, q))
        } else if tag == 2 {
            Some((MessageV::Nack, q))
        } else if tag == 3 {
            match sdec_opts(s, q) {
                Some((o, q2)) => Some((MessageV::Arguments(o), q2)),
                None => None,
            }
        } else if tag == 4 {
            match sdec_u32(s, q) {
                Some((fi, q2)) => match sdec_table(s, q2) {
                    Some((map, q3)) => Some(
                        (MessageV::Data(DataMessageV { file_index: fi, map }), q3),
                    ),
                    None => None,
                },
                None => None,
            }
        } else if tag == 5 {
            match sdec_u32(s, q) {
                Some((x, q2)) => Some((MessageV::Redo(x), q2)),
                None => None,
            }
        } else if tag == 6 {
            Some((MessageV::Done, q))
        } else if tag == 7 {
            match sdec_err(s, q) {
                Some((e, q2)) => Some((MessageV::Error(e), q2)),
                None => None,
            }
        } else if tag == 8 {
            match sdec_str(s, q) {
                Some((x, q2)) => Some((MessageV::Info(x), q2)),
                None => None,
            }
        } else if tag == 9 {
            match sdec_str(s, q) {
                Some((x, q2)) => Some((MessageV::Warning(x), q2)),
                None => None,
            }
        } else if tag == 10 {
            match sdec_flist(s, q) {
                Some((f, q2)) => Some((MessageV::FlistEntry(f), q2)),
                None => None,
            }
        } else if tag == 11 {
            Some((MessageV::FlistEnd, q))
        } else if tag == 12 {
            match sdec_u32(s, q) {
                Some((x, q2)) => Some((MessageV::FileIndex(x), q2)),
                None => None,
            }
        } else if tag == 13 {
            match sdec_bytes(s, q) {
                Some((v, q2)) => Some((MessageV::Restore(v), q2)),
                None => None,
            }
        } else if tag == 14 {
            match sdec_u32(s, q) {
                Some((x, q2)) => Some((MessageV::Deleted(x), q2)),
                None => None,
            }
        } else if tag == 15 {
            match sdec_u32(s, q) {
                Some((x, q2)) => Some((MessageV::Success(x), q2)),
                None => None,
            }
        } else if tag == 16 {
            match sdec_u32(s, q) {
                Some((x, q2)) => Some((MessageV::Degenerate(x), q2)),
                None => None,
            }
        } else if tag == 17 {
            match sdec_bytes(s, q) {
                Some((v, q2)) => Some((MessageV::Stats(v), q2)),
                None => None,
            }
        } else if tag == 18 {
            Some((MessageV::IoTimeout, q))
        } else if tag == 19 {
            match sdec_u32(s, q) {
                Some((x, q2)) => Some((MessageV::NoSend(x), q2)),
                None => None,
            }
        } else {
            None
        },
    }
}

// ------------------------------------------------------------------
// Round trip: decoding an encoding yields the message encoded
// ------------------------------------------------------------------

proof fn lemma_rt_u32(s: Seq<u8>, p: int, x: u32)
    requires
        0 <= p,
        p + 4 <= s.len(),
        s.subrange(p, p + 4) == senc_u32(x),
    ensures
        sdec_u32(s, p) == Some((x, p + 4)),
{
    assert(s[p] == (x >> 24) as u8 && s[p + 1] == (x >> 16) as u8 && s[p + 2] == (x >> 8) as u8
        && s[p + 3] == x as u8) by {
        assert(s.subrange(p, p + 4)[0] == s[p]);
        assert(s.subrange(p, p + 4)[1] == s[p + 1]);
        assert(s.subrange(p, p + 4)[2] == s[p + 2]);
        assert(s.subrange(p, p + 4)[3] == s[p + 3]);
    }
    assert((((x >> 24) as u8) as u32) << 24 | (((x >> 16) as u8) as u32) << 16 | (((x >> 8) as u8)
        as u32) << 8 | ((x as u8) as u32) == x) by (bit_vector);
}

proof fn lemma_rt_u64(s: Seq<u8>, p: int, x: u64)
    requires
        0 <= p,
        p + 8 <= s.len(),
        s.subrange(p, p + 8) == senc_u64(x),
    ensures
        sdec_u64(s, p) == Some((x, p + 8)),
{
    assert(s[p] == (x >> 56) as u8 && s[p + 1] == (x >> 48) as u8 && s[p + 2] == (x >> 40) as u8
        && s[p + 3] == (x >> 32) as u8 && s[p + 4] == (x >> 24) as u8 && s[p + 5] == (x >> 16)
        as u8 && s[p + 6] == (x >> 8) as u8 && s[p + 7] == x as u8) by {
        assert(s.subrange(p, p + 8)[0] == s[p]);
        assert(s.subrange(p, p + 8)[1] == s[p + 1]);
        assert(s.subrange(p, p + 8)[2] == s[p + 2]);
        assert(s.subrange(p, p + 8)[3] == s[p + 3]);
        assert(s.subrange(p, p + 8)[4] == s[p + 4]);
        assert(s.subrange(p, p + 8)[5] == s[p + 5]);
        assert(s.subrange(p, p + 8)[6] == s[p + 6]);
        assert(s.subrange(p, p + 8)[7] == s[p + 7]);
    }
    assert((((x >> 56) as u8) as u64) << 56 | (((x >> 48) as u8) as u64) << 48 | (((x >> 40) as u8)
        as u64) << 40 | (((x >> 32) as u8) as u64) << 32 | (((x >> 24) as u8) as u64) << 24 | (((x
        >> 16) as u8) as u64) << 16 | (((x >> 8) as u8) as u64) << 8 | ((x as u8) as u64) == x)
        by (bit_vector);
}

proof fn lemma_rt_i64(s: Seq<u8>, p: int, x: i64)
    requires
        0 <= p,
        p + 8 <= s.len(),
        s.subrange(p, p + 8) == senc_i64(x),
    ensures
        sdec_i64(s, p) == Some((x, p + 8)),
{
    lemma_rt_u64(s, p, x as u64);
    assert((x as u64) as i64 == x) by (bit_vector);
}

proof fn lemma_rt_bool(s: Seq<u8>, p: int, x: bool)
    requires
        0 <= p,
        p + 1 <= s.len(),
        s.subrange(p, p + 1) == senc_bool(x),
    ensures
        sdec_bool(s, p) == Some((x, p + 1)),
{
    assert(s.subrange(p, p + 1)[0] == s[p]);
}

proof fn lemma_rt_bytes(s: Seq<u8>, p: int, v: Seq<u8>)
    requires
        0 <= p,
        v.len() <= u64::MAX,
        p + 8 + v.len() <= s.len(),
        s.subrange(p, p + 8 + v.len()) == senc_bytes(v),
    ensures
        sdec_bytes(s, p) == Some((v, p + 8 + v.len())),
{
    let n = v.len() as u64;
    assert(s.subrange(p, p + 8) =~= senc_u64(n)) by {
        assert forall|i: int| 0 <= i < 8 implies s.subrange(p, p + 8)[i] == senc_u64(n)[i] by {
            assert(s.subrange(p, p + 8 + v.len())[i] == s[p + i]);
            assert(senc_bytes(v)[i] == senc_u64(n)[i]);
        }
    }
    lemma_rt_u64(s, p, n);
    assert(n as int == v.len());
    assert(s.subrange(p + 8, p + 8 + v.len()) =~= v) by {
        assert forall|i: int| 0 <= i < v.len() implies s.subrange(p + 8, p + 8 + v.len())[i]
            == v[i] by {
            assert(s.subrange(p, p + 8 + v.len())[8 + i] == s[p + 8 + i]);
            assert(senc_bytes(v)[8 + i] == v[i]);
        }
    }
}

proof fn lemma_rt_str(s: Seq<u8>, p: int, sv: Seq<char>)
    requires
        0 <= p,
        str_wf(sv),
        p + senc_str(sv).len() <= s.len(),
        s.subrange(p, p + senc_str(sv).len()) == senc_str(sv),
    ensures
        sdec_str(s, p) == Some((sv, p + senc_str(sv).len())),
{
    let bs = encode_utf8(sv);
    lemma_rt_bytes(s, p, bs);
    encode_utf8_valid_utf8(sv);
    encode_utf8_decode_utf8(sv);
}

proof fn lemma_rt_opt_u32(s: Seq<u8>, p: int, o: Option<u32>)
    requires
        0 <= p,
        p + senc_opt_u32(o).len() <= s.len(),
        s.subrange(p, p + senc_opt_u32(o).len()) == senc_opt_u32(o),
    ensures
        sdec_opt_u32(s, p) == Some((o, p + senc_opt_u32(o).len())),
{
    match o {
        Option::None => {
            assert(s.subrange(p, p + 1)[0] == s[p]);
        },
        Option::Some(x) => {
            assert(s.subrange(p, p + 5)[0] == s[p]);
            assert(s.subrange(p + 1, p + 5) =~= senc_u32(x)) by {
                assert forall|i: int| 0 <= i < 4 implies s.subrange(p + 1, p + 5)[i] == senc_u32(
                    x,
                )[i] by {
                    assert(s.subrange(p, p + 5)[1 + i] == s[p + 1 + i]);
                    assert(senc_opt_u32(o)[1 + i] == senc_u32(x)[i]);
                }
            }
            lemma_rt_u32(s, p + 1, x);
        },
    }
}

/// Carve a concatenation: when `s` holds `a + b` at `p`, it holds `a` at
/// `p` and `b` at `p + |a|`.
proof fn lemma_carve(s: Seq<u8>, p: int, a: Seq<u8>, b: Seq<u8>)
    requires
        0 <= p,
        p + a.len() + b.len() <= s.len(),
        s.subrange(p, p + a.len() + b.len()) == a + b,
    ensures
        s.subrange(p, p + a.len()) == a,
        s.subrange(p + a.len(), p + a.len() + b.len()) == b,
{
    assert(s.subrange(p, p + a.len()) =~= a) by {
        assert forall|i: int| 0 <= i < a.len() implies s.subrange(p, p + a.len())[i] == a[i] by {
            assert(s.subrange(p, p + a.len() + b.len())[i] == s[p + i]);
            assert((a + b)[i] == a[i]);
        }
    }
    assert(s.subrange(p + a.len(), p + a.len() + b.len()) =~= b) by {
        assert forall|i: int| 0 <= i < b.len() implies s.subrange(
            p + a.len(),
            p + a.len() + b.len(),
        )[i] == b[i] by {
            assert(s.subrange(p, p + a.len() + b.len())[a.len() + i] == s[p + a.len() + i]);
            assert((a + b)[a.len() + i] == b[i]);
        }
    }
}

proof fn lemma_rt_chunk(s: Seq<u8>, p: int, e: (i64, ChunkV))
    requires
        0 <= p,
        str_wf(e.1.strong_signature),
        p + senc_chunk(e).len() <= s.len(),
        s.subrange(p, p + senc_chunk(e).len()) == senc_chunk(e),
    ensures
        sdec_chunk(s, p) == Some((e, p + senc_chunk(e).len())),
{
    let e1 = senc_i64(e.0);
    let e2 = senc_str(e.1.strong_signature);
    let e3 = senc_u64(e.1.index as u64);
    assert(senc_chunk(e) =~= e1 + (e2 + e3));
    lemma_carve(s, p, e1, e2 + e3);
    lemma_rt_i64(s, p, e.0);
    lemma_carve(s, p + 8, e2, e3);
    lemma_rt_str(s, p + 8, e.1.strong_signature);
    lemma_rt_u64(s, p + 8 + e2.len(), e.1.index as u64);
    assert(e.1.index as u64 <= usize::MAX as u64);
    assert(((e.1.index as u64) as usize) == e.1.index);
    assert(ChunkV {
        strong_signature: e.1.strong_signature,
        index: ((e.1.index as u64) as usize),
    } == e.1);
}

proof fn lemma_rt_table_from(s: Seq<u8>, p: int, xs: Seq<(i64, ChunkV)>, k: int)
    requires
        0 <= p,
        0 <= k <= xs.len(),
        forall|j: int| k <= j < xs.len() ==> str_wf((#[trigger] xs[j]).1.strong_signature),
        p + senc_table_from(xs, k).len() <= s.len(),
        s.subrange(p, p + senc_table_from(xs, k).len()) == senc_table_from(xs, k),
    ensures
        sdec_table_from(s, p, xs.len() - k) == Some(
            (xs.skip(k), p + senc_table_from(xs, k).len()),
        ),
    decreases xs.len() - k,
{
    if k == xs.len() {
        assert(xs.skip(k) =~= Seq::<(i64, ChunkV)>::empty());
    } else {
        let e0 = senc_chunk(xs[k]);
        let rest = senc_table_from(xs, k + 1);
        assert(senc_table_from(xs, k) == e0 + rest);
        lemma_carve(s, p, e0, rest);
        lemma_rt_chunk(s, p, xs[k]);
        lemma_rt_table_from(s, p + e0.len(), xs, k + 1);
        assert(xs.skip(k) =~= seq![xs[k]] + xs.skip(k + 1));
    }
}

proof fn lemma_rt_table(s: Seq<u8>, p: int, xs: Seq<(i64, ChunkV)>)
    requires
        0 <= p,
        table_v_wf(xs),
        p + senc_table(xs).len() <= s.len(),
        s.subrange(p, p + senc_table(xs).len()) == senc_table(xs),
    ensures
        sdec_table(s, p) == Some((xs, p + senc_table(xs).len())),
{
    let n = xs.len() as u64;
    lemma_carve(s, p, senc_u64(n), senc_table_from(xs, 0));
    lemma_rt_u64(s, p, n);
    assert(n as int == xs.len());
    lemma_rt_table_from(s, p + 8, xs, 0);
    assert(xs.skip(0) =~= xs);
}

proof fn lemma_rt_str_list_from(s: Seq<u8>, p: int, xs: Seq<Seq<char>>, k: int)
    requires
        0 <= p,
        0 <= k <= xs.len(),
        forall|j: int| k <= j < xs.len() ==> str_wf(#[trigger] xs[j]),
        p + senc_str_list_from(xs, k).len() <= s.len(),
        s.subrange(p, p + senc_str_list_from(xs, k).len()) == senc_str_list_from(xs, k),
    ensures
        sdec_str_list_from(s, p, xs.len() - k) == Some(
            (xs.skip(k), p + senc_str_list_from(xs, k).len()),
        ),
    decreases xs.len() - k,
{
    if k == xs.len() {
        assert(xs.skip(k) =~= Seq::<Seq<char>>::empty());
    } else {
        let e0 = senc_str(xs[k]);
        let rest = senc_str_list_from(xs, k + 1);
        assert(senc_str_list_from(xs, k) == e0 + rest);
        lemma_carve(s, p, e0, rest);
        lemma_rt_str(s, p, xs[k]);
        lemma_rt_str_list_from(s, p + e0.len(), xs, k + 1);
        assert(xs.skip(k) =~= seq![xs[k]] + xs.skip(k + 1));
    }
}

proof fn lemma_rt_str_list(s: Seq<u8>, p: int, xs: Seq<Seq<char>>)
    requires
        0 <= p,
        str_list_wf(xs),
        p + senc_str_list(xs).len() <= s.len(),
        s.subrange(p, p + senc_str_list(xs).len()) == senc_str_list(xs),
    ensures
        sdec_str_list(s, p) == Some((xs, p + senc_str_list(xs).len())),
{
    let n = xs.len() as u64;
    lemma_carve(s, p, senc_u64(n), senc_str_list_from(xs, 0));
    lemma_rt_u64(s, p, n);
    assert(n as int == xs.len());
    lemma_rt_str_list_from(s, p + 8, xs, 0);
    assert(xs.skip(0) =~= xs);
}

proof fn lemma_rt_opts(s: Seq<u8>, p: int, o: ClientServerOptsV)
    requires
        0 <= p,
        str_wf(o.to),
        str_list_wf(o.exclude),
        p + senc_opts(o).len() <= s.len(),
        s.subrange(p, p + senc_opts(o).len()) == senc_opts(o),
    ensures
        sdec_opts(s, p) == Some((o, p + senc_opts(o).len())),
{
    let e1 = senc_str(o.to);
    let e2 = senc_bool(o.delete);
    let e3 = senc_bool(o.recursive);
    let e4 = senc_bool(o.dry_run);
    let e5 = senc_bool(o.verbose);
    let e6 = senc_str_list(o.exclude);
    assert(senc_opts(o) =~= e1 + (e2 + (e3 + (e4 + (e5 + e6)))));
    let p1 = p + e1.len();
    let p2 = p1 + 1;
    let p3 = p2 + 1;
    let p4 = p3 + 1;
    let p5 = p4 + 1;
    lemma_carve(s, p, e1, e2 + (e3 + (e4 + (e5 + e6))));
    lemma_rt_str(s, p, o.to);
    lemma_carve(s, p1, e2, e3 + (e4 + (e5 + e6)));
    lemma_rt_bool(s, p1, o.delete);
    lemma_carve(s, p2, e3, e4 + (e5 + e6));
    lemma_rt_bool(s, p2, o.recursive);
    lemma_carve(s, p3, e4, e5 + e6);
    lemma_rt_bool(s, p3, o.dry_run);
    lemma_carve(s, p4, e5, e6);
    lemma_rt_bool(s, p4, o.verbose);
    lemma_rt_str_list(s, p5, o.exclude);
}

#[verifier::rlimit(100)]
proof fn lemma_rt_flist(s: Seq<u8>, p: int, f: FlistEntryV)
    requires
        0 <= p,
        str_wf(f.filename),
        p + senc_flist(f).len() <= s.len(),
        s.subrange(p, p + senc_flist(f).len()) == senc_flist(f),
    ensures
        sdec_flist(s, p) == Some((f, p + senc_flist(f).len())),
{
    let e1 = senc_u32(f.index);
    let e2 = senc_str(f.filename);
    let e3 = senc_u64(f.size);
    let e4 = senc_i64(f.mtime);
    let e5 = senc_u32(f.mode);
    let e6 = senc_opt_u32(f.uid);
    let e7 = senc_opt_u32(f.gid);
    let e8 = senc_bool(f.is_dir);
    let e9 = senc_bool(f.is_symlink);
    assert(senc_flist(f) =~= e1 + (e2 + (e3 + (e4 + (e5 + (e6 + (e7 + (e8 + e9))))))));
    let p1 = p + 4;
    let p2 = p1 + e2.len();
    let p3 = p2 + 8;
    let p4 = p3 + 8;
    let p5 = p4 + 4;
    let p6 = p5 + e6.len();
    let p7 = p6 + e7.len();
    let p8 = p7 + 1;
    lemma_carve(s, p, e1, e2 + (e3 + (e4 + (e5 + (e6 + (e7 + (e8 + e9)))))));
    lemma_rt_u32(s, p, f.index);
    lemma_carve(s, p1, e2, e3 + (e4 + (e5 + (e6 + (e7 + (e8 + e9))))));
    lemma_rt_str(s, p1, f.filename);
    lemma_carve(s, p2, e3, e4 + (e5 + (e6 + (e7 + (e8 + e9)))));
    lemma_rt_u64(s, p2, f.size);
    lemma_carve(s, p3, e4, e5 + (e6 + (e7 + (e8 + e9))));
    lemma_rt_i64(s, p3, f.mtime);
    lemma_carve(s, p4, e5, e6 + (e7 + (e8 + e9)));
    lemma_rt_u32(s, p4, f.mode);
    lemma_carve(s, p5, e6, e7 + (e8 + e9));
    lemma_rt_opt_u32(s, p5, f.uid);
    lemma_carve(s, p6, e7, e8 + e9);
    lemma_rt_opt_u32(s, p6, f.gid);
    lemma_carve(s, p7, e8, e9);
    lemma_rt_bool(s, p7, f.is_dir);
    lemma_rt_bool(s, p8, f.is_symlink);
}

proof fn lemma_rt_err(s: Seq<u8>, p: int, e: SSHMessageErrorV)
    requires
        0 <= p,
        (match e {
            SSHMessageErrorV::IoError(msg) => str_wf(msg),
            SSHMessageErrorV::TransferError(msg) => str_wf(msg),
            SSHMessageErrorV::FatalError(msg) => str_wf(msg),
        }),
        p + senc_err(e).len() <= s.len(),
        s.subrange(p, p + senc_err(e).len()) == senc_err(e),
    ensures
        sdec_err(s, p) == Some((e, p + senc_err(e).len())),
{
    match e {
        SSHMessageErrorV::IoError(msg) => {
            lemma_carve(s, p, seq![0u8], senc_str(msg));
            assert(s.subrange(p, p + 1)[0] == s[p]);
            lemma_rt_str(s, p + 1, msg);
        },
        SSHMessageErrorV::TransferError(msg) => {
            lemma_carve(s, p, seq![1u8], senc_str(msg));
            assert(s.subrange(p, p + 1)[0] == s[p]);
            lemma_rt_str(s, p + 1, msg);
        },
        SSHMessageErrorV::FatalError(msg) => {
            lemma_carve(s, p, seq![2u8], senc_str(msg));
            assert(s.subrange(p, p + 1)[0] == s[p]);
            lemma_rt_str(s, p + 1, msg);
        },
    }
}

/// Framing is a bijection on well-formed messages: decoding the bytes
/// produced by encoding a message yields a message equal to it, consuming
/// the whole encoding.
#[verifier::rlimit(100)]
#[verifier::spinoff_prover]
pub proof fn lemma_codec_round_trip(m: MessageV)
    requires
        msg_wf(m),
    ensures
        sdec_message(senc_message(m), 0) == Some((m, senc_message(m).len() as int)),
{
    let s = senc_message(m);
    let pay = senc_payload(m);
    assert(s == seq![msg_tag(m)] + pay);
    assert(s.subrange(0, 1 + pay.len() as int) =~= s);
    lemma_carve(s, 0, seq![msg_tag(m)], pay);
    assert(s.subrange(0, 1)[0] == s[0]);
    assert(s[0] == msg_tag(m));
    assert(s.subrange(1, 1 + pay.len() as int) == pay);
    match m {
        MessageV::Sync => {},
        MessageV::Ack => {},
        MessageV::Nack => {},
        MessageV::Arguments(o) => {
            lemma_rt_opts(s, 1, o);
        },
        MessageV::Data(d) => {
            lemma_carve(s, 1, senc_u32(d.file_index), senc_table(d.map));
            lemma_rt_u32(s, 1, d.file_index);
            lemma_rt_table(s, 5, d.map);
        },
        MessageV::Redo(x) => {
            lemma_rt_u32(s, 1, x);
        },
        MessageV::Done => {},
        MessageV::Error(e) => {
            lemma_rt_err(s, 1, e);
        },
        MessageV::Info(sv) => {
            lemma_rt_str(s, 1, sv);
        },
        MessageV::Warning(sv) => {
            lemma_rt_str(s, 1, sv);
        },
        MessageV::FlistEntry(f) => {
            lemma_rt_flist(s, 1, f);
        },
        MessageV::FlistEnd => {},
        MessageV::FileIndex(x) => {
            lemma_rt_u32(s, 1, x);
        },
        MessageV::Restore(v) => {
            lemma_rt_bytes(s, 1, v);
        },
        MessageV::Deleted(x) => {
            lemma_rt_u32(s, 1, x);
        },
        MessageV::Success(x) => {
            lemma_rt_u32(s, 1, x);
        },
        MessageV::Degenerate(x) => {
            lemma_rt_u32(s, 1, x);
        },
        MessageV::Stats(v) => {
            lemma_rt_bytes(s, 1, v);
        },
        MessageV::IoTimeout => {},
        MessageV::NoSend(x) => {
            lemma_rt_u32(s, 1, x);
        },
    }
}


// ------------------------------------------------------------------
// Executable encoders
// ------------------------------------------------------------------

/// Relies on core::str::from_utf8: it succeeds exactly on valid UTF-8
/// input and yields that input's UTF-8 decoding.
#[verifier::external_body]
pub(crate) fn utf8_to_string(v: &[u8]) -> (r: Option<String>)
    ensures
        r is Some <==> valid_utf8(v@),
        r matches Some(s) ==> s@ == decode_utf8(v@),
{
    match core::str::from_utf8(v) {
        Ok(s) => Some(s.to_owned()),
        Err(_) => None,
    }
}

fn enc_u32(out: &mut Vec<u8>, x: u32)
    ensures
        final(out)@ == old(out)@ + senc_u32(x),
{
    out.push((x >> 24) as u8);
    out.push((x >> 16) as u8);
    out.push((x >> 8) as u8);
    out.push(x as u8);
    proof {
        assert(out@ =~= old(out)@ + senc_u32(x));
    }
}

fn enc_u64(out: &mut Vec<u8>, x: u64)
    ensures
        final(out)@ == old(out)@ + senc_u64(x),
{
    out.push((x >> 56) as u8);
    out.push((x >> 48) as u8);
    out.push((x >> 40) as u8);
    out.push((x >> 32) as u8);
    out.push((x >> 24) as u8);
    out.push((x >> 16) as u8);
    out.push((x >> 8) as u8);
    out.push(x as u8);
    proof {
        assert(out@ =~= old(out)@ + senc_u64(x));
    }
}

fn enc_i64(out: &mut Vec<u8>, x: i64)
    ensures
        final(out)@ == old(out)@ + senc_i64(x),
{
    enc_u64(out, x as u64);
}

fn enc_bool(out: &mut Vec<u8>, x: bool)
    ensures
        final(out)@ == old(out)@ + senc_bool(x),
{
    out.push(if x { 1u8 } else { 0u8 });
    proof {
        assert(out@ =~= old(out)@ + senc_bool(x));
    }
}

fn enc_bytes(out: &mut Vec<u8>, v: &[u8])
    ensures
        final(out)@ == old(out)@ + senc_bytes(v@),
{
    let n = v.len() as u64;
    enc_u64(out, n);
    out.extend_from_slice(v);
    proof {
        assert(out@ =~= old(out)@ + senc_bytes(v@));
    }
}

fn enc_str(out: &mut Vec<u8>, s: &str)
    ensures
        final(out)@ == old(out)@ + senc_str(s@),
{
    enc_bytes(out, s.as_bytes());
}

fn enc_opt_u32(out: &mut Vec<u8>, o: &Option<u32>)
    ensures
        final(out)@ == old(out)@ + senc_opt_u32(*o),
{
    match o {
        Option::None => {
            out.push(0u8);
            proof {
                assert(out@ =~= old(out)@ + senc_opt_u32(*o));
            }
        },
        Option::Some(x) => {
            out.push(1u8);
            let ghost mid = out@;
            enc_u32(out, *x);
            proof {
                assert(mid =~= old(out)@ + seq![1u8]);
                assert(out@ =~= old(out)@ + senc_opt_u32(*o));
            }
        },
    }
}

/// The mathematical form of a list of strings.
pub open spec fn str_list_view(xs: Seq<String>) -> Seq<Seq<char>> {
    Seq::new(xs.len(), |k: int| xs[k]@)
}

#[verifier::loop_isolation(false)]
fn enc_str_list(out: &mut Vec<u8>, xs: &Vec<String>)
    ensures
        final(out)@ == old(out)@ + senc_str_list(str_list_view(xs@)),
{
    let ghost xsv = str_list_view(xs@);
    let n = xs.len() as u64;
    enc_u64(out, n);
    let ghost start = out@;
    let mut k: usize = 0;
    while k < xs.len()
        invariant
            0 <= k <= xs@.len(),
            out@ + senc_str_list_from(xsv, k as int) == start + senc_str_list_from(xsv, 0),
        decreases xs@.len() - k,
    {
        let ghost pre = out@;
        enc_str(out, xs[k].as_str());
        k = k + 1;
        proof {
            assert(xsv[k - 1] == xs@[k - 1]@);
            assert(senc_str_list_from(xsv, (k - 1) as int) == senc_str(xsv[k - 1])
                + senc_str_list_from(xsv, k as int));
            assert(out@ + senc_str_list_from(xsv, k as int) =~= pre + senc_str_list_from(
                xsv,
                (k - 1) as int,
            ));
        }
    }
    proof {
        assert(senc_str_list_from(xsv, xs@.len() as int) =~= Seq::<u8>::empty());
        assert(out@ =~= out@ + senc_str_list_from(xsv, xs@.len() as int));
        assert(out@ =~= old(out)@ + senc_str_list(xsv));
    }
}

fn enc_chunk(out: &mut Vec<u8>, key: i64, chunk: &IndexTableChunk)
    ensures
        final(out)@ == old(out)@ + senc_chunk((key, chunk@)),
{
    enc_i64(out, key);
    enc_str(out, chunk.strong_signature.as_str());
    enc_u64(out, chunk.index as u64);
    proof {
        assert(out@ =~= old(out)@ + senc_chunk((key, chunk@)));
    }
}

#[verifier::loop_isolation(false)]
fn enc_table(out: &mut Vec<u8>, t: &IndexTable)
    ensures
        final(out)@ == old(out)@ + senc_table(table_view(*t)),
{
    let ghost xsv = table_view(*t);
    let n = t.entries.len() as u64;
    enc_u64(out, n);
    let ghost start = out@;
    let mut k: usize = 0;
    while k < t.entries.len()
        invariant
            0 <= k <= t.entries@.len(),
            out@ + senc_table_from(xsv, k as int) == start + senc_table_from(xsv, 0),
        decreases t.entries@.len() - k,
    {
        let ghost pre = out@;
        let entry = &t.entries[k];
        enc_chunk(out, entry.0, &entry.1);
        k = k + 1;
        proof {
            assert(xsv[k - 1] == (t.entries@[k - 1].0, t.entries@[k - 1].1@));
            assert(senc_table_from(xsv, (k - 1) as int) == senc_chunk(xsv[k - 1])
                + senc_table_from(xsv, k as int));
            assert(out@ + senc_table_from(xsv, k as int) =~= pre + senc_table_from(
                xsv,
                (k - 1) as int,
            ));
        }
    }
    proof {
        assert(senc_table_from(xsv, t.entries@.len() as int) =~= Seq::<u8>::empty());
        assert(out@ =~= out@ + senc_table_from(xsv, t.entries@.len() as int));
        assert(out@ =~= old(out)@ + senc_table(xsv));
    }
}

fn enc_opts(out: &mut Vec<u8>, o: &ClientServerOpts)
    ensures
        final(out)@ == old(out)@ + senc_opts(o@),
{
    enc_str(out, o.to.as_str());
    enc_bool(out, o.delete);
    enc_bool(out, o.recursive);
    enc_bool(out, o.dry_run);
    enc_bool(out, o.verbose);
    enc_str_list(out, &o.exclude);
    proof {
        assert(str_list_view(o.exclude@) =~= o@.exclude);
        assert(out@ =~= old(out)@ + senc_opts(o@));
    }
}

fn enc_flist(out: &mut Vec<u8>, f: &FlistEntry)
    ensures
        final(out)@ == old(out)@ + senc_flist(f@),
{
    enc_u32(out, f.index);
    enc_str(out, f.filename.as_str());
    enc_u64(out, f.size);
    enc_i64(out, f.mtime);
    enc_u32(out, f.mode);
    enc_opt_u32(out, &f.uid);
    enc_opt_u32(out, &f.gid);
    enc_bool(out, f.is_dir);
    enc_bool(out, f.is_symlink);
    proof {
        assert(out@ =~= old(out)@ + senc_flist(f@));
    }
}

fn enc_err(out: &mut Vec<u8>, e: &SSHMessageError)
    ensures
        final(out)@ == old(out)@ + senc_err(e@),
{
    match e {
        SSHMessageError::IoError(msg) => {
            out.push(0u8);
            let ghost mid = out@;
            enc_str(out, msg.as_str());
            proof {
                assert(mid =~= old(out)@ + seq![0u8]);
                assert(out@ =~= old(out)@ + senc_err(e@));
            }
        },
        SSHMessageError::TransferError(msg) => {
            out.push(1u8);
            let ghost mid = out@;
            enc_str(out, msg.as_str());
            proof {
                assert(mid =~= old(out)@ + seq![1u8]);
                assert(out@ =~= old(out)@ + senc_err(e@));
            }
        },
        SSHMessageError::FatalError(msg) => {
            out.push(2u8);
            let ghost mid = out@;
            enc_str(out, msg.as_str());
            proof {
                assert(mid =~= old(out)@ + seq![2u8]);
                assert(out@ =~= old(out)@ + senc_err(e@));
            }
        },
    }
}

/// Encode one message as its body bytes: tag, then fields.
pub fn encode_message(m: &Message) -> (r: Vec<u8>)
    ensures
        r@ == senc_message(m@),
{
    let mut out: Vec<u8> = Vec::new();
    match m {
        Message::SYNC => {
            out.push(0u8);
        },
        Message::ACK => {
            out.push(1u8);
        },
        Message::NACK => {
            out.push(2u8);
        },
        Message::Arguments(o) => {
            out.push(3u8);
            enc_opts(&mut out, o);
        },
        Message::Data(d) => {
            out.push(4u8);
            enc_u32(&mut out, d.file_index);
            enc_table(&mut out, &d.map);
        },
        Message::Redo(x) => {
            out.push(5u8);
            enc_u32(&mut out, *x);
        },
        Message::Done => {
            out.push(6u8);
        },
        Message::Error(e) => {
            out.push(7u8);
            enc_err(&mut out, e);
        },
        Message::Info(s) => {
            out.push(8u8);
            enc_str(&mut out, s.as_str());
        },
        Message::Warning(s) => {
            out.push(9u8);
            enc_str(&mut out, s.as_str());
        },
        Message::FlistEntry(f) => {
            out.push(10u8);
            enc_flist(&mut out, f);
        },
        Message::FlistEnd => {
            out.push(11u8);
        },
        Message::FileIndex(x) => {
            out.push(12u8);
            enc_u32(&mut out, *x);
        },
        Message::Restore(v) => {
            out.push(13u8);
            enc_bytes(&mut out, v.as_slice());
        },
        Message::Deleted(x) => {
            out.push(14u8);
            enc_u32(&mut out, *x);
        },
        Message::Success(x) => {
            out.push(15u8);
            enc_u32(&mut out, *x);
        },
        Message::Degenerate(x) => {
            out.push(16u8);
            enc_u32(&mut out, *x);
        },
        Message::Stats(v) => {
            out.push(17u8);
            enc_bytes(&mut out, v.as_slice());
        },
        Message::IoTimeout => {
            out.push(18u8);
        },
        Message::NoSend(x) => {
            out.push(19u8);
            enc_u32(&mut out, *x);
        },
    }
    proof {
        assert(out@ =~= senc_message(m@));
    }
    out
}


// ------------------------------------------------------------------
// Executable decoders
// ------------------------------------------------------------------

fn dec_u8(s: &[u8], p: usize) -> (r: Option<(u8, usize)>)
    ensures
        match r {
            Some((v, q)) => sdec_u8(s@, p as int) == Some((v, q as int)),
            None => sdec_u8(s@, p as int) is None,
        },
{
    if p < s.len() {
        Some((s[p], p + 1))
    } else {
        None
    }
}

fn dec_u32(s: &[u8], p: usize) -> (r: Option<(u32, usize)>)
    ensures
        match r {
            Some((v, q)) => sdec_u32(s@, p as int) == Some((v, q as int)),
            None => sdec_u32(s@, p as int) is None,
        },
{
    if s.len() >= 4 && p <= s.len() - 4 {
        let v = (s[p] as u32) << 24 | (s[p + 1] as u32) << 16 | (s[p + 2] as u32) << 8 | (s[p + 3]
            as u32);
        Some((v, p + 4))
    } else {
        None
    }
}

fn dec_u64(s: &[u8], p: usize) -> (r: Option<(u64, usize)>)
    ensures
        match r {
            Some((v, q)) => sdec_u64(s@, p as int) == Some((v, q as int)),
            None => sdec_u64(s@, p as int) is None,
        },
{
    if s.len() >= 8 && p <= s.len() - 8 {
        let v = (s[p] as u64) << 56 | (s[p + 1] as u64) << 48 | (s[p + 2] as u64) << 40 | (s[p + 3]
            as u64) << 32 | (s[p + 4] as u64) << 24 | (s[p + 5] as u64) << 16 | (s[p + 6] as u64)
            << 8 | (s[p + 7] as u64);
        Some((v, p + 8))
    } else {
        None
    }
}

fn dec_i64(s: &[u8], p: usize) -> (r: Option<(i64, usize)>)
    ensures
        match r {
            Some((v, q)) => sdec_i64(s@, p as int) == Some((v, q as int)),
            None => sdec_i64(s@, p as int) is None,
        },
{
    match dec_u64(s, p) {
        Some((x, q)) => Some((x as i64, q)),
        None => None,
    }
}

fn dec_bool(s: &[u8], p: usize) -> (r: Option<(bool, usize)>)
    ensures
        match r {
            Some((v, q)) => sdec_bool(s@, p as int) == Some((v, q as int)),
            None => sdec_bool(s@, p as int) is None,
        },
{
    match dec_u8(s, p) {
        Some((x, q)) => {
            if x == 0 {
                Some((false, q))
            } else if x == 1 {
                Some((true, q))
            } else {
                None
            }
        },
        None => None,
    }
}

fn dec_bytes<'a>(s: &'a [u8], p: usize) -> (r: Option<(&'a [u8], usize)>)
    ensures
        match r {
            Some((v, q)) => sdec_bytes(s@, p as int) == Some((v@, q as int)),
            None => sdec_bytes(s@, p as int) is None,
        },
{
    match dec_u64(s, p) {
        Some((n, q)) => {
            if n <= (s.len() - q) as u64 {
                let nn = n as usize;
                let sl = &s[q..q + nn];
                Some((sl, q + nn))
            } else {
                None
            }
        },
        None => None,
    }
}

fn dec_str(s: &[u8], p: usize) -> (r: Option<(String, usize)>)
    ensures
        match r {
            Some((v, q)) => sdec_str(s@, p as int) == Some((v@, q as int)),
            None => sdec_str(s@, p as int) is None,
        },
{
    match dec_bytes(s, p) {
        Some((bs, q)) => {
            match utf8_to_string(bs) {
                Some(v) => Some((v, q)),
                None => None,
            }
        },
        None => None,
    }
}

fn dec_opt_u32(s: &[u8], p: usize) -> (r: Option<(Option<u32>, usize)>)
    ensures
        match r {
            Some((v, q)) => sdec_opt_u32(s@, p as int) == Some((v, q as int)),
            None => sdec_opt_u32(s@, p as int) is None,
        },
{
    match dec_u8(s, p) {
        Some((t, q)) => {
            if t == 0 {
                Some((None, q))
            } else if t == 1 {
                match dec_u32(s, q) {
                    Some((x, q2)) => Some((Some(x), q2)),
                    None => None,
                }
            } else {
                None
            }
        },
        None => None,
    }
}

#[verifier::loop_isolation(false)]
fn dec_str_list(s: &[u8], p: usize) -> (r: Option<(Vec<String>, usize)>)
    ensures
        match r {
            Some((v, q)) => sdec_str_list(s@, p as int) == Some((str_list_view(v@), q as int)),
            None => sdec_str_list(s@, p as int) is None,
        },
{
    match dec_u64(s, p) {
        None => None,
        Some((n, q0)) => {
            let mut acc: Vec<String> = Vec::new();
            let mut cur = q0;
            let mut rem = n;
            loop
                invariant
                    cur <= s@.len(),
                    (match sdec_str_list_from(s@, cur as int, rem as int) {
                        Some((xs, qe)) => sdec_str_list_from(s@, q0 as int, n as int) == Some(
                            (str_list_view(acc@) + xs, qe),
                        ),
                        None => sdec_str_list_from(s@, q0 as int, n as int) is None,
                    }),
                decreases rem,
            {
                if rem == 0 {
                    break ;
                }
                match dec_str(s, cur) {
                    None => {
                        return None;
                    },
                    Some((x, q2)) => {
                        let ghost pre_acc = acc@;
                        acc.push(x);
                        proof {
                            assert(str_list_view(acc@) =~= str_list_view(pre_acc).push(x@));
                            assert forall|xs: Seq<Seq<char>>|
                                true implies str_list_view(pre_acc) + (seq![x@] + xs)
                                =~= str_list_view(acc@) + xs by {}
                        }
                        cur = q2;
                        rem = rem - 1;
                    },
                }
            }
            proof {
                assert(sdec_str_list_from(s@, cur as int, 0) == Some(
                    (Seq::<Seq<char>>::empty(), cur as int),
                ));
                assert(str_list_view(acc@) + Seq::<Seq<char>>::empty() =~= str_list_view(acc@));
            }
            Some((acc, cur))
        },
    }
}

fn dec_chunk(s: &[u8], p: usize) -> (r: Option<((i64, IndexTableChunk), usize)>)
    ensures
        match r {
            Some((e, q)) => sdec_chunk(s@, p as int) == Some(((e.0, e.1@), q as int)),
            None => sdec_chunk(s@, p as int) is None,
        },
{
    match dec_i64(s, p) {
        None => None,
        Some((w, q)) => {
            match dec_str(s, q) {
                None => None,
                Some((strong, q2)) => {
                    match dec_u64(s, q2) {
                        None => None,
                        Some((idx, q3)) => {
                            if idx <= usize::MAX as u64 {
                                let chunk = IndexTableChunk {
                                    strong_signature: strong,
                                    index: idx as usize,
                                };
                                Some(((w, chunk), q3))
                            } else {
                                None
                            }
                        },
                    }
                },
            }
        },
    }
}

#[verifier::loop_isolation(false)]
fn dec_table(s: &[u8], p: usize) -> (r: Option<(IndexTable, usize)>)
    ensures
        match r {
            Some((t, q)) => sdec_table(s@, p as int) == Some((table_view(t), q as int)),
            None => sdec_table(s@, p as int) is None,
        },
{
    match dec_u64(s, p) {
        None => None,
        Some((n, q0)) => {
            let mut acc: Vec<(i64, IndexTableChunk)> = Vec::new();
            let mut cur = q0;
            let mut rem = n;
            loop
                invariant
                    cur <= s@.len(),
                    (match sdec_table_from(s@, cur as int, rem as int) {
                        Some((xs, qe)) => sdec_table_from(s@, q0 as int, n as int) == Some(
                            (entries_view(acc@) + xs, qe),
                        ),
                        None => sdec_table_from(s@, q0 as int, n as int) is None,
                    }),
                decreases rem,
            {
                if rem == 0 {
                    break ;
                }
                match dec_chunk(s, cur) {
                    None => {
                        return None;
                    },
                    Some((e, q2)) => {
                        let ghost pre_acc = acc@;
                        let ghost ev = (e.0, e.1@);
                        acc.push(e);
                        proof {
                            assert(entries_view(acc@) =~= entries_view(pre_acc).push(ev));
                            assert forall|xs: Seq<(i64, ChunkV)>|
                                true implies entries_view(pre_acc) + (seq![ev] + xs)
                                =~= entries_view(acc@) + xs by {}
                        }
                        cur = q2;
                        rem = rem - 1;
                    },
                }
            }
            proof {
                assert(sdec_table_from(s@, cur as int, 0) == Some(
                    (Seq::<(i64, ChunkV)>::empty(), cur as int),
                ));
                assert(entries_view(acc@) + Seq::<(i64, ChunkV)>::empty() =~= entries_view(acc@));
            }
            let t = IndexTable { entries: acc };
            proof {
                assert(table_view(t) =~= entries_view(t.entries@));
            }
            Some((t, cur))
        },
    }
}

/// The mathematical form of a table's entry list.
pub open spec fn entries_view(xs: Seq<(i64, IndexTableChunk)>) -> Seq<(i64, ChunkV)> {
    Seq::new(xs.len(), |k: int| (xs[k].0, xs[k].1@))
}

fn dec_opts(s: &[u8], p: usize) -> (r: Option<(ClientServerOpts, usize)>)
    ensures
        match r {
            Some((o, q)) => sdec_opts(s@, p as int) == Some((o@, q as int)),
            None => sdec_opts(s@, p as int) is None,
        },
{
    match dec_str(s, p) {
        None => None,
        Some((to, p1)) => match dec_bool(s, p1) {
            None => None,
            Some((delete, p2)) => match dec_bool(s, p2) {
                None => None,
                Some((recursive, p3)) => match dec_bool(s, p3) {
                    None => None,
                    Some((dry_run, p4)) => match dec_bool(s, p4) {
                        None => None,
                        Some((verbose, p5)) => match dec_str_list(s, p5) {
                            None => None,
                            Some((exclude, p6)) => {
                                let o = ClientServerOpts {
                                    to,
                                    delete,
                                    recursive,
                                    dry_run,
                                    verbose,
                                    exclude,
                                };
                                proof {
                                    assert(o@.exclude =~= str_list_view(o.exclude@));
                                }
                                Some((o, p6))
                            },
                        },
                    },
                },
            },
        },
    }
}

fn dec_flist(s: &[u8], p: usize) -> (r: Option<(FlistEntry, usize)>)
    ensures
        match r {
            Some((f, q)) => sdec_flist(s@, p as int) == Some((f@, q as int)),
            None => sdec_flist(s@, p as int) is None,
        },
{
    match dec_u32(s, p) {
        None => None,
        Some((index, p1)) => match dec_str(s, p1) {
            None => None,
            Some((filename, p2)) => match dec_u64(s, p2) {
                None => None,
                Some((size, p3)) => match dec_i64(s, p3) {
                    None => None,
                    Some((mtime, p4)) => match dec_u32(s, p4) {
                        None => None,
                        Some((mode, p5)) => match dec_opt_u32(s, p5) {
                            None => None,
                            Some((uid, p6)) => match dec_opt_u32(s, p6) {
                                None => None,
                                Some((gid, p7)) => match dec_bool(s, p7) {
                                    None => None,
                                    Some((is_dir, p8)) => match dec_bool(s, p8) {
                                        None => None,
                                        Some((is_symlink, p9)) => Some(
                                            (
                                                FlistEntry {
                                                    index,
                                                    filename,
                                                    size,
                                                    mtime,
                                                    mode,
                                                    uid,
                                                    gid,
                                                    is_dir,
                                                    is_symlink,
                                                },
                                                p9,
                                            ),
                                        ),
                                    },
                                },
                            },
                        },
                    },
                },
            },
        },
    }
}

fn dec_err(s: &[u8], p: usize) -> (r: Option<(SSHMessageError, usize)>)
    ensures
        match r {
            Some((e, q)) => sdec_err(s@, p as int) == Some((e@, q as int)),
            None => sdec_err(s@, p as int) is None,
        },
{
    match dec_u8(s, p) {
        None => None,
        Some((t, q)) => match dec_str(s, q) {
            None => None,
            Some((msg, q2)) => {
                if t == 0 {
                    Some((SSHMessageError::IoError(msg), q2))
                } else if t == 1 {
                    Some((SSHMessageError::TransferError(msg), q2))
                } else if t == 2 {
                    Some((SSHMessageError::FatalError(msg), q2))
                } else {
                    None
                }
            },
        },
    }
}

fn dec_msg(s: &[u8], p: usize) -> (r: Option<(Message, usize)>)
    ensures
        match r {
            Some((m, q)) => sdec_message(s@, p as int) == Some((m@, q as int)),
            None => sdec_message(s@, p as int) is None,
        },
{
    match dec_u8(s, p) {
        None => None,
        Some((tag, q)) => {
            if tag == 0 {
                Some((Message::SYNC, q))
            } else if tag == 1 {
                Some((Message::ACK, q))
            } else if tag == 2 {
                Some((Message::NACK, q))
            } else if tag == 3 {
                match dec_opts(s, q) {
                    Some((o, q2)) => Some((Message::Arguments(o), q2)),
                    None => None,
                }
            } else if tag == 4 {
                match dec_u32(s, q) {
                    None => None,
                    Some((fi, q2)) => match dec_table(s, q2) {
                        Some((map, q3)) => Some(
                            (Message::Data(DataMessage { file_index: fi, map }), q3),
                        ),
                        None => None,
                    },
                }
            } else if tag == 5 {
                match dec_u32(s, q) {
                    Some((x, q2)) => Some((Message::Redo(x), q2)),
                    None => None,
                }
            } else if tag == 6 {
                Some((Message::Done, q))
            } else if tag == 7 {
                match dec_err(s, q) {
                    Some((e, q2)) => Some((Message::Error(e), q2)),
                    None => None,
                }
            } else if tag == 8 {
                match dec_str(s, q) {
                    Some((x, q2)) => Some((Message::Info(x), q2)),
                    None => None,
                }
            } else if tag == 9 {
                match dec_str(s, q) {
                    Some((x, q2)) => Some((Message::Warning(x), q2)),
                    None => None,
                }
            } else if tag == 10 {
                match dec_flist(s, q) {
                    Some((f, q2)) => Some((Message::FlistEntry(f), q2)),
                    None => None,
                }
            } else if tag == 11 {
                Some((Message::FlistEnd, q))
            } else if tag == 12 {
                match dec_u32(s, q) {
                    Some((x, q2)) => Some((Message::FileIndex(x), q2)),
                    None => None,
                }
            } else if tag == 13 {
                match dec_bytes(s, q) {
                    Some((v, q2)) => Some((Message::Restore(vstd::slice::slice_to_vec(v)), q2)),
                    None => None,
                }
            } else if tag == 14 {
                match dec_u32(s, q) {
                    Some((x, q2)) => Some((Message::Deleted(x), q2)),
                    None => None,
                }
            } else if tag == 15 {
                match dec_u32(s, q) {
                    Some((x, q2)) => Some((Message::Success(x), q2)),
                    None => None,
                }
            } else if tag == 16 {
                match dec_u32(s, q) {
                    Some((x, q2)) => Some((Message::Degenerate(x), q2)),
                    None => None,
                }
            } else if tag == 17 {
                match dec_bytes(s, q) {
                    Some((v, q2)) => Some((Message::Stats(vstd::slice::slice_to_vec(v)), q2)),
                    None => None,
                }
            } else if tag == 18 {
                Some((Message::IoTimeout, q))
            } else if tag == 19 {
                match dec_u32(s, q) {
                    Some((x, q2)) => Some((Message::NoSend(x), q2)),
                    None => None,
                }
            } else {
                None
            }
        },
    }
}

/// Decode one whole message body.  Succeeds exactly when the bytes decode
/// to a message and nothing is left over.
pub fn decode_message(body: &[u8]) -> (r: Option<Message>)
    ensures
        match r {
            Some(m) => sdec_message(body@, 0) == Some((m@, body@.len() as int)),
            None => (sdec_message(body@, 0) matches Some((mv, q)) ==> q != body@.len()),
        },
{
    match dec_msg(body, 0) {
        Some((m, q)) => {
            if q == body.len() {
                Some(m)
            } else {
                None
            }
        },
        None => None,
    }
}

/// Frame one message for the wire: its big-endian `u32` body length, then
/// the body.  Fails only on a body longer than the length prefix can hold.
pub fn frame_message(m: &Message) -> (r: Option<Vec<u8>>)
    ensures
        match r {
            Some(v) => senc_message(m@).len() <= u32::MAX && v@ == senc_u32(
                senc_message(m@).len() as u32,
            ) + senc_message(m@),
            None => senc_message(m@).len() > u32::MAX,
        },
{
    let body = encode_message(m);
    if body.len() as u64 > u32::MAX as u64 {
        return None;
    }
    let len32 = body.len() as u32;
    let mut out: Vec<u8> = Vec::new();
    enc_u32(&mut out, len32);
    let mut b = body;
    out.append(&mut b);
    Some(out)
}

/// Read a frame's body length out of its four header bytes.
pub fn frame_length(header: &[u8]) -> (r: Option<u32>)
    ensures
        match r {
            Some(x) => sdec_u32(header@, 0) matches Some((v, q)) && v == x,
            None => sdec_u32(header@, 0) is None,
        },
{
    match dec_u32(header, 0) {
        Some((x, _)) => Some(x),
        None => None,
    }
}

} // verus!
