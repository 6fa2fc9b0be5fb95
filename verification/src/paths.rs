//! Path-shaped string logic: the exclude filter, local path resolution on
//! the sender, and parsing of the `user@host:path` remote specification.

use vstd::prelude::*;
use vstd::string::{StringExecFns, StrSliceExecFns};

verus! {

/// A prefix test over character sequences.
pub fn str_has_prefix(s: &str, p: &str) -> (r: bool)
    ensures
        r == p@.is_prefix_of(s@),
{
    let n = p.unicode_len();
    let m = s.unicode_len();
    if n > m {
        proof {
            assert(!p@.is_prefix_of(s@));
        }
        return false;
    }
    let mut i: usize = 0;
    while i < n
        invariant
            0 <= i <= n,
            n == p@.len(),
            m == s@.len(),
            n <= m,
            forall|j: int| 0 <= j < i ==> p@[j] == s@[j],
        decreases n - i,
    {
        if s.get_char(i) != p.get_char(i) {
            proof {
                assert(!p@.is_prefix_of(s@)) by {
                    assert(s@.subrange(0, n as int)[i as int] == s@[i as int]);
                }
            }
            return false;
        }
        i = i + 1;
    }
    proof {
        assert(p@ =~= s@.subrange(0, n as int));
    }
    true
}

/// A suffix test over character sequences.
pub fn str_has_suffix(s: &str, p: &str) -> (r: bool)
    ensures
        r == p@.is_suffix_of(s@),
{
    let n = p.unicode_len();
    let m = s.unicode_len();
    if n > m {
        proof {
            assert(!p@.is_suffix_of(s@));
        }
        return false;
    }
    let off = m - n;
    let mut i: usize = 0;
    while i < n
        invariant
            0 <= i <= n,
            n == p@.len(),
            m == s@.len(),
            off == m - n,
            forall|j: int| 0 <= j < i ==> p@[j] == s@[off + j],
        decreases n - i,
    {
        if s.get_char(off + i) != p.get_char(i) {
            proof {
                assert(!p@.is_suffix_of(s@)) by {
                    assert(s@.subrange(off as int, m as int)[i as int] == s@[off + i]);
                }
            }
            return false;
        }
        i = i + 1;
    }
    proof {
        assert(p@ =~= s@.subrange(off as int, m as int));
    }
    true
}

/// An entry is excluded exactly when some configured exclude path is a
/// prefix of it or a suffix of it, in both the recursive and the plain
/// enumeration.
pub open spec fn spec_is_excluded(path: Seq<char>, excludes: Seq<Seq<char>>) -> bool {
    exists|k: int|
        0 <= k < excludes.len() && ((#[trigger] excludes[k]).is_prefix_of(path)
            || excludes[k].is_suffix_of(path))
}

/// The exclude filter of the receiver-side enumeration.
pub fn is_excluded(path: &str, excludes: &Vec<String>) -> (r: bool)
    ensures
        r == spec_is_excluded(path@, crate::codec::str_list_view(excludes@)),
{
    let ghost exv = crate::codec::str_list_view(excludes@);
    let n = excludes.len();
    let mut k: usize = 0;
    while k < n
        invariant
            0 <= k <= n,
            n == excludes@.len(),
            exv == crate::codec::str_list_view(excludes@),
            forall|j: int|
                0 <= j < k ==> !((#[trigger] exv[j]).is_prefix_of(path@) || exv[j].is_suffix_of(
                    path@,
                )),
        decreases n - k,
    {
        let e = excludes[k].as_str();
        if str_has_prefix(path, e) || str_has_suffix(path, e) {
            proof {
                assert(exv[k as int] == e@);
            }
            return true;
        }
        k = k + 1;
    }
    false
}

/// How the sender maps a receiver path to a local one: a path under the
/// receiver's root is re-rooted under the sender's root; any other path is
/// used unchanged.
pub open spec fn spec_resolve_local(
    filename: Seq<char>,
    to_root: Seq<char>,
    from_root: Seq<char>,
) -> Seq<char> {
    if to_root.is_prefix_of(filename) {
        from_root + filename.skip(to_root.len() as int)
    } else {
        filename
    }
}

/// Map a receiver-side filename to the sender-side local path.
pub fn resolve_local_path(filename: &str, to_root: &str, from_root: &str) -> (r: String)
    ensures
        r@ == spec_resolve_local(filename@, to_root@, from_root@),
{
    if str_has_prefix(filename, to_root) {
        let flen = filename.unicode_len();
        let tlen = to_root.unicode_len();
        let rest = filename.substring_char(tlen, flen);
        let mut out = from_root.to_owned();
        out.append(rest);
        proof {
            assert(rest@ =~= filename@.skip(to_root@.len() as int));
        }
        out
    } else {
        filename.to_owned()
    }
}

/// The characters the remote specification allows in a user name.
pub open spec fn spec_user_char(c: char) -> bool {
    ('a' <= c && c <= 'z') || ('A' <= c && c <= 'Z') || ('0' <= c && c <= '9') || c == '.' || c
        == '_' || c == '-'
}

/// The characters it allows in a host name.
pub open spec fn spec_host_char(c: char) -> bool {
    ('a' <= c && c <= 'z') || ('A' <= c && c <= 'Z') || ('0' <= c && c <= '9') || c == '.' || c
        == '-'
}

/// Position of the first occurrence of `c` at or after `k`.
pub open spec fn find_char(s: Seq<char>, c: char, k: int) -> Option<int>
    decreases s.len() - k,
{
    if k < 0 || k >= s.len() {
        None
    } else if s[k] == c {
        Some(k)
    } else {
        find_char(s, c, k + 1)
    }
}

/// The remote specification `user@host:path`: a non-empty user name of
/// user characters, `@`, a non-empty host of host characters, `:`, and the
/// rest as the remote path.
pub open spec fn spec_remote_spec(s: Seq<char>) -> Option<(Seq<char>, Seq<char>, Seq<char>)> {
    match find_char(s, '@', 0) {
        None => None,
        Some(a) => {
            let user = s.subrange(0, a);
            if user.len() == 0 || !(forall|j: int| 0 <= j < user.len() ==> spec_user_char(#[trigger] user[j])) {
                None
            } else {
                match find_char(s, ':', a + 1) {
                    None => None,
                    Some(b) => {
                        let host = s.subrange(a + 1, b);
                        if host.len() == 0 || !(forall|j: int|
                            0 <= j < host.len() ==> spec_host_char(#[trigger] host[j])) {
                            None
                        } else {
                            Some((user, host, s.subrange(b + 1, s.len() as int)))
                        }
                    },
                }
            }
        },
    }
}

pub(crate) fn find_char_exec(s: &str, c: char, k: usize) -> (r: Option<usize>)
    requires
        k <= s@.len(),
    ensures
        match r {
            Some(i) => find_char(s@, c, k as int) == Some(i as int) && k <= i < s@.len(),
            None => find_char(s@, c, k as int) is None,
        },
{
    let n = s.unicode_len();
    let mut i = k;
    while i < n
        invariant
            k <= i <= n,
            n == s@.len(),
            find_char(s@, c, k as int) == find_char(s@, c, i as int),
        decreases n - i,
    {
        if s.get_char(i) == c {
            return Some(i);
        }
        i = i + 1;
    }
    None
}

fn is_user_char(c: char) -> (r: bool)
    ensures
        r == spec_user_char(c),
{
    ('a' <= c && c <= 'z') || ('A' <= c && c <= 'Z') || ('0' <= c && c <= '9') || c == '.' || c
        == '_' || c == '-'
}

fn is_host_char(c: char) -> (r: bool)
    ensures
        r == spec_host_char(c),
{
    ('a' <= c && c <= 'z') || ('A' <= c && c <= 'Z') || ('0' <= c && c <= '9') || c == '.' || c
        == '-'
}

/// Parse a remote specification `user@host:path` into its three parts.
#[verifier::loop_isolation(false)]
pub fn parse_remote_spec(s: &str) -> (r: Option<(String, String, String)>)
    ensures
        match r {
            Some((u, h, p)) => spec_remote_spec(s@) == Some((u@, h@, p@)),
            None => spec_remote_spec(s@) is None,
        },
{
    let n = s.unicode_len();
    let a = match find_char_exec(s, '@', 0) {
        Some(a) => a,
        None => {
            return None;
        },
    };
    if a == 0 {
        return None;
    }
    let mut j: usize = 0;
    while j < a
        invariant
            0 <= j <= a < s@.len(),
            forall|i: int| 0 <= i < j ==> spec_user_char(#[trigger] s@[i]),
        decreases a - j,
    {
        if !is_user_char(s.get_char(j)) {
            proof {
                assert(s@.subrange(0, a as int)[j as int] == s@[j as int]);
            }
            return None;
        }
        j = j + 1;
    }
    let b = match find_char_exec(s, ':', a + 1) {
        Some(b) => b,
        None => {
            return None;
        },
    };
    if b == a + 1 {
        return None;
    }
    let mut j2: usize = a + 1;
    while j2 < b
        invariant
            a + 1 <= j2 <= b < s@.len(),
            forall|i: int| a + 1 <= i < j2 ==> spec_host_char(#[trigger] s@[i]),
        decreases b - j2,
    {
        if !is_host_char(s.get_char(j2)) {
            proof {
                assert(s@.subrange(a + 1, b as int)[j2 - (a + 1)] == s@[j2 as int]);
            }
            return None;
        }
        j2 = j2 + 1;
    }
    let user = s.substring_char(0, a).to_owned();
    let host = s.substring_char(a + 1, b).to_owned();
    let path = s.substring_char(b + 1, n).to_owned();
    proof {
        let uv = s@.subrange(0, a as int);
        let hv = s@.subrange(a + 1, b as int);
        assert(forall|i: int| 0 <= i < uv.len() ==> spec_user_char(#[trigger] uv[i]));
        assert(forall|i: int| 0 <= i < hv.len() ==> spec_host_char(#[trigger] hv[i]));
    }
    Some((user, host, path))
}

/// Decimal digits and their values.
pub open spec fn spec_is_digit(c: char) -> bool {
    '0' <= c && c <= '9'
}

/// The value of a digit string read left to right.
pub open spec fn spec_dec_value(s: Seq<char>) -> int
    decreases s.len(),
{
    if s.len() == 0 {
        0
    } else {
        spec_dec_value(s.drop_last()) * 10 + (s.last() as int - '0' as int)
    }
}

proof fn lemma_dec_value_nonneg(s: Seq<char>)
    requires
        forall|j: int| 0 <= j < s.len() ==> spec_is_digit(#[trigger] s[j]),
    ensures
        spec_dec_value(s) >= 0,
    decreases s.len(),
{
    if s.len() > 0 {
        assert(forall|j: int|
            0 <= j < s.drop_last().len() ==> spec_is_digit(#[trigger] s.drop_last()[j]));
        lemma_dec_value_nonneg(s.drop_last());
    }
}

/// A longer all-digit string never has a smaller value than its prefix.
proof fn lemma_dec_value_mono(s: Seq<char>, i: int)
    requires
        0 <= i <= s.len(),
        forall|j: int| 0 <= j < s.len() ==> spec_is_digit(#[trigger] s[j]),
    ensures
        spec_dec_value(s) >= spec_dec_value(s.subrange(0, i)),
    decreases s.len(),
{
    if i == s.len() {
        assert(s.subrange(0, i) =~= s);
    } else {
        let t = s.drop_last();
        assert(forall|j: int| 0 <= j < t.len() ==> spec_is_digit(#[trigger] t[j]));
        lemma_dec_value_mono(t, i);
        assert(t.subrange(0, i) =~= s.subrange(0, i));
        lemma_dec_value_nonneg(t);
    }
}

/// Parse an unsigned decimal port number.  Succeeds exactly on non-empty
/// all-digit strings whose value fits a `u16`.
pub fn parse_u16(s: &str) -> (r: Option<u16>)
    ensures
        match r {
            Some(v) => s@.len() > 0 && (forall|j: int| 0 <= j < s@.len() ==> spec_is_digit(
                #[trigger] s@[j],
            )) && v == spec_dec_value(s@) && spec_dec_value(s@) <= u16::MAX,
            None => s@.len() == 0 || !(forall|j: int|
                0 <= j < s@.len() ==> spec_is_digit(#[trigger] s@[j])) || spec_dec_value(s@)
                > u16::MAX,
        },
{
    let n = s.unicode_len();
    if n == 0 {
        return None;
    }
    let mut acc: u32 = 0;
    let mut i: usize = 0;
    while i < n
        invariant
            0 <= i <= n,
            n == s@.len(),
            n > 0,
            forall|j: int| 0 <= j < i ==> spec_is_digit(#[trigger] s@[j]),
            acc <= u16::MAX,
            acc == spec_dec_value(s@.subrange(0, i as int)),
        decreases n - i,
    {
        let c = s.get_char(i);
        if !('0' <= c && c <= '9') {
            return None;
        }
        let d = (c as u32) - ('0' as u32);
        let next = acc * 10 + d;
        proof {
            assert(s@.subrange(0, i + 1).drop_last() =~= s@.subrange(0, i as int));
            assert(s@.subrange(0, i + 1).last() == s@[i as int]);
        }
        if next > u16::MAX as u32 {
            proof {
                assert(spec_dec_value(s@.subrange(0, i + 1)) > u16::MAX);
                assert(forall|j: int| 0 <= j < i + 1 ==> spec_is_digit(#[trigger] s@[j]));
                if forall|j: int| 0 <= j < s@.len() ==> spec_is_digit(#[trigger] s@[j]) {
                    lemma_dec_value_mono(s@, i + 1);
                }
            }
            return None;
        }
        acc = next;
        i = i + 1;
    }
    proof {
        assert(s@.subrange(0, n as int) =~= s@);
    }
    Some(acc as u16)
}

} // verus!
