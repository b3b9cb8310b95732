//! Byte-level path utilities shared by the archive reader and writer.
//!
//! Entry names inside a container always use forward-slash separators;
//! host paths use the separator of the running platform. Paths are held
//! as plain byte strings, so the same code serves every host encoding.

use vstd::prelude::*;

verus! {

/// The forward slash that separates the segments of an in-archive entry name.
pub const SLASH: u8 = 47;

/// The backslash that separates path segments on Windows hosts.
pub const BACKSLASH: u8 = 92;

/// An ASCII dot, as it occurs in a `..` traversal segment.
pub const DOT: u8 = 46;

/// `s` with every backslash rewritten to a forward slash.
pub open spec fn forward_slashed(s: Seq<u8>) -> Seq<u8> {
    s.map_values(|b: u8| if b == BACKSLASH { SLASH } else { b })
}

/// `s` with every forward slash rewritten to the host separator `sep`.
pub open spec fn host_mapped(s: Seq<u8>, sep: u8) -> Seq<u8> {
    s.map_values(|b: u8| if b == SLASH { sep } else { b })
}

/// Rewrites host backslashes to the forward slashes of the wire format.
pub fn normalize_separators(name: &Vec<u8>) -> (r: Vec<u8>)
    ensures
        r@ == forward_slashed(name@),
{
    let mut out: Vec<u8> = Vec::new();
    for i in 0..name.len()
        invariant
            out@.len() == i,
            forall|j: int|
                0 <= j < i ==> out@[j] == (if name@[j] == BACKSLASH {
                    SLASH
                } else {
                    name@[j]
                }),
    {
        if name[i] == BACKSLASH {
            out.push(SLASH);
        } else {
            out.push(name[i]);
        }
    }
    proof {
        assert(out@ =~= forward_slashed(name@));
    }
    out
}

/// Rewrites the forward slashes of an entry name to the host separator.
pub fn to_host_separators(name: &Vec<u8>, sep: u8) -> (r: Vec<u8>)
    ensures
        r@ == host_mapped(name@, sep),
{
    let mut out: Vec<u8> = Vec::new();
    for i in 0..name.len()
        invariant
            out@.len() == i,
            forall|j: int|
                0 <= j < i ==> out@[j] == (if name@[j] == SLASH {
                    sep
                } else {
                    name@[j]
                }),
    {
        if name[i] == SLASH {
            out.push(sep);
        } else {
            out.push(name[i]);
        }
    }
    proof {
        assert(out@ =~= host_mapped(name@, sep));
    }
    out
}

/// Whether `suffix` ends `s`.
pub open spec fn is_suffix_of(suffix: Seq<u8>, s: Seq<u8>) -> bool {
    suffix.len() <= s.len() && s.subrange(s.len() - suffix.len(), s.len() as int) == suffix
}

/// Whether `prefix` begins `s`.
pub open spec fn is_prefix_of(prefix: Seq<u8>, s: Seq<u8>) -> bool {
    prefix.len() <= s.len() && s.subrange(0, prefix.len() as int) == prefix
}

/// Suffix test against the end of `name`, the marker-file match of the reader.
pub fn ends_with(name: &Vec<u8>, suffix: &Vec<u8>) -> (r: bool)
    ensures
        r == is_suffix_of(suffix@, name@),
{
    if suffix.len() > name.len() {
        return false;
    }
    let off = name.len() - suffix.len();
    for j in 0..suffix.len()
        invariant
            off == name.len() - suffix.len(),
            suffix.len() <= name.len(),
            forall|k: int| 0 <= k < j ==> name@[off + k] == suffix@[k],
    {
        if name[off + j] != suffix[j] {
            proof {
                let tail = name@.subrange(name@.len() - suffix@.len(), name@.len() as int);
                assert(tail[j as int] == name@[off + j]);
            }
            return false;
        }
    }
    proof {
        assert(name@.subrange(name@.len() - suffix@.len(), name@.len() as int) =~= suffix@);
    }
    true
}

/// Prefix test against the start of `name`.
pub fn starts_with(name: &Vec<u8>, prefix: &Vec<u8>) -> (r: bool)
    ensures
        r == is_prefix_of(prefix@, name@),
{
    if prefix.len() > name.len() {
        return false;
    }
    for j in 0..prefix.len()
        invariant
            prefix.len() <= name.len(),
            forall|k: int| 0 <= k < j ==> name@[k] == prefix@[k],
    {
        if name[j] != prefix[j] {
            proof {
                let head = name@.subrange(0, prefix@.len() as int);
                assert(head[j as int] == name@[j as int]);
            }
            return false;
        }
    }
    proof {
        assert(name@.subrange(0, prefix@.len() as int) =~= prefix@);
    }
    true
}

/// Whether `needle` occurs in `hay` starting at position `i`.
pub open spec fn occurs_at(hay: Seq<u8>, needle: Seq<u8>, i: int) -> bool {
    0 <= i && i + needle.len() <= hay.len() && hay.subrange(i, i + needle.len()) == needle
}

/// Whether `needle` occurs anywhere in `hay`.
pub open spec fn contains_bytes(hay: Seq<u8>, needle: Seq<u8>) -> bool {
    exists|i: int| occurs_at(hay, needle, i)
}

/// Substring search: whether `needle` occurs anywhere in `hay`.
pub fn contains_slice(hay: &Vec<u8>, needle: &Vec<u8>) -> (r: bool)
    ensures
        r == contains_bytes(hay@, needle@),
{
    if needle.len() > hay.len() {
        proof {
            assert(forall|i: int| !occurs_at(hay@, needle@, i));
        }
        return false;
    }
    if needle.len() == 0 {
        proof {
            assert(hay@.subrange(0, 0) =~= needle@);
            assert(occurs_at(hay@, needle@, 0));
        }
        return true;
    }
    let last = hay.len() - needle.len();
    for i in 0..last + 1
        invariant
            needle.len() <= hay.len(),
            last == hay.len() - needle.len(),
            forall|k: int| 0 <= k < i ==> !occurs_at(hay@, needle@, k),
    {
        let mut all_match = true;
        for j in 0..needle.len()
            invariant
                needle.len() <= hay.len(),
                i + needle.len() <= hay.len(),
                all_match ==> forall|k: int| 0 <= k < j ==> hay@[i + k] == needle@[k],
                !all_match ==> !occurs_at(hay@, needle@, i as int),
        {
            if hay[i + j] != needle[j] {
                proof {
                    if occurs_at(hay@, needle@, i as int) {
                        let w = hay@.subrange(i as int, i + needle@.len());
                        assert(w[j as int] == hay@[i + j]);
                    }
                }
                all_match = false;
            }
        }
        if all_match {
            proof {
                assert(hay@.subrange(i as int, i + needle@.len()) =~= needle@);
                assert(occurs_at(hay@, needle@, i as int));
            }
            return true;
        }
    }
    proof {
        assert(forall|k: int| occurs_at(hay@, needle@, k) ==> 0 <= k <= last);
    }
    false
}

/// Length of the parent of `s`: everything before the last slash, or
/// nothing when `s` has no slash.
pub open spec fn parent_len(s: Seq<u8>) -> int
    decreases s.len(),
{
    if s.len() == 0 {
        0
    } else if s[s.len() - 1] == SLASH {
        s.len() - 1
    } else {
        parent_len(s.drop_last())
    }
}

/// The parent of entry name `s`: everything before its last slash.
pub open spec fn parent_of(s: Seq<u8>) -> Seq<u8> {
    s.subrange(0, parent_len(s))
}

proof fn lemma_parent_len_bound(s: Seq<u8>)
    ensures
        0 <= parent_len(s) <= s.len(),
    decreases s.len(),
{
    if s.len() > 0 && s[s.len() - 1] != SLASH {
        lemma_parent_len_bound(s.drop_last());
    }
}

/// The first `n` bytes of `name`.
pub fn prefix_bytes(name: &Vec<u8>, n: usize) -> (r: Vec<u8>)
    requires
        n <= name@.len(),
    ensures
        r@ == name@.take(n as int),
{
    let mut out: Vec<u8> = Vec::new();
    for i in 0..n
        invariant
            n <= name@.len(),
            out@.len() == i,
            forall|j: int| 0 <= j < i ==> out@[j] == name@[j],
    {
        out.push(name[i]);
    }
    proof {
        assert(out@ =~= name@.take(n as int));
    }
    out
}

/// The bytes of `name` from position `n` on.
pub fn suffix_bytes(name: &Vec<u8>, n: usize) -> (r: Vec<u8>)
    requires
        n <= name@.len(),
    ensures
        r@ == name@.skip(n as int),
{
    let mut out: Vec<u8> = Vec::new();
    for i in n..name.len()
        invariant
            n <= name@.len(),
            out@.len() == i - n,
            forall|j: int| 0 <= j < i - n ==> out@[j] == name@[n + j],
    {
        out.push(name[i]);
    }
    proof {
        assert(out@ =~= name@.skip(n as int));
    }
    out
}

/// The parent directory of an entry name, the resolution step that turns
/// a marker file's name into its base directory.
pub fn parent_name(name: &Vec<u8>) -> (r: Vec<u8>)
    ensures
        r@ == parent_of(name@),
{
    proof {
        assert(name@.take(name@.len() as int) =~= name@);
    }
    let mut i: usize = name.len();
    while i > 0 && name[i - 1] != SLASH
        invariant
            i <= name.len(),
            parent_len(name@) == parent_len(name@.take(i as int)),
        decreases i,
    {
        proof {
            assert(name@.take(i as int).drop_last() =~= name@.take(i as int - 1));
        }
        i = i - 1;
    }
    proof {
        assert(name@.take(name@.len() as int) =~= name@);
        if i > 0 {
            assert(parent_len(name@.take(i as int)) == i - 1);
        }
        lemma_parent_len_bound(name@);
    }
    if i > 0 {
        prefix_bytes(name, i - 1)
    } else {
        prefix_bytes(name, 0)
    }
}

/// Length of the head segment of `s`: everything before the first slash,
/// or all of `s` when it has no slash.
pub open spec fn head_seg_len(s: Seq<u8>) -> int
    decreases s.len(),
{
    if s.len() == 0 {
        0
    } else if s[0] == SLASH {
        0
    } else {
        1 + head_seg_len(s.drop_first())
    }
}

/// The head segment of `s`.
pub open spec fn head_segment(s: Seq<u8>) -> Seq<u8> {
    s.subrange(0, head_seg_len(s))
}

/// `head_seg_len` is the index of the first slash, or the whole length.
pub proof fn lemma_head_seg_len(s: Seq<u8>)
    ensures
        0 <= head_seg_len(s) <= s.len(),
        forall|j: int| 0 <= j < head_seg_len(s) ==> s[j] != SLASH,
        head_seg_len(s) < s.len() ==> s[head_seg_len(s)] == SLASH,
    decreases s.len(),
{
    if s.len() > 0 && s[0] != SLASH {
        lemma_head_seg_len(s.drop_first());
        assert(forall|j: int|
            1 <= j < head_seg_len(s) ==> s[j] == s.drop_first()[j - 1] && s.drop_first()[j - 1]
                != SLASH);
    }
}

/// The head segment of `name`, as the immediate-child enumeration of the
/// reader needs it.
pub fn head_segment_bytes(name: &Vec<u8>) -> (r: Vec<u8>)
    ensures
        r@ == head_segment(name@),
        head_seg_len(name@) == r@.len(),
{
    proof {
        lemma_head_seg_len(name@);
    }
    let mut i: usize = 0;
    while i < name.len() && name[i] != SLASH
        invariant
            i <= name.len(),
            forall|j: int| 0 <= j < i ==> name@[j] != SLASH,
        decreases name.len() - i,
    {
        i = i + 1;
    }
    proof {
        if head_seg_len(name@) < i {
            assert(name@[head_seg_len(name@)] == SLASH);
        }
        if i < head_seg_len(name@) {
            assert(name@[i as int] != SLASH);
        }
        assert(i as int == head_seg_len(name@));
    }
    prefix_bytes(name, i)
}

/// Whether a `..` traversal segment starts at position `i` of `s`.
pub open spec fn dotdot_at(s: Seq<u8>, i: int) -> bool {
    &&& 0 <= i
    &&& i + 2 <= s.len()
    &&& (i == 0 || s[i - 1] == SLASH)
    &&& s[i] == DOT
    &&& s[i + 1] == DOT
    &&& (i + 2 == s.len() || s[i + 2] == SLASH)
}

/// Whether an entry name can be mapped into the output directory without
/// escaping it: non-empty, relative, free of empty and `..` segments, and
/// free of NUL bytes and backslashes. A backslash is a path separator on
/// Windows hosts, where it could smuggle in a traversal segment this
/// gate would not see, so the wire invariant — forward slashes only —
/// is enforced on read as the writer enforces it on write.
pub open spec fn is_safe_entry_name(s: Seq<u8>) -> bool {
    &&& s.len() > 0
    &&& s[0] != SLASH
    &&& forall|i: int| 0 <= i < s.len() ==> s[i] != 0u8 && s[i] != BACKSLASH
    &&& forall|i: int| 0 <= i && i + 1 < s.len() ==> !((#[trigger] s[i]) == SLASH && s[i + 1] == SLASH)
    &&& !(exists|i: int| dotdot_at(s, i))
}

/// The safety gate of the reader: rejects entry names that would escape
/// the output directory or cannot be a host path.
pub fn is_safe_name(name: &Vec<u8>) -> (r: bool)
    ensures
        r == is_safe_entry_name(name@),
{
    if name.len() == 0 {
        return false;
    }
    if name[0] == SLASH {
        return false;
    }
    for i in 0..name.len()
        invariant
            name@.len() > 0,
            name@[0] != SLASH,
            forall|j: int| 0 <= j < i ==> name@[j] != 0u8 && name@[j] != BACKSLASH,
            forall|j: int| 0 <= j && j + 1 < name@.len() && j < i - 1 ==> !((#[trigger] name@[j])
                == SLASH && name@[j + 1] == SLASH),
            forall|j: int| 0 <= j < i ==> !dotdot_at(name@, j),
    {
        if name[i] == 0 || name[i] == BACKSLASH {
            return false;
        }
        if i > 0 && name[i - 1] == SLASH && name[i] == SLASH {
            return false;
        }
        if (i == 0 || name[i - 1] == SLASH) && name.len() - i >= 2 && name[i] == DOT && name[i + 1]
            == DOT && (name.len() - i == 2 || name[i + 2] == SLASH) {
            proof {
                assert(dotdot_at(name@, i as int));
            }
            return false;
        }
        proof {
            assert(!dotdot_at(name@, i as int));
        }
    }
    proof {
        assert(forall|j: int| dotdot_at(name@, j) ==> 0 <= j < name@.len());
    }
    true
}

/// `a` followed by `b`.
pub fn concat_bytes(a: &Vec<u8>, b: &Vec<u8>) -> (r: Vec<u8>)
    ensures
        r@ == a@ + b@,
{
    let mut out: Vec<u8> = Vec::new();
    for i in 0..a.len()
        invariant
            out@.len() == i,
            forall|j: int| 0 <= j < i ==> out@[j] == a@[j],
    {
        out.push(a[i]);
    }
    for i in 0..b.len()
        invariant
            out@.len() == a@.len() + i,
            forall|j: int| 0 <= j < a@.len() ==> out@[j] == a@[j],
            forall|j: int| 0 <= j < i ==> out@[a@.len() + j] == b@[j],
    {
        out.push(b[i]);
    }
    proof {
        assert(out@ =~= a@ + b@);
    }
    out
}

/// `dir`, a separator, then `leaf`: the path-join of this library.
pub fn join_path(dir: &Vec<u8>, sep: u8, leaf: &Vec<u8>) -> (r: Vec<u8>)
    ensures
        r@ == dir@ + seq![sep] + leaf@,
{
    let mut out: Vec<u8> = Vec::new();
    for i in 0..dir.len()
        invariant
            out@.len() == i,
            forall|j: int| 0 <= j < i ==> out@[j] == dir@[j],
    {
        out.push(dir[i]);
    }
    out.push(sep);
    for i in 0..leaf.len()
        invariant
            out@.len() == dir@.len() + 1 + i,
            forall|j: int| 0 <= j < dir@.len() ==> out@[j] == dir@[j],
            out@[dir@.len() as int] == sep,
            forall|j: int| 0 <= j < i ==> out@[dir@.len() + 1 + j] == leaf@[j],
    {
        out.push(leaf[i]);
    }
    proof {
        assert(out@ =~= dir@ + seq![sep] + leaf@);
    }
    out
}

} // verus!
