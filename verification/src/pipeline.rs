//! The decisions of the transcoding pipeline: which kind of container a
//! file name denotes, and how the produced container is named.
//!
//! The pipeline itself — extract, transform through the external tools,
//! repack — is run by the caller, which performs the filesystem and
//! process work between these decisions.

use vstd::prelude::*;

use crate::archive::ArchiveType;
use crate::paths::{DOT, is_suffix_of};
use crate::paths::{concat_bytes, ends_with, prefix_bytes};
use crate::tree::clone_bytes;

verus! {

/// The `.aia` file extension of a multi-unit app container.
pub open spec fn aia_suffix() -> Seq<u8> {
    seq![46u8, 97u8, 105u8, 97u8]
}

/// Picks the container kind from its file name: an app container when
/// the name ends in `.aia`, otherwise an extension container.
pub fn archive_type_of(file_name: &Vec<u8>) -> (r: ArchiveType)
    ensures
        r == (if is_suffix_of(aia_suffix(), file_name@) {
            ArchiveType::Aia
        } else {
            ArchiveType::Aix
        }),
{
    let suffix: Vec<u8> = vec![46u8, 97u8, 105u8, 97u8];
    proof {
        assert(suffix@ =~= aia_suffix());
    }
    if ends_with(file_name, &suffix) {
        ArchiveType::Aia
    } else {
        ArchiveType::Aix
    }
}

/// Length of the stem of `s`: everything before the last dot, or all of
/// `s` when it has no dot.
pub open spec fn stem_len(s: Seq<u8>) -> int
    decreases s.len(),
{
    if s.len() == 0 {
        0
    } else if s[s.len() - 1] == DOT {
        s.len() - 1
    } else {
        stem_len(s.drop_last())
    }
}

/// The stem of file name `s`: everything before its last dot.
pub open spec fn stem_of(s: Seq<u8>) -> Seq<u8> {
    if stem_len(s) == 0 {
        s
    } else {
        s.subrange(0, stem_len(s))
    }
}

proof fn lemma_stem_len_bound(s: Seq<u8>)
    ensures
        0 <= stem_len(s) <= s.len(),
    decreases s.len(),
{
    if s.len() > 0 && s[s.len() - 1] != DOT {
        lemma_stem_len_bound(s.drop_last());
    }
}

/// The stem of a file name: its bytes before the last dot, or the whole
/// name when it has no dot or the stem would be empty.
pub fn file_stem(name: &Vec<u8>) -> (r: Vec<u8>)
    ensures
        r@ == stem_of(name@),
{
    proof {
        assert(name@.take(name@.len() as int) =~= name@);
    }
    let mut i: usize = name.len();
    while i > 0 && name[i - 1] != DOT
        invariant
            i <= name.len(),
            stem_len(name@) == stem_len(name@.take(i as int)),
        decreases i,
    {
        proof {
            assert(name@.take(i as int).drop_last() =~= name@.take(i as int - 1));
        }
        i = i - 1;
    }
    proof {
        if i > 0 {
            assert(stem_len(name@.take(i as int)) == i - 1);
        }
        lemma_stem_len_bound(name@);
    }
    if i > 1 {
        prefix_bytes(name, i - 1)
    } else {
        clone_bytes(name)
    }
}

/// The name of the produced container: the source directory's stem
/// followed by the migrated-container suffix.
pub fn packed_output_name(dir_name: &Vec<u8>, suffix: &Vec<u8>) -> (r: Vec<u8>)
    ensures
        r@ == stem_of(dir_name@) + suffix@,
{
    let stem = file_stem(dir_name);
    concat_bytes(&stem, suffix)
}

} // verus!
