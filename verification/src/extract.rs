//! Extraction planning: from a decoded entry listing to the directories
//! and files that must be materialized under an output directory.
//!
//! Entry names come with forward-slash separators; planning rewrites them
//! to the host separator and refuses any name that could escape the
//! output directory. The caller performs the actual directory creation
//! and file writes from the returned plan.

use vstd::prelude::*;

use crate::ArchiveError;
use crate::archive::{decode_entries, zip_parse_of, zip_entry_reads};
use crate::paths::{SLASH, host_mapped, is_safe_entry_name, is_suffix_of, is_prefix_of,
    head_seg_len, head_segment, parent_of};
use crate::paths::{to_host_separators, is_safe_name, ends_with, starts_with, parent_name,
    prefix_bytes, suffix_bytes, head_segment_bytes};
use crate::tree::{Entry, EntryModel, FsNode, entry_views, clone_bytes, eq_bytes, entries_of,
    entries_of_seq, files_of, files_of_seq, pack_model, pack_files, lemma_pack_model_shape};

verus! {

/// The host path a directory entry maps to: its name without the
/// trailing slash, separators rewritten.
pub open spec fn dir_path_model(name: Seq<u8>, sep: u8) -> Seq<u8> {
    if name.len() > 0 && name[name.len() - 1] == SLASH {
        host_mapped(name.drop_last(), sep)
    } else {
        host_mapped(name, sep)
    }
}

/// The directories an entry listing asks for, in order: one host path
/// per directory entry.
pub open spec fn dirs_model(entries: Seq<EntryModel>, sep: u8) -> Seq<Seq<u8>>
    decreases entries.len(),
{
    if entries.len() == 0 {
        Seq::empty()
    } else {
        let rest = dirs_model(entries.drop_first(), sep);
        match entries[0].data {
            Some(d) => rest,
            None => seq![dir_path_model(entries[0].name, sep)] + rest,
        }
    }
}

/// The files an entry listing asks for, in order: the host path and the
/// contents of every file entry.
pub open spec fn files_model(entries: Seq<EntryModel>, sep: u8) -> Seq<(Seq<u8>, Seq<u8>)>
    decreases entries.len(),
{
    if entries.len() == 0 {
        Seq::empty()
    } else {
        let rest = files_model(entries.drop_first(), sep);
        match entries[0].data {
            Some(d) => seq![(host_mapped(entries[0].name, sep), d)] + rest,
            None => rest,
        }
    }
}

/// Whether every entry name can be mapped safely under the output
/// directory.
pub open spec fn all_names_safe(entries: Seq<EntryModel>) -> bool {
    forall|i: int| 0 <= i < entries.len() ==> is_safe_entry_name(#[trigger] entries[i].name)
}

/// What extraction will materialize: directories to create and files to
/// write, all as host-separated paths relative to the output directory.
#[derive(Debug)]
pub struct ExtractPlan {
    pub dirs: Vec<Vec<u8>>,
    pub files: Vec<(Vec<u8>, Vec<u8>)>,
}

/// The ghost image of a row of host paths.
pub open spec fn path_views(s: Seq<Vec<u8>>) -> Seq<Seq<u8>> {
    s.map_values(|p: Vec<u8>| p@)
}

/// The ghost image of a row of planned files.
pub open spec fn file_views(s: Seq<(Vec<u8>, Vec<u8>)>) -> Seq<(Seq<u8>, Seq<u8>)> {
    s.map_values(|f: (Vec<u8>, Vec<u8>)| (f.0@, f.1@))
}

proof fn lemma_dirs_model_snoc(entries: Seq<EntryModel>, sep: u8, i: int)
    requires
        0 <= i < entries.len(),
    ensures
        dirs_model(entries.take(i + 1), sep) == dirs_model(entries.take(i), sep) + (
        match entries[i].data {
            Some(d) => Seq::<Seq<u8>>::empty(),
            None => seq![dir_path_model(entries[i].name, sep)],
        }),
    decreases i,
{
    let with = entries.take(i + 1);
    let without = entries.take(i);
    if i == 0 {
        assert(with =~= seq![entries[0]]);
        assert(with.drop_first() =~= Seq::<EntryModel>::empty());
        assert(without =~= Seq::<EntryModel>::empty());
        match entries[0].data {
            Some(d) => {
                assert(dirs_model(with, sep) =~= dirs_model(without, sep));
            },
            None => {
                assert(dirs_model(with, sep) =~= dirs_model(without, sep) + seq![
                    dir_path_model(entries[0].name, sep),
                ]);
            },
        }
    } else {
        let rest = entries.drop_first();
        lemma_dirs_model_snoc(rest, sep, i - 1);
        assert(with.drop_first() =~= rest.take(i));
        assert(without.drop_first() =~= rest.take(i - 1));
        assert(with[0] == entries[0]);
        assert(without[0] == entries[0]);
        assert(rest[i - 1] == entries[i]);
        match entries[0].data {
            Some(d) => {
                assert(dirs_model(with, sep) == dirs_model(rest.take(i), sep));
            },
            None => {
                assert(seq![dir_path_model(entries[0].name, sep)] + (dirs_model(
                    rest.take(i - 1),
                    sep,
                ) + (match entries[i].data {
                    Some(d2) => Seq::<Seq<u8>>::empty(),
                    None => seq![dir_path_model(entries[i].name, sep)],
                })) =~= (seq![dir_path_model(entries[0].name, sep)] + dirs_model(
                    rest.take(i - 1),
                    sep,
                )) + (match entries[i].data {
                    Some(d2) => Seq::<Seq<u8>>::empty(),
                    None => seq![dir_path_model(entries[i].name, sep)],
                }));
            },
        }
        if entries[i].data is Some {
            assert(dirs_model(with, sep) =~= dirs_model(without, sep) + Seq::<Seq<u8>>::empty());
        }
    }
}

proof fn lemma_files_model_snoc(entries: Seq<EntryModel>, sep: u8, i: int)
    requires
        0 <= i < entries.len(),
    ensures
        files_model(entries.take(i + 1), sep) == files_model(entries.take(i), sep) + (
        match entries[i].data {
            Some(d) => seq![(host_mapped(entries[i].name, sep), d)],
            None => Seq::<(Seq<u8>, Seq<u8>)>::empty(),
        }),
    decreases i,
{
    let with = entries.take(i + 1);
    let without = entries.take(i);
    if i == 0 {
        assert(with =~= seq![entries[0]]);
        assert(with.drop_first() =~= Seq::<EntryModel>::empty());
        assert(without =~= Seq::<EntryModel>::empty());
        match entries[0].data {
            Some(d) => {
                assert(files_model(with, sep) =~= files_model(without, sep) + seq![
                    (host_mapped(entries[0].name, sep), d),
                ]);
            },
            None => {
                assert(files_model(with, sep) =~= files_model(without, sep));
            },
        }
    } else {
        let rest = entries.drop_first();
        lemma_files_model_snoc(rest, sep, i - 1);
        assert(with.drop_first() =~= rest.take(i));
        assert(without.drop_first() =~= rest.take(i - 1));
        assert(with[0] == entries[0]);
        assert(without[0] == entries[0]);
        assert(rest[i - 1] == entries[i]);
        match entries[0].data {
            Some(d) => {
                assert(seq![(host_mapped(entries[0].name, sep), d)] + (files_model(
                    rest.take(i - 1),
                    sep,
                ) + (match entries[i].data {
                    Some(d2) => seq![(host_mapped(entries[i].name, sep), d2)],
                    None => Seq::<(Seq<u8>, Seq<u8>)>::empty(),
                })) =~= (seq![(host_mapped(entries[0].name, sep), d)] + files_model(
                    rest.take(i - 1),
                    sep,
                )) + (match entries[i].data {
                    Some(d2) => seq![(host_mapped(entries[i].name, sep), d2)],
                    None => Seq::<(Seq<u8>, Seq<u8>)>::empty(),
                }));
            },
            None => {
                assert(files_model(with, sep) == files_model(rest.take(i), sep));
            },
        }
        if entries[i].data is None {
            assert(files_model(with, sep) =~= files_model(without, sep) + Seq::<(
                Seq<u8>,
                Seq<u8>,
            )>::empty());
        }
    }
}

/// Plans the materialization of a decoded entry listing: host paths for
/// every directory entry and every file entry, in listing order.
///
/// Fails with `InvalidPath`, planning nothing, exactly when some entry
/// name could escape the output directory or cannot be a host path.
pub fn extract_plan(entries: &Vec<Entry>, sep: u8) -> (r: Result<ExtractPlan, ArchiveError>)
    ensures
        r is Ok <==> all_names_safe(entry_views(entries@)),
        r matches Ok(plan) ==> path_views(plan.dirs@) == dirs_model(entry_views(entries@), sep)
            && file_views(plan.files@) == files_model(entry_views(entries@), sep),
        r matches Err(e) ==> e == ArchiveError::InvalidPath,
{
    let ghost models = entry_views(entries@);
    let mut dirs: Vec<Vec<u8>> = Vec::new();
    let mut files: Vec<(Vec<u8>, Vec<u8>)> = Vec::new();
    for i in 0..entries.len()
        invariant
            models == entry_views(entries@),
            forall|k: int| 0 <= k < i ==> is_safe_entry_name(#[trigger] models[k].name),
            path_views(dirs@) == dirs_model(models.take(i as int), sep),
            file_views(files@) == files_model(models.take(i as int), sep),
    {
        let e = &entries[i];
        if !is_safe_name(&e.name) {
            proof {
                assert(models[i as int].name == e.name@);
                assert(!all_names_safe(models));
            }
            return Err(ArchiveError::InvalidPath);
        }
        proof {
            lemma_dirs_model_snoc(models, sep, i as int);
            lemma_files_model_snoc(models, sep, i as int);
        }
        match &e.data {
            Some(contents) => {
                let path = to_host_separators(&e.name, sep);
                files.push((path, clone_bytes(contents)));
                proof {
                    assert(file_views(files@) =~= files_model(models.take(i as int + 1), sep));
                    assert(path_views(dirs@) =~= dirs_model(models.take(i as int + 1), sep));
                }
            },
            None => {
                let trimmed = if e.name.len() > 0 && e.name[e.name.len() - 1] == SLASH {
                    prefix_bytes(&e.name, e.name.len() - 1)
                } else {
                    clone_bytes(&e.name)
                };
                proof {
                    assert(e.name@.take(e.name@.len() - 1) =~= e.name@.drop_last());
                }
                let path = to_host_separators(&trimmed, sep);
                dirs.push(path);
                proof {
                    assert(path_views(dirs@) =~= dirs_model(models.take(i as int + 1), sep));
                    assert(file_views(files@) =~= files_model(models.take(i as int + 1), sep));
                }
            },
        }
    }
    proof {
        assert(models.take(models.len() as int) =~= models);
    }
    Ok(ExtractPlan { dirs, files })
}

/// A file listing with its names rewritten to the host separator.
pub open spec fn host_files(files: Seq<(Seq<u8>, Seq<u8>)>, sep: u8) -> Seq<(Seq<u8>, Seq<u8>)> {
    files.map_values(|f: (Seq<u8>, Seq<u8>)| (host_mapped(f.0, sep), f.1))
}

proof fn lemma_files_model_concat(a: Seq<EntryModel>, b: Seq<EntryModel>, sep: u8)
    ensures
        files_model(a + b, sep) == files_model(a, sep) + files_model(b, sep),
    decreases a.len(),
{
    if a.len() == 0 {
        assert(a + b =~= b);
        assert(files_model(a, sep) + files_model(b, sep) =~= files_model(b, sep));
    } else {
        lemma_files_model_concat(a.drop_first(), b, sep);
        assert((a + b).drop_first() =~= a.drop_first() + b);
        assert((a + b)[0] == a[0]);
        match a[0].data {
            Some(d) => {
                assert(seq![(host_mapped(a[0].name, sep), d)] + (files_model(a.drop_first(), sep)
                    + files_model(b, sep)) =~= (seq![(host_mapped(a[0].name, sep), d)]
                    + files_model(a.drop_first(), sep)) + files_model(b, sep));
            },
            None => {},
        }
    }
}

proof fn lemma_extract_files_node(node: FsNode, prefix: Seq<u8>, sep: u8)
    ensures
        files_model(entries_of(node, prefix), sep) == host_files(files_of(node, prefix), sep),
    decreases node,
{
    match node {
        FsNode::File { name, contents } => {
            let e = EntryModel { name: prefix + name@, data: Some(contents@) };
            assert(entries_of(node, prefix) == seq![e]);
            assert(seq![e].drop_first() =~= Seq::<EntryModel>::empty());
            assert(seq![e][0] == e);
            assert(files_model(Seq::<EntryModel>::empty(), sep) == Seq::<(Seq<u8>, Seq<u8>)>::empty());
            assert(files_model(entries_of(node, prefix), sep) =~= seq![
                (host_mapped(prefix + name@, sep), contents@),
            ]);
            assert(host_files(files_of(node, prefix), sep) =~= seq![
                (host_mapped(prefix + name@, sep), contents@),
            ]);
        },
        FsNode::Dir { name, children } => {
            let cp = prefix + name@ + seq![SLASH];
            let head = seq![EntryModel { name: cp, data: None }];
            lemma_files_model_concat(head, entries_of_seq(children@, cp), sep);
            assert(entries_of(node, prefix) == head + entries_of_seq(children@, cp));
            assert(head.drop_first() =~= Seq::<EntryModel>::empty());
            assert(head[0] == (EntryModel { name: cp, data: None }));
            assert(files_model(Seq::<EntryModel>::empty(), sep) == Seq::<(Seq<u8>, Seq<u8>)>::empty());
            assert(files_model(head, sep) =~= Seq::<(Seq<u8>, Seq<u8>)>::empty());
            lemma_extract_files_seq(children@, cp, sep);
            assert(files_model(entries_of(node, prefix), sep) =~= host_files(
                files_of(node, prefix),
                sep,
            ));
        },
    }
}

proof fn lemma_extract_files_seq(nodes: Seq<FsNode>, prefix: Seq<u8>, sep: u8)
    ensures
        files_model(entries_of_seq(nodes, prefix), sep) == host_files(
            files_of_seq(nodes, prefix),
            sep,
        ),
    decreases nodes,
{
    if nodes.len() == 0 {
        assert(files_model(entries_of_seq(nodes, prefix), sep) =~= Seq::<(
            Seq<u8>,
            Seq<u8>,
        )>::empty());
        assert(host_files(files_of_seq(nodes, prefix), sep) =~= Seq::<(Seq<u8>, Seq<u8>)>::empty());
    } else {
        lemma_extract_files_node(nodes[0], prefix, sep);
        lemma_extract_files_seq(nodes.drop_first(), prefix, sep);
        lemma_files_model_concat(
            entries_of(nodes[0], prefix),
            entries_of_seq(nodes.drop_first(), prefix),
            sep,
        );
        assert(host_files(
            files_of(nodes[0], prefix) + files_of_seq(nodes.drop_first(), prefix),
            sep,
        ) =~= host_files(files_of(nodes[0], prefix), sep) + host_files(
            files_of_seq(nodes.drop_first(), prefix),
            sep,
        ));
    }
}

/// Law (round trip): packing a well-formed directory tree and then
/// extracting the produced container reproduces the tree's file set,
/// byte for byte. Every packed entry name passes the extraction safety
/// gate, and the extraction plan's files are exactly the tree's files —
/// after the exclusion-token unwrapping — with their names rewritten to
/// the host separator.
pub proof fn lemma_pack_extract_round_trip(root: FsNode, token: Option<Seq<u8>>, sep: u8)
    requires
        root.wf(),
    ensures
        all_names_safe(pack_model(root, token)),
        files_model(pack_model(root, token), sep) == host_files(pack_files(root, token), sep),
{
    lemma_pack_model_shape(root, token);
    assert(forall|i: int| 0 <= i < pack_model(root, token).len() ==> is_safe_entry_name(
        (#[trigger] pack_model(root, token)[i]).name,
    ));
    if root is Dir && token == Some(root.name_spec()) {
        lemma_extract_files_seq(root->Dir_children@, Seq::empty(), sep);
    } else {
        lemma_extract_files_node(root, Seq::empty(), sep);
    }
}

/// Decodes a single-extension container and plans the materialization
/// of its entries under an output directory: every directory entry, and
/// every file entry with its decompressed contents, as host paths.
/// Succeeds exactly when the bytes decode in full and every entry name
/// passes the safety gate; an unsafe name on a decodable container is
/// exactly `InvalidPath`.
pub fn extract_aix(bytes: Vec<u8>, sep: u8) -> (r: Result<ExtractPlan, ArchiveError>)
    ensures
        r is Ok <==> (zip_parse_of(bytes@) matches Some(es) && (forall|i: int|
            0 <= i < es.len() ==> #[trigger] zip_entry_reads(bytes@, i)) && all_names_safe(es)),
        r matches Ok(plan) ==> (zip_parse_of(bytes@) matches Some(es) && path_views(plan.dirs@)
            == dirs_model(es, sep) && file_views(plan.files@) == files_model(es, sep)),
        zip_parse_of(bytes@) matches Some(es) && (forall|i: int| 0 <= i < es.len()
            ==> #[trigger] zip_entry_reads(bytes@, i)) && !all_names_safe(es) ==> r == Err::<
            ExtractPlan,
            ArchiveError,
        >(ArchiveError::InvalidPath),
        r matches Err(e) ==> e == ArchiveError::MalformedArchive || e == ArchiveError::InvalidPath,
{
    let ghost given = bytes@;
    let entries = match decode_entries(bytes) {
        Ok(v) => v,
        Err(e) => {
            return Err(e);
        },
    };
    let ghost ev = entry_views(entries@);
    match extract_plan(&entries, sep) {
        Ok(plan) => {
            proof {
                assert(all_names_safe(ev) && path_views(plan.dirs@) == dirs_model(ev, sep)
                    && file_views(plan.files@) == files_model(ev, sep));
            }
            Ok(plan)
        },
        Err(e) => Err(e),
    }
}

/// Whether some entry name begins with `prefix`.
pub open spec fn some_name_prefixed(entries: Seq<EntryModel>, prefix: Seq<u8>) -> bool {
    exists|i: int| 0 <= i < entries.len() && is_prefix_of(prefix, (#[trigger] entries[i]).name)
}

/// Scans the listing for any entry name beginning with `prefix`.
pub fn any_name_starts_with(entries: &Vec<Entry>, prefix: &Vec<u8>) -> (r: bool)
    ensures
        r == some_name_prefixed(entry_views(entries@), prefix@),
{
    let ghost models = entry_views(entries@);
    for i in 0..entries.len()
        invariant
            models == entry_views(entries@),
            forall|k: int| 0 <= k < i ==> !is_prefix_of(prefix@, (#[trigger] models[k]).name),
    {
        proof {
            assert(models[i as int].name == entries@[i as int]@.name);
        }
        if starts_with(&entries[i].name, prefix) {
            proof {
                assert(is_prefix_of(prefix@, models[i as int].name));
            }
            return true;
        }
    }
    false
}

/// The base directory designated by the first entry whose name ends
/// with `marker`: the parent of that entry, as an archive-style path.
pub open spec fn base_dir_model(entries: Seq<EntryModel>, marker: Seq<u8>) -> Option<Seq<u8>>
    decreases entries.len(),
{
    if entries.len() == 0 {
        None
    } else if is_suffix_of(marker, entries[0].name) {
        Some(parent_of(entries[0].name))
    } else {
        base_dir_model(entries.drop_first(), marker)
    }
}

/// Scans the listing, in order, for the first entry name that ends with
/// the marker suffix, and resolves the base directory as that entry's
/// parent. `None` when no entry matches: the archive is malformed for
/// this purpose.
pub fn find_base_dir(entries: &Vec<Entry>, marker: &Vec<u8>) -> (r: Option<Vec<u8>>)
    ensures
        (match r {
            Some(p) => Some(p@),
            None => None,
        }) == base_dir_model(entry_views(entries@), marker@),
{
    let ghost models = entry_views(entries@);
    proof {
        assert(models.skip(0) =~= models);
    }
    for i in 0..entries.len()
        invariant
            models == entry_views(entries@),
            base_dir_model(models, marker@) == base_dir_model(models.skip(i as int), marker@),
    {
        proof {
            assert(models.skip(i as int)[0] == models[i as int]);
            assert(models[i as int].name == entries@[i as int]@.name);
        }
        if ends_with(&entries[i].name, marker) {
            return Some(parent_name(&entries[i].name));
        }
        proof {
            assert(models.skip(i as int).drop_first() =~= models.skip(i as int + 1));
        }
    }
    proof {
        assert(models.skip(models.len() as int) =~= Seq::<EntryModel>::empty());
    }
    None
}

/// The immediate child directory, if any, that `e` reveals beneath
/// `prefix`: the head segment of its name after `prefix`, provided more
/// of the name follows it.
pub open spec fn child_contrib(e: EntryModel, prefix: Seq<u8>) -> Option<Seq<u8>> {
    if is_prefix_of(prefix, e.name) {
        let rest = e.name.skip(prefix.len() as int);
        if 0 < head_seg_len(rest) && head_seg_len(rest) < rest.len() {
            Some(head_segment(rest))
        } else {
            None
        }
    } else {
        None
    }
}

/// Folds the distinct child directories the listing reveals beneath
/// `prefix` onto `acc`, in first-appearance order.
pub open spec fn child_dirs_acc(entries: Seq<EntryModel>, prefix: Seq<u8>, acc: Seq<Seq<u8>>) -> Seq<
    Seq<u8>,
>
    decreases entries.len(),
{
    if entries.len() == 0 {
        acc
    } else {
        let next = match child_contrib(entries[0], prefix) {
            Some(c) => if acc.contains(c) {
                acc
            } else {
                acc.push(c)
            },
            None => acc,
        };
        child_dirs_acc(entries.drop_first(), prefix, next)
    }
}

/// The distinct immediate child directories the listing reveals beneath
/// `prefix`, in first-appearance order.
pub open spec fn child_dirs_model(entries: Seq<EntryModel>, prefix: Seq<u8>) -> Seq<Seq<u8>> {
    child_dirs_acc(entries, prefix, Seq::empty())
}

/// Membership test on a row of collected paths.
fn contains_name(list: &Vec<Vec<u8>>, name: &Vec<u8>) -> (r: bool)
    ensures
        r == path_views(list@).contains(name@),
{
    for i in 0..list.len()
        invariant
            forall|k: int| 0 <= k < i ==> path_views(list@)[k] != name@,
    {
        if eq_bytes(&list[i], name) {
            proof {
                assert(path_views(list@)[i as int] == name@);
            }
            return true;
        }
    }
    false
}

/// Enumerates the units of a multi-unit container: one name per distinct
/// immediate child directory of `prefix`, in first-appearance order.
pub fn child_dir_names(entries: &Vec<Entry>, prefix: &Vec<u8>) -> (r: Vec<Vec<u8>>)
    ensures
        path_views(r@) == child_dirs_model(entry_views(entries@), prefix@),
{
    let ghost models = entry_views(entries@);
    let mut out: Vec<Vec<u8>> = Vec::new();
    proof {
        assert(models.skip(0) =~= models);
        assert(path_views(out@) =~= Seq::<Seq<u8>>::empty());
    }
    for i in 0..entries.len()
        invariant
            models == entry_views(entries@),
            child_dirs_acc(models.skip(i as int), prefix@, path_views(out@)) == child_dirs_model(
                models,
                prefix@,
            ),
    {
        let e = &entries[i];
        proof {
            assert(models.skip(i as int)[0] == models[i as int]);
            assert(models[i as int].name == e.name@);
            assert(models.skip(i as int).drop_first() =~= models.skip(i as int + 1));
        }
        if starts_with(&e.name, prefix) {
            let rest = suffix_bytes(&e.name, prefix.len());
            let seg = head_segment_bytes(&rest);
            if seg.len() > 0 && seg.len() < rest.len() {
                proof {
                    assert(child_contrib(models[i as int], prefix@) == Some(seg@));
                }
                if !contains_name(&out, &seg) {
                    let ghost prev = path_views(out@);
                    let ghost c = seg@;
                    out.push(seg);
                    proof {
                        assert(path_views(out@) =~= prev.push(c));
                    }
                } else {
                    proof {
                        assert(path_views(out@).contains(seg@));
                    }
                }
            } else {
                proof {
                    assert(child_contrib(models[i as int], prefix@) is None);
                }
            }
        } else {
            proof {
                assert(child_contrib(models[i as int], prefix@) is None);
            }
        }
    }
    proof {
        assert(models.skip(models.len() as int) =~= Seq::<EntryModel>::empty());
    }
    out
}

} // verus!
