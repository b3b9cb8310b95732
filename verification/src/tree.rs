//! The directory-tree model of the archive writer.
//!
//! A tree is held in memory as plain names and bytes. Packing walks it
//! depth-first in pre-order and yields one archive entry per node: a
//! trailing-slash name for a directory, a name plus contents for a file.
//! An optional exclusion token unwraps the root directory level from the
//! produced namespace.

use vstd::prelude::*;

use crate::paths::{BACKSLASH, DOT, SLASH, dotdot_at, is_safe_entry_name};
use crate::paths::concat_bytes;

verus! {

/// One node of a directory tree: a regular file with its contents, or a
/// directory with its children.
#[derive(Debug)]
pub enum FsNode {
    File { name: Vec<u8>, contents: Vec<u8> },
    Dir { name: Vec<u8>, children: Vec<FsNode> },
}

/// A single path segment a node may be named by: non-empty, free of
/// separators and NUL bytes, and not a `.` or `..` traversal segment.
pub open spec fn valid_node_name(s: Seq<u8>) -> bool {
    &&& s.len() > 0
    &&& forall|i: int| 0 <= i < s.len() ==> s[i] != SLASH && s[i] != BACKSLASH && s[i] != 0u8
    &&& s != seq![DOT]
    &&& s != seq![DOT, DOT]
}

impl FsNode {
    /// The node's own name, a single path segment.
    pub open spec fn name_spec(self) -> Seq<u8> {
        match self {
            FsNode::File { name, .. } => name@,
            FsNode::Dir { name, .. } => name@,
        }
    }

    /// Every node of the tree bears a valid single-segment name.
    pub open spec fn wf(self) -> bool
        decreases self,
    {
        match self {
            FsNode::File { name, contents } => valid_node_name(name@),
            FsNode::Dir { name, children } => {
                &&& valid_node_name(name@)
                &&& forall|i: int| 0 <= i < children@.len() ==> (#[trigger] children@[i]).wf()
            },
        }
    }
}

/// The ghost image of one archive entry: its full in-archive name, and
/// its contents when it is a file. A directory entry's name carries a
/// trailing slash, as the wire format stores it.
pub struct EntryModel {
    pub name: Seq<u8>,
    pub data: Option<Seq<u8>>,
}

/// The archive entries of one node, pre-order, each name prefixed by
/// `prefix` (empty, or ending with a slash).
pub open spec fn entries_of(node: FsNode, prefix: Seq<u8>) -> Seq<EntryModel>
    decreases node,
{
    match node {
        FsNode::File { name, contents } => seq![
            EntryModel { name: prefix + name@, data: Some(contents@) },
        ],
        FsNode::Dir { name, children } => seq![
            EntryModel { name: prefix + name@ + seq![SLASH], data: None },
        ] + entries_of_seq(children@, prefix + name@ + seq![SLASH]),
    }
}

/// The archive entries of a row of sibling nodes, in order.
pub open spec fn entries_of_seq(nodes: Seq<FsNode>, prefix: Seq<u8>) -> Seq<EntryModel>
    decreases nodes,
{
    if nodes.len() == 0 {
        Seq::empty()
    } else {
        entries_of(nodes[0], prefix) + entries_of_seq(nodes.drop_first(), prefix)
    }
}

/// One archive entry as the reader and writer exchange it: the full
/// in-archive name, and the contents when it is a file.
#[derive(Debug)]
pub struct Entry {
    pub name: Vec<u8>,
    pub data: Option<Vec<u8>>,
}

impl View for Entry {
    type V = EntryModel;

    open spec fn view(&self) -> EntryModel {
        EntryModel {
            name: self.name@,
            data: match self.data {
                Some(d) => Some(d@),
                None => None,
            },
        }
    }
}

/// The ghost image of a row of entries.
pub open spec fn entry_views(s: Seq<Entry>) -> Seq<EntryModel> {
    s.map_values(|e: Entry| e@)
}

/// Splitting the entries of the first `i + 1` siblings off after the
/// first `i`.
pub proof fn lemma_entries_of_seq_snoc(nodes: Seq<FsNode>, prefix: Seq<u8>, i: int)
    requires
        0 <= i < nodes.len(),
    ensures
        entries_of_seq(nodes.take(i + 1), prefix) == entries_of_seq(nodes.take(i), prefix)
            + entries_of(nodes[i], prefix),
    decreases i,
{
    if i == 0 {
        assert(nodes.take(1) =~= seq![nodes[0]]);
        assert(nodes.take(1).drop_first() =~= Seq::<FsNode>::empty());
        assert(nodes.take(0) =~= Seq::<FsNode>::empty());
        assert(nodes.take(1)[0] == nodes[0]);
        assert(entries_of_seq(nodes.take(1), prefix) == entries_of(nodes.take(1)[0], prefix)
            + entries_of_seq(nodes.take(1).drop_first(), prefix));
        assert(entries_of_seq(Seq::<FsNode>::empty(), prefix) == Seq::<EntryModel>::empty());
        assert(entries_of_seq(nodes.take(1), prefix) =~= entries_of(nodes[0], prefix));
        assert(entries_of_seq(nodes.take(0), prefix) + entries_of(nodes[0], prefix)
            =~= entries_of(nodes[0], prefix));
    } else {
        let rest = nodes.drop_first();
        lemma_entries_of_seq_snoc(rest, prefix, i - 1);
        assert(nodes.take(i + 1).drop_first() =~= rest.take(i));
        assert(nodes.take(i).drop_first() =~= rest.take(i - 1));
        assert(nodes.take(i + 1)[0] == nodes[0]);
        assert(nodes.take(i)[0] == nodes[0]);
        assert(rest[i - 1] == nodes[i]);
        assert(entries_of_seq(nodes.take(i + 1), prefix) == entries_of(nodes[0], prefix)
            + entries_of_seq(rest.take(i), prefix));
        assert(entries_of(nodes[0], prefix) + (entries_of_seq(rest.take(i - 1), prefix)
            + entries_of(nodes[i], prefix)) =~= (entries_of(nodes[0], prefix)
            + entries_of_seq(rest.take(i - 1), prefix)) + entries_of(nodes[i], prefix));
    }
}

/// `prefix` + `name` + `/`: the in-archive name of a directory entry.
fn dir_entry_name(prefix: &Vec<u8>, name: &Vec<u8>) -> (r: Vec<u8>)
    ensures
        r@ == prefix@ + name@ + seq![SLASH],
{
    let mut out = concat_bytes(prefix, name);
    out.push(SLASH);
    proof {
        assert(out@ =~= prefix@ + name@ + seq![SLASH]);
    }
    out
}

/// A byte-for-byte copy.
pub fn clone_bytes(v: &Vec<u8>) -> (r: Vec<u8>)
    ensures
        r@ == v@,
{
    let r = v.clone();
    proof {
        assert(r@ =~= v@);
    }
    r
}

/// Appends the entries of `node`, each name under `prefix`, to `out`:
/// the depth-first pre-order walk of the writer.
fn push_entries(node: &FsNode, prefix: &Vec<u8>, out: &mut Vec<Entry>)
    ensures
        entry_views(final(out)@) == entry_views(old(out)@) + entries_of(*node, prefix@),
    decreases *node,
{
    match node {
        FsNode::File { name, contents } => {
            let full = concat_bytes(prefix, name);
            out.push(Entry { name: full, data: Some(clone_bytes(contents)) });
            proof {
                assert(entry_views(final(out)@) =~= entry_views(old(out)@) + entries_of(
                    *node,
                    prefix@,
                ));
            }
        },
        FsNode::Dir { name, children } => {
            let dir_name = dir_entry_name(prefix, name);
            let child_prefix = clone_bytes(&dir_name);
            out.push(Entry { name: dir_name, data: None });
            proof {
                assert(entry_views(out@) =~= entry_views(old(out)@) + seq![
                    EntryModel { name: prefix@ + name@ + seq![SLASH], data: None },
                ]);
                assert(decreases_to!(*node => node->Dir_children));
            }
            push_entries_seq(children, &child_prefix, out);
            proof {
                assert(entry_views(out@) =~= entry_views(old(out)@) + entries_of(*node, prefix@));
            }
        },
    }
}

/// Appends the entries of a row of sibling nodes, each name under
/// `prefix`, to `out`.
fn push_entries_seq(nodes: &Vec<FsNode>, prefix: &Vec<u8>, out: &mut Vec<Entry>)
    ensures
        entry_views(final(out)@) == entry_views(old(out)@) + entries_of_seq(nodes@, prefix@),
    decreases *nodes,
{
    proof {
        assert(nodes@.take(0) =~= Seq::<FsNode>::empty());
        assert(entry_views(out@) + entries_of_seq(nodes@.take(0), prefix@) =~= entry_views(out@));
    }
    for i in 0..nodes.len()
        invariant
            entry_views(out@) == entry_views(old(out)@) + entries_of_seq(
                nodes@.take(i as int),
                prefix@,
            ),
    {
        proof {
            assert(decreases_to!(*nodes => nodes@));
            assert(decreases_to!(nodes@ => nodes@[i as int]));
        }
        push_entries(&nodes[i], prefix, out);
        proof {
            lemma_entries_of_seq_snoc(nodes@, prefix@, i as int);
            assert((entry_views(old(out)@) + entries_of_seq(nodes@.take(i as int), prefix@))
                + entries_of(nodes@[i as int], prefix@) =~= entry_views(old(out)@)
                + entries_of_seq(nodes@.take(i as int + 1), prefix@));
        }
    }
    proof {
        assert(nodes@.take(nodes@.len() as int) =~= nodes@);
    }
}

/// Byte-string equality.
pub fn eq_bytes(a: &Vec<u8>, b: &Vec<u8>) -> (r: bool)
    ensures
        r == (a@ == b@),
{
    if a.len() != b.len() {
        return false;
    }
    for i in 0..a.len()
        invariant
            a@.len() == b@.len(),
            forall|k: int| 0 <= k < i ==> a@[k] == b@[k],
    {
        if a[i] != b[i] {
            return false;
        }
    }
    proof {
        assert(a@ =~= b@);
    }
    true
}

/// Whether `s` is free of backslashes.
pub open spec fn no_backslash(s: Seq<u8>) -> bool {
    forall|i: int| 0 <= i < s.len() ==> s[i] != BACKSLASH
}

/// A namespace prefix as the traversal builds one: empty at the
/// traversal origin, afterwards a safe entry name ending with a slash.
pub open spec fn wire_prefix(p: Seq<u8>) -> bool {
    p.len() == 0 || (is_safe_entry_name(p) && p[p.len() - 1] == SLASH && no_backslash(p))
}

/// The shape every entry of the writer has on the wire: a safe name in
/// forward-slash form, with the trailing slash exactly on directories.
pub open spec fn entry_shape_ok(e: EntryModel) -> bool {
    &&& is_safe_entry_name(e.name)
    &&& no_backslash(e.name)
    &&& (e.data is None ==> e.name[e.name.len() - 1] == SLASH)
    &&& (e.data is Some ==> e.name[e.name.len() - 1] != SLASH && e.name[e.name.len() - 1]
        != BACKSLASH)
}

/// Appending one node-name segment to a wire prefix keeps every name
/// property the writer relies on.
proof fn lemma_append_segment(p: Seq<u8>, n: Seq<u8>)
    requires
        wire_prefix(p),
        valid_node_name(n),
    ensures
        is_safe_entry_name(p + n),
        no_backslash(p + n),
        (p + n)[(p + n).len() - 1] == n[n.len() - 1],
        is_safe_entry_name(p + n + seq![SLASH]),
        no_backslash(p + n + seq![SLASH]),
        wire_prefix(p + n + seq![SLASH]),
{
    let s = p + n;
    let t = p + n + seq![SLASH];
    assert(s.len() == p.len() + n.len());
    assert(t.len() == p.len() + n.len() + 1);
    assert(forall|j: int| 0 <= j < p.len() ==> s[j] == p[j] && t[j] == p[j]);
    assert(forall|j: int| p.len() <= j < s.len() ==> s[j] == n[j - p.len()] && t[j] == n[j
        - p.len()]);
    assert(t[t.len() - 1] == SLASH);
    assert forall|i: int| !dotdot_at(s, i) by {
        if dotdot_at(s, i) {
            if i + 2 <= p.len() {
                if i + 2 < p.len() {
                    assert(dotdot_at(p, i));
                } else {
                    assert(s[i + 2] == n[0]);
                    assert(n[0] != SLASH);
                }
            } else if i < p.len() {
                assert(i == p.len() - 1);
                assert(s[i] == p[p.len() - 1]);
                assert(s[i] == SLASH);
            } else if i == p.len() {
                assert(s[i] == n[0] && n[0] == DOT);
                assert(s[i + 1] == n[1] && n[1] == DOT);
                if i + 2 == s.len() {
                    assert(n =~= seq![DOT, DOT]);
                } else {
                    assert(s[i + 2] == n[2]);
                }
            } else {
                assert(s[i - 1] == n[i - 1 - p.len()]);
                assert(s[i - 1] != SLASH);
            }
        }
    }
    assert forall|i: int| !dotdot_at(t, i) by {
        if dotdot_at(t, i) {
            if i + 2 <= s.len() {
                if i + 2 == s.len() {
                    assert(t[i] == DOT && t[i + 1] == DOT);
                    if i >= p.len() {
                        if n.len() == 1 {
                            assert(t[i] == p[p.len() - 1]);
                        } else if i == p.len() {
                            assert(n =~= seq![DOT, DOT]);
                        } else {
                            assert(t[i - 1] == n[i - 1 - p.len()]);
                            assert(t[i - 1] != SLASH);
                        }
                    } else {
                        assert(i == p.len() - 1);
                        assert(t[i] == SLASH);
                    }
                } else {
                    assert(dotdot_at(s, i));
                }
            } else {
                assert(i + 2 == t.len());
                assert(t[i + 1] == n[n.len() - 1]);
                assert(t[i + 1] != DOT || n.len() >= 1);
                if n.len() == 1 {
                    assert(n =~= seq![DOT]);
                } else {
                    assert(t[i] == n[n.len() - 2]);
                    if n[n.len() - 2] == DOT && n[n.len() - 1] == DOT {
                        if n.len() == 2 {
                            assert(n =~= seq![DOT, DOT]);
                        } else {
                            assert(t[i - 1] == n[n.len() - 3]);
                            assert(t[i - 1] != SLASH);
                        }
                    }
                }
            }
        }
    }
}

proof fn lemma_entries_of_seq_shape(nodes: Seq<FsNode>, prefix: Seq<u8>)
    requires
        forall|i: int| 0 <= i < nodes.len() ==> (#[trigger] nodes[i]).wf(),
        wire_prefix(prefix),
    ensures
        forall|k: int| 0 <= k < entries_of_seq(nodes, prefix).len() ==> entry_shape_ok(
            #[trigger] entries_of_seq(nodes, prefix)[k],
        ),
    decreases nodes,
{
    if nodes.len() > 0 {
        assert(nodes[0].wf());
        lemma_entries_of_shape(nodes[0], prefix);
        assert(forall|i: int| 0 <= i < nodes.drop_first().len() ==> (#[trigger] nodes.drop_first()[
            i]).wf());
        lemma_entries_of_seq_shape(nodes.drop_first(), prefix);
        assert(forall|k: int| 0 <= k < entries_of_seq(nodes, prefix).len()
            ==> #[trigger] entries_of_seq(nodes, prefix)[k] == (if k < entries_of(
            nodes[0],
            prefix,
        ).len() {
            entries_of(nodes[0], prefix)[k]
        } else {
            entries_of_seq(nodes.drop_first(), prefix)[k - entries_of(nodes[0], prefix).len()]
        }));
    }
}

/// Every entry that the traversal of a well-formed tree emits under a
/// wire prefix has the wire shape: a safe forward-slash name, slash-
/// terminated exactly on directories.
pub proof fn lemma_entries_of_shape(node: FsNode, prefix: Seq<u8>)
    requires
        node.wf(),
        wire_prefix(prefix),
    ensures
        forall|k: int| 0 <= k < entries_of(node, prefix).len() ==> entry_shape_ok(
            #[trigger] entries_of(node, prefix)[k],
        ),
    decreases node,
{
    match node {
        FsNode::File { name, contents } => {
            lemma_append_segment(prefix, name@);
            assert(entries_of(node, prefix)[0].name == prefix + name@);
        },
        FsNode::Dir { name, children } => {
            lemma_append_segment(prefix, name@);
            let child_prefix = prefix + name@ + seq![SLASH];
            lemma_entries_of_seq_shape(children@, child_prefix);
            assert(entries_of(node, prefix)[0].name == child_prefix);
            assert(forall|k: int| 1 <= k < entries_of(node, prefix).len()
                ==> #[trigger] entries_of(node, prefix)[k] == entries_of_seq(
                children@,
                child_prefix,
            )[k - 1]);
        },
    }
}

/// Whether two entry listings are equal: name for name, byte for byte.
pub fn entries_match(a: &Vec<Entry>, b: &Vec<Entry>) -> (r: bool)
    ensures
        r == (entry_views(a@) == entry_views(b@)),
{
    if a.len() != b.len() {
        proof {
            assert(entry_views(a@).len() == a@.len());
            assert(entry_views(b@).len() == b@.len());
        }
        return false;
    }
    for i in 0..a.len()
        invariant
            a@.len() == b@.len(),
            forall|k: int| 0 <= k < i ==> entry_views(a@)[k] == entry_views(b@)[k],
    {
        let ea = &a[i];
        let eb = &b[i];
        let same = if !eq_bytes(&ea.name, &eb.name) {
            false
        } else {
            match (&ea.data, &eb.data) {
                (None, None) => true,
                (Some(da), Some(db)) => eq_bytes(da, db),
                _ => false,
            }
        };
        proof {
            assert(entry_views(a@)[i as int] == a@[i as int]@);
            assert(entry_views(b@)[i as int] == b@[i as int]@);
        }
        if !same {
            proof {
                if entry_views(a@) == entry_views(b@) {
                    assert(entry_views(a@)[i as int] == entry_views(b@)[i as int]);
                }
            }
            return false;
        }
    }
    proof {
        assert(entry_views(a@) =~= entry_views(b@));
    }
    true
}

/// The ghost image of an optional exclusion token.
pub open spec fn token_view(token: Option<&Vec<u8>>) -> Option<Seq<u8>> {
    match token {
        Some(t) => Some(t@),
        None => None,
    }
}

/// The full entry listing that packing `root` produces: the pre-order
/// walk of the tree, names relative to the parent of `root` — except
/// that when the exclusion token equals the root directory's own name,
/// that level is unwrapped: the root's own entry is omitted and its
/// children stand at the top of the namespace. The token unwraps that
/// one level only; a deeper directory that happens to bear the token's
/// name keeps its entry and its place.
pub open spec fn pack_model(root: FsNode, token: Option<Seq<u8>>) -> Seq<EntryModel> {
    if root is Dir && token == Some(root.name_spec()) {
        entries_of_seq(root->Dir_children@, Seq::empty())
    } else {
        entries_of(root, Seq::empty())
    }
}

/// Every entry that packing a well-formed tree produces has the wire
/// shape: safe names, forward slashes only, trailing slash exactly on
/// directory entries.
pub proof fn lemma_pack_model_shape(root: FsNode, token: Option<Seq<u8>>)
    requires
        root.wf(),
    ensures
        forall|k: int| 0 <= k < pack_model(root, token).len() ==> entry_shape_ok(
            #[trigger] pack_model(root, token)[k],
        ),
{
    assert(wire_prefix(Seq::<u8>::empty()));
    if root is Dir && token == Some(root.name_spec()) {
        lemma_entries_of_seq_shape(root->Dir_children@, Seq::empty());
    } else {
        lemma_entries_of_shape(root, Seq::empty());
    }
}

/// Law: no entry name the writer produces contains a backslash — every
/// separator on the wire is a forward slash.
pub proof fn lemma_pack_names_forward_slashed(root: FsNode, token: Option<Seq<u8>>)
    requires
        root.wf(),
    ensures
        forall|k: int| 0 <= k < pack_model(root, token).len() ==> no_backslash(
            #[trigger] pack_model(root, token)[k].name,
        ),
{
    lemma_pack_model_shape(root, token);
}

/// The file listing of one node, pre-order: the relative wire name and
/// the contents of every regular file beneath it.
pub open spec fn files_of(node: FsNode, prefix: Seq<u8>) -> Seq<(Seq<u8>, Seq<u8>)>
    decreases node,
{
    match node {
        FsNode::File { name, contents } => seq![(prefix + name@, contents@)],
        FsNode::Dir { name, children } => files_of_seq(children@, prefix + name@ + seq![SLASH]),
    }
}

/// The file listing of a row of sibling nodes, in order.
pub open spec fn files_of_seq(nodes: Seq<FsNode>, prefix: Seq<u8>) -> Seq<(Seq<u8>, Seq<u8>)>
    decreases nodes,
{
    if nodes.len() == 0 {
        Seq::empty()
    } else {
        files_of(nodes[0], prefix) + files_of_seq(nodes.drop_first(), prefix)
    }
}

/// The file listing that packing `root` under `token` promises: the
/// tree's files, unwrapped of the root level when the token names it.
pub open spec fn pack_files(root: FsNode, token: Option<Seq<u8>>) -> Seq<(Seq<u8>, Seq<u8>)> {
    if root is Dir && token == Some(root.name_spec()) {
        files_of_seq(root->Dir_children@, Seq::empty())
    } else {
        files_of(root, Seq::empty())
    }
}

/// The archive writer's traversal: lists the entries that packing
/// `root` under the exclusion token `token` emits, in order.
pub fn pack_entries(root: &FsNode, token: Option<&Vec<u8>>) -> (r: Vec<Entry>)
    ensures
        entry_views(r@) == pack_model(*root, token_view(token)),
{
    let mut out: Vec<Entry> = Vec::new();
    let empty_prefix: Vec<u8> = Vec::new();
    let unwrap_root = match (token, root) {
        (Some(t), FsNode::Dir { name, .. }) => eq_bytes(t, name),
        _ => false,
    };
    if unwrap_root {
        match root {
            FsNode::Dir { name, children } => {
                push_entries_seq(children, &empty_prefix, &mut out);
            },
            FsNode::File { .. } => {
                proof {
                    assert(false);
                }
            },
        }
    } else {
        push_entries(root, &empty_prefix, &mut out);
    }
    proof {
        assert(entry_views(out@) =~= pack_model(*root, token_view(token)));
    }
    out
}

} // verus!
