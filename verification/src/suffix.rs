//! Numbering of files that share a name within one directory.
//!
//! Among the children of a directory that share a name, the files are
//! ordered by Drive id (a missing id first, then ids in lexicographic order,
//! ties kept in directory order). The first file keeps its plain name; the
//! `k`-th after it is reported with the suffix `.k`.
use vstd::prelude::*;
use crate::file::FileView;
use crate::text::{opt_seq_lt, seq_lt};
use crate::tree::{FsView, NodeView};

verus! {

/// The key by which same-named files are ordered.
pub open spec fn sort_key(f: FileView) -> Option<Seq<char>> {
    f.drive_id()
}

/// Among the children `kids`, the file at index `j` shares the name of the
/// file at index `i` and sorts before it.
pub open spec fn precedes(nodes: Map<u64, NodeView>, kids: Seq<u64>, j: int, i: int) -> bool {
    let fj = nodes[kids[j]].file;
    let fi = nodes[kids[i]].file;
    &&& fj.name == fi.name
    &&& (opt_seq_lt(sort_key(fj), sort_key(fi)) || (sort_key(fj) == sort_key(fi) && j < i))
}

/// How many of the first `m` children precede the child at index `i`.
pub open spec fn rank_upto(nodes: Map<u64, NodeView>, kids: Seq<u64>, i: int, m: int) -> nat
    decreases m,
{
    if m <= 0 {
        0
    } else {
        rank_upto(nodes, kids, i, m - 1) + if precedes(nodes, kids, m - 1, i) { 1nat } else { 0nat }
    }
}

/// The position of the child at index `i` among the children that share its name.
pub open spec fn rank(nodes: Map<u64, NodeView>, kids: Seq<u64>, i: int) -> nat {
    rank_upto(nodes, kids, i, kids.len() as int)
}

/// The identical-name id that the child at index `i` gets.
pub open spec fn suffix_of(nodes: Map<u64, NodeView>, kids: Seq<u64>, i: int) -> Option<usize> {
    if rank(nodes, kids, i) == 0 {
        None
    } else {
        Some(rank(nodes, kids, i) as usize)
    }
}

/// The node `y`, a child of `p`, with its identical-name id renumbered.
pub open spec fn suffixed(nodes: Map<u64, NodeView>, p: u64, y: u64) -> NodeView {
    let kids = nodes[p].children;
    NodeView {
        file: FileView { identical_name_id: suffix_of(nodes, kids, kids.index_of(y)), ..nodes[y].file },
        ..nodes[y]
    }
}

/// All nodes, with the children of `p` renumbered.
pub open spec fn renumber_under(nodes: Map<u64, NodeView>, p: u64) -> Map<u64, NodeView> {
    Map::new(
        |y: u64| nodes.contains_key(y),
        |y: u64| if nodes[y].parent == Some(p) { suffixed(nodes, p, y) } else { nodes[y] },
    )
}

/// All nodes, with the children of every directory renumbered.
pub open spec fn renumber_all(nodes: Map<u64, NodeView>) -> Map<u64, NodeView> {
    Map::new(
        |y: u64| nodes.contains_key(y),
        |y: u64| match nodes[y].parent {
            Some(p) => suffixed(nodes, p, y),
            None => nodes[y],
        },
    )
}

/// Two node maps agree on everything but identical-name ids.
pub open spec fn same_but_suffixes(a: Map<u64, NodeView>, b: Map<u64, NodeView>) -> bool {
    &&& a.dom() == b.dom()
    &&& forall|y: u64| #[trigger] a.contains_key(y) ==> {
        &&& a[y].parent == b[y].parent
        &&& a[y].children == b[y].children
        &&& a[y].file.name == b[y].file.name
        &&& a[y].file.attr == b[y].file.attr
        &&& a[y].file.drive_file == b[y].file.drive_file
    }
}

pub proof fn lemma_rank_same(a: Map<u64, NodeView>, b: Map<u64, NodeView>, kids: Seq<u64>, i: int, m: int)
    requires
        same_but_suffixes(a, b),
        forall|k: int| 0 <= k < kids.len() ==> #[trigger] a.contains_key(kids[k]),
        0 <= i < kids.len(),
        m <= kids.len(),
    ensures
        rank_upto(a, kids, i, m) == rank_upto(b, kids, i, m),
    decreases m,
{
    if m > 0 {
        lemma_rank_same(a, b, kids, i, m - 1);
        assert(a.contains_key(kids[m - 1]));
        assert(a.contains_key(kids[i]));
    }
}

pub proof fn lemma_seq_lt_irrefl(a: Seq<char>)
    ensures
        !seq_lt(a, a),
    decreases a.len(),
{
    if a.len() > 0 {
        lemma_seq_lt_irrefl(a.drop_first());
    }
}

pub proof fn lemma_seq_lt_trans(a: Seq<char>, b: Seq<char>, c: Seq<char>)
    requires
        seq_lt(a, b),
        seq_lt(b, c),
    ensures
        seq_lt(a, c),
    decreases a.len(),
{
    if a.len() > 0 && b.len() > 0 && c.len() > 0 {
        if a[0] == b[0] && b[0] == c[0] {
            lemma_seq_lt_trans(a.drop_first(), b.drop_first(), c.drop_first());
        }
    }
}

proof fn lemma_char_u32(c: char, d: char)
    requires
        c != d,
    ensures
        (c as u32) != (d as u32),
{
    assert((c as int) != (d as int));
    assert((c as u32) == (c as int));
    assert((d as u32) == (d as int));
}

pub proof fn lemma_seq_lt_total(a: Seq<char>, b: Seq<char>)
    requires
        a != b,
    ensures
        seq_lt(a, b) || seq_lt(b, a),
    decreases a.len(),
{
    if a.len() > 0 && b.len() > 0 {
        if a[0] == b[0] {
            assert(a.drop_first() != b.drop_first()) by {
                if a.drop_first() == b.drop_first() {
                    assert(a =~= seq![a[0]] + a.drop_first());
                    assert(b =~= seq![b[0]] + b.drop_first());
                }
            }
            lemma_seq_lt_total(a.drop_first(), b.drop_first());
        } else {
            lemma_char_u32(a[0], b[0]);
        }
    } else if a.len() == 0 && b.len() == 0 {
        assert(a =~= b);
    }
}

pub proof fn lemma_opt_lt_props(a: Option<Seq<char>>, b: Option<Seq<char>>, c: Option<Seq<char>>)
    ensures
        !opt_seq_lt(a, a),
        opt_seq_lt(a, b) && opt_seq_lt(b, c) ==> opt_seq_lt(a, c),
        a != b ==> opt_seq_lt(a, b) || opt_seq_lt(b, a),
        opt_seq_lt(a, b) ==> !opt_seq_lt(b, a),
{
    if let Some(x) = a {
        lemma_seq_lt_irrefl(x);
    }
    match (a, b, c) {
        (Some(x), Some(y), Some(z)) => {
            if seq_lt(x, y) && seq_lt(y, z) {
                lemma_seq_lt_trans(x, y, z);
            }
            if x != y {
                lemma_seq_lt_total(x, y);
            }
            if seq_lt(x, y) && seq_lt(y, x) {
                lemma_seq_lt_trans(x, y, x);
                lemma_seq_lt_irrefl(x);
            }
        }
        (Some(x), Some(y), None) => {
            if x != y {
                lemma_seq_lt_total(x, y);
            }
            if seq_lt(x, y) && seq_lt(y, x) {
                lemma_seq_lt_trans(x, y, x);
                lemma_seq_lt_irrefl(x);
            }
        }
        _ => {}
    }
}

/// Counting: whatever precedes `i` precedes `j`, and `i` itself precedes `j`.
proof fn lemma_rank_monotone(nodes: Map<u64, NodeView>, kids: Seq<u64>, i: int, j: int, m: int)
    requires
        0 <= i < kids.len(),
        0 <= j < kids.len(),
        precedes(nodes, kids, i, j),
        0 <= m <= kids.len(),
    ensures
        rank_upto(nodes, kids, j, m) >= rank_upto(nodes, kids, i, m) + if i < m { 1nat } else { 0nat },
    decreases m,
{
    if m > 0 {
        lemma_rank_monotone(nodes, kids, i, j, m - 1);
        let k = m - 1;
        let fk = nodes[kids[k]].file;
        let fi = nodes[kids[i]].file;
        let fj = nodes[kids[j]].file;
        lemma_opt_lt_props(sort_key(fk), sort_key(fi), sort_key(fj));
        lemma_opt_lt_props(sort_key(fi), sort_key(fi), sort_key(fi));
        if precedes(nodes, kids, k, i) {
            assert(precedes(nodes, kids, k, j));
        }
        if k == i {
            assert(!precedes(nodes, kids, i, i));
        }
    }
}

/// Among the children of a directory, two distinct files that share a name
/// never get the same identical-name id.
pub proof fn lemma_suffixes_distinct(nodes: Map<u64, NodeView>, kids: Seq<u64>, i: int, j: int)
    requires
        0 <= i < kids.len(),
        0 <= j < kids.len(),
        i != j,
        kids.len() <= usize::MAX,
        nodes[kids[i]].file.name == nodes[kids[j]].file.name,
    ensures
        suffix_of(nodes, kids, i) != suffix_of(nodes, kids, j),
{
    let fi = nodes[kids[i]].file;
    let fj = nodes[kids[j]].file;
    lemma_opt_lt_props(sort_key(fi), sort_key(fj), sort_key(fi));
    lemma_rank_upper(nodes, kids, i, kids.len() as int);
    lemma_rank_upper(nodes, kids, j, kids.len() as int);
    if precedes(nodes, kids, i, j) {
        lemma_rank_monotone(nodes, kids, i, j, kids.len() as int);
    } else {
        assert(precedes(nodes, kids, j, i));
        lemma_rank_monotone(nodes, kids, j, i, kids.len() as int);
    }
}

proof fn lemma_rank_upper(nodes: Map<u64, NodeView>, kids: Seq<u64>, i: int, m: int)
    requires
        0 <= m <= kids.len(),
    ensures
        rank_upto(nodes, kids, i, m) <= m,
    decreases m,
{
    if m > 0 {
        lemma_rank_upper(nodes, kids, i, m - 1);
    }
}


/// Renumbering the children of `p`, which happens only with suffix numbering on.
pub open spec fn recalc_parent_spec(v: FsView, p: u64) -> FsView {
    if v.rename_identical_files && v.nodes.contains_key(p) {
        FsView { nodes: renumber_under(v.nodes, p), ..v }
    } else {
        v
    }
}

/// Renumbering the children of every directory, which happens only with suffix numbering on.
pub open spec fn recalc_all_spec(v: FsView) -> FsView {
    if v.rename_identical_files {
        FsView { nodes: renumber_all(v.nodes), ..v }
    } else {
        v
    }
}
} // verus!
