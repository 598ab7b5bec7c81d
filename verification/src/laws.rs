//! Properties of the library that span operations.
use vstd::prelude::*;
use crate::fetcher::{read_range, written};
use crate::file::{
    from_drive_file_spec, is_posix_spec, posix_filter, DriveFileView, FileAttr, FileIdView, FileView, Timestamp,
};
use crate::filesystem::{entries_from, merged_attr, statfs_spec, SetAttrRequest, TimeOrNow};
use crate::suffix::{lemma_opt_lt_props, rank_upto, renumber_under, sort_key, suffix_of};
use crate::tree::{
    anc, add_node, add_spec, count_named, find_named, in_subtree, lemma_move_wf, lemma_subtree_self, lemma_without,
    move_node, remove_subtree, rename_spec, renamed_file, trash_inode, trash_spec, tree_wf, with_file,
    with_sibling_suffix, without, index_live, FsView, NodeView,
};
use crate::sync::{apply_change_spec, first_parent, ChangeView};

verus! {

/// Reading back what was just written, from the offset where it was
/// written and for its length, gives exactly the written bytes.
pub proof fn law_read_after_write(old: Seq<u8>, offset: int, d: Seq<u8>)
    requires
        0 <= offset,
    ensures
        read_range(written(old, offset, d), offset, d.len() as int) == d,
{
    let w = written(old, offset, d);
    assert(read_range(w, offset, d.len() as int) =~= d);
}

/// A write of `d` at `offset` into a store of contents by inode (as
/// `InMemoryFetcher::write` makes it) leaves the inode with the old bytes
/// before the offset, zeros where they ran short, and then `d`, and nothing
/// after it; reading `d`'s range back gives `d`; other inodes keep their
/// contents.
pub proof fn law_store_write(m: Map<u64, Seq<u8>>, inode: u64, offset: int, d: Seq<u8>, other: u64)
    requires
        0 <= offset,
    ensures
        ({
            let b = if m.contains_key(inode) { m[inode] } else { Seq::<u8>::empty() };
            let w = m.insert(inode, written(b, offset, d));
            &&& w[inode].len() == offset + d.len()
            &&& read_range(w[inode], offset, d.len() as int) == d
            &&& forall|j: int| 0 <= j < offset ==> #[trigger] w[inode][j] == if j < b.len() { b[j] } else { 0u8 }
            &&& forall|j: int| 0 <= j < d.len() ==> #[trigger] w[inode][offset + j] == d[j]
            &&& other != inode ==> w.contains_key(other) == m.contains_key(other) && w[other] == m[other]
        }),
{
    let b = if m.contains_key(inode) { m[inode] } else { Seq::<u8>::empty() };
    law_read_after_write(b, offset, d);
}

/// A write keeps the bytes before its offset, zero-filling any gap.
pub proof fn law_write_keeps_prefix(old: Seq<u8>, offset: int, d: Seq<u8>, i: int)
    requires
        0 <= i < offset,
    ensures
        written(old, offset, d)[i] == if i < old.len() { old[i] } else { 0u8 },
{
}

/// A file added under a directory is found by its inode and is the last
/// child of that directory.
pub proof fn law_add_then_find(v: FsView, depth: Map<u64, nat>, file: FileView, p: u64)
    requires
        tree_wf(v, depth),
        v.nodes.contains_key(p),
        !v.nodes.contains_key(file.attr.ino),
    ensures
        add_node(v, file, p).file_of(FileIdView::Inode(file.attr.ino)) == Some(file),
        add_node(v, file, p).nodes[p].children.last() == file.attr.ino,
        add_node(v, file, p).nodes[file.attr.ino].parent == Some(p),
{
}

/// A file created under a directory in which no file shows its name is
/// found there by that name afterwards; with suffix numbering on, this holds
/// when no file of the directory has its name.
pub proof fn law_create_then_lookup(v: FsView, depth: Map<u64, nat>, file: FileView, p: u64, rename: bool)
    requires
        tree_wf(v, depth),
        add_spec(v, file, Some(FileIdView::Inode(p)), rename) is Ok,
        v.inode_of(FileIdView::ParentAndName { parent: p, name: file.display_name() }) is None,
        rename ==> count_named(v.nodes, v.nodes[p].children, file.name) == 0,
    ensures
        add_spec(v, file, Some(FileIdView::Inode(p)), rename).unwrap().inode_of(
            FileIdView::ParentAndName { parent: p, name: file.display_name() },
        ) == Some(file.attr.ino),
{
    let ino = file.attr.ino;
    assert(with_sibling_suffix(v, file, p, rename) == file);
    let w = add_node(v, file, p);
    let kids = v.nodes[p].children;
    assert(w.nodes[p].children == kids.push(ino));
    assert forall|i: int| 0 <= i < kids.len() implies (#[trigger] w.nodes[kids[i]]).file == v.nodes[kids[i]].file by {
        assert(v.nodes.contains_key(kids[i]));
    }
    lemma_find_named_push(v.nodes, w.nodes, kids, ino, file.display_name());
}

/// A file renamed to `name` into a directory in which no other file is
/// named `name` or shows that name takes `name` as its local name, gets no
/// suffix (with suffix numbering off, a file without a suffix keeps none),
/// and is found there by `name` afterwards.
pub proof fn law_rename_then_lookup(v: FsView, depth: Map<u64, nat>, id: FileIdView, p: u64, name: Seq<char>)
    requires
        tree_wf(v, depth),
        rename_spec(v, id, p, name).1 is Ok,
        forall|c: u64| #[trigger] v.nodes[p].children.contains(c) && Some(c) != v.inode_of(id) ==>
            v.nodes[c].file.name != name && v.nodes[c].file.display_name() != name,
        !v.rename_identical_files ==> v.nodes[v.inode_of(id).unwrap()].file.identical_name_id is None,
    ensures
        ({
            let i = v.inode_of(id).unwrap();
            let w = rename_spec(v, id, p, name).0;
            &&& w.nodes[i].file.name == name
            &&& w.nodes[i].file.identical_name_id is None
            &&& w.inode_of(FileIdView::ParentAndName { parent: p, name }) == Some(i)
        }),
{
    let i = v.inode_of(id).unwrap();
    lemma_subtree_self(v.nodes, i);
    lemma_move_wf(v, depth, i, p);
    let op = v.nodes[i].parent.unwrap();
    let v1 = move_node(v, i, p);
    let nodes1 = v.nodes.insert(op, NodeView { children: without(v.nodes[op].children, i), ..v.nodes[op] });
    let k = nodes1[p].children;
    assert(v1.nodes[p].children == k.push(i));
    assert(k.push(i).drop_last() =~= k);
    lemma_without(v.nodes[op].children, i);
    // The other children of `p` are children of `p` before the move, and not `i`.
    assert forall|c: u64| #[trigger] k.contains(c) implies v.nodes[p].children.contains(c) && c != i by {
        if p != op && c == i {
            let j = choose|j: int| 0 <= j < v.nodes[p].children.len() && v.nodes[p].children[j] == c;
            assert(v.nodes[v.nodes[p].children[j]].parent == Some(p));
        }
    }
    let f = renamed_file(v1, i, p, name, v.rename_identical_files);
    let v2 = with_file(v1, i, f);
    assert forall|j: int| 0 <= j < k.len() implies (#[trigger] v1.nodes[k[j]]).file.name != name by {
        assert(k.contains(k[j]));
    }
    lemma_count_named_zero(v1.nodes, k, name);
    assert(f.identical_name_id is None);
    assert forall|j: int| 0 <= j < k.len() implies (#[trigger] v2.nodes[k[j]]).file.display_name() != name by {
        assert(k.contains(k[j]));
    }
    lemma_find_named_none(v2.nodes, k, name);
    assert forall|j: int| 0 <= j < k.len() implies (#[trigger] v2.nodes[k[j]]).file == v2.nodes[k[j]].file by {}
    lemma_find_named_push(v2.nodes, v2.nodes, k, i, name);
}

/// No child shows `name` when none of them does.
proof fn lemma_find_named_none(nodes: Map<u64, NodeView>, kids: Seq<u64>, name: Seq<char>)
    requires
        forall|j: int| 0 <= j < kids.len() ==> (#[trigger] nodes[kids[j]]).file.display_name() != name,
    ensures
        find_named(nodes, kids, name) is None,
    decreases kids.len(),
{
    if kids.len() > 0 {
        let rest = kids.drop_first();
        assert forall|j: int| 0 <= j < rest.len() implies (#[trigger] nodes[rest[j]]).file.display_name() != name by {
            assert(rest[j] == kids[j + 1]);
            assert(nodes[kids[j + 1]].file.display_name() != name);
        }
        assert(nodes[kids[0]].file.display_name() != name);
        lemma_find_named_none(nodes, rest, name);
    }
}

/// No child is counted under `name` when none of them has it.
proof fn lemma_count_named_zero(nodes: Map<u64, NodeView>, kids: Seq<u64>, name: Seq<char>)
    requires
        forall|j: int| 0 <= j < kids.len() ==> (#[trigger] nodes[kids[j]]).file.name != name,
    ensures
        count_named(nodes, kids, name) == 0,
    decreases kids.len(),
{
    if kids.len() > 0 {
        let rest = kids.drop_last();
        assert forall|j: int| 0 <= j < rest.len() implies (#[trigger] nodes[rest[j]]).file.name != name by {
            assert(rest[j] == kids[j]);
            assert(nodes[kids[j]].file.name != name);
        }
        assert(nodes[kids[kids.len() - 1]].file.name != name);
        lemma_count_named_zero(nodes, rest, name);
    }
}

/// Looking a name up among children with one more child at the end finds
/// that child when none of the others shows the name.
proof fn lemma_find_named_push(n1: Map<u64, NodeView>, n2: Map<u64, NodeView>, kids: Seq<u64>, x: u64, name: Seq<char>)
    requires
        forall|i: int| 0 <= i < kids.len() ==> (#[trigger] n2[kids[i]]).file == n1[kids[i]].file,
        find_named(n1, kids, name) is None,
        n2[x].file.display_name() == name,
    ensures
        find_named(n2, kids.push(x), name) == Some(x),
    decreases kids.len(),
{
    if kids.len() == 0 {
        assert(kids.push(x)[0] == x);
        assert(find_named(n2, kids.push(x), name) == Some(x));
    } else {
        let rest = kids.drop_first();
        assert(kids.push(x).drop_first() =~= rest.push(x));
        assert(kids.push(x)[0] == kids[0]);
        assert(n2[kids[0]].file == n1[kids[0]].file);
        assert forall|i: int| 0 <= i < rest.len() implies (#[trigger] n2[rest[i]]).file == n1[rest[i]].file by {
            assert(rest[i] == kids[i + 1]);
            assert(n2[kids[i + 1]].file == n1[kids[i + 1]].file);
        }
        lemma_find_named_push(n1, n2, rest, x, name);
    }
}

/// Deleting a file removes it and all its descendants, and nothing else.
pub proof fn law_delete_removes_subtree(v: FsView, depth: Map<u64, nat>, x: u64, y: u64)
    requires
        tree_wf(v, depth),
        v.nodes.contains_key(x),
    ensures
        !remove_subtree(v, x).nodes.contains_key(x),
        in_subtree(v.nodes, y, x) ==> !remove_subtree(v, x).nodes.contains_key(y),
        v.nodes.contains_key(y) && !in_subtree(v.nodes, y, x) ==> remove_subtree(v, x).nodes.contains_key(y)
            && remove_subtree(v, x).nodes[y].file == v.nodes[y].file,
{
    lemma_subtree_self(v.nodes, x);
}

/// A moved file becomes the last child of its new parent; every file stays
/// in the tree and keeps its contents.
pub proof fn law_move_reparents(v: FsView, n: u64, t: u64, y: u64)
    requires
        v.nodes.contains_key(n),
        v.nodes.contains_key(t),
        v.nodes[n].parent is Some,
        n != t,
    ensures
        move_node(v, n, t).nodes[n].parent == Some(t),
        move_node(v, n, t).nodes[t].children.last() == n,
        v.nodes.contains_key(y) ==> move_node(v, n, t).nodes.contains_key(y)
            && move_node(v, n, t).nodes[y].file == v.nodes[y].file,
{
}

/// A removal that Drive reports without metadata, for a file known by its
/// Drive id and carrying one, takes the file out of the tree and out of the
/// Drive-id index.
pub proof fn law_sync_removal_deletes(v: FsView, depth: Map<u64, nat>, d: Seq<char>)
    requires
        tree_wf(v, depth),
        index_live(v),
        v.contains(FileIdView::DriveId(d)),
        v.drive_id_of(FileIdView::DriveId(d)) is Some,
    ensures
        ({
            let w = apply_change_spec(v, ChangeView { file_id: Some(d), file: None, removed: Some(true) }).0;
            &&& !w.nodes.contains_key(v.drive_ids[d])
            &&& !w.drive_ids.contains_key(d)
        }),
{
    lemma_subtree_self(v.nodes, v.drive_ids[d]);
}

/// A file moved to the trash has the trash directory as its parent
/// afterwards, and keeps its name.
pub proof fn law_trash_moves_under_trash(v: FsView, id: FileIdView, also_on_drive: bool)
    requires
        trash_spec(v, id, also_on_drive).1 is Ok,
    ensures
        ({
            let n = v.node_of(id).unwrap();
            let w = trash_spec(v, id, also_on_drive).0;
            &&& w.nodes.contains_key(n)
            &&& w.nodes[n].parent == Some(trash_inode())
            &&& w.nodes[n].file.name == v.nodes[n].file.name
        }),
{
}

/// A file that shares its name with no other child of its directory gets
/// no identical-name id.
pub proof fn law_unique_name_has_no_suffix(nodes: Map<u64, NodeView>, kids: Seq<u64>, i: int)
    requires
        0 <= i < kids.len(),
        forall|j: int| 0 <= j < kids.len() && j != i ==> #[trigger] nodes[kids[j]].file.name != nodes[kids[i]].file.name,
    ensures
        suffix_of(nodes, kids, i) is None,
{
    lemma_rank_zero_unique(nodes, kids, i, kids.len() as int);
}

proof fn lemma_rank_zero_unique(nodes: Map<u64, NodeView>, kids: Seq<u64>, i: int, m: int)
    requires
        0 <= i < kids.len(),
        m <= kids.len(),
        forall|j: int| 0 <= j < kids.len() && j != i ==> #[trigger] nodes[kids[j]].file.name != nodes[kids[i]].file.name,
    ensures
        rank_upto(nodes, kids, i, m) == 0,
    decreases m,
{
    if m > 0 {
        lemma_rank_zero_unique(nodes, kids, i, m - 1);
        if m - 1 == i {
            let f = nodes[kids[i]].file;
            lemma_opt_lt_props(sort_key(f), sort_key(f), sort_key(f));
        } else {
            assert(nodes[kids[m - 1]].file.name != nodes[kids[i]].file.name);
        }
    }
}

/// Renumbering the children of one directory changes no file outside it.
pub proof fn law_renumber_is_local(nodes: Map<u64, NodeView>, p: u64, y: u64)
    requires
        nodes.contains_key(y),
        nodes[y].parent != Some(p),
    ensures
        renumber_under(nodes, p)[y] == nodes[y],
{
}

/// Renumbering only changes identical-name ids.
pub proof fn law_renumber_keeps_names(nodes: Map<u64, NodeView>, p: u64, y: u64)
    requires
        nodes.contains_key(y),
    ensures
        renumber_under(nodes, p)[y].file.name == nodes[y].file.name,
        renumber_under(nodes, p)[y].file.attr == nodes[y].file.attr,
        renumber_under(nodes, p)[y].file.drive_file == nodes[y].file.drive_file,
        renumber_under(nodes, p)[y].parent == nodes[y].parent,
        renumber_under(nodes, p)[y].children == nodes[y].children,
{
}

/// A `setattr` request that sets nothing leaves the attributes as they are.
pub proof fn law_empty_setattr_is_identity(a: FileAttr, now: Timestamp)
    ensures
        merged_attr(a, SetAttrRequest {
            size: None, atime: None, mtime: None, ctime: None, crtime: None, uid: None, gid: None, flags: None,
        }, now) == a,
{
}

/// The free blocks that `statfs` reports never exceed the total blocks.
pub proof fn law_statfs_free_within_total(size: u64, capacity: u64, file_count: u64)
    requires
        size <= capacity,
    ensures
        statfs_spec(size, capacity, file_count).bfree <= statfs_spec(size, capacity, file_count).blocks,
        statfs_spec(size, capacity, file_count).bavail == statfs_spec(size, capacity, file_count).bfree,
{
}

/// A read gives at most `size` bytes: the bytes of the contents from
/// `offset` on, up to `size` of them or to the end.
pub proof fn law_read_is_bounded(c: Seq<u8>, offset: int, size: int)
    requires
        0 <= offset <= c.len(),
        0 <= size,
    ensures
        read_range(c, offset, size).len() == if c.len() - offset < size { c.len() - offset } else { size },
        forall|j: int| 0 <= j < read_range(c, offset, size).len() ==> #[trigger] read_range(c, offset, size)[j] == c[offset + j],
{
}

/// `setattr` gives each attribute that the request sets the requested value
/// (the request's time for `Now`), and keeps every other attribute.
pub proof fn law_setattr_sets_what_is_asked(a: FileAttr, req: SetAttrRequest, now: Timestamp)
    ensures
        ({
            let m = merged_attr(a, req, now);
            &&& m.size == match req.size { Some(s) => s, None => a.size }
            &&& m.atime == match req.atime { Some(TimeOrNow::SpecificTime(t)) => t, Some(TimeOrNow::Now) => now, None => a.atime }
            &&& m.mtime == match req.mtime { Some(TimeOrNow::SpecificTime(t)) => t, Some(TimeOrNow::Now) => now, None => a.mtime }
            &&& m.ctime == match req.ctime { Some(t) => t, None => a.ctime }
            &&& m.crtime == match req.crtime { Some(t) => t, None => a.crtime }
            &&& m.uid == match req.uid { Some(u) => u, None => a.uid }
            &&& m.gid == match req.gid { Some(g) => g, None => a.gid }
            &&& m.flags == match req.flags { Some(f) => f, None => a.flags }
            &&& m.ino == a.ino && m.blocks == a.blocks && m.kind == a.kind && m.perm == a.perm
            &&& m.nlink == a.nlink && m.rdev == a.rdev && m.blksize == a.blksize
        }),
{
}

/// Filtering a name for POSIX keeps the order: filtering two parts and
/// joining them is filtering the joined name.
proof fn lemma_posix_filter_append(a: Seq<char>, b: Seq<char>)
    ensures
        posix_filter(a + b) == posix_filter(a) + posix_filter(b),
    decreases b.len(),
{
    if b.len() == 0 {
        assert(a + b =~= a);
        assert(posix_filter(a) + posix_filter(b) =~= posix_filter(a));
    } else {
        lemma_posix_filter_append(a, b.drop_last());
        assert((a + b).drop_last() =~= a + b.drop_last());
        assert((a + b).last() == b.last());
        if is_posix_spec(b.last()) {
            assert(posix_filter(a) + posix_filter(b.drop_last()).push(b.last())
                =~= (posix_filter(a) + posix_filter(b.drop_last())).push(b.last()));
        }
    }
}

/// A name made of POSIX characters only is kept as it is.
proof fn lemma_posix_name_kept(s: Seq<char>)
    requires
        forall|i: int| 0 <= i < s.len() ==> is_posix_spec(#[trigger] s[i]),
    ensures
        posix_filter(s) == s,
    decreases s.len(),
{
    if s.len() > 0 {
        assert forall|i: int| 0 <= i < s.drop_last().len() implies is_posix_spec(#[trigger] s.drop_last()[i]) by {
            assert(s.drop_last()[i] == s[i]);
        }
        lemma_posix_name_kept(s.drop_last());
        assert(is_posix_spec(s[s.len() - 1]));
        assert(s.drop_last().push(s.last()) =~= s);
    }
}

/// A Google document of MIME type `mime` that gets the special extension
/// `ext`: its local name, with extensions on, is its filtered Drive name
/// followed by `ext`; with extensions off, the filtered Drive name alone.
proof fn lemma_document_name(ino: u64, df: DriveFileView, n: Seq<char>, mime: Seq<char>, ext: Seq<char>)
    requires
        df.name == Some(n),
        df.mime_type == Some(mime),
        crate::file::special_extension(mime) == Some(ext),
        forall|i: int| 0 <= i < ext.len() ==> is_posix_spec(#[trigger] ext[i]),
    ensures
        from_drive_file_spec(ino, df, true).name == posix_filter(n) + ext,
        from_drive_file_spec(ino, df, false).name == posix_filter(n),
        from_drive_file_spec(ino, df, true).is_drive_document(),
{
    lemma_posix_filter_append(n, ext);
    lemma_posix_name_kept(ext);
}

/// Google documents, presentations, spreadsheets, drawings and sites made
/// into local files with extensions on get the names `#.odt`, `#.odp`,
/// `#.ods`, `#.png` and `#.txt` appended to their filtered Drive names, and
/// count as Drive documents; with extensions off they keep their filtered
/// Drive names.
pub proof fn law_special_extensions(ino: u64, df: DriveFileView, n: Seq<char>)
    requires
        df.name == Some(n),
    ensures
        df.mime_type == Some("application/vnd.google-apps.document"@) ==>
            from_drive_file_spec(ino, df, true).name == posix_filter(n) + "#.odt"@
            && from_drive_file_spec(ino, df, true).is_drive_document(),
        df.mime_type == Some("application/vnd.google-apps.presentation"@) ==>
            from_drive_file_spec(ino, df, true).name == posix_filter(n) + "#.odp"@
            && from_drive_file_spec(ino, df, true).is_drive_document(),
        df.mime_type == Some("application/vnd.google-apps.spreadsheet"@) ==>
            from_drive_file_spec(ino, df, true).name == posix_filter(n) + "#.ods"@
            && from_drive_file_spec(ino, df, true).is_drive_document(),
        df.mime_type == Some("application/vnd.google-apps.drawing"@) ==>
            from_drive_file_spec(ino, df, true).name == posix_filter(n) + "#.png"@
            && from_drive_file_spec(ino, df, true).is_drive_document(),
        df.mime_type == Some("application/vnd.google-apps.site"@) ==>
            from_drive_file_spec(ino, df, true).name == posix_filter(n) + "#.txt"@
            && from_drive_file_spec(ino, df, true).is_drive_document(),
        from_drive_file_spec(ino, df, false).name == posix_filter(n),
{
    reveal_strlit("application/vnd.google-apps.document");
    reveal_strlit("application/vnd.google-apps.presentation");
    reveal_strlit("application/vnd.google-apps.spreadsheet");
    reveal_strlit("application/vnd.google-apps.drawing");
    reveal_strlit("application/vnd.google-apps.site");
    reveal_strlit("#.odt");
    reveal_strlit("#.odp");
    reveal_strlit("#.ods");
    reveal_strlit("#.png");
    reveal_strlit("#.txt");
    let doc = "application/vnd.google-apps.document"@;
    let pres = "application/vnd.google-apps.presentation"@;
    let sheet = "application/vnd.google-apps.spreadsheet"@;
    let draw = "application/vnd.google-apps.drawing"@;
    let site = "application/vnd.google-apps.site"@;
    assert(doc.len() != pres.len() && doc.len() != sheet.len() && doc.len() != draw.len() && doc.len() != site.len());
    assert(pres.len() != sheet.len() && pres.len() != draw.len() && pres.len() != site.len());
    assert(sheet.len() != draw.len() && sheet.len() != site.len() && draw.len() != site.len());
    assert(doc != pres && doc != sheet && doc != draw && doc != site);
    assert(pres != sheet && pres != draw && pres != site && sheet != draw && sheet != site && draw != site);
    match df.mime_type {
        Some(m) => {
            match crate::file::special_extension(m) {
                Some(ext) => {
                    assert(ext.len() == 5);
                    assert forall|i: int| 0 <= i < ext.len() implies is_posix_spec(#[trigger] ext[i]) by {
                        assert(ext[i] == '#' || ext[i] == '.' || ext[i] == 'o' || ext[i] == 'd' || ext[i] == 't'
                            || ext[i] == 'p' || ext[i] == 's' || ext[i] == 'n' || ext[i] == 'g' || ext[i] == 'x');
                    }
                    lemma_document_name(ino, df, n, m, ext);
                }
                None => {}
            }
        }
        None => {}
    }
}

/// Looking a name up among children finds a child that shows it, the first
/// one that does.
proof fn lemma_find_named_hit(nodes: Map<u64, NodeView>, kids: Seq<u64>, j: int, name: Seq<char>)
    requires
        0 <= j < kids.len(),
        nodes[kids[j]].file.display_name() == name,
    ensures
        find_named(nodes, kids, name) is Some,
        exists|i: int| 0 <= i <= j && kids[i] == find_named(nodes, kids, name).unwrap()
            && nodes[kids[i]].file.display_name() == name,
    decreases j,
{
    if nodes[kids[0]].file.display_name() == name {
        assert(kids[0] == find_named(nodes, kids, name).unwrap());
    } else {
        let rest = kids.drop_first();
        assert(rest[j - 1] == kids[j]);
        lemma_find_named_hit(nodes, rest, j - 1, name);
        let i = choose|i: int| 0 <= i <= j - 1 && rest[i] == find_named(nodes, rest, name).unwrap()
            && nodes[rest[i]].file.display_name() == name;
        assert(kids[i + 1] == rest[i]);
    }
}

/// Every entry that `readdir` reports for a directory carries a name that
/// `lookup` in that directory resolves to a file showing that name; when no
/// two files of the directory show the same name, it resolves to the
/// entry's own inode.
pub proof fn law_readdir_names_resolve(v: FsView, depth: Map<u64, nat>, p: u64, offset: int, k: int)
    requires
        tree_wf(v, depth),
        v.nodes.contains_key(p),
        0 <= k < entries_from(v.children_of(FileIdView::Inode(p)).unwrap(), offset).len(),
    ensures
        ({
            let e = entries_from(v.children_of(FileIdView::Inode(p)).unwrap(), offset)[k];
            let found = v.inode_of(FileIdView::ParentAndName { parent: p, name: e.3 });
            &&& found is Some
            &&& v.nodes[found.unwrap()].file.display_name() == e.3
            &&& (forall|a: int, b: int| 0 <= a < b < v.nodes[p].children.len() ==>
                    (#[trigger] v.nodes[v.nodes[p].children[a]]).file.display_name()
                        != (#[trigger] v.nodes[v.nodes[p].children[b]]).file.display_name())
                ==> found == Some(e.0)
        }),
{
    let kids = v.nodes[p].children;
    let files = kids.map_values(|c: u64| v.nodes[c].file);
    let start = if offset < 0 { files.len() as int } else if offset > files.len() { files.len() as int } else { offset };
    let j = start + k;
    let e = entries_from(files, offset)[k];
    assert(e.3 == files[j].display_name());
    assert(v.nodes.contains_key(kids[j]));
    assert(files[j].attr.ino == kids[j]);
    lemma_find_named_hit(v.nodes, kids, j, e.3);
}

/// A file moved with `with_file` keeps every parent link, so what lies in
/// which subtree stays the same.
proof fn lemma_anc_with_file(v: FsView, i: u64, f: FileView, y: u64, x: u64, k: nat)
    requires
        v.nodes.contains_key(i),
    ensures
        anc(with_file(v, i, f).nodes, y, x, k) == anc(v.nodes, y, x, k),
    decreases k,
{
    if k > 0 {
        if v.nodes.contains_key(y) {
            match v.nodes[y].parent {
                Some(q) => { lemma_anc_with_file(v, i, f, q, x, (k - 1) as nat); }
                None => {}
            }
        }
    }
}

/// A Drive change for a known file that is neither trashed nor removed, and
/// whose first Drive parent is a known directory outside the file's subtree,
/// rebuilds the file from the change's metadata and makes it the last child
/// of that directory.
pub proof fn law_sync_moves_under_drive_parent(v: FsView, c: ChangeView)
    requires
        c.file_id is Some,
        c.file is Some,
        c.file.unwrap().trashed != Some(true),
        c.removed != Some(true),
        v.file_of(FileIdView::DriveId(c.file_id.unwrap())) is Some,
        first_parent(c.file.unwrap()) is Some,
        v.file_of(FileIdView::DriveId(first_parent(c.file.unwrap()).unwrap())) is Some,
        !in_subtree(v.nodes, v.drive_ids[first_parent(c.file.unwrap()).unwrap()], v.drive_ids[c.file_id.unwrap()]),
    ensures
        ({
            let i = v.drive_ids[c.file_id.unwrap()];
            let t = v.drive_ids[first_parent(c.file.unwrap()).unwrap()];
            let w = apply_change_spec(v, c).0;
            &&& apply_change_spec(v, c).1 is Ok
            &&& w.nodes.contains_key(i)
            &&& w.nodes[i].parent == Some(t)
            &&& w.nodes[t].children.last() == i
            &&& w.nodes[i].file.drive_file == Some(c.file.unwrap())
        }),
{
    let df = c.file.unwrap();
    let id = FileIdView::DriveId(c.file_id.unwrap());
    let i = v.drive_ids[c.file_id.unwrap()];
    let t = v.drive_ids[first_parent(df).unwrap()];
    let f0 = v.file_of(id).unwrap();
    let nf = from_drive_file_spec(f0.attr.ino, df, v.add_extensions_to_special_files);
    let v2 = with_file(v, i, nf);
    lemma_subtree_self(v.nodes, i);
    assert(t != i);
    assert(!in_subtree(v2.nodes, t, i)) by {
        if in_subtree(v2.nodes, t, i) {
            let k = choose|k: nat| #[trigger] anc(v2.nodes, t, i, k);
            lemma_anc_with_file(v, i, nf, t, i, k);
        }
    }
}

} // verus!
