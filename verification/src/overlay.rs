use vstd::prelude::*;
use crate::archive::{ArchiveEntry, EntryKind, EntryModel, models};

verus! {

/// An entry that leaves something at its path: files, directories and
/// symbolic links are written, other kinds change nothing.
pub open spec fn writes(e: EntryModel) -> bool {
    e.kind != EntryKind::Other
}

/// One entry applied to a destination tree: its path now holds it,
/// overwriting what was there.
pub open spec fn apply_entry(t: Map<Seq<u8>, EntryModel>, e: EntryModel) -> Map<
    Seq<u8>,
    EntryModel,
> {
    if writes(e) {
        t.insert(e.path, e)
    } else {
        t
    }
}

/// A run of entries applied in stream order.
pub open spec fn apply_entries(t: Map<Seq<u8>, EntryModel>, es: Seq<EntryModel>) -> Map<
    Seq<u8>,
    EntryModel,
>
    decreases es.len(),
{
    if es.len() == 0 {
        t
    } else {
        apply_entries(apply_entry(t, es[0]), es.drop_first())
    }
}

/// The tree a run of entries builds on an empty destination.
pub open spec fn tree_of(es: Seq<EntryModel>) -> Map<Seq<u8>, EntryModel> {
    apply_entries(Map::empty(), es)
}

/// The paths a run of entries writes.
pub open spec fn written_paths(es: Seq<EntryModel>) -> Set<Seq<u8>> {
    Set::new(|p: Seq<u8>| exists|i: int| 0 <= i < es.len() && #[trigger] writes(es[i]) && es[i].path == p)
}

/// Applying entries to a tree overlays what they build on an empty tree:
/// the entries' own writes win on every path they touch.
pub proof fn lemma_apply_is_union(t: Map<Seq<u8>, EntryModel>, es: Seq<EntryModel>)
    ensures
        apply_entries(t, es) == t.union_prefer_right(tree_of(es)),
    decreases es.len(),
{
    if es.len() == 0 {
        assert(apply_entries(t, es) =~= t.union_prefer_right(tree_of(es)));
    } else {
        let e = es[0];
        let rest = es.drop_first();
        lemma_apply_is_union(apply_entry(t, e), rest);
        lemma_apply_is_union(apply_entry(Map::empty(), e), rest);
        assert(apply_entries(t, es) == apply_entry(t, e).union_prefer_right(tree_of(rest)));
        assert(tree_of(es) == apply_entry(Map::empty(), e).union_prefer_right(tree_of(rest)));
        assert(apply_entry(t, e).union_prefer_right(tree_of(rest)) =~= t.union_prefer_right(
            apply_entry(Map::empty(), e).union_prefer_right(tree_of(rest)),
        ));
    }
}

/// The tree a run of entries builds holds exactly the paths it writes.
pub proof fn lemma_tree_dom(es: Seq<EntryModel>)
    ensures
        tree_of(es).dom() == written_paths(es),
    decreases es.len(),
{
    if es.len() == 0 {
        assert forall|p: Seq<u8>| !written_paths(es).contains(p) by {
            if exists|i: int| 0 <= i < es.len() && #[trigger] writes(es[i]) && es[i].path == p {
            }
        }
        assert(tree_of(es).dom() =~= written_paths(es));
    } else {
        let e = es[0];
        let rest = es.drop_first();
        lemma_tree_dom(rest);
        lemma_apply_is_union(apply_entry(Map::empty(), e), rest);
        assert(tree_of(es) == apply_entry(Map::empty(), e).union_prefer_right(tree_of(rest)));
        assert forall|p: Seq<u8>| tree_of(es).dom().contains(p) implies written_paths(
            es,
        ).contains(p) by {
            if tree_of(rest).dom().contains(p) {
                let i = choose|i: int|
                    0 <= i < rest.len() && #[trigger] writes(rest[i]) && rest[i].path == p;
                assert(writes(es[i + 1]) && es[i + 1].path == p);
            } else {
                assert(writes(es[0]) && es[0].path == p);
            }
        }
        assert forall|p: Seq<u8>| written_paths(es).contains(p) implies tree_of(
            es,
        ).dom().contains(p) by {
            let i = choose|i: int|
                0 <= i < es.len() && #[trigger] writes(es[i]) && es[i].path == p;
            if i == 0 {
                assert(apply_entry(Map::empty(), e).dom().contains(p));
            } else {
                assert(writes(rest[i - 1]) && rest[i - 1].path == p);
                assert(written_paths(rest).contains(p));
            }
        }
        assert(tree_of(es).dom() =~= written_paths(es));
    }
}

/// Unpacking the same run of entries twice leaves the tree one unpacking
/// leaves: extraction is idempotent, whatever already stood in the
/// destination.
pub proof fn lemma_extract_idempotent(t: Map<Seq<u8>, EntryModel>, es: Seq<EntryModel>)
    ensures
        apply_entries(apply_entries(t, es), es) == apply_entries(t, es),
{
    lemma_apply_is_union(t, es);
    lemma_apply_is_union(t.union_prefer_right(tree_of(es)), es);
    assert(t.union_prefer_right(tree_of(es)).union_prefer_right(tree_of(es))
        =~= t.union_prefer_right(tree_of(es)));
}

/// Two runs of entries that write disjoint path sets build, in either
/// order, the same tree: each path holds what the one run that wrote it
/// left there.
pub proof fn lemma_disjoint_layers_commute(
    t: Map<Seq<u8>, EntryModel>,
    es1: Seq<EntryModel>,
    es2: Seq<EntryModel>,
)
    requires
        written_paths(es1).disjoint(written_paths(es2)),
    ensures
        apply_entries(apply_entries(t, es1), es2) == apply_entries(apply_entries(t, es2), es1),
{
    lemma_apply_is_union(t, es1);
    lemma_apply_is_union(t, es2);
    lemma_apply_is_union(t.union_prefer_right(tree_of(es1)), es2);
    lemma_apply_is_union(t.union_prefer_right(tree_of(es2)), es1);
    lemma_tree_dom(es1);
    lemma_tree_dom(es2);
    assert(t.union_prefer_right(tree_of(es1)).union_prefer_right(tree_of(es2))
        =~= t.union_prefer_right(tree_of(es2)).union_prefer_right(tree_of(es1)));
}

/// Appending one run of entries after another applies them after it.
pub proof fn lemma_apply_append(t: Map<Seq<u8>, EntryModel>, a: Seq<EntryModel>, b: Seq<EntryModel>)
    ensures
        apply_entries(t, a + b) == apply_entries(apply_entries(t, a), b),
    decreases a.len(),
{
    if a.len() == 0 {
        assert(a + b =~= b);
    } else {
        assert((a + b).drop_first() =~= a.drop_first() + b);
        lemma_apply_append(apply_entry(t, a[0]), a.drop_first(), b);
    }
}

/// Lays one decoded layer over an already-materialized run of entries.
/// The combined run builds the tree the layer's entries leave on what the
/// base run had built.
pub fn overlay(base: Vec<ArchiveEntry>, entries: Vec<ArchiveEntry>) -> (r: Vec<ArchiveEntry>)
    ensures
        r@ == base@ + entries@,
        tree_of(models(r@)) == apply_entries(tree_of(models(base@)), models(entries@)),
{
    let mut r = base;
    let mut moved = entries;
    r.append(&mut moved);
    proof {
        assert(models(r@) =~= models(base@) + models(entries@));
        lemma_apply_append(Map::empty(), models(base@), models(entries@));
    }
    r
}

/// The last entry at or after `k` that writes `p`, when one exists,
/// decides what the whole run leaves at `p`.
proof fn lemma_tree_last_writer(es: Seq<EntryModel>, i: int)
    requires
        0 <= i < es.len(),
        writes(es[i]),
        forall|j: int| i < j < es.len() ==> !(#[trigger] writes(es[j]) && es[j].path == es[i].path),
    ensures
        tree_of(es).contains_key(es[i].path),
        tree_of(es)[es[i].path] == es[i],
    decreases es.len(),
{
    let e = es[0];
    let rest = es.drop_first();
    lemma_apply_is_union(apply_entry(Map::empty(), e), rest);
    assert(tree_of(es) == apply_entry(Map::empty(), e).union_prefer_right(tree_of(rest)));
    lemma_tree_dom(rest);
    if i == 0 {
        assert forall|jj: int| 0 <= jj < rest.len() implies !(#[trigger] writes(rest[jj])
            && rest[jj].path == es[0].path) by {
            assert(rest[jj] == es[jj + 1]);
        }
        assert(!written_paths(rest).contains(es[0].path));
        assert(apply_entry(Map::empty(), e).contains_key(es[0].path));
    } else {
        assert(rest[i - 1] == es[i]);
        assert forall|jj: int| i - 1 < jj < rest.len() implies !(#[trigger] writes(rest[jj])
            && rest[jj].path == rest[i - 1].path) by {
            assert(rest[jj] == es[jj + 1]);
        }
        lemma_tree_last_writer(rest, i - 1);
    }
}

/// Compares two byte strings.
fn bytes_eq(a: &Vec<u8>, b: &Vec<u8>) -> (r: bool)
    ensures
        r == (a@ == b@),
{
    if a.len() != b.len() {
        assert(a@ != b@);
        return false;
    }
    let n = a.len();
    let mut i: usize = 0;
    while i < n
        invariant
            n == a@.len() == b@.len(),
            0 <= i <= n,
            forall|j: int| 0 <= j < i ==> a@[j] == b@[j],
        decreases n - i,
    {
        if a[i] != b[i] {
            return false;
        }
        i += 1;
    }
    proof {
        assert(a@ =~= b@);
    }
    true
}

/// Looks up what a materialized run of entries leaves at `path`: the index
/// of the last entry that writes it, or `None` when none does.
pub fn tree_lookup(tree: &Vec<ArchiveEntry>, path: &Vec<u8>) -> (r: Option<usize>)
    ensures
        match r {
            Some(i) => i < tree@.len() && tree_of(models(tree@)).contains_key(path@)
                && tree@[i as int]@ == tree_of(models(tree@))[path@],
            None => !tree_of(models(tree@)).contains_key(path@),
        },
{
    let ghost es = models(tree@);
    let n = tree.len();
    let mut i: usize = n;
    while i > 0
        invariant
            n == tree@.len(),
            es == models(tree@),
            0 <= i <= n,
            forall|j: int|
                i <= j < n ==> !(#[trigger] writes(es[j]) && es[j].path == path@),
        decreases i,
    {
        i = i - 1;
        let is_other = match tree[i].kind {
            EntryKind::Other => true,
            _ => false,
        };
        if !is_other && bytes_eq(&tree[i].path, path) {
            proof {
                assert(writes(es[i as int]) && es[i as int].path == path@);
                lemma_tree_last_writer(es, i as int);
            }
            return Some(i);
        }
        assert(!(writes(es[i as int]) && es[i as int].path == path@));
    }
    proof {
        lemma_tree_dom(es);
        assert(!written_paths(es).contains(path@));
    }
    None
}

} // verus!
