//! The in-memory namespaced store: named trees of `u64` keys to `String`
//! values, with one tree selected as current for the unqualified calls.
use std::collections::HashMap;
use vstd::prelude::*;
use vstd::std_specs::hash::*;

verus! {

broadcast use {axiom_u64_obeys_hash_table_key_model, axiom_random_state_builds_valid_hashers};

/// One named tree and its entries.
pub struct NamedTree {
    pub name: String,
    pub entries: HashMap<u64, String>,
}

/// The contents of a tree as a map.
pub type TreeView = Map<u64, String>;

/// Whether some tree of `s` carries the name `n`.
pub open spec fn has_name(s: Seq<NamedTree>, n: Seq<char>) -> bool {
    exists|i: int| 0 <= i < s.len() && (#[trigger] s[i]).name@ == n
}

/// No two trees of `s` share a name.
pub open spec fn names_unique(s: Seq<NamedTree>) -> bool {
    forall|i: int, j: int|
        0 <= i < s.len() && 0 <= j < s.len() && i != j ==> (#[trigger] s[i]).name@ != (#[trigger] s[j]).name@
}

/// The trees of `s` as a map from name to contents.
pub open spec fn trees_view(s: Seq<NamedTree>) -> Map<Seq<char>, TreeView> {
    Map::new(
        |n: Seq<char>| has_name(s, n),
        |n: Seq<char>| s[choose|i: int| 0 <= i < s.len() && (#[trigger] s[i]).name@ == n].entries@,
    )
}

proof fn lemma_index(s: Seq<NamedTree>, i: int)
    requires
        names_unique(s),
        0 <= i < s.len(),
    ensures
        trees_view(s).contains_key(s[i].name@),
        trees_view(s)[s[i].name@] == s[i].entries@,
{
    let n = s[i].name@;
    assert(has_name(s, n));
    let j = choose|j: int| 0 <= j < s.len() && (#[trigger] s[j]).name@ == n;
    assert(j == i);
}

proof fn lemma_update(s: Seq<NamedTree>, i: int, t: NamedTree)
    requires
        names_unique(s),
        0 <= i < s.len(),
        t.name@ == s[i].name@,
    ensures
        names_unique(s.update(i, t)),
        trees_view(s.update(i, t)) == trees_view(s).insert(t.name@, t.entries@),
{
    let s2 = s.update(i, t);
    assert forall|a: int, b: int|
        0 <= a < s2.len() && 0 <= b < s2.len() && a != b implies (#[trigger] s2[a]).name@ != (#[trigger] s2[b]).name@ by {
        assert(s2[a].name@ == s[a].name@);
        assert(s2[b].name@ == s[b].name@);
    }
    assert forall|n: Seq<char>| has_name(s2, n) <==> has_name(s, n) || n == t.name@ by {
        if has_name(s, n) {
            let j = choose|j: int| 0 <= j < s.len() && (#[trigger] s[j]).name@ == n;
            assert(s2[j].name@ == n);
        }
        if has_name(s2, n) {
            let j = choose|j: int| 0 <= j < s2.len() && (#[trigger] s2[j]).name@ == n;
            assert(s[j].name@ == n);
        }
        if n == t.name@ {
            assert(s2[i].name@ == n);
        }
    }
    assert forall|n: Seq<char>| #[trigger] trees_view(s2).contains_key(n) implies trees_view(s2)[n]
        == trees_view(s).insert(t.name@, t.entries@)[n] by {
        let j = choose|j: int| 0 <= j < s2.len() && (#[trigger] s2[j]).name@ == n;
        lemma_index(s2, j);
        if j != i {
            lemma_index(s, j);
        }
    }
    assert(trees_view(s2) =~= trees_view(s).insert(t.name@, t.entries@));
}

proof fn lemma_push(s: Seq<NamedTree>, t: NamedTree)
    requires
        names_unique(s),
        !has_name(s, t.name@),
    ensures
        names_unique(s.push(t)),
        trees_view(s.push(t)) == trees_view(s).insert(t.name@, t.entries@),
{
    let s2 = s.push(t);
    assert forall|a: int, b: int|
        0 <= a < s2.len() && 0 <= b < s2.len() && a != b implies (#[trigger] s2[a]).name@ != (#[trigger] s2[b]).name@ by {
        if a == s.len() {
            assert(s[b] == s2[b]);
        } else if b == s.len() {
            assert(s[a] == s2[a]);
        } else {
            assert(s[a] == s2[a] && s[b] == s2[b]);
        }
    }
    assert forall|n: Seq<char>| has_name(s2, n) <==> has_name(s, n) || n == t.name@ by {
        if has_name(s, n) {
            let j = choose|j: int| 0 <= j < s.len() && (#[trigger] s[j]).name@ == n;
            assert(s2[j].name@ == n);
        }
        if has_name(s2, n) {
            let j = choose|j: int| 0 <= j < s2.len() && (#[trigger] s2[j]).name@ == n;
            if j < s.len() {
                assert(s[j].name@ == n);
            }
        }
        if n == t.name@ {
            assert(s2[s.len() as int].name@ == n);
        }
    }
    assert forall|n: Seq<char>| #[trigger] trees_view(s2).contains_key(n) implies trees_view(s2)[n]
        == trees_view(s).insert(t.name@, t.entries@)[n] by {
        let j = choose|j: int| 0 <= j < s2.len() && (#[trigger] s2[j]).name@ == n;
        lemma_index(s2, j);
        if j < s.len() {
            assert(s2[j] == s[j]);
            lemma_index(s, j);
        }
    }
    assert(trees_view(s2) =~= trees_view(s).insert(t.name@, t.entries@));
}

proof fn lemma_remove(s: Seq<NamedTree>, i: int)
    requires
        names_unique(s),
        0 <= i < s.len(),
    ensures
        names_unique(s.remove(i)),
        trees_view(s.remove(i)) == trees_view(s).remove(s[i].name@),
{
    let s2 = s.remove(i);
    let m = s[i].name@;
    assert forall|a: int, b: int|
        0 <= a < s2.len() && 0 <= b < s2.len() && a != b implies (#[trigger] s2[a]).name@ != (#[trigger] s2[b]).name@ by {
        let a0 = if a < i { a } else { a + 1 };
        let b0 = if b < i { b } else { b + 1 };
        assert(s2[a] == s[a0] && s2[b] == s[b0]);
    }
    assert forall|n: Seq<char>| has_name(s2, n) <==> has_name(s, n) && n != m by {
        if has_name(s, n) && n != m {
            let j = choose|j: int| 0 <= j < s.len() && (#[trigger] s[j]).name@ == n;
            let j2 = if j < i { j } else { j - 1 };
            assert(s2[j2].name@ == n);
        }
        if has_name(s2, n) {
            let j = choose|j: int| 0 <= j < s2.len() && (#[trigger] s2[j]).name@ == n;
            let j0 = if j < i { j } else { j + 1 };
            assert(s[j0].name@ == n);
        }
    }
    assert forall|n: Seq<char>| #[trigger] trees_view(s2).contains_key(n) implies trees_view(s2)[n]
        == trees_view(s).remove(m)[n] by {
        let j = choose|j: int| 0 <= j < s2.len() && (#[trigger] s2[j]).name@ == n;
        let j0 = if j < i { j } else { j + 1 };
        assert(s2[j] == s[j0]);
        lemma_index(s2, j);
        lemma_index(s, j0);
    }
    assert(trees_view(s2) =~= trees_view(s).remove(m));
}

/// One primitive operation of a batch.
pub enum BatchOp {
    Insert(u64, String),
    Remove(u64),
}

/// An ordered sequence of operations applied to the current tree as a unit.
pub struct Batch {
    pub ops: Vec<BatchOp>,
}

/// The tree `m` after the operation `op`.
pub open spec fn apply_op(m: TreeView, op: BatchOp) -> TreeView {
    match op {
        BatchOp::Insert(k, v) => m.insert(k, v),
        BatchOp::Remove(k) => m.remove(k),
    }
}

/// The tree `m` after each operation of `ops`, in order.
pub open spec fn apply_ops(m: TreeView, ops: Seq<BatchOp>) -> TreeView
    decreases ops.len(),
{
    if ops.len() == 0 {
        m
    } else {
        apply_op(apply_ops(m, ops.drop_last()), ops.last())
    }
}

/// The value that `m` holds at `k`, if any.
pub open spec fn lookup(m: TreeView, k: u64) -> Option<String> {
    if m.contains_key(k) {
        Some(m[k])
    } else {
        None
    }
}

/// The plain form of a store's trees.
pub type SnapshotTrees = Vec<(String, HashMap<u64, String>)>;

/// The plain form of a store, as written to and read from disk: the name of
/// the current tree, if any, and the trees.
pub type Snapshot = (Option<String>, SnapshotTrees);

/// The view of an optional name.
pub open spec fn name_view(c: Option<String>) -> Option<Seq<char>> {
    match c {
        Some(n) => Some(n@),
        None => None,
    }
}

/// The current tree that a store restored with trees `m` selects: the
/// recorded one where `m` holds it, else none.
pub open spec fn restored_current(c: Option<Seq<char>>, m: Map<Seq<char>, TreeView>) -> Option<Seq<char>> {
    match c {
        Some(n) => if m.contains_key(n) {
            Some(n)
        } else {
            None
        },
        None => None,
    }
}

/// The current tree name and the trees that a snapshot describes.
pub open spec fn snapshot_state(s: Snapshot) -> (Option<Seq<char>>, Map<Seq<char>, TreeView>) {
    (name_view(s.0), snapshot_map(s.1@))
}

/// The trees that a snapshot describes; a later pair replaces an earlier
/// one of the same name.
pub open spec fn snapshot_map(s: Seq<(String, HashMap<u64, String>)>) -> Map<Seq<char>, TreeView>
    decreases s.len(),
{
    if s.len() == 0 {
        Map::empty()
    } else {
        snapshot_map(s.drop_last()).insert(s.last().0@, s.last().1@)
    }
}

/// A store of named trees, one of which may be current.
pub struct InMemoryDb {
    trees: Vec<NamedTree>,
    current: Option<String>,
}

impl InMemoryDb {
    /// The trees by name.
    pub closed spec fn tree_map(&self) -> Map<Seq<char>, TreeView> {
        trees_view(self.trees@)
    }

    /// The name of the current tree, if one is selected.
    pub closed spec fn current_name(&self) -> Option<Seq<char>> {
        match self.current {
            Some(s) => Some(s@),
            None => None,
        }
    }

    /// Tree names are unique and the current tree exists.
    pub closed spec fn wf(&self) -> bool {
        &&& names_unique(self.trees@)
        &&& match self.current {
            Some(s) => has_name(self.trees@, s@),
            None => true,
        }
    }

    /// The contents of the current tree, if one is selected.
    pub open spec fn current_tree(&self) -> Option<TreeView> {
        match self.current_name() {
            Some(n) => Some(self.tree_map()[n]),
            None => None,
        }
    }

    /// An empty store with no current tree.
    pub fn new() -> (r: InMemoryDb)
        ensures
            r.wf(),
            r.tree_map() == Map::<Seq<char>, TreeView>::empty(),
            r.current_name() is None,
    {
        let r = InMemoryDb { trees: Vec::new(), current: None };
        assert(r.tree_map() =~= Map::<Seq<char>, TreeView>::empty());
        r
    }

    fn find(&self, name: &String) -> (r: Option<usize>)
        requires
            self.wf(),
        ensures
            match r {
                Some(i) => i < self.trees@.len() && self.trees@[i as int].name@ == name@,
                None => !has_name(self.trees@, name@),
            },
            r is Some <==> self.tree_map().contains_key(name@),
    {
        let mut i: usize = 0;
        while i < self.trees.len()
            invariant
                i <= self.trees@.len(),
                forall|j: int| 0 <= j < i ==> (#[trigger] self.trees@[j]).name@ != name@,
            decreases self.trees@.len() - i,
        {
            if self.trees[i].name == *name {
                return Some(i);
            }
            i = i + 1;
        }
        None
    }

    fn current_index(&self) -> (r: Option<usize>)
        requires
            self.wf(),
        ensures
            r is Some <==> self.current_name() is Some,
            match r {
                Some(i) => i < self.trees@.len() && Some(self.trees@[i as int].name@)
                    == self.current_name(),
                None => true,
            },
    {
        match &self.current {
            Some(name) => self.find(name),
            None => None,
        }
    }

    /// The name of the current tree.
    pub fn get_current_tree(&self) -> (r: Option<String>)
        ensures
            match r {
                Some(s) => self.current_name() == Some(s@),
                None => self.current_name() is None,
            },
    {
        match &self.current {
            Some(s) => Some(s.clone()),
            None => None,
        }
    }

    /// Creates the tree `name` if absent and makes it current.
    pub fn open_tree(&mut self, name: &str)
        requires
            old(self).wf(),
        ensures
            final(self).wf(),
            final(self).current_name() == Some(name@),
            final(self).tree_map() == if old(self).tree_map().contains_key(name@) {
                old(self).tree_map()
            } else {
                old(self).tree_map().insert(name@, Map::empty())
            },
    {
        let name = name.to_owned();
        match self.find(&name) {
            Some(i) => {
                proof {
                    lemma_index(self.trees@, i as int);
                }
            },
            None => {
                let t = NamedTree { name: name.clone(), entries: HashMap::new() };
                proof {
                    lemma_push(self.trees@, t);
                }
                self.trees.push(t);
            },
        }
        proof {
            let j = self.trees@.len() - 1;
            if has_name(self.trees@, name@) {
            } else {
                assert(self.trees@[j].name@ == name@);
            }
        }
        self.current = Some(name);
    }

    /// The names of all trees, each once.
    pub fn tree_names(&self) -> (r: Vec<String>)
        requires
            self.wf(),
        ensures
            r@.len() == self.tree_map().dom().len(),
            forall|n: Seq<char>| self.tree_map().contains_key(n) <==> exists|i: int| 0 <= i < r@.len() && (#[trigger] r@[i])@ == n,
            forall|i: int, j: int| 0 <= i < r@.len() && 0 <= j < r@.len() && i != j ==> (#[trigger] r@[i])@ != (#[trigger] r@[j])@,
    {
        let mut r: Vec<String> = Vec::new();
        let mut i: usize = 0;
        while i < self.trees.len()
            invariant
                i <= self.trees@.len(),
                r@.len() == i,
                names_unique(self.trees@),
                forall|j: int| 0 <= j < i ==> (#[trigger] r@[j])@ == self.trees@[j].name@,
            decreases self.trees@.len() - i,
        {
            r.push(self.trees[i].name.clone());
            i = i + 1;
        }
        proof {
            self.lemma_dom_len();
            assert forall|n: Seq<char>| self.tree_map().contains_key(n) <==> exists|i: int| 0 <= i < r@.len() && (#[trigger] r@[i])@ == n by {
                if self.tree_map().contains_key(n) {
                    let j = choose|j: int| 0 <= j < self.trees@.len() && (#[trigger] self.trees@[j]).name@ == n;
                    assert(r@[j]@ == n);
                }
                if exists|i: int| 0 <= i < r@.len() && (#[trigger] r@[i])@ == n {
                    let j = choose|i: int| 0 <= i < r@.len() && (#[trigger] r@[i])@ == n;
                    assert(self.trees@[j].name@ == n);
                }
            }
            assert forall|a: int, b: int| 0 <= a < r@.len() && 0 <= b < r@.len() && a != b implies (#[trigger] r@[a])@ != (#[trigger] r@[b])@ by {
                assert(r@[a]@ == self.trees@[a].name@);
                assert(r@[b]@ == self.trees@[b].name@);
            }
        }
        r
    }

    /// Removes the tree `name`; it is no longer current if it was.
    pub fn drop_tree(&mut self, name: &str) -> (r: bool)
        requires
            old(self).wf(),
        ensures
            final(self).wf(),
            r == old(self).tree_map().contains_key(name@),
            final(self).tree_map() == old(self).tree_map().remove(name@),
            final(self).current_name() == if old(self).current_name() == Some(name@) {
                None
            } else {
                old(self).current_name()
            },
    {
        let name = name.to_owned();
        match self.find(&name) {
            Some(i) => {
                proof {
                    lemma_remove(self.trees@, i as int);
                }
                let is_current = match &self.current {
                    Some(c) => *c == name,
                    None => false,
                };
                let ghost s0 = self.trees@;
                self.trees.remove(i);
                if is_current {
                    self.current = None;
                }
                proof {
                    if self.current is Some {
                        let c = self.current->Some_0;
                        let j = choose|j: int| 0 <= j < s0.len() && (#[trigger] s0[j]).name@ == c@;
                        assert(j != i);
                        let j2 = if j < i { j } else { j - 1 };
                        assert(self.trees@[j2] == s0[j]);
                    }
                }
                true
            },
            None => {
                assert(self.tree_map() =~= self.tree_map().remove(name@));
                false
            },
        }
    }

    /// Empties the tree `name` in place.
    pub fn clear_tree(&mut self, name: &str) -> (r: bool)
        requires
            old(self).wf(),
        ensures
            final(self).wf(),
            r == old(self).tree_map().contains_key(name@),
            final(self).tree_map() == if r {
                old(self).tree_map().insert(name@, Map::empty())
            } else {
                old(self).tree_map()
            },
            final(self).current_name() == old(self).current_name(),
    {
        let name = name.to_owned();
        match self.find(&name) {
            Some(i) => {
                self.set_entries(i, HashMap::new());
                true
            },
            None => false,
        }
    }

    fn set_entries(&mut self, i: usize, entries: HashMap<u64, String>)
        requires
            old(self).wf(),
            i < old(self).trees@.len(),
        ensures
            final(self).wf(),
            final(self).trees@.len() == old(self).trees@.len(),
            final(self).trees@[i as int].name@ == old(self).trees@[i as int].name@,
            final(self).tree_map() == old(self).tree_map().insert(
                old(self).trees@[i as int].name@,
                entries@,
            ),
            final(self).current == old(self).current,
    {
        let ghost s0 = self.trees@;
        self.trees[i].entries = entries;
        proof {
            lemma_update(s0, i as int, self.trees@[i as int]);
            assert(self.trees@ == s0.update(i as int, self.trees@[i as int]));
            if self.current is Some {
                let c = self.current->Some_0;
                let j = choose|j: int| 0 <= j < s0.len() && (#[trigger] s0[j]).name@ == c@;
                assert(self.trees@[j].name@ == c@);
            }
        }
    }

    fn merge_at(&mut self, si: usize, di: usize)
        requires
            old(self).wf(),
            si < old(self).trees@.len(),
            di < old(self).trees@.len(),
        ensures
            final(self).wf(),
            final(self).current == old(self).current,
            final(self).tree_map() == old(self).tree_map().insert(
                old(self).trees@[di as int].name@,
                old(self).trees@[di as int].entries@.union_prefer_right(
                    old(self).trees@[si as int].entries@,
                ),
            ),
    {
        let src = self.trees[si].entries.clone();
        let mut dest = self.trees[di].entries.clone();
        let ghost d0 = dest@;
        let ghost s0 = src@;
        for kv in it: src.iter()
            invariant
                src@ == s0,
                forall|j: int| 0 <= j < it.seq().len() ==> s0.contains_key(*(#[trigger] it.seq()[j]).0) && s0[*it.seq()[j].0] == *it.seq()[j].1,
                forall|k: u64| #[trigger] s0.contains_key(k) ==> exists|j: int| 0 <= j < it.seq().len() && *it.seq()[j].0 == k,
                forall|k: u64| #[trigger] dest@.contains_key(k) <==> d0.contains_key(k)
                    || (exists|j: int| 0 <= j < it.index() && *it.seq()[j].0 == k),
                forall|j: int| 0 <= j < it.index() ==> dest@[*(#[trigger] it.seq()[j]).0] == s0[*it.seq()[j].0],
                forall|k: u64| #[trigger] dest@.contains_key(k) && !(exists|j: int| 0 <= j < it.index() && *it.seq()[j].0 == k) ==> dest@[k] == d0[k],
        {
            dest.insert(*kv.0, kv.1.clone());
        }
        assert(dest@ =~= d0.union_prefer_right(s0));
        self.set_entries(di, dest);
    }

    /// Copies the entries of `source` into `dest`; on a shared key the entry
    /// of `source` wins, and `source` is left as it was.
    pub fn merge_trees(&mut self, source: &str, dest: &str) -> (r: Option<()>)
        requires
            old(self).wf(),
        ensures
            final(self).wf(),
            final(self).current_name() == old(self).current_name(),
            r is Some <==> old(self).tree_map().contains_key(source@) && old(self).tree_map().contains_key(dest@),
            final(self).tree_map() == if r is Some {
                old(self).tree_map().insert(
                    dest@,
                    old(self).tree_map()[dest@].union_prefer_right(old(self).tree_map()[source@]),
                )
            } else {
                old(self).tree_map()
            },
    {
        let source = source.to_owned();
        let dest = dest.to_owned();
        let si = self.find(&source);
        let di = self.find(&dest);
        match (si, di) {
            (Some(si), Some(di)) => {
                proof {
                    lemma_index(self.trees@, si as int);
                    lemma_index(self.trees@, di as int);
                }
                self.merge_at(si, di);
                Some(())
            },
            _ => None,
        }
    }

    /// Copies the entries of `source` into the current tree, `source` winning
    /// on a shared key.
    pub fn merge_current_tree_with(&mut self, source: &str) -> (r: Option<()>)
        requires
            old(self).wf(),
        ensures
            final(self).wf(),
            final(self).current_name() == old(self).current_name(),
            r is Some <==> old(self).current_name() is Some && old(self).tree_map().contains_key(source@),
            final(self).tree_map() == if r is Some {
                old(self).tree_map().insert(
                    old(self).current_name()->Some_0,
                    old(self).current_tree()->Some_0.union_prefer_right(old(self).tree_map()[source@]),
                )
            } else {
                old(self).tree_map()
            },
    {
        let source = source.to_owned();
        let si = self.find(&source);
        let di = self.current_index();
        match (si, di) {
            (Some(si), Some(di)) => {
                proof {
                    lemma_index(self.trees@, si as int);
                    lemma_index(self.trees@, di as int);
                }
                self.merge_at(si, di);
                Some(())
            },
            _ => None,
        }
    }

    /// Applies each operation of `batch`, in order, to the current tree.
    pub fn apply_batch(&mut self, batch: Batch) -> (r: Option<()>)
        requires
            old(self).wf(),
        ensures
            final(self).wf(),
            final(self).current_name() == old(self).current_name(),
            r is Some <==> old(self).current_name() is Some,
            final(self).tree_map() == match old(self).current_name() {
                Some(n) => old(self).tree_map().insert(n, apply_ops(old(self).tree_map()[n], batch.ops@)),
                None => old(self).tree_map(),
            },
    {
        match self.current_index() {
            Some(i) => {
                proof {
                    lemma_index(self.trees@, i as int);
                }
                let mut entries = self.trees[i].entries.clone();
                let ghost e0 = entries@;
                let ops = batch.ops;
                let mut j: usize = 0;
                while j < ops.len()
                    invariant
                        j <= ops@.len(),
                        entries@ == apply_ops(e0, ops@.take(j as int)),
                    decreases ops@.len() - j,
                {
                    proof {
                        assert(ops@.take(j + 1).drop_last() =~= ops@.take(j as int));
                    }
                    match &ops[j] {
                        BatchOp::Insert(k, v) => {
                            entries.insert(*k, v.clone());
                        },
                        BatchOp::Remove(k) => {
                            entries.remove(k);
                        },
                    }
                    j = j + 1;
                }
                assert(ops@.take(ops@.len() as int) =~= ops@);
                self.set_entries(i, entries);
                Some(())
            },
            None => None,
        }
    }

    /// Projects the value at `k` in the current tree through `f`.
    pub fn read<E, F: Fn(&String) -> Option<E>>(&self, k: u64, f: F) -> (r: Option<E>)
        requires
            self.wf(),
            forall|v: &String| f.requires((v,)),
        ensures
            match self.current_tree() {
                Some(t) => match lookup(t, k) {
                    Some(v) => f.ensures((&v,), r),
                    None => r is None,
                },
                None => r is None,
            },
    {
        match self.current_index() {
            Some(i) => {
                proof {
                    lemma_index(self.trees@, i as int);
                }
                match self.trees[i].entries.get(&k) {
                    Some(v) => f(v),
                    None => None,
                }
            },
            None => None,
        }
    }

    /// Sets `k` to `v` in the current tree and returns the value it replaced.
    pub fn insert(&mut self, k: u64, v: String) -> (r: Option<String>)
        requires
            old(self).wf(),
        ensures
            final(self).wf(),
            final(self).current_name() == old(self).current_name(),
            match old(self).current_name() {
                Some(n) => {
                    &&& r == lookup(old(self).tree_map()[n], k)
                    &&& final(self).tree_map() == old(self).tree_map().insert(n, old(self).tree_map()[n].insert(k, v))
                },
                None => r is None && final(self).tree_map() == old(self).tree_map(),
            },
    {
        match self.current_index() {
            Some(i) => {
                proof {
                    lemma_index(self.trees@, i as int);
                }
                let mut entries = self.trees[i].entries.clone();
                let r = entries.insert(k, v);
                self.set_entries(i, entries);
                r
            },
            None => None,
        }
    }

    /// Removes `k` from the current tree and returns the value it held.
    pub fn remove(&mut self, k: u64) -> (r: Option<String>)
        requires
            old(self).wf(),
        ensures
            final(self).wf(),
            final(self).current_name() == old(self).current_name(),
            match old(self).current_name() {
                Some(n) => {
                    &&& r == lookup(old(self).tree_map()[n], k)
                    &&& final(self).tree_map() == old(self).tree_map().insert(n, old(self).tree_map()[n].remove(k))
                },
                None => r is None && final(self).tree_map() == old(self).tree_map(),
            },
    {
        match self.current_index() {
            Some(i) => {
                proof {
                    lemma_index(self.trees@, i as int);
                }
                let mut entries = self.trees[i].entries.clone();
                let r = entries.remove(&k);
                self.set_entries(i, entries);
                r
            },
            None => None,
        }
    }

    /// Empties the current tree; does nothing when none is selected.
    pub fn clear(&mut self)
        requires
            old(self).wf(),
        ensures
            final(self).wf(),
            final(self).current_name() == old(self).current_name(),
            final(self).tree_map() == match old(self).current_name() {
                Some(n) => old(self).tree_map().insert(n, Map::empty()),
                None => old(self).tree_map(),
            },
    {
        match self.current_index() {
            Some(i) => {
                self.set_entries(i, HashMap::new());
            },
            None => {},
        }
    }

    /// Whether the current tree holds `k`.
    pub fn contains(&self, k: &u64) -> (r: Option<bool>)
        requires
            self.wf(),
        ensures
            r == match self.current_tree() {
                Some(t) => Some(t.contains_key(*k)),
                None => None::<bool>,
            },
    {
        match self.current_index() {
            Some(i) => {
                proof {
                    lemma_index(self.trees@, i as int);
                }
                Some(self.trees[i].entries.contains_key(k))
            },
            None => None,
        }
    }

    /// The number of entries of the current tree.
    pub fn len(&self) -> (r: Option<usize>)
        requires
            self.wf(),
        ensures
            match self.current_tree() {
                Some(t) => r == Some(t.len() as usize),
                None => r is None,
            },
    {
        match self.current_index() {
            Some(i) => {
                proof {
                    lemma_index(self.trees@, i as int);
                }
                Some(self.trees[i].entries.len())
            },
            None => None,
        }
    }

    /// The keys of the current tree, each once, in no particular order.
    pub fn keys(&self) -> (r: Vec<u64>)
        requires
            self.wf(),
        ensures
            r@.no_duplicates(),
            r@.to_set() == match self.current_tree() {
                Some(t) => t.dom(),
                None => Set::<u64>::empty(),
            },
    {
        let mut r: Vec<u64> = Vec::new();
        match self.current_index() {
            Some(i) => {
                proof {
                    lemma_index(self.trees@, i as int);
                }
                let m = &self.trees[i].entries;
                let ghost m0 = m@;
                for kv in it: m.iter()
                    invariant
                        m@ == m0,
                        forall|j: int| 0 <= j < it.seq().len() ==> m0.contains_key(*(#[trigger] it.seq()[j]).0) && m0[*it.seq()[j].0] == *it.seq()[j].1,
                        forall|k: u64| #[trigger] m0.contains_key(k) ==> exists|j: int| 0 <= j < it.seq().len() && *it.seq()[j].0 == k,
                        it.seq().no_duplicates(),
                        r@.len() == it.index(),
                        forall|j: int| 0 <= j < it.index() ==> r@[j] == *(#[trigger] it.seq()[j]).0,
                        r@.no_duplicates(),
                        forall|j: int| 0 <= j < r@.len() ==> m0.contains_key(#[trigger] r@[j]),
                        forall|k: u64| #[trigger] m0.contains_key(k) ==> r@.contains(k) || exists|j: int| it.index() <= j < it.seq().len() && *it.seq()[j].0 == k,
                {
                    proof {
                        let idx = r@.len() as int;
                        assert forall|a: int| 0 <= a < idx implies r@[a] != *it.seq()[idx].0 by {
                            assert(r@[a] == *it.seq()[a].0);
                            if r@[a] == *it.seq()[idx].0 {
                                assert(it.seq()[a] == it.seq()[idx]);
                            }
                        }
                    }
                    let ghost before = r@;
                    r.push(*kv.0);
                    proof {
                        assert(r@.last() == *kv.0);
                        assert(r@.contains(*kv.0));
                        assert forall|k: u64| #[trigger] before.contains(k) implies r@.contains(k) by {
                            let j = choose|j: int| 0 <= j < before.len() && before[j] == k;
                            assert(r@[j] == k);
                        }
                    }
                }
                proof {
                    assert forall|k: u64| r@.to_set().contains(k) <==> m0.contains_key(k) by {
                        if r@.to_set().contains(k) {
                            let j = choose|j: int| 0 <= j < r@.len() && r@[j] == k;
                            assert(m0.contains_key(r@[j]));
                        }
                    }
                    assert(r@.to_set() =~= m0.dom());
                }
            },
            None => {
                assert(r@.to_set() =~= Set::<u64>::empty());
            },
        }
        r
    }

    /// A copy of the current tree, empty when none is selected.
    pub fn list_all(&self) -> (r: HashMap<u64, String>)
        requires
            self.wf(),
        ensures
            r@ == match self.current_tree() {
                Some(t) => t,
                None => Map::<u64, String>::empty(),
            },
    {
        match self.current_index() {
            Some(i) => {
                proof {
                    lemma_index(self.trees@, i as int);
                }
                self.trees[i].entries.clone()
            },
            None => HashMap::new(),
        }
    }

    /// The trees of the store in their plain form.
    pub fn to_snapshot(&self) -> (r: Snapshot)
        requires
            self.wf(),
        ensures
            snapshot_state(r) == (self.current_name(), self.tree_map()),
    {
        let current = match &self.current {
            Some(c) => Some(c.clone()),
            None => None,
        };
        let mut r: SnapshotTrees = Vec::new();
        let mut i: usize = 0;
        while i < self.trees.len()
            invariant
                i <= self.trees@.len(),
                names_unique(self.trees@),
                snapshot_map(r@) == trees_view(self.trees@.take(i as int)),
            decreases self.trees@.len() - i,
        {
            proof {
                let s = self.trees@;
                let p = s.take(i as int);
                assert(names_unique(p));
                assert(!has_name(p, s[i as int].name@)) by {
                    if has_name(p, s[i as int].name@) {
                        let j = choose|j: int| 0 <= j < p.len() && (#[trigger] p[j]).name@ == s[i as int].name@;
                        assert(s[j].name@ == s[i as int].name@);
                    }
                }
                lemma_push(p, s[i as int]);
                assert(s.take(i + 1) =~= p.push(s[i as int]));
            }
            let ghost r0 = r@;
            r.push((self.trees[i].name.clone(), self.trees[i].entries.clone()));
            proof {
                assert(r@.drop_last() =~= r0);
            }
            i = i + 1;
        }
        assert(self.trees@.take(self.trees@.len() as int) =~= self.trees@);
        (current, r)
    }

    /// A store holding the trees that `snapshot` describes, its recorded tree
    /// current where that tree is among them.
    pub fn from_snapshot(snapshot: Snapshot) -> (r: InMemoryDb)
        ensures
            r.wf(),
            r.tree_map() == snapshot_state(snapshot).1,
            r.current_name() == restored_current(snapshot_state(snapshot).0, r.tree_map()),
    {
        let (current, snapshot) = snapshot;
        let mut r = InMemoryDb::new();
        let mut i: usize = 0;
        while i < snapshot.len()
            invariant
                i <= snapshot@.len(),
                r.wf(),
                r.current is None,
                r.tree_map() == snapshot_map(snapshot@.take(i as int)),
            decreases snapshot@.len() - i,
        {
            let name = snapshot[i].0.clone();
            let entries = snapshot[i].1.clone();
            proof {
                assert(snapshot@.take(i + 1).drop_last() =~= snapshot@.take(i as int));
            }
            match r.find(&name) {
                Some(j) => {
                    r.set_entries(j, entries);
                },
                None => {
                    let t = NamedTree { name, entries };
                    proof {
                        lemma_push(r.trees@, t);
                    }
                    r.trees.push(t);
                },
            }
            i = i + 1;
        }
        assert(snapshot@.take(snapshot@.len() as int) =~= snapshot@);
        if let Some(c) = current {
            if r.find(&c).is_some() {
                r.current = Some(c);
            }
        }
        r
    }

    /// The current tree of a well-formed store is one of its trees.
    pub proof fn lemma_current_exists(&self)
        requires
            self.wf(),
        ensures
            self.current_name() is Some ==> self.tree_map().contains_key(self.current_name()->Some_0),
    {
    }

    proof fn lemma_dom_len(&self)
        requires
            names_unique(self.trees@),
        ensures
            self.tree_map().dom().len() == self.trees@.len(),
            self.tree_map().dom().finite(),
        decreases self.trees@.len(),
    {
        let s = self.trees@;
        let names = s.map_values(|t: NamedTree| t.name@);
        assert(names.no_duplicates()) by {
            assert forall|a: int, b: int| 0 <= a < names.len() && 0 <= b < names.len() && a != b implies names[a] != names[b] by {
                assert(names[a] == s[a].name@ && names[b] == s[b].name@);
            }
        }
        assert(self.tree_map().dom() =~= names.to_set()) by {
            assert forall|n: Seq<char>| names.to_set().contains(n) implies has_name(s, n) by {
                let j = choose|j: int| 0 <= j < names.len() && names[j] == n;
                assert(s[j].name@ == n);
            }
            assert forall|n: Seq<char>| has_name(s, n) implies names.to_set().contains(n) by {
                let j = choose|j: int| 0 <= j < s.len() && (#[trigger] s[j]).name@ == n;
                assert(names[j] == n);
            }
        }
        names.unique_seq_to_set();
    }
}

} // verus!
