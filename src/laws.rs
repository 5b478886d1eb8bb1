//! Properties that relate several operations of the store.
use crate::store::InMemoryDb;
use vstd::prelude::*;

verus! {

/// Inserting into the current tree `a` changes no other tree: after `a` is
/// current and `k` is set in it, another tree `b` holds exactly what it held
/// before, so `k` is visible in `b` only if it already was.
pub proof fn law_tree_isolation(
    before: InMemoryDb,
    after: InMemoryDb,
    a: Seq<char>,
    b: Seq<char>,
    k: u64,
    v: String,
)
    requires
        before.wf(),
        a != b,
        before.current_name() == Some(a),
        after.tree_map() == before.tree_map().insert(a, before.tree_map()[a].insert(k, v)),
    ensures
        after.tree_map().contains_key(b) == before.tree_map().contains_key(b),
        before.tree_map().contains_key(b) ==> after.tree_map()[b] == before.tree_map()[b],
{
}

/// Dropping tree `a` and then opening tree `b` leaves the contents of `b` as
/// they were, and `b` is then current.
pub proof fn law_drop_then_open_other(
    before: InMemoryDb,
    dropped: InMemoryDb,
    opened: InMemoryDb,
    a: Seq<char>,
    b: Seq<char>,
)
    requires
        before.wf(),
        a != b,
        dropped.tree_map() == before.tree_map().remove(a),
        opened.current_name() == Some(b),
        opened.tree_map() == if dropped.tree_map().contains_key(b) {
            dropped.tree_map()
        } else {
            dropped.tree_map().insert(b, Map::empty())
        },
    ensures
        opened.current_tree() == Some(
            if before.tree_map().contains_key(b) {
                before.tree_map()[b]
            } else {
                Map::<u64, String>::empty()
            },
        ),
{
}

/// A merge copies: tree `dest` gets every entry of `source`, keeps its own
/// entries on the other keys, and `source` is left as it was.
pub proof fn law_merge_copies(
    before: InMemoryDb,
    after: InMemoryDb,
    source: Seq<char>,
    dest: Seq<char>,
)
    requires
        before.wf(),
        source != dest,
        before.tree_map().contains_key(source),
        before.tree_map().contains_key(dest),
        after.tree_map() == before.tree_map().insert(
            dest,
            before.tree_map()[dest].union_prefer_right(before.tree_map()[source]),
        ),
    ensures
        after.tree_map()[source] == before.tree_map()[source],
        forall|k: u64| #[trigger] before.tree_map()[source].contains_key(k) ==> after.tree_map()[dest].contains_key(k)
            && after.tree_map()[dest][k] == before.tree_map()[source][k],
        forall|k: u64| #[trigger] before.tree_map()[dest].contains_key(k) && !before.tree_map()[source].contains_key(k)
            ==> after.tree_map()[dest][k] == before.tree_map()[dest][k],
        after.tree_map()[dest].dom() == before.tree_map()[dest].dom() + before.tree_map()[source].dom(),
{
    assert(after.tree_map()[dest].dom() =~= before.tree_map()[dest].dom() + before.tree_map()[source].dom());
}

/// Opening a tree a second time changes nothing that the first opening did
/// not.
pub proof fn law_open_tree_idempotent(
    before: InMemoryDb,
    once: InMemoryDb,
    twice: InMemoryDb,
    n: Seq<char>,
)
    requires
        before.wf(),
        once.current_name() == Some(n),
        once.tree_map() == if before.tree_map().contains_key(n) {
            before.tree_map()
        } else {
            before.tree_map().insert(n, Map::empty())
        },
        twice.current_name() == Some(n),
        twice.tree_map() == if once.tree_map().contains_key(n) {
            once.tree_map()
        } else {
            once.tree_map().insert(n, Map::empty())
        },
    ensures
        twice.tree_map() == once.tree_map(),
        twice.current_name() == once.current_name(),
{
}

} // verus!
