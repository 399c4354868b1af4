//! How the stores list what they hold: each entity once, in the order of
//! the ids.

use vstd::prelude::*;

verus! {

/// Plain data that knows the id it is stored under.
pub trait Keyed {
    spec fn key(self) -> int;
}

/// Every entity of `rows` is stored under its own id.
pub open spec fn keyed_by_id<V: Keyed>(rows: Map<int, V>) -> bool {
    forall|id: int| #[trigger] rows.contains_key(id) ==> rows[id].key() == id
}

/// `list` holds every entity of `rows` once, and nothing else.
pub open spec fn lists_exactly<V: Keyed>(list: Seq<V>, rows: Map<int, V>) -> bool {
    &&& forall|i: int|
        0 <= i < list.len() ==> rows.contains_key(#[trigger] list[i].key()) && rows[list[i].key()]
            == list[i]
    &&& forall|i: int, j: int|
        0 <= i < j < list.len() ==> (#[trigger] list[i]).key() != (#[trigger] list[j]).key()
    &&& forall|id: int| #[trigger]
        rows.contains_key(id) ==> exists|i: int| 0 <= i < list.len() && #[trigger] list[i].key() == id
}

/// The ids of `list` fall strictly: the newest entity comes first.
pub open spec fn descending_ids<V: Keyed>(list: Seq<V>) -> bool {
    forall|i: int, j: int|
        0 <= i < j < list.len() ==> (#[trigger] list[i]).key() > (#[trigger] list[j]).key()
}

/// The ids of `list` rise strictly: the oldest entity comes first.
pub open spec fn ascending_ids<V: Keyed>(list: Seq<V>) -> bool {
    forall|i: int, j: int|
        0 <= i < j < list.len() ==> (#[trigger] list[i]).key() < (#[trigger] list[j]).key()
}

/// The entities of `rows` whose ids lie in `lo ..= hi`, by falling id.
pub open spec fn descending<V>(rows: Map<int, V>, lo: int, hi: int) -> Seq<V>
    decreases hi - lo + 1,
{
    if hi < lo {
        Seq::empty()
    } else if rows.contains_key(lo) {
        descending(rows, lo + 1, hi).push(rows[lo])
    } else {
        descending(rows, lo + 1, hi)
    }
}

/// The entities of `rows` whose ids lie in `lo ..= hi`, by rising id.
pub open spec fn ascending<V>(rows: Map<int, V>, lo: int, hi: int) -> Seq<V>
    decreases hi - lo + 1,
{
    if hi < lo {
        Seq::empty()
    } else if rows.contains_key(hi) {
        ascending(rows, lo, hi - 1).push(rows[hi])
    } else {
        ascending(rows, lo, hi - 1)
    }
}

/// What `descending` yields: the entities of `rows` with an id in
/// `lo ..= hi`, each once, by falling id.
pub proof fn lemma_descending<V: Keyed>(rows: Map<int, V>, lo: int, hi: int)
    requires
        keyed_by_id(rows),
    ensures
        descending_ids(descending(rows, lo, hi)),
        forall|i: int|
            0 <= i < descending(rows, lo, hi).len() ==> {
                let entity = #[trigger] descending(rows, lo, hi)[i];
                lo <= entity.key() <= hi && rows.contains_key(entity.key()) && rows[entity.key()]
                    == entity
            },
        forall|id: int|
            lo <= id <= hi && #[trigger] rows.contains_key(id) ==> exists|i: int|
                0 <= i < descending(rows, lo, hi).len() && #[trigger] descending(
                    rows,
                    lo,
                    hi,
                )[i].key() == id,
    decreases hi - lo + 1,
{
    if hi >= lo {
        lemma_descending(rows, lo + 1, hi);
        let rest = descending(rows, lo + 1, hi);
        let list = descending(rows, lo, hi);
        assert forall|id: int| lo <= id <= hi && #[trigger] rows.contains_key(id) implies exists|
            i: int,
        |
            0 <= i < list.len() && #[trigger] list[i].key() == id by {
            if id == lo {
                assert(list[list.len() - 1].key() == id);
            } else {
                let i = choose|i: int| 0 <= i < rest.len() && #[trigger] rest[i].key() == id;
                assert(list[i].key() == id);
            }
        }
    }
}

/// What `ascending` yields: the entities of `rows` with an id in
/// `lo ..= hi`, each once, by rising id.
pub proof fn lemma_ascending<V: Keyed>(rows: Map<int, V>, lo: int, hi: int)
    requires
        keyed_by_id(rows),
    ensures
        ascending_ids(ascending(rows, lo, hi)),
        forall|i: int|
            0 <= i < ascending(rows, lo, hi).len() ==> {
                let entity = #[trigger] ascending(rows, lo, hi)[i];
                lo <= entity.key() <= hi && rows.contains_key(entity.key()) && rows[entity.key()]
                    == entity
            },
        forall|id: int|
            lo <= id <= hi && #[trigger] rows.contains_key(id) ==> exists|i: int|
                0 <= i < ascending(rows, lo, hi).len() && #[trigger] ascending(
                    rows,
                    lo,
                    hi,
                )[i].key() == id,
    decreases hi - lo + 1,
{
    if hi >= lo {
        lemma_ascending(rows, lo, hi - 1);
        let rest = ascending(rows, lo, hi - 1);
        let list = ascending(rows, lo, hi);
        assert forall|id: int| lo <= id <= hi && #[trigger] rows.contains_key(id) implies exists|
            i: int,
        |
            0 <= i < list.len() && #[trigger] list[i].key() == id by {
            if id == hi {
                assert(list[list.len() - 1].key() == id);
            } else {
                let i = choose|i: int| 0 <= i < rest.len() && #[trigger] rest[i].key() == id;
                assert(list[i].key() == id);
            }
        }
    }
}

/// Ids below `first` that hold nothing add nothing to a listing by falling
/// id.
pub proof fn lemma_descending_starts_late<V>(rows: Map<int, V>, lo: int, first: int, hi: int)
    requires
        lo <= first,
        forall|id: int| lo <= id < first ==> !rows.contains_key(id),
    ensures
        descending(rows, lo, hi) == descending(rows, first, hi),
    decreases first - lo,
{
    if lo < first {
        lemma_descending_starts_late(rows, lo + 1, first, hi);
        if hi < lo {
            assert(descending(rows, lo + 1, hi) == Seq::<V>::empty());
        }
    }
}

/// Ids below `first` that hold nothing add nothing to a listing by rising
/// id.
pub proof fn lemma_ascending_starts_late<V>(rows: Map<int, V>, lo: int, first: int, hi: int)
    requires
        lo <= first,
        forall|id: int| lo <= id < first ==> !rows.contains_key(id),
    ensures
        ascending(rows, lo, hi) == ascending(rows, first, hi),
    decreases hi - lo + 1,
{
    if hi >= lo {
        if hi >= first {
            lemma_ascending_starts_late(rows, lo, first, hi - 1);
        } else {
            lemma_ascending_starts_late(rows, lo, first, hi - 1);
            assert(ascending(rows, first, hi - 1) == Seq::<V>::empty());
        }
    }
}

/// A listing by falling id of a table whose ids lie in `lo ..= hi` holds the
/// whole table.
pub proof fn lemma_descending_lists_all<V: Keyed>(rows: Map<int, V>, lo: int, hi: int)
    requires
        keyed_by_id(rows),
        forall|id: int| #[trigger] rows.contains_key(id) ==> lo <= id <= hi,
    ensures
        lists_exactly(descending(rows, lo, hi), rows),
        descending_ids(descending(rows, lo, hi)),
{
    lemma_descending(rows, lo, hi);
}

/// A listing by rising id of a table whose ids lie in `lo ..= hi` holds the
/// whole table.
pub proof fn lemma_ascending_lists_all<V: Keyed>(rows: Map<int, V>, lo: int, hi: int)
    requires
        keyed_by_id(rows),
        forall|id: int| #[trigger] rows.contains_key(id) ==> lo <= id <= hi,
    ensures
        lists_exactly(ascending(rows, lo, hi), rows),
        ascending_ids(ascending(rows, lo, hi)),
{
    lemma_ascending(rows, lo, hi);
}

} // verus!
