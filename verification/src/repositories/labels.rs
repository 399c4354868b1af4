//! Labels: the entity, the repository contract and an in-memory store.

use crate::repositories::listing::{
    ascending, ascending_ids, lemma_ascending_lists_all, lemma_ascending_starts_late,
    lists_exactly, Keyed,
};
use crate::repositories::{unit_result_view, DriverError, RepositoryError, RepositoryErrorView};
use std::collections::HashMap;
use vstd::prelude::*;

verus! {

broadcast use vstd::std_specs::hash::group_hash_axioms;

/// A label that todos can carry. No two stored labels have the same name.
#[derive(Debug, PartialEq, Eq)]
pub struct Label {
    pub id: i32,
    pub name: String,
}

/// A label as plain mathematical data.
pub struct LabelView {
    pub id: int,
    pub name: Seq<char>,
}

impl View for Label {
    type V = LabelView;

    open spec fn view(&self) -> LabelView {
        LabelView { id: self.id as int, name: self.name@ }
    }
}

impl Keyed for LabelView {
    open spec fn key(self) -> int {
        self.id
    }
}

impl Clone for Label {
    fn clone(&self) -> (copy: Self)
        ensures
            copy == *self,
    {
        Label { id: self.id, name: self.name.clone() }
    }
}

impl Label {
    pub fn new(id: i32, name: String) -> (label: Self)
        ensures
            label.id == id,
            label.name == name,
    {
        Label { id, name }
    }
}

/// A new name for the label with this id.
#[derive(Debug, PartialEq, Eq)]
pub struct UpdateLabel {
    pub id: i32,
    pub name: String,
}

impl Clone for UpdateLabel {
    fn clone(&self) -> (copy: Self)
        ensures
            copy == *self,
    {
        UpdateLabel { id: self.id, name: self.name.clone() }
    }
}

/// The labels of `list` as plain data, in the same order.
pub open spec fn label_views(list: Seq<Label>) -> Seq<LabelView> {
    list.map_values(|label: Label| label@)
}

/// Some label of `rows` has this name.
pub open spec fn name_taken(rows: Map<int, LabelView>, name: Seq<char>) -> bool {
    exists|id: int| #[trigger] rows.contains_key(id) && rows[id].name == name
}

/// What every label repository offers, whatever stores the labels.
///
/// A store may fail for reasons of its own (a lost connection); it then
/// answers `Unexpected` and has changed nothing.
pub trait LabelRepository: Sized {
    /// The stored labels, by id.
    spec fn labels(&self) -> Map<int, LabelView>;

    /// The store has an id left for one more label.
    spec fn has_room(&self) -> bool;

    /// The store never fails for a reason of its own: what it answers
    /// follows from what it holds.
    spec fn dependable(&self) -> bool;

    /// Stores a new label under an id that no stored label has, unless a
    /// label of that name exists: then the answer is `Duplicate` with the id
    /// of that label, and nothing is stored.
    fn create(&mut self, name: String) -> (r: Result<Label, RepositoryError>)
        ensures
            final(self).dependable() == old(self).dependable(),
            old(self).has_room() && !name_taken(old(self).labels(), name@) ==> r is Ok,
            old(self).dependable() && name_taken(old(self).labels(), name@) ==> (r matches Err(
                RepositoryError::Duplicate(_),
            )),
            match r {
                Ok(label) => {
                    &&& !name_taken(old(self).labels(), name@)
                    &&& !old(self).labels().contains_key(label.id as int)
                    &&& label@ == (LabelView { id: label.id as int, name: name@ })
                    &&& final(self).labels() == old(self).labels().insert(label.id as int, label@)
                },
                Err(RepositoryError::Duplicate(existing)) => {
                    &&& old(self).labels().contains_key(existing as int)
                    &&& old(self).labels()[existing as int].name == name@
                    &&& final(self).labels() == old(self).labels()
                },
                Err(RepositoryError::Unexpected(_)) => final(self).labels() == old(self).labels(),
                Err(RepositoryError::NotFound(_)) => false,
            },
    ;

    /// Every stored label, once.
    fn all(&self) -> (r: Result<Vec<Label>, RepositoryError>)
        ensures
            self.dependable() ==> r is Ok,
            match r {
                Ok(list) => lists_exactly(label_views(list@), self.labels()),
                Err(e) => e is Unexpected,
            },
    ;

    /// Removes the label stored under `id`.
    fn delete(&mut self, id: i32) -> (r: Result<(), RepositoryError>)
        ensures
            final(self).has_room() == old(self).has_room(),
            final(self).dependable() == old(self).dependable(),
            old(self).dependable() ==> !(r matches Err(RepositoryError::Unexpected(_))),
            match r {
                Ok(_) => {
                    &&& old(self).labels().contains_key(id as int)
                    &&& final(self).labels() == old(self).labels().remove(id as int)
                },
                Err(RepositoryError::NotFound(missing)) => {
                    &&& missing == id
                    &&& !old(self).labels().contains_key(id as int)
                    &&& final(self).labels() == old(self).labels()
                },
                Err(RepositoryError::Unexpected(_)) => final(self).labels() == old(self).labels(),
                Err(RepositoryError::Duplicate(_)) => false,
            },
    ;
}

/// An in-memory label store as plain data: the stored labels, and the id
/// that the next new label gets.
///
/// Ids come from a counter that only grows, so that an id is never handed out
/// twice, not even after its label was deleted.
pub struct LabelTable {
    pub rows: Map<int, LabelView>,
    pub next_id: int,
}

impl LabelTable {
    /// Every label is stored under its own id, all ids handed out so far lie
    /// below the counter, and no two labels share a name.
    pub open spec fn wf(self) -> bool {
        &&& 1 <= self.next_id <= i32::MAX
        &&& forall|id: int| #[trigger]
            self.rows.contains_key(id) ==> 1 <= id < self.next_id && self.rows[id].id == id
        &&& forall|a: int, b: int|
            #![trigger self.rows.contains_key(a), self.rows.contains_key(b)]
            self.rows.contains_key(a) && self.rows.contains_key(b) && self.rows[a].name
                == self.rows[b].name ==> a == b
    }

    pub open spec fn empty() -> Self {
        LabelTable { rows: Map::empty(), next_id: 1 }
    }

    /// No id is left to hand out.
    pub open spec fn exhausted(self) -> bool {
        self.next_id >= i32::MAX
    }

    /// The id of the label with this name, if there is one.
    pub open spec fn named(self, name: Seq<char>) -> Option<int> {
        if name_taken(self.rows, name) {
            Some(choose|id: int| #[trigger] self.rows.contains_key(id) && self.rows[id].name == name)
        } else {
            None
        }
    }

    /// The label that `create` makes of `name`.
    pub open spec fn fresh(self, name: Seq<char>) -> LabelView {
        LabelView { id: self.next_id, name }
    }

    /// What `create` answers.
    pub open spec fn created(self, name: Seq<char>) -> Result<LabelView, RepositoryErrorView> {
        match self.named(name) {
            Some(existing) => Err(RepositoryErrorView::Duplicate(existing)),
            None => if self.exhausted() {
                Err(RepositoryErrorView::Unexpected("label ids are used up"@))
            } else {
                Ok(self.fresh(name))
            },
        }
    }

    /// The table after `create`.
    pub open spec fn create(self, name: Seq<char>) -> Self {
        if self.created(name) is Ok {
            LabelTable {
                rows: self.rows.insert(self.next_id, self.fresh(name)),
                next_id: self.next_id + 1,
            }
        } else {
            self
        }
    }

    /// What `delete` answers.
    pub open spec fn deleted(self, id: int) -> Result<(), RepositoryErrorView> {
        if self.rows.contains_key(id) {
            Ok(())
        } else {
            Err(RepositoryErrorView::NotFound(id))
        }
    }

    /// The table after `delete`.
    pub open spec fn delete(self, id: int) -> Self {
        LabelTable { rows: self.rows.remove(id), ..self }
    }

    /// All stored labels, the oldest first.
    pub open spec fn listing(self) -> Seq<LabelView> {
        ascending(self.rows, 1, self.next_id - 1)
    }

    /// A name is given once: after `create`, whether it stored a label or
    /// found one of that name, the name belongs to a label, and creating it
    /// again answers `Duplicate` with that label's id and stores nothing.
    pub proof fn law_duplicate_label(self, name: Seq<char>)
        requires
            self.wf(),
            !(self.created(name) matches Err(RepositoryErrorView::Unexpected(_))),
        ensures
            self.create(name).wf(),
            self.create(name).create(name) == self.create(name),
            match self.created(name) {
                Ok(label) => self.create(name).created(name) == Err::<
                    LabelView,
                    RepositoryErrorView,
                >(RepositoryErrorView::Duplicate(label.id)) && self.create(name).rows
                    == self.rows.insert(label.id, label),
                Err(e) => self.create(name).created(name) == Err::<LabelView, RepositoryErrorView>(
                    e,
                ) && self.create(name) == self,
            },
    {
        if self.created(name) is Ok {
            let after = self.create(name);
            assert(after.rows.contains_key(self.next_id));
            assert forall|a: int, b: int|
                #![trigger after.rows.contains_key(a), after.rows.contains_key(b)]
                after.rows.contains_key(a) && after.rows.contains_key(b) && after.rows[a].name
                    == after.rows[b].name implies a == b by {
                if a != b {
                    if a == self.next_id {
                        assert(self.rows.contains_key(b));
                    } else if b == self.next_id {
                        assert(self.rows.contains_key(a));
                    }
                }
            }
            after.lemma_named(name, self.next_id);
        }
    }

    /// Deleting a stored label succeeds once; the second `delete` answers
    /// `NotFound` and changes nothing more.
    pub proof fn law_delete_twice(self, id: int)
        requires
            self.wf(),
            self.rows.contains_key(id),
        ensures
            self.delete(id).wf(),
            self.deleted(id) is Ok,
            self.delete(id).deleted(id) == Err::<(), RepositoryErrorView>(
                RepositoryErrorView::NotFound(id),
            ),
            self.delete(id).delete(id) == self.delete(id),
    {
        assert(self.delete(id).delete(id).rows =~= self.delete(id).rows);
    }

    /// In a sound table a name belongs to one label at most, so `named`
    /// finds the label that has it.
    pub proof fn lemma_named(self, name: Seq<char>, id: int)
        requires
            self.wf(),
            self.rows.contains_key(id),
            self.rows[id].name == name,
        ensures
            self.named(name) == Some(id),
    {
    }
}

/// The result of a label operation as plain data.
pub open spec fn label_result_view(r: Result<Label, RepositoryError>) -> Result<
    LabelView,
    RepositoryErrorView,
> {
    match r {
        Ok(label) => Ok(label@),
        Err(e) => Err(e@),
    }
}

/// What a relational store does once it has looked for a label of the name
/// that is to be created: if there is one, the answer is `Duplicate` with its
/// id and nothing is inserted; if there is none, the name is handed back to be
/// inserted. The lookup and the insert are two statements, and nothing holds
/// the table between them.
pub fn name_to_insert(name: String, lookup: Result<Option<Label>, DriverError>) -> (r: Result<
    String,
    RepositoryError,
>)
    ensures
        match lookup {
            Ok(None) => r == Ok::<String, RepositoryError>(name),
            Ok(Some(existing)) => r matches Err(e) && e@ == RepositoryErrorView::Duplicate(
                existing.id as int,
            ),
            Err(error) => r matches Err(e) && e@ == RepositoryErrorView::Unexpected(
                error.message@,
            ),
        },
{
    match lookup {
        Ok(None) => Ok(name),
        Ok(Some(existing)) => Err(RepositoryError::Duplicate(existing.id)),
        Err(error) => Err(RepositoryError::unexpected(error)),
    }
}

/// A label store that lives in memory.
pub struct LabelRepositoryForMemory {
    store: HashMap<i32, Label>,
    first_id: i32,
    next_id: i32,
}

impl View for LabelRepositoryForMemory {
    type V = LabelTable;

    closed spec fn view(&self) -> LabelTable {
        LabelTable {
            rows: Map::new(
                |id: int| i32::MIN <= id <= i32::MAX && self.store@.contains_key(id as i32),
                |id: int| self.store@[id as i32]@,
            ),
            next_id: self.next_id as int,
        }
    }
}

/// Every label of `store` sits under its own id, which lies between the
/// first id that the store handed out and the counter, and no two labels
/// share a name.
spec fn sound(store: Map<i32, Label>, first_id: i32, next_id: i32) -> bool {
    &&& 1 <= first_id <= next_id
    &&& forall|id: i32| #[trigger]
        store.contains_key(id) ==> first_id <= id < next_id && store[id].id == id
    &&& forall|a: i32, b: i32|
        #![trigger store.contains_key(a), store.contains_key(b)]
        store.contains_key(a) && store.contains_key(b) && store[a].name@ == store[b].name@ ==> a
            == b
}

impl LabelRepositoryForMemory {
    #[verifier::type_invariant]
    spec fn inv(self) -> bool {
        sound(self.store@, self.first_id, self.next_id)
    }

    proof fn lemma_wf(self)
        requires
            self.inv(),
        ensures
            self@.wf(),
            1 <= self.first_id <= self.next_id,
            forall|id: int| 1 <= id < self.first_id ==> !self@.rows.contains_key(id),
    {
        assert forall|id: int| 1 <= id < self.first_id implies !self@.rows.contains_key(id) by {
            if self@.rows.contains_key(id) {
                assert(self.store@.contains_key(id as i32));
            }
        }
        assert forall|id: int| #[trigger] self@.rows.contains_key(id) implies 1 <= id
            < self@.next_id && self@.rows[id].id == id by {
            assert(self.store@.contains_key(id as i32));
        }
        assert forall|a: int, b: int|
            #![trigger self@.rows.contains_key(a), self@.rows.contains_key(b)]
            self@.rows.contains_key(a) && self@.rows.contains_key(b) && self@.rows[a].name
                == self@.rows[b].name implies a == b by {
            assert(self.store@.contains_key(a as i32));
            assert(self.store@.contains_key(b as i32));
        }
    }

    /// A store without labels; the first label gets id 1.
    pub fn new() -> (repository: Self)
        ensures
            repository@ == LabelTable::empty(),
    {
        let repository = LabelRepositoryForMemory { store: HashMap::new(), first_id: 1, next_id: 1 };
        assert(repository@.rows =~= Map::empty());
        repository
    }

    /// A store without labels whose first label gets `first_id`, or 1 if
    /// that is less: a store that goes on where an earlier one has stopped.
    pub fn starting_at(first_id: i32) -> (repository: Self)
        ensures
            repository@ == (LabelTable {
                rows: Map::empty(),
                next_id: if first_id < 1 {
                    1
                } else {
                    first_id as int
                },
            }),
    {
        let next_id = if first_id < 1 {
            1
        } else {
            first_id
        };
        let repository = LabelRepositoryForMemory { store: HashMap::new(), first_id: next_id, next_id };
        assert(repository@.rows =~= Map::empty());
        repository
    }

    /// The id of the stored label with this name. Walks the ids that were
    /// handed out so far.
    fn find_named(&self, name: &String) -> (found: Option<i32>)
        ensures
            match found {
                Some(id) => self@.named(name@) == Some(id as int),
                None => self@.named(name@) is None,
            },
    {
        proof {
            use_type_invariant(self);
            self.lemma_wf();
        }
        let mut id: i32 = self.first_id;
        while id < self.next_id
            invariant
                self.first_id <= id <= self.next_id,
                self@.wf(),
                forall|k: int|
                    1 <= k < id && #[trigger] self@.rows.contains_key(k) ==> self@.rows[k].name
                        != name@,
            decreases self.next_id - id,
        {
            match self.store.get(&id) {
                Some(label) => {
                    if label.name == *name {
                        proof {
                            self@.lemma_named(name@, id as int);
                        }
                        return Some(id);
                    }
                },
                None => {},
            }
            id = id + 1;
        }
        None
    }

    /// Stores `label` under `id`. The map leaves the store while it changes,
    /// so that the store is sound at every step.
    fn put(&mut self, id: i32, label: Label)
        requires
            old(self).first_id <= id < old(self).next_id,
            label.id == id,
            !name_taken(old(self)@.rows, label.name@),
        ensures
            final(self)@ == (LabelTable {
                rows: old(self)@.rows.insert(id as int, label@),
                ..old(self)@
            }),
    {
        proof {
            use_type_invariant(&*self);
        }
        let mut held: HashMap<i32, Label> = HashMap::new();
        core::mem::swap(&mut self.store, &mut held);
        let ghost before = held@;
        held.insert(id, label);
        assert forall|a: i32, b: i32|
            #![trigger held@.contains_key(a), held@.contains_key(b)]
            held@.contains_key(a) && held@.contains_key(b) && held@[a].name@
                == held@[b].name@ implies a == b by {
            if a != b {
                if a == id {
                    assert(old(self)@.rows.contains_key(b as int));
                } else if b == id {
                    assert(old(self)@.rows.contains_key(a as int));
                }
            }
        }
        self.store = held;
        assert(self@.rows =~= old(self)@.rows.insert(id as int, label@));
    }

    /// Removes what is stored under `id`, and says whether anything was.
    fn take(&mut self, id: i32) -> (found: bool)
        ensures
            found == old(self)@.rows.contains_key(id as int),
            final(self)@ == old(self)@.delete(id as int),
    {
        proof {
            use_type_invariant(&*self);
        }
        let mut held: HashMap<i32, Label> = HashMap::new();
        core::mem::swap(&mut self.store, &mut held);
        let removed = held.remove(&id);
        self.store = held;
        assert(self@.rows =~= old(self)@.rows.remove(id as int));
        removed.is_some()
    }
}

impl LabelRepository for LabelRepositoryForMemory {
    open spec fn labels(&self) -> Map<int, LabelView> {
        self@.rows
    }

    /// The counter has not reached the last id.
    open spec fn has_room(&self) -> bool {
        !self@.exhausted()
    }

    /// A store in memory has nothing to fail on.
    open spec fn dependable(&self) -> bool {
        true
    }

    /// `Duplicate` exactly when a label of that name is stored; otherwise it
    /// fails only when the ids are used up.
    fn create(&mut self, name: String) -> (r: Result<Label, RepositoryError>)
        ensures
            old(self)@.wf(),
            final(self)@.wf(),
            final(self).labels() == final(self)@.rows,
            final(self)@ == old(self)@.create(name@),
            label_result_view(r) == old(self)@.created(name@),
    {
        proof {
            use_type_invariant(&*self);
            self.lemma_wf();
        }
        match self.find_named(&name) {
            Some(existing) => { return Err(RepositoryError::Duplicate(existing)); },
            None => {},
        }
        if self.next_id == i32::MAX {
            return Err(RepositoryError::Unexpected("label ids are used up".to_owned()));
        }
        let id = self.next_id;
        let label = Label { id, name };
        self.next_id = id + 1;
        self.put(id, label.clone());
        proof {
            use_type_invariant(&*self);
            self.lemma_wf();
        }
        Ok(label)
    }

    /// Never fails; the oldest label comes first. Walks all ids that were
    /// handed out so far.
    fn all(&self) -> (r: Result<Vec<Label>, RepositoryError>)
        ensures
            self@.wf(),
            self.labels() == self@.rows,
            r matches Ok(list) && label_views(list@) == self@.listing(),
            r matches Ok(list) && ascending_ids(label_views(list@)),
    {
        proof {
            use_type_invariant(self);
            self.lemma_wf();
        }
        let mut list: Vec<Label> = Vec::new();
        let mut id: i32 = self.first_id;
        assert(label_views(list@) =~= ascending(self@.rows, self.first_id as int, id - 1));
        while id < self.next_id
            invariant
                self.first_id <= id <= self.next_id,
                self@.wf(),
                label_views(list@) == ascending(self@.rows, self.first_id as int, id - 1),
            decreases self.next_id - id,
        {
            let ghost before = list@;
            match self.store.get(&id) {
                Some(label) => {
                    list.push(label.clone());
                    assert(label_views(list@) =~= label_views(before).push(label@));
                },
                None => {},
            }
            id = id + 1;
        }
        proof {
            lemma_ascending_starts_late(
                self@.rows,
                1,
                self.first_id as int,
                self.next_id - 1,
            );
            lemma_ascending_lists_all(self@.rows, 1, self.next_id - 1);
        }
        Ok(list)
    }

    /// `NotFound` exactly when nothing is stored under `id`.
    fn delete(&mut self, id: i32) -> (r: Result<(), RepositoryError>)
        ensures
            old(self)@.wf(),
            final(self)@.wf(),
            final(self).labels() == final(self)@.rows,
            final(self)@ == old(self)@.delete(id as int),
            unit_result_view(r) == old(self)@.deleted(id as int),
    {
        proof {
            use_type_invariant(&*self);
            self.lemma_wf();
        }
        let found = self.take(id);
        proof {
            use_type_invariant(&*self);
            self.lemma_wf();
        }
        if found {
            Ok(())
        } else {
            Err(RepositoryError::NotFound(id))
        }
    }
}

} // verus!
