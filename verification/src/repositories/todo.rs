//! Todos that carry labels: the entity, the rows that a joined query yields
//! and how they fold into entities, the payloads, the repository contract and
//! an in-memory store.

use crate::handlers::{
    length_violations, note_length, report, violation_views, Validate, Violation, ViolationView,
};
use crate::repositories::labels::{label_views, Label, LabelView};
use crate::repositories::listing::{
    descending, descending_ids, lemma_descending_lists_all, lemma_descending_starts_late,
    lists_exactly, Keyed,
};
use crate::repositories::{
    row_for, rows_or_unexpected, unit_result_view, DriverError, RepositoryError,
    RepositoryErrorView,
};
use std::collections::HashMap;
use vstd::prelude::*;

verus! {

broadcast use vstd::std_specs::hash::group_hash_axioms;

/// A todo with the labels it carries, in the order in which they were given.
#[derive(Debug, PartialEq, Eq)]
pub struct TodoEntity {
    pub id: i32,
    pub text: String,
    pub completed: bool,
    pub labels: Vec<Label>,
}

/// A todo with its labels as plain mathematical data.
pub struct TodoEntityView {
    pub id: int,
    pub text: Seq<char>,
    pub completed: bool,
    pub labels: Seq<LabelView>,
}

impl View for TodoEntity {
    type V = TodoEntityView;

    open spec fn view(&self) -> TodoEntityView {
        TodoEntityView {
            id: self.id as int,
            text: self.text@,
            completed: self.completed,
            labels: label_views(self.labels@),
        }
    }
}

impl Keyed for TodoEntityView {
    open spec fn key(self) -> int {
        self.id
    }
}

/// A copy of `labels`.
pub fn clone_labels(labels: &Vec<Label>) -> (copy: Vec<Label>)
    ensures
        copy@ == labels@,
{
    let mut copy: Vec<Label> = Vec::new();
    let mut i: usize = 0;
    while i < labels.len()
        invariant
            i <= labels.len(),
            copy@ == labels@.take(i as int),
        decreases labels.len() - i,
    {
        copy.push(labels[i].clone());
        assert(copy@ =~= labels@.take(i + 1));
        i = i + 1;
    }
    assert(labels@.take(labels.len() as int) =~= labels@);
    copy
}

impl Clone for TodoEntity {
    fn clone(&self) -> (copy: Self)
        ensures
            copy@ == self@,
            copy.labels@ == self.labels@,
    {
        TodoEntity {
            id: self.id,
            text: self.text.clone(),
            completed: self.completed,
            labels: clone_labels(&self.labels),
        }
    }
}

impl TodoEntity {
    /// A todo that is not completed yet and carries no label.
    pub fn new(id: i32, text: String) -> (todo: Self)
        ensures
            todo.id == id,
            todo.text == text,
            !todo.completed,
            todo.labels@ == Seq::<Label>::empty(),
    {
        TodoEntity { id, text, completed: false, labels: Vec::new() }
    }
}

/// One row of the query that joins todos with their labels. A todo with
/// several labels comes as several rows, one with no label as one row whose
/// label columns are empty.
#[derive(Debug, PartialEq, Eq)]
pub struct TodoWithLabelFromRow {
    pub id: i32,
    pub text: String,
    pub completed: bool,
    pub label_id: Option<i32>,
    pub label_name: Option<String>,
}

/// A joined row as plain mathematical data.
pub struct TodoRowView {
    pub id: int,
    pub text: Seq<char>,
    pub completed: bool,
    pub label: Option<LabelView>,
}

impl View for TodoWithLabelFromRow {
    type V = TodoRowView;

    /// A row has a label when both label columns are filled.
    open spec fn view(&self) -> TodoRowView {
        TodoRowView {
            id: self.id as int,
            text: self.text@,
            completed: self.completed,
            label: match (self.label_id, self.label_name) {
                (Some(id), Some(name)) => Some(LabelView { id: id as int, name: name@ }),
                _ => None,
            },
        }
    }
}

impl Clone for TodoWithLabelFromRow {
    fn clone(&self) -> (copy: Self)
        ensures
            copy == *self,
    {
        let label_name = match &self.label_name {
            Some(name) => Some(name.clone()),
            None => None,
        };
        TodoWithLabelFromRow {
            id: self.id,
            text: self.text.clone(),
            completed: self.completed,
            label_id: self.label_id,
            label_name,
        }
    }
}

impl TodoWithLabelFromRow {
    /// The label of this row, if it has one.
    pub fn label(&self) -> (label: Option<Label>)
        ensures
            match label {
                Some(label) => self@.label == Some(label@),
                None => self@.label is None,
            },
    {
        match (self.label_id, &self.label_name) {
            (Some(id), Some(name)) => Some(Label { id, name: name.clone() }),
            _ => None,
        }
    }
}

/// The rows of `list` as plain data, in the same order.
pub open spec fn row_views(list: Seq<TodoWithLabelFromRow>) -> Seq<TodoRowView> {
    list.map_values(|row: TodoWithLabelFromRow| row@)
}

/// The entities of `list` as plain data, in the same order.
pub open spec fn entity_views(list: Seq<TodoEntity>) -> Seq<TodoEntityView> {
    list.map_values(|todo: TodoEntity| todo@)
}

/// The first place in `ids` that holds `id`, or the length of `ids` if none
/// does.
pub open spec fn first_index(ids: Seq<int>, id: int) -> int
    decreases ids.len(),
{
    if ids.len() == 0 {
        0
    } else if ids[0] == id {
        0
    } else {
        1 + first_index(ids.drop_first(), id)
    }
}

/// `first_index` finds a place that holds `id`, and no earlier place does.
pub proof fn lemma_first_index(ids: Seq<int>, id: int)
    ensures
        0 <= first_index(ids, id) <= ids.len(),
        first_index(ids, id) < ids.len() ==> ids[first_index(ids, id)] == id,
        forall|j: int| 0 <= j < first_index(ids, id) ==> ids[j] != id,
    decreases ids.len(),
{
    if ids.len() > 0 && ids[0] != id {
        let rest = ids.drop_first();
        lemma_first_index(rest, id);
        assert forall|j: int| 0 <= j < first_index(ids, id) implies ids[j] != id by {
            if j > 0 {
                assert(rest[j - 1] == ids[j]);
            }
        }
    }
}

/// The first place that holds `id` is the only place that holds it with no
/// earlier place doing so.
pub proof fn lemma_first_index_is(ids: Seq<int>, id: int, place: int)
    requires
        0 <= place <= ids.len(),
        place < ids.len() ==> ids[place] == id,
        forall|j: int| 0 <= j < place ==> ids[j] != id,
    ensures
        first_index(ids, id) == place,
{
    lemma_first_index(ids, id);
}

/// The ids of the rows, in the same order.
pub open spec fn row_ids(rows: Seq<TodoRowView>) -> Seq<int> {
    rows.map_values(|row: TodoRowView| row.id)
}

/// The ids of the entities, in the same order.
pub open spec fn entity_ids(entities: Seq<TodoEntityView>) -> Seq<int> {
    entities.map_values(|todo: TodoEntityView| todo.id)
}

/// The place of the first row with this id, or the number of rows if there
/// is none.
pub open spec fn first_row(rows: Seq<TodoRowView>, id: int) -> int {
    first_index(row_ids(rows), id)
}

/// The place of the first entity with this id, or the number of entities if
/// there is none.
pub open spec fn place_of(entities: Seq<TodoEntityView>, id: int) -> int {
    first_index(entity_ids(entities), id)
}

/// The labels of the rows with this id, in the order of the rows.
pub open spec fn labels_of(rows: Seq<TodoRowView>, id: int) -> Seq<LabelView>
    decreases rows.len(),
{
    if rows.len() == 0 {
        Seq::empty()
    } else if rows.last().id == id && rows.last().label is Some {
        labels_of(rows.drop_last(), id).push(rows.last().label->Some_0)
    } else {
        labels_of(rows.drop_last(), id)
    }
}

/// The todo that a single row stands for.
pub open spec fn entity_of(row: TodoRowView) -> TodoEntityView {
    TodoEntityView {
        id: row.id,
        text: row.text,
        completed: row.completed,
        labels: match row.label {
            Some(label) => seq![label],
            None => Seq::empty(),
        },
    }
}

/// `entities` after one more row: the row's label joins the entity of the
/// same id, or the row starts a new entity at the end.
pub open spec fn absorb(entities: Seq<TodoEntityView>, row: TodoRowView) -> Seq<TodoEntityView> {
    let place = place_of(entities, row.id);
    if place < entities.len() {
        match row.label {
            Some(label) => entities.update(
                place,
                TodoEntityView { labels: entities[place].labels.push(label), ..entities[place] },
            ),
            None => entities,
        }
    } else {
        entities.push(entity_of(row))
    }
}

/// The entities that the rows fold into, taking the rows one by one.
pub open spec fn folded(rows: Seq<TodoRowView>) -> Seq<TodoEntityView>
    decreases rows.len(),
{
    if rows.len() == 0 {
        Seq::empty()
    } else {
        absorb(folded(rows.drop_last()), rows.last())
    }
}

/// What folding yields: one entity for each id that occurs in the rows, in
/// the order in which the ids first occur. An entity has the text and the
/// state of the first row of its id, and the labels of all rows of its id, in
/// the order of the rows.
pub open spec fn folds_to(rows: Seq<TodoRowView>, entities: Seq<TodoEntityView>) -> bool {
    &&& forall|k: int|
        0 <= k < entities.len() ==> {
            let todo = #[trigger] entities[k];
            let first = first_row(rows, todo.id);
            &&& 0 <= first < rows.len()
            &&& rows[first].id == todo.id
            &&& rows[first].text == todo.text
            &&& rows[first].completed == todo.completed
            &&& todo.labels == labels_of(rows, todo.id)
        }
    &&& forall|j: int, k: int|
        0 <= j < k < entities.len() ==> first_row(rows, (#[trigger] entities[j]).id) < first_row(
            rows,
            (#[trigger] entities[k]).id,
        )
    &&& forall|i: int|
        0 <= i < rows.len() ==> place_of(entities, (#[trigger] rows[i]).id) < entities.len()
}

/// Rows without `id` give it no labels.
pub proof fn lemma_no_rows_no_labels(rows: Seq<TodoRowView>, id: int)
    requires
        first_row(rows, id) == rows.len(),
    ensures
        labels_of(rows, id) == Seq::<LabelView>::empty(),
    decreases rows.len(),
{
    lemma_first_index(row_ids(rows), id);
    if rows.len() > 0 {
        let before = rows.drop_last();
        assert(row_ids(rows)[rows.len() - 1] != id);
        assert forall|j: int| 0 <= j < before.len() implies row_ids(before)[j] != id by {
            assert(row_ids(rows)[j] != id);
        }
        lemma_first_index_is(row_ids(before), id, before.len() as int);
        lemma_no_rows_no_labels(before, id);
    }
}

/// One more row leaves the first row of an id where it was, if the id
/// occurred before.
pub proof fn lemma_first_row_stays(rows: Seq<TodoRowView>, id: int)
    requires
        rows.len() > 0,
        first_row(rows.drop_last(), id) < rows.len() - 1,
    ensures
        first_row(rows, id) == first_row(rows.drop_last(), id),
{
    let before = rows.drop_last();
    let first = first_row(before, id);
    lemma_first_index(row_ids(before), id);
    assert(row_ids(rows)[first] == row_ids(before)[first]);
    assert forall|j: int| 0 <= j < first implies row_ids(rows)[j] != id by {
        assert(row_ids(before)[j] != id);
    }
    lemma_first_index_is(row_ids(rows), id, first);
}

/// `folded` meets `folds_to`.
pub proof fn lemma_folded(rows: Seq<TodoRowView>)
    ensures
        folds_to(rows, folded(rows)),
    decreases rows.len(),
{
    if rows.len() > 0 {
        let before = rows.drop_last();
        let row = rows.last();
        let old_entities = folded(before);
        let entities = folded(rows);
        let place = place_of(old_entities, row.id);
        lemma_folded(before);
        lemma_first_index(entity_ids(old_entities), row.id);
        assert(entities.len() >= old_entities.len());
        // The entities that were there keep their id, text and state.
        assert forall|k: int| 0 <= k < old_entities.len() implies (#[trigger] entities[k]).id
            == old_entities[k].id && entities[k].text == old_entities[k].text
            && entities[k].completed == old_entities[k].completed by {}
        // No two of them share an id.
        assert forall|k: int| 0 <= k < old_entities.len() && k != place implies (
        #[trigger] old_entities[k]).id != row.id by {
            if old_entities[k].id == row.id {
                assert(entity_ids(old_entities)[k] == row.id);
                assert(place < old_entities.len());
                assert(entity_ids(old_entities)[place] == row.id);
                if k < place {
                    assert(first_row(before, old_entities[k].id) < first_row(
                        before,
                        old_entities[place].id,
                    ));
                } else {
                    assert(first_row(before, old_entities[place].id) < first_row(
                        before,
                        old_entities[k].id,
                    ));
                }
            }
        }
        // A row whose id is new is the first row of its id.
        if place == old_entities.len() {
            lemma_first_index(row_ids(before), row.id);
            if first_row(before, row.id) < before.len() {
                let i = first_row(before, row.id);
                assert(before[i].id == row_ids(before)[i]);
                assert(place_of(old_entities, before[i].id) < old_entities.len());
            }
            assert forall|j: int| 0 <= j < rows.len() - 1 implies row_ids(rows)[j] != row.id by {
                assert(row_ids(before)[j] != row.id);
            }
            assert(row_ids(rows)[rows.len() - 1] == row.id);
            lemma_first_index_is(row_ids(rows), row.id, rows.len() - 1);
            assert(entities[old_entities.len() as int].id == row.id);
        }
        assert forall|k: int| 0 <= k < entities.len() implies ({
            let todo = #[trigger] entities[k];
            let first = first_row(rows, todo.id);
            &&& 0 <= first < rows.len()
            &&& rows[first].id == todo.id
            &&& rows[first].text == todo.text
            &&& rows[first].completed == todo.completed
            &&& todo.labels == labels_of(rows, todo.id)
        }) by {
            let todo = entities[k];
            if k < old_entities.len() {
                let was = old_entities[k];
                lemma_first_row_stays(rows, todo.id);
                assert(rows[first_row(rows, todo.id)] == before[first_row(before, was.id)]);
                if k == place {
                    assert(entity_ids(old_entities)[place] == row.id);
                }
            } else {
                assert(k == old_entities.len());
                lemma_no_rows_no_labels(before, row.id);
                assert(todo.labels =~= labels_of(rows, row.id));
            }
        }
        assert forall|j: int, k: int| 0 <= j < k < entities.len() implies first_row(
            rows,
            (#[trigger] entities[j]).id,
        ) < first_row(rows, (#[trigger] entities[k]).id) by {
            assert(entities[j].id == old_entities[j].id);
            assert(first_row(before, old_entities[j].id) < before.len());
            lemma_first_row_stays(rows, entities[j].id);
            if k < old_entities.len() {
                assert(entities[k].id == old_entities[k].id);
                assert(first_row(before, old_entities[k].id) < before.len());
                lemma_first_row_stays(rows, entities[k].id);
                assert(first_row(before, old_entities[j].id) < first_row(
                    before,
                    old_entities[k].id,
                ));
            } else {
                assert(entities[k].id == row.id);
            }
        }
        assert forall|i: int| 0 <= i < rows.len() implies place_of(
            entities,
            (#[trigger] rows[i]).id,
        ) < entities.len() by {
            let id = rows[i].id;
            let was = if i < before.len() {
                place_of(old_entities, id)
            } else {
                place
            };
            if i < before.len() {
                assert(before[i].id == id);
            }
            lemma_first_index(entity_ids(old_entities), id);
            lemma_first_index(entity_ids(entities), id);
            if was < old_entities.len() {
                assert(entity_ids(old_entities)[was] == id);
                assert(entity_ids(entities)[was] == id);
            } else {
                assert(entity_ids(entities)[entities.len() - 1] == id);
            }
        }
    }
}

/// The place of the first entity with this id, or the number of entities.
fn find_place(entities: &Vec<TodoEntity>, id: i32) -> (place: usize)
    ensures
        place == place_of(entity_views(entities@), id as int),
{
    let ghost ids = entity_ids(entity_views(entities@));
    let mut place: usize = 0;
    while place < entities.len()
        invariant
            place <= entities.len(),
            ids == entity_ids(entity_views(entities@)),
            forall|j: int| 0 <= j < place ==> ids[j] != id,
        decreases entities.len() - place,
    {
        if entities[place].id == id {
            proof {
                lemma_first_index_is(ids, id as int, place as int);
            }
            return place;
        }
        place = place + 1;
    }
    proof {
        lemma_first_index_is(ids, id as int, place as int);
    }
    place
}

/// Folds the rows of a joined query into todos: one todo for each id, in the
/// order in which the ids first occur, with the labels of all rows of that
/// id.
pub fn fold_entities(rows: Vec<TodoWithLabelFromRow>) -> (entities: Vec<TodoEntity>)
    ensures
        entity_views(entities@) == folded(row_views(rows@)),
        folds_to(row_views(rows@), entity_views(entities@)),
{
    let mut accum: Vec<TodoEntity> = Vec::new();
    let mut i: usize = 0;
    assert(row_views(rows@).take(0) =~= Seq::empty());
    assert(entity_views(accum@) =~= Seq::empty());
    while i < rows.len()
        invariant
            i <= rows.len(),
            entity_views(accum@) == folded(row_views(rows@).take(i as int)),
        decreases rows.len() - i,
    {
        let current = &rows[i];
        let ghost before = entity_views(accum@);
        proof {
            let seen = row_views(rows@).take(i + 1);
            assert(seen.drop_last() =~= row_views(rows@).take(i as int));
            assert(seen.last() == current@);
        }
        let place = find_place(&accum, current.id);
        if place < accum.len() {
            match current.label() {
                Some(label) => {
                    let mut todo = accum[place].clone();
                    todo.labels.push(label);
                    assert(todo@.labels =~= before[place as int].labels.push(label@));
                    accum.set(place, todo);
                },
                None => {},
            }
        } else {
            let mut labels: Vec<Label> = Vec::new();
            match current.label() {
                Some(label) => {
                    labels.push(label);
                    assert(label_views(labels@) =~= seq![label@]);
                },
                None => {
                    assert(label_views(labels@) =~= Seq::empty());
                },
            }
            accum.push(
                TodoEntity {
                    id: current.id,
                    text: current.text.clone(),
                    completed: current.completed,
                    labels,
                },
            );
        }
        assert(entity_views(accum@) =~= absorb(before, current@));
        i = i + 1;
    }
    proof {
        assert(row_views(rows@).take(rows.len() as int) =~= row_views(rows@));
        lemma_folded(row_views(rows@));
    }
    accum
}

/// The todo that a single row stands for.
pub fn fold_entity(row: TodoWithLabelFromRow) -> (todo: TodoEntity)
    ensures
        todo@ == entity_of(row@),
        seq![todo@] == folded(seq![row@]),
{
    let mut rows: Vec<TodoWithLabelFromRow> = Vec::new();
    rows.push(row);
    assert(row_views(rows@) =~= seq![row@]);
    proof {
        let single = seq![row@];
        assert(single.drop_last() =~= Seq::<TodoRowView>::empty());
        assert(single.last() == row@);
        assert(folded(single.drop_last()) =~= Seq::<TodoEntityView>::empty());
        assert(entity_ids(Seq::<TodoEntityView>::empty()) =~= Seq::<int>::empty());
        assert(folded(single) == absorb(Seq::empty(), row@));
    }
    let mut entities = fold_entities(rows);
    let ghost views = entity_views(entities@);
    assert(views.len() == 1);
    let todo = entities.pop().unwrap();
    assert(todo@ == views[0]);
    assert(folded(seq![row@]) =~= seq![todo@]);
    todo
}

/// What a client sends to create a todo.
#[derive(Debug, PartialEq, Eq)]
pub struct CreateTodo {
    pub text: String,
}

impl CreateTodo {
    pub fn new(text: String) -> (payload: Self)
        ensures
            payload.text == text,
    {
        CreateTodo { text }
    }
}

impl Validate for CreateTodo {
    /// The text must have between one and a hundred characters.
    open spec fn violations(&self) -> Seq<ViolationView> {
        length_violations("text"@, self.text@)
    }

    fn validate(&self) -> (r: Result<(), Vec<Violation>>) {
        let mut found: Vec<Violation> = Vec::new();
        assert(violation_views(found@) =~= Seq::empty());
        note_length(&mut found, "text", &self.text);
        assert(violation_views(found@) =~= length_violations("text"@, self.text@));
        report(found)
    }
}

impl Clone for CreateTodo {
    fn clone(&self) -> (copy: Self)
        ensures
            copy == *self,
    {
        CreateTodo { text: self.text.clone() }
    }
}

/// What a client sends to change a todo. A field that is absent leaves the
/// stored field as it is; `labels` names the labels that the todo is to
/// carry from now on, by their ids.
#[derive(Debug, PartialEq, Eq)]
pub struct UpdateTodo {
    pub text: Option<String>,
    pub completed: Option<bool>,
    pub labels: Option<Vec<i32>>,
}

impl Validate for UpdateTodo {
    /// The text, if there is one, must have between one and a hundred
    /// characters.
    open spec fn violations(&self) -> Seq<ViolationView> {
        match self.text {
            Some(text) => length_violations("text"@, text@),
            None => Seq::empty(),
        }
    }

    fn validate(&self) -> (r: Result<(), Vec<Violation>>) {
        let mut found: Vec<Violation> = Vec::new();
        assert(violation_views(found@) =~= Seq::empty());
        match &self.text {
            Some(text) => {
                note_length(&mut found, "text", text);
                assert(violation_views(found@) =~= length_violations("text"@, text@));
            },
            None => {},
        }
        report(found)
    }
}

/// Ids as mathematical integers, in the same order.
pub open spec fn id_views(ids: Seq<i32>) -> Seq<int> {
    ids.map_values(|id: i32| id as int)
}

impl UpdateTodo {
    /// The text that the payload carries, as plain data.
    pub open spec fn text_view(&self) -> Option<Seq<char>> {
        match self.text {
            Some(text) => Some(text@),
            None => None,
        }
    }

    /// The label ids that the payload carries, as plain data.
    pub open spec fn label_ids(&self) -> Option<Seq<int>> {
        match self.labels {
            Some(ids) => Some(id_views(ids@)),
            None => None,
        }
    }

    /// Lays the text and the state of the payload, and the labels given,
    /// over `old`: each that is present replaces the stored one, the id stays.
    pub fn apply(self, old: &TodoEntity, labels: Option<Vec<Label>>) -> (todo: TodoEntity)
        ensures
            todo@ == merge(
                old@,
                self.text_view(),
                self.completed,
                match labels {
                    Some(labels) => Some(label_views(labels@)),
                    None => None,
                },
            ),
    {
        let text = match self.text {
            Some(text) => text,
            None => old.text.clone(),
        };
        let completed = match self.completed {
            Some(completed) => completed,
            None => old.completed,
        };
        let labels = match labels {
            Some(labels) => labels,
            None => clone_labels(&old.labels),
        };
        TodoEntity { id: old.id, text, completed, labels }
    }
}

/// `old` with each field replaced for which a new value is given.
pub open spec fn merge(
    old: TodoEntityView,
    text: Option<Seq<char>>,
    completed: Option<bool>,
    labels: Option<Seq<LabelView>>,
) -> TodoEntityView {
    TodoEntityView {
        id: old.id,
        text: match text {
            Some(text) => text,
            None => old.text,
        },
        completed: match completed {
            Some(completed) => completed,
            None => old.completed,
        },
        labels: match labels {
            Some(labels) => labels,
            None => old.labels,
        },
    }
}

/// The ids of the labels, in the same order.
pub open spec fn ids_of(labels: Seq<LabelView>) -> Seq<int> {
    labels.map_values(|label: LabelView| label.id)
}

/// The first of `labels` that has this id.
pub open spec fn label_with_id(labels: Seq<LabelView>, id: int) -> Option<LabelView> {
    let place = first_index(ids_of(labels), id);
    if place < labels.len() {
        Some(labels[place])
    } else {
        None
    }
}

/// The labels that `ids` name among `labels`, in the order of `ids`; or
/// `NotFound` with the first id that names none.
pub open spec fn resolved(labels: Seq<LabelView>, ids: Seq<int>) -> Result<
    Seq<LabelView>,
    RepositoryErrorView,
>
    decreases ids.len(),
{
    if ids.len() == 0 {
        Ok(Seq::empty())
    } else {
        match resolved(labels, ids.drop_last()) {
            Err(e) => Err(e),
            Ok(found) => match label_with_id(labels, ids.last()) {
                Some(label) => Ok(found.push(label)),
                None => Err(RepositoryErrorView::NotFound(ids.last())),
            },
        }
    }
}

/// The first of `labels` that has this id.
pub fn find_label(labels: &Vec<Label>, id: i32) -> (found: Option<Label>)
    ensures
        match found {
            Some(label) => label_with_id(label_views(labels@), id as int) == Some(label@),
            None => label_with_id(label_views(labels@), id as int) is None,
        },
{
    let ghost ids = ids_of(label_views(labels@));
    let mut place: usize = 0;
    while place < labels.len()
        invariant
            place <= labels.len(),
            ids == ids_of(label_views(labels@)),
            forall|j: int| 0 <= j < place ==> ids[j] != id,
        decreases labels.len() - place,
    {
        if labels[place].id == id {
            proof {
                lemma_first_index_is(ids, id as int, place as int);
            }
            return Some(labels[place].clone());
        }
        place = place + 1;
    }
    proof {
        lemma_first_index_is(ids, id as int, place as int);
    }
    None
}

/// The labels that `ids` name among `labels`, in the order of `ids`. An id
/// that names no label is an error, not a crash: the answer is then
/// `NotFound` with the first such id.
pub fn resolve_labels(labels: &Vec<Label>, ids: &Vec<i32>) -> (r: Result<
    Vec<Label>,
    RepositoryError,
>)
    ensures
        match r {
            Ok(found) => resolved(label_views(labels@), id_views(ids@)) == Ok::<
                Seq<LabelView>,
                RepositoryErrorView,
            >(label_views(found@)),
            Err(e) => e is NotFound && resolved(label_views(labels@), id_views(ids@)) == Err::<
                Seq<LabelView>,
                RepositoryErrorView,
            >(e@),
        },
{
    let mut found: Vec<Label> = Vec::new();
    let mut i: usize = 0;
    assert(id_views(ids@).take(0) =~= Seq::empty());
    assert(label_views(found@) =~= Seq::empty());
    while i < ids.len()
        invariant
            i <= ids.len(),
            resolved(label_views(labels@), id_views(ids@).take(i as int)) == Ok::<
                Seq<LabelView>,
                RepositoryErrorView,
            >(label_views(found@)),
        decreases ids.len() - i,
    {
        let id = ids[i];
        let ghost before = label_views(found@);
        proof {
            let seen = id_views(ids@).take(i + 1);
            assert(seen.drop_last() =~= id_views(ids@).take(i as int));
            assert(seen.last() == id as int);
        }
        match find_label(labels, id) {
            Some(label) => {
                found.push(label);
                assert(label_views(found@) =~= before.push(label@));
            },
            None => {
                proof {
                    lemma_resolved_fails_for_good(
                        label_views(labels@),
                        id_views(ids@),
                        i as int + 1,
                    );
                }
                return Err(RepositoryError::NotFound(id));
            },
        }
        i = i + 1;
    }
    assert(id_views(ids@).take(ids.len() as int) =~= id_views(ids@));
    Ok(found)
}

/// Once an id names no label, more ids do not mend it.
pub proof fn lemma_resolved_fails_for_good(labels: Seq<LabelView>, ids: Seq<int>, upto: int)
    requires
        0 <= upto <= ids.len(),
        resolved(labels, ids.take(upto)) is Err,
    ensures
        resolved(labels, ids) == resolved(labels, ids.take(upto)),
    decreases ids.len(),
{
    if upto < ids.len() {
        assert(ids.drop_last().take(upto) =~= ids.take(upto));
        lemma_resolved_fails_for_good(labels, ids.drop_last(), upto);
    } else {
        assert(ids.take(upto) =~= ids);
    }
}

/// The result of a todo operation as plain data.
pub open spec fn entity_result_view(r: Result<TodoEntity, RepositoryError>) -> Result<
    TodoEntityView,
    RepositoryErrorView,
> {
    match r {
        Ok(todo) => Ok(todo@),
        Err(e) => Err(e@),
    }
}

/// What `update` answers for a todo that is stored as `old`, where `labels`
/// are the labels that can be named.
pub open spec fn update_of(
    old: TodoEntityView,
    labels: Seq<LabelView>,
    text: Option<Seq<char>>,
    completed: Option<bool>,
    label_ids: Option<Seq<int>>,
) -> Result<TodoEntityView, RepositoryErrorView> {
    match label_ids {
        None => Ok(merge(old, text, completed, None)),
        Some(ids) => match resolved(labels, ids) {
            Ok(found) => Ok(merge(old, text, completed, Some(found))),
            Err(e) => Err(e),
        },
    }
}

/// What every repository of todos with labels offers, whatever stores the
/// todos.
///
/// A store may fail for reasons of its own (a lost connection); it then
/// answers `Unexpected` and has changed nothing.
pub trait TodoRepository: Sized {
    /// The stored todos, by id.
    spec fn todos(&self) -> Map<int, TodoEntityView>;

    /// The store has an id left for one more todo.
    spec fn has_room(&self) -> bool;

    /// The store never fails for a reason of its own: what it answers
    /// follows from what it holds.
    spec fn dependable(&self) -> bool;

    /// The labels that an update can name.
    spec fn labels(&self) -> Seq<LabelView>;

    /// Stores a new, uncompleted todo without labels under an id that no
    /// stored todo has.
    fn create(&mut self, payload: CreateTodo) -> (r: Result<TodoEntity, RepositoryError>)
        ensures
            final(self).dependable() == old(self).dependable(),
            old(self).has_room() ==> r is Ok,
            final(self).labels() == old(self).labels(),
            match r {
                Ok(todo) => {
                    &&& !old(self).todos().contains_key(todo.id as int)
                    &&& todo@ == (TodoEntityView {
                        id: todo.id as int,
                        text: payload.text@,
                        completed: false,
                        labels: Seq::empty(),
                    })
                    &&& final(self).todos() == old(self).todos().insert(todo.id as int, todo@)
                },
                Err(e) => e is Unexpected && final(self).todos() == old(self).todos(),
            },
    ;

    /// The todo stored under `id`.
    fn find(&self, id: i32) -> (r: Result<TodoEntity, RepositoryError>)
        ensures
            self.dependable() ==> !(r matches Err(RepositoryError::Unexpected(_))),
            match r {
                Ok(todo) => self.todos().contains_key(id as int) && todo@ == self.todos()[id as int],
                Err(RepositoryError::NotFound(missing)) => missing == id
                    && !self.todos().contains_key(id as int),
                Err(RepositoryError::Unexpected(_)) => true,
                Err(RepositoryError::Duplicate(_)) => false,
            },
    ;

    /// Every stored todo, once.
    fn all(&self) -> (r: Result<Vec<TodoEntity>, RepositoryError>)
        ensures
            self.dependable() ==> r is Ok,
            match r {
                Ok(list) => lists_exactly(entity_views(list@), self.todos()),
                Err(e) => e is Unexpected,
            },
    ;

    /// Lays `payload` over the todo stored under `id`. Where the payload
    /// names labels, each id must name one: otherwise the answer is
    /// `NotFound` with the first id that names none, and nothing changes.
    fn update(&mut self, id: i32, payload: UpdateTodo) -> (r: Result<TodoEntity, RepositoryError>)
        ensures
            final(self).has_room() == old(self).has_room(),
            final(self).dependable() == old(self).dependable(),
            old(self).dependable() ==> !(r matches Err(RepositoryError::Unexpected(_))),
            final(self).labels() == old(self).labels(),
            match r {
                Ok(todo) => {
                    &&& old(self).todos().contains_key(id as int)
                    &&& Ok::<TodoEntityView, RepositoryErrorView>(todo@) == update_of(
                        old(self).todos()[id as int],
                        old(self).labels(),
                        payload.text_view(),
                        payload.completed,
                        payload.label_ids(),
                    )
                    &&& final(self).todos() == old(self).todos().insert(id as int, todo@)
                },
                Err(RepositoryError::NotFound(missing)) => {
                    &&& final(self).todos() == old(self).todos()
                    &&& if old(self).todos().contains_key(id as int) {
                        update_of(
                            old(self).todos()[id as int],
                            old(self).labels(),
                            payload.text_view(),
                            payload.completed,
                            payload.label_ids(),
                        ) == Err::<TodoEntityView, RepositoryErrorView>(
                            RepositoryErrorView::NotFound(missing as int),
                        )
                    } else {
                        missing == id
                    }
                },
                Err(RepositoryError::Unexpected(_)) => final(self).todos() == old(self).todos(),
                Err(RepositoryError::Duplicate(_)) => false,
            },
    ;

    /// Removes the todo stored under `id`.
    fn delete(&mut self, id: i32) -> (r: Result<(), RepositoryError>)
        ensures
            final(self).has_room() == old(self).has_room(),
            final(self).dependable() == old(self).dependable(),
            old(self).dependable() ==> !(r matches Err(RepositoryError::Unexpected(_))),
            final(self).labels() == old(self).labels(),
            match r {
                Ok(_) => {
                    &&& old(self).todos().contains_key(id as int)
                    &&& final(self).todos() == old(self).todos().remove(id as int)
                },
                Err(RepositoryError::NotFound(missing)) => {
                    &&& missing == id
                    &&& !old(self).todos().contains_key(id as int)
                    &&& final(self).todos() == old(self).todos()
                },
                Err(RepositoryError::Unexpected(_)) => final(self).todos() == old(self).todos(),
                Err(RepositoryError::Duplicate(_)) => false,
            },
    ;
}

/// The view of the error that a statement for the row with this id ends in.
pub open spec fn driver_error_view(error: DriverError, id: int) -> RepositoryErrorView {
    if error.row_not_found {
        RepositoryErrorView::NotFound(id)
    } else {
        RepositoryErrorView::Unexpected(error.message@)
    }
}

/// What a relational store answers after the statement that inserts a todo
/// and returns its row.
pub fn after_insert(inserted: Result<TodoWithLabelFromRow, DriverError>) -> (r: Result<
    TodoEntity,
    RepositoryError,
>)
    ensures
        match inserted {
            Ok(row) => r matches Ok(todo) && todo@ == entity_of(row@),
            Err(error) => r matches Err(e) && e@ == RepositoryErrorView::Unexpected(
                error.message@,
            ),
        },
{
    match rows_or_unexpected(inserted) {
        Ok(row) => Ok(fold_entity(row)),
        Err(e) => Err(e),
    }
}

/// What a relational store answers after the statement that selects the
/// rows of the todo with this id, a row for each of its labels: the rows,
/// folded into the one todo; or `NotFound` if there is no row.
pub fn after_select(id: i32, selected: Result<Vec<TodoWithLabelFromRow>, DriverError>) -> (r:
    Result<TodoEntity, RepositoryError>)
    ensures
        match selected {
            Ok(rows) => if rows@.len() == 0 {
                r matches Err(e) && e@ == RepositoryErrorView::NotFound(id as int)
            } else {
                r matches Ok(todo) && folded(row_views(rows@)).len() > 0 && todo@ == folded(
                    row_views(rows@),
                )[0]
            },
            Err(error) => r matches Err(e) && e@ == driver_error_view(error, id as int),
        },
{
    match row_for(id, selected) {
        Ok(rows) => {
            if rows.len() == 0 {
                return Err(RepositoryError::NotFound(id));
            }
            let ghost first = row_views(rows@)[0];
            let entities = fold_entities(rows);
            assert(place_of(entity_views(entities@), first.id) < entities@.len());
            Ok(entities[0].clone())
        },
        Err(e) => Err(e),
    }
}

/// What a relational store answers after the statement that selects all
/// todos: the rows, folded.
pub fn after_select_all(selected: Result<Vec<TodoWithLabelFromRow>, DriverError>) -> (r: Result<
    Vec<TodoEntity>,
    RepositoryError,
>)
    ensures
        match selected {
            Ok(rows) => r matches Ok(list) && entity_views(list@) == folded(row_views(rows@))
                && folds_to(row_views(rows@), entity_views(list@)),
            Err(error) => r matches Err(e) && e@ == RepositoryErrorView::Unexpected(
                error.message@,
            ),
        },
{
    match rows_or_unexpected(selected) {
        Ok(rows) => Ok(fold_entities(rows)),
        Err(e) => Err(e),
    }
}

/// What a relational store writes when it updates a todo: the todo as it is
/// to be, and whether the labels that it carries are to be written anew.
#[derive(Debug, PartialEq, Eq)]
pub struct UpdatePlan {
    pub todo: TodoEntity,
    pub replace_labels: bool,
}

/// What a relational store is to write when it updates the todo with this
/// id, once it has read the rows of the todo as it was and, where the payload
/// names labels, the labels that there are. Each field of the payload that is
/// present is laid over the todo that was read. Each label id must name one
/// of the labels: otherwise the answer is `NotFound` with the first id that
/// names none. If the todo could not be read, or a label is not there,
/// nothing is to be written.
///
/// Reading and writing are several statements, and nothing holds the rows
/// between them: of two updates of one todo at the same time, one may be lost.
pub fn plan_update(
    id: i32,
    payload: UpdateTodo,
    read: Result<Vec<TodoWithLabelFromRow>, DriverError>,
    known: &Vec<Label>,
) -> (r: Result<UpdatePlan, RepositoryError>)
    ensures
        match read {
            Err(error) => r matches Err(e) && e@ == driver_error_view(error, id as int),
            Ok(rows) => if rows@.len() == 0 {
                r matches Err(e) && e@ == RepositoryErrorView::NotFound(id as int)
            } else {
                match update_of(
                    folded(row_views(rows@))[0],
                    label_views(known@),
                    payload.text_view(),
                    payload.completed,
                    payload.label_ids(),
                ) {
                    Ok(todo) => r matches Ok(plan) && plan.todo@ == todo && plan.replace_labels
                        == (payload.labels is Some),
                    Err(error) => r matches Err(e) && e@ == error,
                }
            },
        },
{
    let replace_labels = payload.labels.is_some();
    let old = match after_select(id, read) {
        Ok(old) => old,
        Err(e) => { return Err(e); },
    };
    let labels = match &payload.labels {
        Some(ids) => match resolve_labels(known, ids) {
            Ok(found) => Some(found),
            Err(e) => { return Err(e); },
        },
        None => None,
    };
    let todo = payload.apply(&old, labels);
    Ok(UpdatePlan { todo, replace_labels })
}

/// What a relational store answers after the statement that updates the
/// todo with this id and returns its row: the todo of that row, with the
/// labels of the plan. If the todo was deleted after it was read, no row
/// comes back: that is `NotFound`.
pub fn after_update(
    id: i32,
    written: Result<TodoWithLabelFromRow, DriverError>,
    plan: UpdatePlan,
) -> (r: Result<TodoEntity, RepositoryError>)
    ensures
        match written {
            Ok(row) => r matches Ok(todo) && todo@ == (TodoEntityView {
                labels: plan.todo@.labels,
                ..entity_of(row@)
            }),
            Err(error) => r matches Err(e) && e@ == driver_error_view(error, id as int),
        },
{
    match row_for(id, written) {
        Ok(row) => Ok(
            TodoEntity {
                id: row.id,
                text: row.text,
                completed: row.completed,
                labels: plan.todo.labels,
            },
        ),
        Err(e) => Err(e),
    }
}

/// An in-memory store of todos with labels as plain data: the stored todos,
/// the id that the next new todo gets, and the labels that an update can name.
///
/// Ids come from a counter that only grows. An id is therefore never handed
/// out twice, not even after the todo that had it was deleted. (Taking the
/// number of stored todos plus one instead would hand out an id that is still
/// in use as soon as an earlier todo has been deleted.)
pub struct EntityTable {
    pub rows: Map<int, TodoEntityView>,
    pub next_id: int,
    pub labels: Seq<LabelView>,
}

impl EntityTable {
    /// Every todo is stored under its own id, and all ids handed out so far
    /// lie below the counter.
    pub open spec fn wf(self) -> bool {
        &&& 1 <= self.next_id <= i32::MAX
        &&& forall|id: int| #[trigger]
            self.rows.contains_key(id) ==> 1 <= id < self.next_id && self.rows[id].id == id
    }

    pub open spec fn empty(labels: Seq<LabelView>) -> Self {
        EntityTable { rows: Map::empty(), next_id: 1, labels }
    }

    /// No id is left to hand out.
    pub open spec fn exhausted(self) -> bool {
        self.next_id >= i32::MAX
    }

    /// The todo that `create` makes of `text`.
    pub open spec fn fresh(self, text: Seq<char>) -> TodoEntityView {
        TodoEntityView { id: self.next_id, text, completed: false, labels: Seq::empty() }
    }

    /// What `create` answers.
    pub open spec fn created(self, text: Seq<char>) -> Result<TodoEntityView, RepositoryErrorView> {
        if self.exhausted() {
            Err(RepositoryErrorView::Unexpected("todo ids are used up"@))
        } else {
            Ok(self.fresh(text))
        }
    }

    /// The table after `create`.
    pub open spec fn create(self, text: Seq<char>) -> Self {
        if self.exhausted() {
            self
        } else {
            EntityTable {
                rows: self.rows.insert(self.next_id, self.fresh(text)),
                next_id: self.next_id + 1,
                ..self
            }
        }
    }

    /// What `find` answers.
    pub open spec fn found(self, id: int) -> Result<TodoEntityView, RepositoryErrorView> {
        if self.rows.contains_key(id) {
            Ok(self.rows[id])
        } else {
            Err(RepositoryErrorView::NotFound(id))
        }
    }

    /// What `update` answers.
    pub open spec fn updated(
        self,
        id: int,
        text: Option<Seq<char>>,
        completed: Option<bool>,
        label_ids: Option<Seq<int>>,
    ) -> Result<TodoEntityView, RepositoryErrorView> {
        if self.rows.contains_key(id) {
            update_of(self.rows[id], self.labels, text, completed, label_ids)
        } else {
            Err(RepositoryErrorView::NotFound(id))
        }
    }

    /// The table after `update`.
    pub open spec fn update(
        self,
        id: int,
        text: Option<Seq<char>>,
        completed: Option<bool>,
        label_ids: Option<Seq<int>>,
    ) -> Self {
        match self.updated(id, text, completed, label_ids) {
            Ok(todo) => EntityTable { rows: self.rows.insert(id, todo), ..self },
            Err(_) => self,
        }
    }

    /// What `delete` answers.
    pub open spec fn deleted(self, id: int) -> Result<(), RepositoryErrorView> {
        if self.rows.contains_key(id) {
            Ok(())
        } else {
            Err(RepositoryErrorView::NotFound(id))
        }
    }

    /// The table after `delete`.
    pub open spec fn delete(self, id: int) -> Self {
        EntityTable { rows: self.rows.remove(id), ..self }
    }

    /// All stored todos, the newest first.
    pub open spec fn listing(self) -> Seq<TodoEntityView> {
        descending(self.rows, 1, self.next_id - 1)
    }

    /// A todo that was created is found under the id it was given, and is
    /// then the very todo that `create` handed out.
    pub proof fn law_create_then_find(self, text: Seq<char>)
        requires
            self.wf(),
            self.created(text) is Ok,
        ensures
            self.create(text).wf(),
            self.create(text).found(self.created(text)->Ok_0.id) == self.created(text),
    {
    }

    /// An update changes the fields that the payload carries and keeps the
    /// others; the todo is then stored as `update` handed it out.
    pub proof fn law_update_keeps_absent_fields(
        self,
        id: int,
        text: Option<Seq<char>>,
        completed: Option<bool>,
        label_ids: Option<Seq<int>>,
    )
        requires
            self.wf(),
            self.updated(id, text, completed, label_ids) is Ok,
        ensures
            self.update(id, text, completed, label_ids).wf(),
            self.update(id, text, completed, label_ids).found(id) == self.updated(
                id,
                text,
                completed,
                label_ids,
            ),
            ({
                let before = self.found(id)->Ok_0;
                let after = self.updated(id, text, completed, label_ids)->Ok_0;
                &&& after.id == id
                &&& text is None ==> after.text == before.text
                &&& text matches Some(new_text) ==> after.text == new_text
                &&& completed is None ==> after.completed == before.completed
                &&& completed matches Some(flag) ==> after.completed == flag
                &&& label_ids is None ==> after.labels == before.labels
                &&& label_ids matches Some(ids) ==> resolved(self.labels, ids) == Ok::<
                    Seq<LabelView>,
                    RepositoryErrorView,
                >(after.labels)
            }),
    {
    }

    /// A todo can be deleted once: the first `delete` of a stored todo
    /// succeeds, the second answers `NotFound`, and changes nothing more.
    pub proof fn law_delete_twice(self, id: int)
        requires
            self.wf(),
            self.found(id) is Ok,
        ensures
            self.delete(id).wf(),
            self.deleted(id) is Ok,
            self.delete(id).deleted(id) == Err::<(), RepositoryErrorView>(
                RepositoryErrorView::NotFound(id),
            ),
            self.delete(id).found(id) is Err,
            self.delete(id).delete(id) == self.delete(id),
    {
        assert(self.delete(id).delete(id).rows =~= self.delete(id).rows);
    }
}

/// A store of todos with labels that lives in memory.
pub struct TodoRepositoryForMemory {
    store: HashMap<i32, TodoEntity>,
    first_id: i32,
    next_id: i32,
    labels: Vec<Label>,
}

impl View for TodoRepositoryForMemory {
    type V = EntityTable;

    closed spec fn view(&self) -> EntityTable {
        EntityTable {
            rows: Map::new(
                |id: int| i32::MIN <= id <= i32::MAX && self.store@.contains_key(id as i32),
                |id: int| self.store@[id as i32]@,
            ),
            next_id: self.next_id as int,
            labels: label_views(self.labels@),
        }
    }
}

/// Every todo of `store` sits under its own id, which lies between the
/// first id that the store handed out and the counter.
spec fn sound(store: Map<i32, TodoEntity>, first_id: i32, next_id: i32) -> bool {
    &&& 1 <= first_id <= next_id
    &&& forall|id: i32| #[trigger]
        store.contains_key(id) ==> first_id <= id < next_id && store[id].id == id
}

impl TodoRepositoryForMemory {
    #[verifier::type_invariant]
    spec fn inv(self) -> bool {
        sound(self.store@, self.first_id, self.next_id)
    }

    proof fn lemma_wf(self)
        requires
            self.inv(),
        ensures
            self@.wf(),
            1 <= self.first_id <= self.next_id,
            forall|id: int| 1 <= id < self.first_id ==> !self@.rows.contains_key(id),
    {
        assert forall|id: int| 1 <= id < self.first_id implies !self@.rows.contains_key(id) by {
            if self@.rows.contains_key(id) {
                assert(self.store@.contains_key(id as i32));
            }
        }
        assert forall|id: int| #[trigger] self@.rows.contains_key(id) implies 1 <= id
            < self@.next_id && self@.rows[id].id == id by {
            assert(self.store@.contains_key(id as i32));
        }
    }

    /// A store without todos, whose updates can name `labels`; the first
    /// todo gets id 1.
    pub fn new(labels: Vec<Label>) -> (repository: Self)
        ensures
            repository@ == EntityTable::empty(label_views(labels@)),
    {
        let repository = TodoRepositoryForMemory { store: HashMap::new(), first_id: 1, next_id: 1, labels };
        assert(repository@.rows =~= Map::empty());
        repository
    }

    /// A store without todos, whose updates can name `labels` and whose
    /// first todo gets `first_id`, or 1 if that is less: a store that goes on
    /// where an earlier one has stopped.
    pub fn starting_at(first_id: i32, labels: Vec<Label>) -> (repository: Self)
        ensures
            repository@ == (EntityTable {
                rows: Map::empty(),
                next_id: if first_id < 1 {
                    1
                } else {
                    first_id as int
                },
                labels: label_views(labels@),
            }),
    {
        let next_id = if first_id < 1 {
            1
        } else {
            first_id
        };
        let repository = TodoRepositoryForMemory { store: HashMap::new(), first_id: next_id, next_id, labels };
        assert(repository@.rows =~= Map::empty());
        repository
    }

    /// Stores `todo` under `id`. The map leaves the store while it changes,
    /// so that the store is sound at every step.
    fn put(&mut self, id: i32, todo: TodoEntity)
        requires
            old(self).first_id <= id < old(self).next_id,
            todo.id == id,
        ensures
            final(self)@ == (EntityTable {
                rows: old(self)@.rows.insert(id as int, todo@),
                ..old(self)@
            }),
    {
        proof {
            use_type_invariant(&*self);
        }
        let mut held: HashMap<i32, TodoEntity> = HashMap::new();
        core::mem::swap(&mut self.store, &mut held);
        held.insert(id, todo);
        self.store = held;
        assert(self@.rows =~= old(self)@.rows.insert(id as int, todo@));
    }

    /// Removes what is stored under `id`, and says whether anything was.
    fn take(&mut self, id: i32) -> (found: bool)
        ensures
            found == old(self)@.rows.contains_key(id as int),
            final(self)@ == old(self)@.delete(id as int),
    {
        proof {
            use_type_invariant(&*self);
        }
        let mut held: HashMap<i32, TodoEntity> = HashMap::new();
        core::mem::swap(&mut self.store, &mut held);
        let removed = held.remove(&id);
        self.store = held;
        assert(self@.rows =~= old(self)@.rows.remove(id as int));
        removed.is_some()
    }
}

impl TodoRepository for TodoRepositoryForMemory {
    open spec fn todos(&self) -> Map<int, TodoEntityView> {
        self@.rows
    }

    /// The counter has not reached the last id.
    open spec fn has_room(&self) -> bool {
        !self@.exhausted()
    }

    /// A store in memory has nothing to fail on.
    open spec fn dependable(&self) -> bool {
        true
    }

    open spec fn labels(&self) -> Seq<LabelView> {
        self@.labels
    }

    /// Fails only when the ids are used up; the new todo gets the counter's
    /// value as its id.
    fn create(&mut self, payload: CreateTodo) -> (r: Result<TodoEntity, RepositoryError>)
        ensures
            old(self)@.wf(),
            final(self)@.wf(),
            final(self).todos() == final(self)@.rows,
            final(self).labels() == final(self)@.labels,
            final(self)@ == old(self)@.create(payload.text@),
            entity_result_view(r) == old(self)@.created(payload.text@),
    {
        proof {
            use_type_invariant(&*self);
            self.lemma_wf();
        }
        if self.next_id == i32::MAX {
            return Err(RepositoryError::Unexpected("todo ids are used up".to_owned()));
        }
        let id = self.next_id;
        let todo = TodoEntity { id, text: payload.text, completed: false, labels: Vec::new() };
        assert(todo@.labels =~= Seq::empty());
        self.next_id = id + 1;
        self.put(id, todo.clone());
        proof {
            use_type_invariant(&*self);
            self.lemma_wf();
        }
        Ok(todo)
    }

    /// `NotFound` exactly when nothing is stored under `id`.
    fn find(&self, id: i32) -> (r: Result<TodoEntity, RepositoryError>)
        ensures
            self@.wf(),
            self.todos() == self@.rows,
            self.labels() == self@.labels,
            entity_result_view(r) == self@.found(id as int),
    {
        proof {
            use_type_invariant(self);
            self.lemma_wf();
        }
        match self.store.get(&id) {
            Some(todo) => Ok(todo.clone()),
            None => Err(RepositoryError::NotFound(id)),
        }
    }

    /// Never fails; the newest todo comes first. Walks all ids that were
    /// handed out so far.
    fn all(&self) -> (r: Result<Vec<TodoEntity>, RepositoryError>)
        ensures
            self@.wf(),
            self.todos() == self@.rows,
            self.labels() == self@.labels,
            r matches Ok(list) && entity_views(list@) == self@.listing(),
            r matches Ok(list) && descending_ids(entity_views(list@)),
    {
        proof {
            use_type_invariant(self);
            self.lemma_wf();
        }
        let mut list: Vec<TodoEntity> = Vec::new();
        let mut id: i32 = self.next_id;
        assert(entity_views(list@) =~= descending(self@.rows, id as int, self.next_id - 1));
        while id > self.first_id
            invariant
                self.first_id <= id <= self.next_id,
                self@.wf(),
                entity_views(list@) == descending(self@.rows, id as int, self.next_id - 1),
            decreases id - self.first_id,
        {
            id = id - 1;
            let ghost before = list@;
            match self.store.get(&id) {
                Some(todo) => {
                    list.push(todo.clone());
                    assert(entity_views(list@) =~= entity_views(before).push(todo@));
                },
                None => {},
            }
        }
        proof {
            lemma_descending_starts_late(
                self@.rows,
                1,
                self.first_id as int,
                self.next_id - 1,
            );
            lemma_descending_lists_all(self@.rows, 1, self.next_id - 1);
        }
        Ok(list)
    }

    /// `NotFound` with `id` when nothing is stored under `id`; else, where
    /// the payload names labels, `NotFound` with the first id that names
    /// none. Then nothing changes.
    fn update(&mut self, id: i32, payload: UpdateTodo) -> (r: Result<TodoEntity, RepositoryError>)
        ensures
            old(self)@.wf(),
            final(self)@.wf(),
            final(self).todos() == final(self)@.rows,
            final(self).labels() == final(self)@.labels,
            final(self)@ == old(self)@.update(
                id as int,
                payload.text_view(),
                payload.completed,
                payload.label_ids(),
            ),
            entity_result_view(r) == old(self)@.updated(
                id as int,
                payload.text_view(),
                payload.completed,
                payload.label_ids(),
            ),
    {
        proof {
            use_type_invariant(&*self);
            self.lemma_wf();
        }
        let todo = match self.store.get(&id) {
            Some(old) => {
                let labels = match &payload.labels {
                    Some(ids) => match resolve_labels(&self.labels, ids) {
                        Ok(found) => Some(found),
                        Err(e) => { return Err(e); },
                    },
                    None => None,
                };
                payload.apply(old, labels)
            },
            None => { return Err(RepositoryError::NotFound(id)); },
        };
        self.put(id, todo.clone());
        proof {
            use_type_invariant(&*self);
            self.lemma_wf();
        }
        Ok(todo)
    }

    /// `NotFound` exactly when nothing is stored under `id`.
    fn delete(&mut self, id: i32) -> (r: Result<(), RepositoryError>)
        ensures
            old(self)@.wf(),
            final(self)@.wf(),
            final(self).todos() == final(self)@.rows,
            final(self).labels() == final(self)@.labels,
            final(self)@ == old(self)@.delete(id as int),
            unit_result_view(r) == old(self)@.deleted(id as int),
    {
        proof {
            use_type_invariant(&*self);
            self.lemma_wf();
        }
        let found = self.take(id);
        proof {
            use_type_invariant(&*self);
            self.lemma_wf();
        }
        if found {
            Ok(())
        } else {
            Err(RepositoryError::NotFound(id))
        }
    }
}

} // verus!
