//! The endpoints for labels.

use crate::handlers::{
    length_violations, note_length, report, violation_views, StatusCode, Validate, ValidateJson,
    Violation, ViolationView,
};
use crate::repositories::labels::{label_views, name_taken, Label, LabelRepository, LabelView};
use crate::repositories::listing::lists_exactly;
use crate::repositories::RepositoryError;
use vstd::prelude::*;

verus! {

/// What a client sends to create a label.
#[derive(Debug, PartialEq, Eq)]
pub struct CreateLabel {
    pub name: String,
}

impl CreateLabel {
    pub fn new(name: String) -> (payload: Self)
        ensures
            payload.name == name,
    {
        CreateLabel { name }
    }
}

impl Validate for CreateLabel {
    /// The name must have between one and a hundred characters.
    open spec fn violations(&self) -> Seq<ViolationView> {
        length_violations("name"@, self.name@)
    }

    fn validate(&self) -> (r: Result<(), Vec<Violation>>) {
        let mut found: Vec<Violation> = Vec::new();
        assert(violation_views(found@) =~= Seq::empty());
        note_length(&mut found, "name", &self.name);
        assert(violation_views(found@) =~= length_violations("name"@, self.name@));
        report(found)
    }
}

/// The response to a request that was to create a label, given what the
/// repository answered: 201 with the label, or the status of the error, which
/// is 409 where a label of that name is there already.
pub fn create_label_response(outcome: Result<Label, RepositoryError>) -> (r: Result<
    (StatusCode, Label),
    StatusCode,
>)
    ensures
        match outcome {
            Ok(label) => r == Ok::<(StatusCode, Label), StatusCode>((StatusCode::Created, label)),
            Err(e) => r == Err::<(StatusCode, Label), StatusCode>(e@.status()),
        },
{
    match outcome {
        Ok(label) => Ok((StatusCode::Created, label)),
        Err(e) => Err(e.status()),
    }
}

/// The response to a request for all labels, given what the repository
/// answered: 200 with the labels, or the status of the error.
pub fn all_label_response(outcome: Result<Vec<Label>, RepositoryError>) -> (r: Result<
    (StatusCode, Vec<Label>),
    StatusCode,
>)
    ensures
        match outcome {
            Ok(labels) => r == Ok::<(StatusCode, Vec<Label>), StatusCode>(
                (StatusCode::Okay, labels),
            ),
            Err(e) => r == Err::<(StatusCode, Vec<Label>), StatusCode>(e@.status()),
        },
{
    match outcome {
        Ok(labels) => Ok((StatusCode::Okay, labels)),
        Err(e) => Err(e.status()),
    }
}

/// The response to a request that was to delete a label, given what the
/// repository answered: 204, or the status of the error, which is 404 where
/// the label is not there.
pub fn delete_label_response(outcome: Result<(), RepositoryError>) -> (status: StatusCode)
    ensures
        status == match outcome {
            Ok(_) => StatusCode::NoContent,
            Err(e) => e@.status(),
        },
{
    match outcome {
        Ok(_) => StatusCode::NoContent,
        Err(e) => e.status(),
    }
}

/// Creates a label of the name that the payload carries: 201 with the label,
/// 409 if a label of that name is there already, or 500 if the repository
/// failed. Unless the answer is 201, nothing was stored.
pub fn create_label<T: LabelRepository>(
    payload: ValidateJson<CreateLabel>,
    repository: &mut T,
) -> (r: Result<(StatusCode, Label), StatusCode>)
    ensures
        final(repository).dependable() == old(repository).dependable(),
        old(repository).has_room() && !name_taken(
            old(repository).labels(),
            payload.payload().name@,
        ) ==> r is Ok,
        old(repository).dependable() && name_taken(
            old(repository).labels(),
            payload.payload().name@,
        ) ==> r == Err::<(StatusCode, Label), StatusCode>(StatusCode::Conflict),
        match r {
            Ok((status, label)) => {
                &&& status == StatusCode::Created
                &&& !name_taken(old(repository).labels(), payload.payload().name@)
                &&& !old(repository).labels().contains_key(label.id as int)
                &&& label@ == (LabelView { id: label.id as int, name: payload.payload().name@ })
                &&& final(repository).labels() == old(repository).labels().insert(
                    label.id as int,
                    label@,
                )
            },
            Err(status) => {
                &&& status == StatusCode::Conflict || status == StatusCode::InternalServerError
                &&& status == StatusCode::Conflict ==> name_taken(
                    old(repository).labels(),
                    payload.payload().name@,
                )
                &&& final(repository).labels() == old(repository).labels()
            },
        },
{
    let payload = payload.into_inner();
    create_label_response(repository.create(payload.name))
}

/// Lists the labels: 200 with every stored label, once; or 500 if the
/// repository failed.
pub fn all_label<T: LabelRepository>(repository: &T) -> (r: Result<
    (StatusCode, Vec<Label>),
    StatusCode,
>)
    ensures
        repository.dependable() ==> r is Ok,
        match r {
            Ok((status, labels)) => status == StatusCode::Okay && lists_exactly(
                label_views(labels@),
                repository.labels(),
            ),
            Err(status) => status == StatusCode::InternalServerError,
        },
{
    all_label_response(repository.all())
}

/// Deletes the label with this id: 204 if it was stored, 404 if it was not,
/// or 500 if the repository failed. Unless the answer is 204, nothing has
/// changed.
pub fn delete_label<T: LabelRepository>(id: i32, repository: &mut T) -> (status: StatusCode)
    ensures
        final(repository).has_room() == old(repository).has_room(),
        final(repository).dependable() == old(repository).dependable(),
        old(repository).dependable() ==> (status == StatusCode::NoContent <==> old(
            repository,
        ).labels().contains_key(id as int)),
        old(repository).dependable() && !old(repository).labels().contains_key(id as int)
            ==> status == StatusCode::NotFound,
        status == StatusCode::NoContent || status == StatusCode::NotFound || status
            == StatusCode::InternalServerError,
        status == StatusCode::NoContent ==> old(repository).labels().contains_key(id as int)
            && final(repository).labels() == old(repository).labels().remove(id as int),
        status != StatusCode::NoContent ==> final(repository).labels() == old(repository).labels(),
        status == StatusCode::NotFound ==> !old(repository).labels().contains_key(id as int),
{
    delete_label_response(repository.delete(id))
}

} // verus!
