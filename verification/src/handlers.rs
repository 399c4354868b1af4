//! What stands between a request and the repositories: the rules that a
//! payload must meet, the wrapper that lets only valid payloads through, and
//! the endpoints.

use crate::repositories::{RepositoryError, RepositoryErrorView};
use vstd::prelude::*;

pub mod label;
pub mod todo;

verus! {

/// The status of a response.
#[derive(Debug, Clone, Copy, PartialEq, Eq, Structural)]
pub enum StatusCode {
    /// 200
    Okay,
    /// 201
    Created,
    /// 204
    NoContent,
    /// 400
    BadRequest,
    /// 404
    NotFound,
    /// 409
    Conflict,
    /// 500
    InternalServerError,
}

impl StatusCode {
    /// The number that stands for the status on the wire.
    pub open spec fn number(self) -> int {
        match self {
            StatusCode::Okay => 200,
            StatusCode::Created => 201,
            StatusCode::NoContent => 204,
            StatusCode::BadRequest => 400,
            StatusCode::NotFound => 404,
            StatusCode::Conflict => 409,
            StatusCode::InternalServerError => 500,
        }
    }

    pub fn as_u16(self) -> (number: u16)
        ensures
            number == self.number(),
    {
        match self {
            StatusCode::Okay => 200,
            StatusCode::Created => 201,
            StatusCode::NoContent => 204,
            StatusCode::BadRequest => 400,
            StatusCode::NotFound => 404,
            StatusCode::Conflict => 409,
            StatusCode::InternalServerError => 500,
        }
    }
}

impl RepositoryErrorView {
    /// The status that tells the client of this error: 404 for an entity
    /// that is not there, 409 for one that is there already, 500 for a store
    /// that failed.
    pub open spec fn status(self) -> StatusCode {
        match self {
            RepositoryErrorView::NotFound(_) => StatusCode::NotFound,
            RepositoryErrorView::Duplicate(_) => StatusCode::Conflict,
            RepositoryErrorView::Unexpected(_) => StatusCode::InternalServerError,
        }
    }
}

impl RepositoryError {
    /// The status that tells the client of this error.
    pub fn status(&self) -> (status: StatusCode)
        ensures
            status == self@.status(),
    {
        match self {
            RepositoryError::NotFound(_) => StatusCode::NotFound,
            RepositoryError::Duplicate(_) => StatusCode::Conflict,
            RepositoryError::Unexpected(_) => StatusCode::InternalServerError,
        }
    }
}

/// The least number of characters of a text or a name.
pub const MIN_LENGTH: u64 = 1;

/// The greatest number of characters of a text or a name.
pub const MAX_LENGTH: u64 = 100;

/// A rule that a field of a payload broke: the field, the kind of rule, and
/// what to tell the client.
#[derive(Debug, Clone, Copy, PartialEq, Eq)]
pub struct Violation {
    pub field: &'static str,
    pub code: &'static str,
    pub message: &'static str,
}

/// A violation as plain mathematical data.
pub struct ViolationView {
    pub field: Seq<char>,
    pub code: Seq<char>,
    pub message: Seq<char>,
}

impl View for Violation {
    type V = ViolationView;

    open spec fn view(&self) -> ViolationView {
        ViolationView { field: self.field@, code: self.code@, message: self.message@ }
    }
}

/// The violations of `list` as plain data, in the same order.
pub open spec fn violation_views(list: Seq<Violation>) -> Seq<ViolationView> {
    list.map_values(|violation: Violation| violation@)
}

/// The outcome of a single rule as plain data: the rule that was broken, if
/// it was.
pub open spec fn violation_of(r: Result<(), Violation>) -> Option<ViolationView> {
    match r {
        Ok(_) => None,
        Err(violation) => Some(violation@),
    }
}

/// The outcome of a validation as plain data: the rules that were broken,
/// in the order in which they were found.
pub open spec fn violations_of(r: Result<(), Vec<Violation>>) -> Seq<ViolationView> {
    match r {
        Ok(_) => Seq::empty(),
        Err(list) => violation_views(list@),
    }
}

/// The rule on its length that a text or a name breaks: it must not be
/// empty, and must not have more than a hundred characters.
pub open spec fn length_violation(field: Seq<char>, value: Seq<char>) -> Option<ViolationView> {
    if value.len() < MIN_LENGTH {
        Some(ViolationView { field, code: "length"@, message: "Can not be empty"@ })
    } else if value.len() > MAX_LENGTH {
        Some(ViolationView { field, code: "length"@, message: "Over test length"@ })
    } else {
        None
    }
}

/// A text or a name is accepted exactly when it has between one and a
/// hundred characters.
pub proof fn law_length_bounds(field: Seq<char>, value: Seq<char>)
    ensures
        length_violation(field, value) is None <==> 1 <= value.len() <= 100,
{
}

/// Calls `validator::validate_length` on a string, with no exact length
/// asked for. It counts the characters of the string and answers whether
/// the count is at least `min`, where one is given, and at most `max`, where
/// one is given.
#[verifier::external_body]
fn length_within(value: &String, min: Option<u64>, max: Option<u64>) -> (ok: bool)
    ensures
        ok == ((min matches Some(least) ==> value@.len() >= least) && (max matches Some(most)
            ==> value@.len() <= most)),
{
    validator::validate_length(value, min, max, None)
}

/// Holds a text or a name to the rule on its length.
pub fn check_length(field: &'static str, value: &String) -> (r: Result<(), Violation>)
    ensures
        violation_of(r) == length_violation(field@, value@),
{
    if !length_within(value, Some(MIN_LENGTH), None) {
        return Err(Violation { field, code: "length", message: "Can not be empty" });
    }
    if !length_within(value, None, Some(MAX_LENGTH)) {
        return Err(Violation { field, code: "length", message: "Over test length" });
    }
    Ok(())
}

/// The rules on its length that a text or a name breaks, as a list.
pub open spec fn length_violations(field: Seq<char>, value: Seq<char>) -> Seq<ViolationView> {
    match length_violation(field, value) {
        Some(violation) => seq![violation],
        None => Seq::empty(),
    }
}

/// Holds a text or a name to the rule on its length, and puts what it
/// breaks at the end of `found`.
pub fn note_length(found: &mut Vec<Violation>, field: &'static str, value: &String)
    ensures
        violation_views(final(found)@) == violation_views(old(found)@) + length_violations(
            field@,
            value@,
        ),
{
    let ghost before = violation_views(found@);
    match check_length(field, value) {
        Ok(_) => {
            assert(before + length_violations(field@, value@) =~= before);
        },
        Err(violation) => {
            found.push(violation);
            assert(violation_views(found@) =~= before + length_violations(field@, value@));
        },
    }
}

/// What a validation answers once all rules were tried: all is well if
/// nothing was found, else what was found.
pub fn report(found: Vec<Violation>) -> (r: Result<(), Vec<Violation>>)
    ensures
        violations_of(r) == violation_views(found@),
        r matches Err(list) ==> list@.len() > 0,
{
    if found.len() == 0 {
        assert(violation_views(found@) =~= Seq::empty());
        Ok(())
    } else {
        Err(found)
    }
}

/// A payload with rules on its fields.
pub trait Validate {
    /// The rules that the payload breaks, in the order in which `validate`
    /// finds them.
    spec fn violations(&self) -> Seq<ViolationView>;

    /// Tries every rule, and answers with all that are broken.
    fn validate(&self) -> (r: Result<(), Vec<Violation>>)
        ensures
            violations_of(r) == self.violations(),
            r matches Err(list) ==> list@.len() > 0,
    ;
}

#[verifier::external_type_specification]
#[verifier::external_body]
pub struct ExValidationErrors(validator::ValidationErrors);

/// The errors that a `validator::ValidationErrors` holds for each field, in
/// the order in which they were added.
pub uninterp spec fn held(errors: validator::ValidationErrors) -> Map<Seq<char>, Seq<ViolationView>>;

/// A `validator::ValidationErrors` holds nothing but errors of fields, each
/// with a message: no errors of nested values or of lists.
pub uninterp spec fn plain(errors: validator::ValidationErrors) -> bool;

/// The errors that `errors` holds for `field`; none if it holds none.
pub open spec fn errors_of(errors: Map<Seq<char>, Seq<ViolationView>>, field: Seq<char>) -> Seq<
    ViolationView,
> {
    if errors.contains_key(field) {
        errors[field]
    } else {
        Seq::empty()
    }
}

/// No errors for any field.
pub open spec fn nothing_held() -> Map<Seq<char>, Seq<ViolationView>> {
    Map::empty()
}

/// `errors` holds errors for `field` and for no other field.
pub open spec fn holds_only(errors: Map<Seq<char>, Seq<ViolationView>>, field: Seq<char>) -> bool {
    &&& errors.contains_key(field)
    &&& forall|other: Seq<char>| #[trigger] errors.contains_key(other) ==> other == field
}

/// Calls `validator::ValidationErrors::new`: the result holds no error.
#[verifier::external_body]
fn no_errors() -> (made: validator::ValidationErrors)
    ensures
        plain(made),
        held(made) == nothing_held(),
{
    validator::ValidationErrors::new()
}

/// Makes a `validator::ValidationError` of the violation's code and message
/// and calls `validator::ValidationErrors::add` with it: the error goes to the
/// end of those held for its field, and the errors of other fields stay.
#[verifier::external_body]
fn add_error(errors: &mut validator::ValidationErrors, violation: &Violation)
    requires
        plain(*old(errors)),
    ensures
        plain(*final(errors)),
        held(*final(errors)) == held(*old(errors)).insert(
            violation.field@,
            errors_of(held(*old(errors)), violation.field@).push(violation@),
        ),
{
    let mut error = validator::ValidationError::new(violation.code);
    error.message = Some(std::borrow::Cow::from(violation.message));
    errors.add(violation.field, error);
}

/// Renders a `validator::ValidationErrors` with its `Display`. Where it holds
/// errors for one field only, the rendering is the field, a colon and a
/// space, and the messages with a comma and a space between them. Of errors
/// for several fields nothing is said: their order is not fixed.
#[verifier::external_body]
fn render_errors(errors: &validator::ValidationErrors) -> (text: String)
    requires
        plain(*errors),
    ensures
        forall|field: Seq<char>| #[trigger]
            holds_only(held(*errors), field) ==> text@ == field_line(field, held(*errors)[field]),
{
    errors.to_string()
}

/// The violations of `violations` that concern `field`, in the same order.
pub open spec fn of_field(violations: Seq<ViolationView>, field: Seq<char>) -> Seq<ViolationView>
    decreases violations.len(),
{
    if violations.len() == 0 {
        Seq::empty()
    } else if violations.last().field == field {
        of_field(violations.drop_last(), field).push(violations.last())
    } else {
        of_field(violations.drop_last(), field)
    }
}

/// The messages of the violations, with a comma and a space between them.
pub open spec fn joined_messages(violations: Seq<ViolationView>) -> Seq<char>
    decreases violations.len(),
{
    if violations.len() == 0 {
        Seq::empty()
    } else if violations.len() == 1 {
        violations[0].message
    } else {
        joined_messages(violations.drop_last()) + ", "@ + violations.last().message
    }
}

/// The line that tells of the violations of one field.
pub open spec fn field_line(field: Seq<char>, violations: Seq<ViolationView>) -> Seq<char> {
    field + ": "@ + joined_messages(violations)
}

/// No violation before the one at `place` concerns the same field.
pub open spec fn first_of_field(violations: Seq<ViolationView>, place: int) -> bool {
    forall|earlier: int| 0 <= earlier < place ==> violations[earlier].field != violations[place].field
}

/// The lines for the fields that first occur among the first `upto`
/// violations: one line for each field, in the order in which the fields
/// first occur, with a line break between two lines. The line of a field
/// tells of all violations of that field.
pub open spec fn field_lines(violations: Seq<ViolationView>, upto: int) -> Seq<char>
    decreases upto,
{
    if upto <= 0 {
        Seq::empty()
    } else if !first_of_field(violations, upto - 1) {
        field_lines(violations, upto - 1)
    } else if upto == 1 {
        field_line(violations[0].field, of_field(violations, violations[0].field))
    } else {
        field_lines(violations, upto - 1) + "\n"@ + field_line(
            violations[upto - 1].field,
            of_field(violations, violations[upto - 1].field),
        )
    }
}

/// A violation is among the violations of its field.
pub proof fn lemma_of_field_has(violations: Seq<ViolationView>, place: int)
    requires
        0 <= place < violations.len(),
    ensures
        of_field(violations, violations[place].field).len() > 0,
    decreases violations.len(),
{
    if place < violations.len() - 1 {
        lemma_of_field_has(violations.drop_last(), place);
    }
}

/// Whether two violations concern the same field.
fn same_field(left: &Violation, right: &Violation) -> (same: bool)
    ensures
        same == (left.field@ == right.field@),
{
    let left_field: String = left.field.to_owned();
    let right_field: String = right.field.to_owned();
    left_field == right_field
}

/// Whether no violation before the one at `place` concerns the same field.
fn is_first_of_field(violations: &Vec<Violation>, place: usize) -> (first: bool)
    requires
        place < violations.len(),
    ensures
        first == first_of_field(violation_views(violations@), place as int),
{
    let mut earlier: usize = 0;
    while earlier < place
        invariant
            earlier <= place < violations.len(),
            forall|j: int|
                0 <= j < earlier ==> violation_views(violations@)[j].field != violation_views(
                    violations@,
                )[place as int].field,
        decreases place - earlier,
    {
        if same_field(&violations[earlier], &violations[place]) {
            assert(violation_views(violations@)[earlier as int].field == violation_views(
                violations@,
            )[place as int].field);
            return false;
        }
        earlier = earlier + 1;
    }
    true
}

/// The errors held once the violations of `field` were added.
spec fn group(field: Seq<char>, violations: Seq<ViolationView>) -> Map<Seq<char>, Seq<ViolationView>> {
    if violations.len() == 0 {
        Map::empty()
    } else {
        Map::<Seq<char>, Seq<ViolationView>>::empty().insert(field, violations)
    }
}

/// Writes the line that tells of all violations of the field of the
/// violation at `place`.
fn render_field(violations: &Vec<Violation>, place: usize) -> (line: String)
    requires
        place < violations.len(),
    ensures
        line@ == field_line(
            violations[place as int].field@,
            of_field(violation_views(violations@), violations[place as int].field@),
        ),
{
    let ghost views = violation_views(violations@);
    let ghost field = violations[place as int].field@;
    let mut errors = no_errors();
    let mut next: usize = 0;
    assert(views.take(0) =~= Seq::empty());
    while next < violations.len()
        invariant
            next <= violations.len(),
            place < violations.len(),
            views == violation_views(violations@),
            field == violations[place as int].field@,
            plain(errors),
            held(errors) == group(field, of_field(views.take(next as int), field)),
        decreases violations.len() - next,
    {
        proof {
            let seen = views.take(next + 1);
            assert(seen.drop_last() =~= views.take(next as int));
            assert(seen.last() == views[next as int]);
        }
        if same_field(&violations[next], &violations[place]) {
            let ghost before = of_field(views.take(next as int), field);
            let ghost held_before = held(errors);
            add_error(&mut errors, &violations[next]);
            proof {
                assert(views[next as int] == violations[next as int]@);
                assert(violations[next as int].field@ == field);
                assert(errors_of(held_before, field) =~= before);
                assert(held(errors) =~= group(field, before.push(views[next as int])));
            }
        }
        next = next + 1;
    }
    proof {
        assert(views.take(violations.len() as int) =~= views);
        lemma_of_field_has(views, place as int);
        assert(holds_only(held(errors), field));
    }
    render_errors(&errors)
}

/// `text` with each `from` replaced by `to`.
pub open spec fn replaced(text: Seq<char>, from: char, to: Seq<char>) -> Seq<char>
    decreases text.len(),
{
    if text.len() == 0 {
        Seq::empty()
    } else if text[0] == from {
        to + replaced(text.drop_first(), from, to)
    } else {
        seq![text[0]] + replaced(text.drop_first(), from, to)
    }
}

/// Calls `str::replace` with a character as the pattern: every occurrence of
/// the character gives way to `to`, the rest stays.
#[verifier::external_body]
fn replace_char(text: &str, from: char, to: &str) -> (r: String)
    ensures
        r@ == replaced(text@, from, to@),
{
    text.replace(from, to)
}

/// What the client is told when the body could not be parsed.
pub open spec fn parse_error_message(complaint: Seq<char>) -> Seq<char> {
    "Json parse error: ["@ + complaint + "]"@
}

/// What the client is told when the payload broke rules: the lines for all
/// fields, on one line, line breaks turned into commas.
pub open spec fn validation_error_message(violations: Seq<ViolationView>) -> Seq<char> {
    replaced(
        "Validation error: ["@ + field_lines(violations, violations.len() as int) + "]"@,
        '\n',
        ","@,
    )
}

/// Writes what the client is told when the body could not be parsed.
pub fn parse_error(complaint: &str) -> (message: String)
    ensures
        message@ == parse_error_message(complaint@),
{
    let mut message = "Json parse error: [".to_owned();
    message.append(complaint);
    message.append("]");
    message
}

/// Writes what the client is told when the payload broke rules.
pub fn validation_error(violations: &Vec<Violation>) -> (message: String)
    ensures
        message@ == validation_error_message(violation_views(violations@)),
{
    let ghost views = violation_views(violations@);
    let mut message = "Validation error: [".to_owned();
    let mut place: usize = 0;
    while place < violations.len()
        invariant
            place <= violations.len(),
            views == violation_views(violations@),
            message@ == "Validation error: ["@ + field_lines(views, place as int),
        decreases violations.len() - place,
    {
        let ghost before = field_lines(views, place as int);
        if is_first_of_field(violations, place) {
            let line = render_field(violations, place);
            if place > 0 {
                message.append("\n");
            }
            message.append(line.as_str());
            assert(message@ =~= "Validation error: ["@ + field_lines(views, place + 1));
        }
        place = place + 1;
    }
    message.append("]");
    replace_char(message.as_str(), '\n', ",")
}

/// A payload that was parsed and met its rules. There is no other way to
/// make one than `from_request`, so an endpoint that takes one never sees a
/// payload that breaks a rule.
#[derive(Debug)]
pub struct ValidateJson<T: Validate>(T);

impl<T: Validate> ValidateJson<T> {
    #[verifier::type_invariant]
    spec fn inv(self) -> bool {
        self.0.violations().len() == 0
    }

    /// The payload inside.
    pub closed spec fn payload(self) -> T {
        self.0
    }

    /// Hands the payload out; it meets its rules.
    pub fn into_inner(self) -> (payload: T)
        ensures
            payload == self.payload(),
            payload.violations().len() == 0,
    {
        proof {
            use_type_invariant(&self);
        }
        self.0
    }

    /// Lets a payload through if the body could be parsed and the payload
    /// meets its rules. `parsed` is what the JSON parser made of the body:
    /// the payload, or its complaint. Anything else is turned away with
    /// status 400 and a message.
    pub fn from_request(parsed: Result<T, String>) -> (r: Result<Self, (StatusCode, String)>)
        ensures
            match parsed {
                Err(complaint) => r matches Err((status, message)) && status
                    == StatusCode::BadRequest && message@ == parse_error_message(complaint@),
                Ok(value) => if value.violations().len() == 0 {
                    r matches Ok(accepted) && accepted.payload() == value
                } else {
                    r matches Err((status, message)) && status == StatusCode::BadRequest
                        && message@ == validation_error_message(value.violations())
                },
            },
    {
        let value = match parsed {
            Ok(value) => value,
            Err(complaint) => {
                return Err((StatusCode::BadRequest, parse_error(complaint.as_str())));
            },
        };
        match value.validate() {
            Ok(_) => Ok(ValidateJson(value)),
            Err(violations) => Err((StatusCode::BadRequest, validation_error(&violations))),
        }
    }
}

} // verus!
