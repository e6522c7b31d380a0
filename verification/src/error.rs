//! The errors that cross the wire.
use vstd::prelude::*;
use vstd::string::*;

use crate::ids::{ObjectId, TaskId};
use crate::protocol::FailureClass;
use crate::text::{debug_quoted, lemma_tagged, named_bytes, named_bytes_string, quoted, says, tagged, tagged_string};

verus! {

#[derive(Debug, Eq, PartialEq)]
pub enum Error {
    Protocol(String),
    InvalidAddress(String),
    InvalidResource(String),
    OperationUnavailable(String),
    OperationConflict(String),
    IllegalTransition(String),
    StaleFence,
    StaleEpoch,
    CapacityExceeded(String),
    TaskNotFound(TaskId),
    TaskFailed(TaskId, String),
    TaskCancelled(TaskId),
    ObjectNotFound(ObjectId),
    ObjectPending(ObjectId),
    ObjectInUse(ObjectId),
    ObjectLost(ObjectId),
    ObjectConflict(ObjectId),
    DependencyFailed(ObjectId),
    DeadlineExceeded,
    Serialization(String),
    Io(String),
}

/// The view of an [`Error`]: the same variants over character sequences.
pub enum ErrorModel {
    Protocol(Seq<char>),
    InvalidAddress(Seq<char>),
    InvalidResource(Seq<char>),
    OperationUnavailable(Seq<char>),
    OperationConflict(Seq<char>),
    IllegalTransition(Seq<char>),
    StaleFence,
    StaleEpoch,
    CapacityExceeded(Seq<char>),
    TaskNotFound(TaskId),
    TaskFailed(TaskId, Seq<char>),
    TaskCancelled(TaskId),
    ObjectNotFound(ObjectId),
    ObjectPending(ObjectId),
    ObjectInUse(ObjectId),
    ObjectLost(ObjectId),
    ObjectConflict(ObjectId),
    DependencyFailed(ObjectId),
    DeadlineExceeded,
    Serialization(Seq<char>),
    Io(Seq<char>),
}

impl View for Error {
    type V = ErrorModel;

    open spec fn view(&self) -> ErrorModel {
        match *self {
            Error::Protocol(m) => ErrorModel::Protocol(m@),
            Error::InvalidAddress(m) => ErrorModel::InvalidAddress(m@),
            Error::InvalidResource(m) => ErrorModel::InvalidResource(m@),
            Error::OperationUnavailable(m) => ErrorModel::OperationUnavailable(m@),
            Error::OperationConflict(m) => ErrorModel::OperationConflict(m@),
            Error::IllegalTransition(m) => ErrorModel::IllegalTransition(m@),
            Error::StaleFence => ErrorModel::StaleFence,
            Error::StaleEpoch => ErrorModel::StaleEpoch,
            Error::CapacityExceeded(m) => ErrorModel::CapacityExceeded(m@),
            Error::TaskNotFound(id) => ErrorModel::TaskNotFound(id),
            Error::TaskFailed(id, m) => ErrorModel::TaskFailed(id, m@),
            Error::TaskCancelled(id) => ErrorModel::TaskCancelled(id),
            Error::ObjectNotFound(id) => ErrorModel::ObjectNotFound(id),
            Error::ObjectPending(id) => ErrorModel::ObjectPending(id),
            Error::ObjectInUse(id) => ErrorModel::ObjectInUse(id),
            Error::ObjectLost(id) => ErrorModel::ObjectLost(id),
            Error::ObjectConflict(id) => ErrorModel::ObjectConflict(id),
            Error::DependencyFailed(id) => ErrorModel::DependencyFailed(id),
            Error::DeadlineExceeded => ErrorModel::DeadlineExceeded,
            Error::Serialization(m) => ErrorModel::Serialization(m@),
            Error::Io(m) => ErrorModel::Io(m@),
        }
    }
}

impl Clone for Error {
    fn clone(&self) -> (r: Self)
        ensures
            r == *self,
    {
        match self {
            Error::Protocol(m) => Error::Protocol(m.clone()),
            Error::InvalidAddress(m) => Error::InvalidAddress(m.clone()),
            Error::InvalidResource(m) => Error::InvalidResource(m.clone()),
            Error::OperationUnavailable(m) => Error::OperationUnavailable(m.clone()),
            Error::OperationConflict(m) => Error::OperationConflict(m.clone()),
            Error::IllegalTransition(m) => Error::IllegalTransition(m.clone()),
            Error::StaleFence => Error::StaleFence,
            Error::StaleEpoch => Error::StaleEpoch,
            Error::CapacityExceeded(m) => Error::CapacityExceeded(m.clone()),
            Error::TaskNotFound(id) => Error::TaskNotFound(*id),
            Error::TaskFailed(id, m) => Error::TaskFailed(*id, m.clone()),
            Error::TaskCancelled(id) => Error::TaskCancelled(*id),
            Error::ObjectNotFound(id) => Error::ObjectNotFound(*id),
            Error::ObjectPending(id) => Error::ObjectPending(*id),
            Error::ObjectInUse(id) => Error::ObjectInUse(*id),
            Error::ObjectLost(id) => Error::ObjectLost(*id),
            Error::ObjectConflict(id) => Error::ObjectConflict(*id),
            Error::DependencyFailed(id) => Error::DependencyFailed(*id),
            Error::DeadlineExceeded => Error::DeadlineExceeded,
            Error::Serialization(m) => Error::Serialization(m.clone()),
            Error::Io(m) => Error::Io(m.clone()),
        }
    }
}

/// Whether a retry can plausibly help: transport faults, deadlines, fencing
/// races, and inputs that are not ready yet. Every other error would come again.
pub open spec fn is_transient(error: ErrorModel) -> bool {
    ||| error is Io
    ||| error is DeadlineExceeded
    ||| error is StaleEpoch
    ||| error is StaleFence
    ||| error is ObjectNotFound
    ||| error is ObjectPending
    ||| error is ObjectInUse
    ||| error is CapacityExceeded
}

impl ErrorModel {
    /// The text form: the variant's name and what it holds.
    pub open spec fn text(self) -> Seq<char> {
        match self {
            ErrorModel::Protocol(m) => tagged("Protocol"@, debug_quoted(m)),
            ErrorModel::InvalidAddress(m) => tagged("InvalidAddress"@, debug_quoted(m)),
            ErrorModel::InvalidResource(m) => tagged("InvalidResource"@, debug_quoted(m)),
            ErrorModel::OperationUnavailable(m) => tagged("OperationUnavailable"@, debug_quoted(m)),
            ErrorModel::OperationConflict(m) => tagged("OperationConflict"@, debug_quoted(m)),
            ErrorModel::IllegalTransition(m) => tagged("IllegalTransition"@, debug_quoted(m)),
            ErrorModel::StaleFence => "StaleFence"@,
            ErrorModel::StaleEpoch => "StaleEpoch"@,
            ErrorModel::CapacityExceeded(m) => tagged("CapacityExceeded"@, debug_quoted(m)),
            ErrorModel::TaskNotFound(id) => tagged("TaskNotFound"@, named_bytes("TaskId"@, id.0@)),
            ErrorModel::TaskFailed(id, m) => tagged(
                "TaskFailed"@,
                named_bytes("TaskId"@, id.0@) + ", "@ + debug_quoted(m),
            ),
            ErrorModel::TaskCancelled(id) => tagged("TaskCancelled"@, named_bytes("TaskId"@, id.0@)),
            ErrorModel::ObjectNotFound(id) => tagged("ObjectNotFound"@, named_bytes("ObjectId"@, id.0@)),
            ErrorModel::ObjectPending(id) => tagged("ObjectPending"@, named_bytes("ObjectId"@, id.0@)),
            ErrorModel::ObjectInUse(id) => tagged("ObjectInUse"@, named_bytes("ObjectId"@, id.0@)),
            ErrorModel::ObjectLost(id) => tagged("ObjectLost"@, named_bytes("ObjectId"@, id.0@)),
            ErrorModel::ObjectConflict(id) => tagged("ObjectConflict"@, named_bytes("ObjectId"@, id.0@)),
            ErrorModel::DependencyFailed(id) => tagged("DependencyFailed"@, named_bytes("ObjectId"@, id.0@)),
            ErrorModel::DeadlineExceeded => "DeadlineExceeded"@,
            ErrorModel::Serialization(m) => tagged("Serialization"@, debug_quoted(m)),
            ErrorModel::Io(m) => tagged("Io"@, debug_quoted(m)),
        }
    }
}

fn with_message(name: &str, message: &str) -> (r: String)
    ensures
        r@ == tagged(name@, debug_quoted(message@)),
{
    let value = quoted(message);
    tagged_string(name, value.as_str())
}

fn with_task(name: &str, id: &TaskId) -> (r: String)
    ensures
        r@ == tagged(name@, named_bytes("TaskId"@, id.0@)),
{
    let value = named_bytes_string("TaskId", id.0.as_slice());
    tagged_string(name, value.as_str())
}

fn with_object(name: &str, id: &ObjectId) -> (r: String)
    ensures
        r@ == tagged(name@, named_bytes("ObjectId"@, id.0@)),
{
    let value = named_bytes_string("ObjectId", id.0.as_slice());
    tagged_string(name, value.as_str())
}

impl Error {
    /// The text of the error, as it goes into a failure report.
    pub fn to_string(&self) -> (r: String)
        ensures
            r@ == self@.text(),
    {
        match self {
            Error::Protocol(m) => with_message("Protocol", m.as_str()),
            Error::InvalidAddress(m) => with_message("InvalidAddress", m.as_str()),
            Error::InvalidResource(m) => with_message("InvalidResource", m.as_str()),
            Error::OperationUnavailable(m) => with_message("OperationUnavailable", m.as_str()),
            Error::OperationConflict(m) => with_message("OperationConflict", m.as_str()),
            Error::IllegalTransition(m) => with_message("IllegalTransition", m.as_str()),
            Error::StaleFence => "StaleFence".to_string(),
            Error::StaleEpoch => "StaleEpoch".to_string(),
            Error::CapacityExceeded(m) => with_message("CapacityExceeded", m.as_str()),
            Error::TaskNotFound(id) => with_task("TaskNotFound", id),
            Error::TaskFailed(id, m) => {
                let mut value = named_bytes_string("TaskId", id.0.as_slice());
                value.append(", ");
                let message = quoted(m.as_str());
                value.append(message.as_str());
                tagged_string("TaskFailed", value.as_str())
            },
            Error::TaskCancelled(id) => with_task("TaskCancelled", id),
            Error::ObjectNotFound(id) => with_object("ObjectNotFound", id),
            Error::ObjectPending(id) => with_object("ObjectPending", id),
            Error::ObjectInUse(id) => with_object("ObjectInUse", id),
            Error::ObjectLost(id) => with_object("ObjectLost", id),
            Error::ObjectConflict(id) => with_object("ObjectConflict", id),
            Error::DependencyFailed(id) => with_object("DependencyFailed", id),
            Error::DeadlineExceeded => "DeadlineExceeded".to_string(),
            Error::Serialization(m) => with_message("Serialization", m.as_str()),
            Error::Io(m) => with_message("Io", m.as_str()),
        }
    }

    /// The class under which a worker reports this error for a task attempt.
    pub fn failure_class(&self) -> (r: FailureClass)
        ensures
            r == if is_transient(self@) {
                FailureClass::Transient
            } else {
                FailureClass::Permanent
            },
    {
        match self {
            Error::Io(_)
            | Error::DeadlineExceeded
            | Error::StaleEpoch
            | Error::StaleFence
            | Error::ObjectNotFound(_)
            | Error::ObjectPending(_)
            | Error::ObjectInUse(_)
            | Error::CapacityExceeded(_) => FailureClass::Transient,
            Error::Protocol(_)
            | Error::InvalidAddress(_)
            | Error::InvalidResource(_)
            | Error::OperationUnavailable(_)
            | Error::OperationConflict(_)
            | Error::IllegalTransition(_)
            | Error::TaskNotFound(_)
            | Error::TaskFailed(_, _)
            | Error::TaskCancelled(_)
            | Error::ObjectLost(_)
            | Error::ObjectConflict(_)
            | Error::DependencyFailed(_)
            | Error::Serialization(_) => FailureClass::Permanent,
        }
    }
}

/// The view of a result.
pub open spec fn outcome<T>(result: Result<T, Error>) -> Result<T, ErrorModel> {
    match result {
        Ok(value) => Ok(value),
        Err(error) => Err(error@),
    }
}

/// The text of an error names its kind and tells what it is about.
pub proof fn law_error_text_names_the_error(error: ErrorModel)
    ensures
        error matches ErrorModel::Protocol(m) ==> "Protocol"@.is_prefix_of(error.text()) && says(error.text(), debug_quoted(m)),
        error matches ErrorModel::InvalidAddress(m) ==> "InvalidAddress"@.is_prefix_of(error.text()) && says(error.text(), debug_quoted(m)),
        error matches ErrorModel::InvalidResource(m) ==> "InvalidResource"@.is_prefix_of(error.text()) && says(error.text(), debug_quoted(m)),
        error matches ErrorModel::OperationUnavailable(m) ==> "OperationUnavailable"@.is_prefix_of(error.text()) && says(error.text(), debug_quoted(m)),
        error matches ErrorModel::OperationConflict(m) ==> "OperationConflict"@.is_prefix_of(error.text()) && says(error.text(), debug_quoted(m)),
        error matches ErrorModel::IllegalTransition(m) ==> "IllegalTransition"@.is_prefix_of(error.text()) && says(error.text(), debug_quoted(m)),
        error is StaleFence ==> error.text() == "StaleFence"@,
        error is StaleEpoch ==> error.text() == "StaleEpoch"@,
        error matches ErrorModel::CapacityExceeded(m) ==> "CapacityExceeded"@.is_prefix_of(error.text()) && says(error.text(), debug_quoted(m)),
        error matches ErrorModel::TaskNotFound(id) ==> "TaskNotFound"@.is_prefix_of(error.text()) && says(
            error.text(),
            named_bytes("TaskId"@, id.0@),
        ),
        error matches ErrorModel::TaskFailed(id, m) ==> "TaskFailed"@.is_prefix_of(error.text()) && says(
            error.text(),
            named_bytes("TaskId"@, id.0@) + ", "@ + debug_quoted(m),
        ),
        error matches ErrorModel::TaskCancelled(id) ==> "TaskCancelled"@.is_prefix_of(error.text()) && says(
            error.text(),
            named_bytes("TaskId"@, id.0@),
        ),
        error matches ErrorModel::ObjectNotFound(id) ==> "ObjectNotFound"@.is_prefix_of(error.text()) && says(
            error.text(),
            named_bytes("ObjectId"@, id.0@),
        ),
        error matches ErrorModel::ObjectPending(id) ==> "ObjectPending"@.is_prefix_of(error.text()) && says(
            error.text(),
            named_bytes("ObjectId"@, id.0@),
        ),
        error matches ErrorModel::ObjectInUse(id) ==> "ObjectInUse"@.is_prefix_of(error.text()) && says(
            error.text(),
            named_bytes("ObjectId"@, id.0@),
        ),
        error matches ErrorModel::ObjectLost(id) ==> "ObjectLost"@.is_prefix_of(error.text()) && says(
            error.text(),
            named_bytes("ObjectId"@, id.0@),
        ),
        error matches ErrorModel::ObjectConflict(id) ==> "ObjectConflict"@.is_prefix_of(error.text()) && says(
            error.text(),
            named_bytes("ObjectId"@, id.0@),
        ),
        error matches ErrorModel::DependencyFailed(id) ==> "DependencyFailed"@.is_prefix_of(error.text()) && says(
            error.text(),
            named_bytes("ObjectId"@, id.0@),
        ),
        error is DeadlineExceeded ==> error.text() == "DeadlineExceeded"@,
        error matches ErrorModel::Serialization(m) ==> "Serialization"@.is_prefix_of(error.text()) && says(error.text(), debug_quoted(m)),
        error matches ErrorModel::Io(m) ==> "Io"@.is_prefix_of(error.text()) && says(error.text(), debug_quoted(m)),
{
    match error {
        ErrorModel::Protocol(m) => lemma_tagged("Protocol"@, debug_quoted(m)),
        ErrorModel::InvalidAddress(m) => lemma_tagged("InvalidAddress"@, debug_quoted(m)),
        ErrorModel::InvalidResource(m) => lemma_tagged("InvalidResource"@, debug_quoted(m)),
        ErrorModel::OperationUnavailable(m) => lemma_tagged("OperationUnavailable"@, debug_quoted(m)),
        ErrorModel::OperationConflict(m) => lemma_tagged("OperationConflict"@, debug_quoted(m)),
        ErrorModel::IllegalTransition(m) => lemma_tagged("IllegalTransition"@, debug_quoted(m)),
        ErrorModel::CapacityExceeded(m) => lemma_tagged("CapacityExceeded"@, debug_quoted(m)),
        ErrorModel::TaskNotFound(id) => lemma_tagged("TaskNotFound"@, named_bytes("TaskId"@, id.0@)),
        ErrorModel::TaskFailed(id, m) => lemma_tagged(
            "TaskFailed"@,
            named_bytes("TaskId"@, id.0@) + ", "@ + debug_quoted(m),
        ),
        ErrorModel::TaskCancelled(id) => lemma_tagged("TaskCancelled"@, named_bytes("TaskId"@, id.0@)),
        ErrorModel::ObjectNotFound(id) => lemma_tagged("ObjectNotFound"@, named_bytes("ObjectId"@, id.0@)),
        ErrorModel::ObjectPending(id) => lemma_tagged("ObjectPending"@, named_bytes("ObjectId"@, id.0@)),
        ErrorModel::ObjectInUse(id) => lemma_tagged("ObjectInUse"@, named_bytes("ObjectId"@, id.0@)),
        ErrorModel::ObjectLost(id) => lemma_tagged("ObjectLost"@, named_bytes("ObjectId"@, id.0@)),
        ErrorModel::ObjectConflict(id) => lemma_tagged("ObjectConflict"@, named_bytes("ObjectId"@, id.0@)),
        ErrorModel::DependencyFailed(id) => lemma_tagged("DependencyFailed"@, named_bytes("ObjectId"@, id.0@)),
        ErrorModel::Serialization(m) => lemma_tagged("Serialization"@, debug_quoted(m)),
        ErrorModel::Io(m) => lemma_tagged("Io"@, debug_quoted(m)),
        _ => {},
    }
}

/// Trying again may help exactly where the fault lies in passing circumstances: the
/// connection, the time, the state of the cluster or of an object, or the room that is
/// left.
pub proof fn law_passing_circumstances_are_transient(error: &Error, class: FailureClass)
    requires
        call_ensures(Error::failure_class, (error,), class),
    ensures
        class == FailureClass::Transient <==> error is Io || error is DeadlineExceeded || error is StaleEpoch
            || error is StaleFence || error is ObjectNotFound || error is ObjectPending || error is ObjectInUse
            || error is CapacityExceeded,
{
}

} // verus!
