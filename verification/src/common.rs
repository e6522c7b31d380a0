//! Identifiers, states and errors of the in-process runtime.
use std::marker::PhantomData;
use vstd::prelude::*;
use vstd::string::*;

use crate::ids::{bytes_equal, is_v4, uuid_v4};
use crate::table::TableKey;
use crate::text::{
    debug_char, decimal, decimal_string, hex, hex_chars, hex_value, lemma_says, quoted_char, says, tagged,
    tagged_string,
};

verus! {

/// Names an object in the store of this process.
#[derive(Clone, Copy, Debug, Eq, Hash)]
pub struct ObjectID([u8; 16]);

impl PartialEq for ObjectID {
    fn eq(&self, other: &Self) -> (r: bool) {
        bytes_equal(&self.0, &other.0)
    }
}

impl vstd::std_specs::cmp::PartialEqSpecImpl for ObjectID {
    open spec fn obeys_eq_spec() -> bool {
        true
    }

    open spec fn eq_spec(&self, other: &Self) -> bool {
        *self == *other
    }
}

impl View for ObjectID {
    type V = ObjectID;

    open spec fn view(&self) -> ObjectID {
        *self
    }
}

impl TableKey for ObjectID {
    fn same(&self, other: &Self) -> (r: bool) {
        *self == *other
    }
}

impl ObjectID {
    /// The bytes of the identifier.
    pub closed spec fn bytes(self) -> Seq<u8> {
        self.0@
    }

    /// A new random identifier.
    pub fn new() -> (r: Self)
        ensures
            is_v4(r.bytes()),
    {
        ObjectID(uuid_v4())
    }

    /// The identifier with these bytes.
    pub fn from_bytes(bytes: [u8; 16]) -> (r: Self)
        ensures
            r.bytes() == bytes@,
    {
        ObjectID(bytes)
    }

    /// The bytes of the identifier.
    pub fn as_bytes(&self) -> (r: &[u8; 16])
        ensures
            r@ == self.bytes(),
    {
        &self.0
    }

    /// Thirty-two lower-case hexadecimal digits.
    pub fn to_string(&self) -> (r: String)
        ensures
            r@ == hex_chars(self.bytes()),
    {
        hex(self.0.as_slice())
    }

    /// The first digits, for messages to people.
    pub fn short_form(&self) -> (r: String)
        ensures
            r@ == tagged("Obj"@, hex_chars(self.bytes().take(4))),
    {
        let first: [u8; 4] = [self.0[0], self.0[1], self.0[2], self.0[3]];
        assert(first@ =~= self.bytes().take(4));
        let digits = hex(first.as_slice());
        tagged_string("Obj", digits.as_str())
    }

    /// Identifiers with the same bytes are the same.
    pub proof fn lemma_bytes(a: ObjectID, b: ObjectID)
        ensures
            a.bytes() == b.bytes() <==> a == b,
    {
        if a.bytes() == b.bytes() {
            assert(a.0 =~= b.0);
        }
    }
}

impl Default for ObjectID {
    fn default() -> (r: Self)
        ensures
            is_v4(r.bytes()),
    {
        ObjectID::new()
    }
}

/// Names an actor.
#[derive(Clone, Copy, Debug, Eq, Hash)]
pub struct ActorID([u8; 16]);

impl PartialEq for ActorID {
    fn eq(&self, other: &Self) -> (r: bool) {
        bytes_equal(&self.0, &other.0)
    }
}

impl vstd::std_specs::cmp::PartialEqSpecImpl for ActorID {
    open spec fn obeys_eq_spec() -> bool {
        true
    }

    open spec fn eq_spec(&self, other: &Self) -> bool {
        *self == *other
    }
}

impl View for ActorID {
    type V = ActorID;

    open spec fn view(&self) -> ActorID {
        *self
    }
}

impl TableKey for ActorID {
    fn same(&self, other: &Self) -> (r: bool) {
        *self == *other
    }
}

impl ActorID {
    /// The bytes of the identifier.
    pub closed spec fn bytes(self) -> Seq<u8> {
        self.0@
    }

    /// A new random identifier.
    pub fn new() -> (r: Self)
        ensures
            is_v4(r.bytes()),
    {
        ActorID(uuid_v4())
    }

    /// The identifier with these bytes.
    pub fn from_bytes(bytes: [u8; 16]) -> (r: Self)
        ensures
            r.bytes() == bytes@,
    {
        ActorID(bytes)
    }

    /// The bytes of the identifier.
    pub fn as_bytes(&self) -> (r: &[u8; 16])
        ensures
            r@ == self.bytes(),
    {
        &self.0
    }

    /// Thirty-two lower-case hexadecimal digits.
    pub fn to_string(&self) -> (r: String)
        ensures
            r@ == hex_chars(self.bytes()),
    {
        hex(self.0.as_slice())
    }

    /// The first digits, for messages to people.
    pub fn short_form(&self) -> (r: String)
        ensures
            r@ == tagged("Actor"@, hex_chars(self.bytes().take(4))),
    {
        let first: [u8; 4] = [self.0[0], self.0[1], self.0[2], self.0[3]];
        assert(first@ =~= self.bytes().take(4));
        let digits = hex(first.as_slice());
        tagged_string("Actor", digits.as_str())
    }

    /// Identifiers with the same bytes are the same.
    pub proof fn lemma_bytes(a: ActorID, b: ActorID)
        ensures
            a.bytes() == b.bytes() <==> a == b,
    {
        if a.bytes() == b.bytes() {
            assert(a.0 =~= b.0);
        }
    }
}

impl Default for ActorID {
    fn default() -> (r: Self)
        ensures
            is_v4(r.bytes()),
    {
        ActorID::new()
    }
}

/// Names a task of this process.
#[derive(Clone, Copy, Debug, Eq, Hash)]
pub struct TaskID([u8; 16]);

impl PartialEq for TaskID {
    fn eq(&self, other: &Self) -> (r: bool) {
        bytes_equal(&self.0, &other.0)
    }
}

impl vstd::std_specs::cmp::PartialEqSpecImpl for TaskID {
    open spec fn obeys_eq_spec() -> bool {
        true
    }

    open spec fn eq_spec(&self, other: &Self) -> bool {
        *self == *other
    }
}

impl View for TaskID {
    type V = TaskID;

    open spec fn view(&self) -> TaskID {
        *self
    }
}

impl TableKey for TaskID {
    fn same(&self, other: &Self) -> (r: bool) {
        *self == *other
    }
}

impl TaskID {
    /// The bytes of the identifier.
    pub closed spec fn bytes(self) -> Seq<u8> {
        self.0@
    }

    /// A new random identifier.
    pub fn new() -> (r: Self)
        ensures
            is_v4(r.bytes()),
    {
        TaskID(uuid_v4())
    }

    /// The identifier with these bytes.
    pub fn from_bytes(bytes: [u8; 16]) -> (r: Self)
        ensures
            r.bytes() == bytes@,
    {
        TaskID(bytes)
    }

    /// The bytes of the identifier.
    pub fn as_bytes(&self) -> (r: &[u8; 16])
        ensures
            r@ == self.bytes(),
    {
        &self.0
    }

    /// Thirty-two lower-case hexadecimal digits.
    pub fn to_string(&self) -> (r: String)
        ensures
            r@ == hex_chars(self.bytes()),
    {
        hex(self.0.as_slice())
    }

    /// The first digits, for messages to people.
    pub fn short_form(&self) -> (r: String)
        ensures
            r@ == tagged("Task"@, hex_chars(self.bytes().take(4))),
    {
        let first: [u8; 4] = [self.0[0], self.0[1], self.0[2], self.0[3]];
        assert(first@ =~= self.bytes().take(4));
        let digits = hex(first.as_slice());
        tagged_string("Task", digits.as_str())
    }

    /// Identifiers with the same bytes are the same.
    pub proof fn lemma_bytes(a: TaskID, b: TaskID)
        ensures
            a.bytes() == b.bytes() <==> a == b,
    {
        if a.bytes() == b.bytes() {
            assert(a.0 =~= b.0);
        }
    }
}

impl Default for TaskID {
    fn default() -> (r: Self)
        ensures
            is_v4(r.bytes()),
    {
        TaskID::new()
    }
}

/// The UTF-8 bytes `text` are hexadecimal digits, two for each of `bytes`.
pub open spec fn spells_bytes(text: Seq<u8>, bytes: Seq<u8>) -> bool {
    &&& text.len() == 2 * bytes.len()
    &&& forall|i: int|
        0 <= i < bytes.len() ==> hex_value(text[2 * i]) is Some && hex_value(text[2 * i + 1]) is Some
            && #[trigger] bytes[i] == 16 * hex_value(text[2 * i])->0 + hex_value(text[2 * i + 1])->0
}

/// Why a text is not hexadecimal.
#[derive(Debug, Clone, Copy)]
pub enum HexFault {
    /// This character, at this place, is no digit.
    Character(char, usize),
    OddLength,
    StringLength,
}

impl HexFault {
    pub open spec fn text(self) -> Seq<char> {
        match self {
            HexFault::Character(c, index) => "Invalid character "@ + debug_char(c) + " at position "@ + decimal(
                index as nat,
            ),
            HexFault::OddLength => "Odd number of digits"@,
            HexFault::StringLength => "Invalid string length"@,
        }
    }

    pub fn to_string(&self) -> (r: String)
        ensures
            r@ == self.text(),
    {
        match self {
            HexFault::Character(c, index) => {
                let mut text = "Invalid character ".to_string();
                text.append(quoted_char(*c).as_str());
                text.append(" at position ");
                text.append(decimal_string(*index as u64).as_str());
                text
            },
            HexFault::OddLength => "Odd number of digits".to_string(),
            HexFault::StringLength => "Invalid string length".to_string(),
        }
    }
}

/// What is wrong with UTF-8 bytes as hexadecimal digits: there is one too many or
/// too few, or else the first byte that is no digit.
pub open spec fn hex_refused(text: Seq<u8>, fault: HexFault) -> bool {
    match fault {
        HexFault::OddLength => text.len() % 2 != 0,
        HexFault::Character(c, index) => {
            &&& text.len() % 2 == 0
            &&& index < text.len()
            &&& c as int == text[index as int]
            &&& hex_value(text[index as int]) is None
            &&& forall|i: int| 0 <= i < index ==> (#[trigger] hex_value(text[i])) is Some
        },
        HexFault::StringLength => false,
    }
}

/// Calls `hex::decode`: two hexadecimal digits, in either case, per byte, or what is
/// wrong with the text. It never finds fault with the length of the result.
#[verifier::external_body]
fn hex_decode(text: &str) -> (r: Result<Vec<u8>, HexFault>)
    ensures
        match r {
            Ok(bytes) => spells_bytes(text.spec_bytes(), bytes@),
            Err(fault) => hex_refused(text.spec_bytes(), fault),
        },
{
    hex::decode(text).map_err(|error| match error {
        hex::FromHexError::InvalidHexCharacter { c, index } => HexFault::Character(c, index),
        hex::FromHexError::OddLength => HexFault::OddLength,
        hex::FromHexError::InvalidStringLength => HexFault::StringLength,
    })
}

/// What is refused spells no bytes.
proof fn lemma_refused_spells_nothing(text: Seq<u8>, fault: HexFault)
    requires
        hex_refused(text, fault),
    ensures
        forall|bytes: Seq<u8>| !#[trigger] spells_bytes(text, bytes),
{
    assert forall|bytes: Seq<u8>| !#[trigger] spells_bytes(text, bytes) by {
        if spells_bytes(text, bytes) {
            if let HexFault::Character(_, index) = fault {
                let pair = index as int / 2;
                assert(bytes[pair] == 16 * hex_value(text[2 * pair])->0 + hex_value(text[2 * pair + 1])->0);
                assert(index == 2 * pair || index == 2 * pair + 1);
            }
        }
    }
}

/// The result of reading a task id from `text`.
pub open spec fn task_id_read(text: &str, r: Result<TaskID, Seq<char>>) -> bool {
    match r {
        Ok(id) => spells_bytes(text.spec_bytes(), id.bytes()),
        Err(message) => {
            ||| {
                &&& forall|bytes: Seq<u8>| !#[trigger] spells_bytes(text.spec_bytes(), bytes)
                &&& exists|fault: HexFault| #[trigger]
                    hex_refused(text.spec_bytes(), fault) && message == "invalid task id '"@ + text@ + "': "@
                        + fault.text()
            }
            ||| {
                &&& exists|bytes: Seq<u8>| #[trigger] spells_bytes(text.spec_bytes(), bytes) && bytes.len() != 16
                &&& message == "task id must be 32 hex chars, got "@ + decimal(text.spec_bytes().len())
            }
        },
    }
}

/// Reads a task id from thirty-two hexadecimal digits.
pub fn parse_task_id(text: &str) -> (r: Result<TaskID, String>)
    ensures
        task_id_read(
            text,
            match r {
                Ok(id) => Ok(id),
                Err(message) => Err(message@),
            },
        ),
{
    match hex_decode(text) {
        Ok(bytes) => {
            if bytes.len() != 16 {
                assert(spells_bytes(text.spec_bytes(), bytes@));
                let mut message = "task id must be 32 hex chars, got ".to_string();
                let digits: usize = text.as_bytes().len();
                let count = decimal_string(digits as u64);
                message.append(count.as_str());
                return Err(message);
            }
            let mut array: [u8; 16] = [0; 16];
            let mut i: usize = 0;
            while i < 16
                invariant
                    i <= 16,
                    bytes@.len() == 16,
                    forall|j: int| 0 <= j < i ==> #[trigger] array@[j] == bytes@[j],
                decreases 16 - i,
            {
                array[i] = bytes[i];
                i += 1;
            }
            assert(array@ =~= bytes@);
            Ok(TaskID::from_bytes(array))
        },
        Err(fault) => {
            proof {
                lemma_refused_spells_nothing(text.spec_bytes(), fault);
            }
            let mut message = "invalid task id '".to_string();
            message.append(text);
            message.append("': ");
            message.append(fault.to_string().as_str());
            Err(message)
        },
    }
}

#[derive(Debug, Clone, Copy, PartialEq, Eq, Structural)]
pub enum ActorState {
    Pending,
    Running,
    Idle,
    Dead,
}

#[derive(Debug, Clone, Copy, PartialEq, Eq, Structural)]
pub enum TaskState {
    Pending,
    Running,
    Finished,
    Failed,
    Cancelled,
}

impl TaskState {
    /// The task will not run any more.
    pub open spec fn is_over(self) -> bool {
        self is Finished || self is Failed || self is Cancelled
    }
}

impl ActorState {
    pub open spec fn text(self) -> Seq<char> {
        match self {
            ActorState::Pending => "Pending"@,
            ActorState::Running => "Running"@,
            ActorState::Idle => "Idle"@,
            ActorState::Dead => "Dead"@,
        }
    }

    /// The name of the state.
    pub fn to_string(&self) -> (r: String)
        ensures
            r@ == self.text(),
    {
        match self {
            ActorState::Pending => "Pending".to_string(),
            ActorState::Running => "Running".to_string(),
            ActorState::Idle => "Idle".to_string(),
            ActorState::Dead => "Dead".to_string(),
        }
    }
}

#[derive(Debug)]
pub enum CrayonError {
    ObjectNotFound(ObjectID),
    ActorNotFound(ActorID),
    TypeMismatch,
    Serialize(String),
    TaskFailed(String),
    TaskCancelled(TaskID),
    ActorDead(ActorID),
    ActorMethodNotFound(ActorID, String),
    Timeout(ObjectID),
}

/// The view of a [`CrayonError`].
pub enum FaultModel {
    ObjectNotFound(ObjectID),
    ActorNotFound(ActorID),
    TypeMismatch,
    Serialize(Seq<char>),
    TaskFailed(Seq<char>),
    TaskCancelled(TaskID),
    ActorDead(ActorID),
    ActorMethodNotFound(ActorID, Seq<char>),
    Timeout(ObjectID),
}

impl View for CrayonError {
    type V = FaultModel;

    open spec fn view(&self) -> FaultModel {
        match *self {
            CrayonError::ObjectNotFound(id) => FaultModel::ObjectNotFound(id),
            CrayonError::ActorNotFound(id) => FaultModel::ActorNotFound(id),
            CrayonError::TypeMismatch => FaultModel::TypeMismatch,
            CrayonError::Serialize(m) => FaultModel::Serialize(m@),
            CrayonError::TaskFailed(m) => FaultModel::TaskFailed(m@),
            CrayonError::TaskCancelled(id) => FaultModel::TaskCancelled(id),
            CrayonError::ActorDead(id) => FaultModel::ActorDead(id),
            CrayonError::ActorMethodNotFound(id, name) => FaultModel::ActorMethodNotFound(id, name@),
            CrayonError::Timeout(id) => FaultModel::Timeout(id),
        }
    }
}

impl Clone for CrayonError {
    fn clone(&self) -> (r: Self)
        ensures
            r == *self,
    {
        match self {
            CrayonError::ObjectNotFound(id) => CrayonError::ObjectNotFound(*id),
            CrayonError::ActorNotFound(id) => CrayonError::ActorNotFound(*id),
            CrayonError::TypeMismatch => CrayonError::TypeMismatch,
            CrayonError::Serialize(m) => CrayonError::Serialize(m.clone()),
            CrayonError::TaskFailed(m) => CrayonError::TaskFailed(m.clone()),
            CrayonError::TaskCancelled(id) => CrayonError::TaskCancelled(*id),
            CrayonError::ActorDead(id) => CrayonError::ActorDead(*id),
            CrayonError::ActorMethodNotFound(id, name) => CrayonError::ActorMethodNotFound(*id, name.clone()),
            CrayonError::Timeout(id) => CrayonError::Timeout(*id),
        }
    }
}

impl FaultModel {
    /// The text of the error.
    pub open spec fn text(self) -> Seq<char> {
        match self {
            FaultModel::ObjectNotFound(id) => "object not found: "@ + hex_chars(id.bytes()),
            FaultModel::ActorNotFound(id) => "actor not found: "@ + hex_chars(id.bytes()),
            FaultModel::TypeMismatch => "object type mismatch"@,
            FaultModel::Serialize(m) => "serialization error: "@ + m,
            FaultModel::TaskFailed(m) => "task failed: "@ + m,
            FaultModel::TaskCancelled(id) => "task cancelled: "@ + hex_chars(id.bytes()),
            FaultModel::ActorDead(id) => "actor dead: "@ + hex_chars(id.bytes()),
            FaultModel::ActorMethodNotFound(id, name) => "actor "@ + hex_chars(id.bytes())
                + " has no registered method '"@ + name + "'"@,
            FaultModel::Timeout(id) => "timeout waiting for object: "@ + hex_chars(id.bytes()),
        }
    }
}

fn joined(first: &str, second: &str) -> (r: String)
    ensures
        r@ == first@ + second@,
{
    let mut out = first.to_string();
    out.append(second);
    out
}

impl CrayonError {
    /// The text of the error.
    pub fn to_string(&self) -> (r: String)
        ensures
            r@ == self@.text(),
    {
        match self {
            CrayonError::ObjectNotFound(id) => {
                let id = id.to_string();
                joined("object not found: ", id.as_str())
            },
            CrayonError::ActorNotFound(id) => {
                let id = id.to_string();
                joined("actor not found: ", id.as_str())
            },
            CrayonError::TypeMismatch => "object type mismatch".to_string(),
            CrayonError::Serialize(m) => joined("serialization error: ", m.as_str()),
            CrayonError::TaskFailed(m) => joined("task failed: ", m.as_str()),
            CrayonError::TaskCancelled(id) => {
                let id = id.to_string();
                joined("task cancelled: ", id.as_str())
            },
            CrayonError::ActorDead(id) => {
                let id = id.to_string();
                joined("actor dead: ", id.as_str())
            },
            CrayonError::ActorMethodNotFound(id, name) => {
                let id = id.to_string();
                let mut out = joined("actor ", id.as_str());
                out.append(" has no registered method '");
                out.append(name.as_str());
                out.append("'");
                out
            },
            CrayonError::Timeout(id) => {
                let id = id.to_string();
                joined("timeout waiting for object: ", id.as_str())
            },
        }
    }
}

/// The view of a result.
pub open spec fn settled<T>(result: Result<T, CrayonError>) -> Result<T, FaultModel> {
    match result {
        Ok(value) => Ok(value),
        Err(error) => Err(error@),
    }
}

/// The error that a panic amounts to: its message, if it had one that is text.
pub fn panic_to_error(message: Option<String>, default_msg: &str) -> (r: CrayonError)
    ensures
        r@ == FaultModel::TaskFailed(
            match message {
                Some(text) => text@,
                None => default_msg@,
            },
        ),
{
    match message {
        Some(text) => CrayonError::TaskFailed(text),
        None => CrayonError::TaskFailed(default_msg.to_string()),
    }
}

/// A counted reference to one generation of an object. It is made and given back
/// by the store that counts it.
#[derive(Debug)]
pub struct ObjectRef<T> {
    pub id: ObjectID,
    pub generation: u64,
    pub task_id: Option<TaskID>,
    pub marker: PhantomData<T>,
}

impl<T> ObjectRef<T> {
    pub(crate) fn new(id: ObjectID, generation: u64, task_id: Option<TaskID>) -> (r: Self)
        ensures
            r.id == id,
            r.generation == generation,
            r.task_id == task_id,
    {
        ObjectRef { id, generation, task_id, marker: PhantomData }
    }

    /// The task whose output this is, if it is one.
    pub fn task_id(&self) -> (r: Option<TaskID>)
        ensures
            r == self.task_id,
    {
        self.task_id
    }

    /// Whether both refer to the same generation of the same object.
    pub fn same(&self, other: &Self) -> (r: bool)
        ensures
            r == (self.id == other.id && self.generation == other.generation),
    {
        self.id == other.id && self.generation == other.generation
    }
}

/// The text of a fault tells what it is about.
pub proof fn law_fault_text_tells_the_fault(fault: FaultModel)
    ensures
        fault matches FaultModel::ObjectNotFound(id) ==> fault.text() == "object not found: "@ + hex_chars(id.bytes()),
        fault matches FaultModel::ActorNotFound(id) ==> fault.text() == "actor not found: "@ + hex_chars(id.bytes()),
        fault is TypeMismatch ==> fault.text() == "object type mismatch"@,
        fault matches FaultModel::Serialize(m) ==> "serialization error: "@.is_prefix_of(fault.text()) && says(
            fault.text(),
            m,
        ),
        fault matches FaultModel::TaskFailed(m) ==> "task failed: "@.is_prefix_of(fault.text()) && says(fault.text(), m),
        fault matches FaultModel::TaskCancelled(id) ==> fault.text() == "task cancelled: "@ + hex_chars(id.bytes()),
        fault matches FaultModel::ActorDead(id) ==> fault.text() == "actor dead: "@ + hex_chars(id.bytes()),
        fault matches FaultModel::ActorMethodNotFound(id, name) ==> says(fault.text(), "actor "@ + hex_chars(id.bytes()))
            && says(fault.text(), " has no registered method '"@ + name),
        fault matches FaultModel::Timeout(id) ==> fault.text() == "timeout waiting for object: "@ + hex_chars(
            id.bytes(),
        ),
{
    lemma_says();
    match fault {
        FaultModel::Serialize(m) => {
            assert("serialization error: "@ =~= fault.text().take("serialization error: "@.len() as int));
        },
        FaultModel::TaskFailed(m) => {
            assert("task failed: "@ =~= fault.text().take("task failed: "@.len() as int));
        },
        FaultModel::ActorMethodNotFound(id, name) => {
            let first = "actor "@ + hex_chars(id.bytes());
            assert(says(Seq::<char>::empty() + first, first));
            assert(Seq::<char>::empty() + first =~= first);
        },
        _ => {},
    }
}

/// The text of an actor's state is its name.
pub proof fn law_actor_state_is_told_by_name(state: ActorState)
    ensures
        state is Pending ==> state.text() == "Pending"@,
        state is Running ==> state.text() == "Running"@,
        state is Idle ==> state.text() == "Idle"@,
        state is Dead ==> state.text() == "Dead"@,
{
}

} // verus!
