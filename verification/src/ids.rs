//! Identifiers. All but object ids are random 128-bit values; an object id is a
//! 256-bit value, either a content digest or the digest of a random value.
use vstd::prelude::*;
use vstd::string::*;

use crate::text::{hex, hex_chars, hex_value};

verus! {

/// The text of an identifier did not parse: what is wrong with it.
#[derive(Clone, Debug, PartialEq, Eq)]
pub struct ParseIdError(pub String);

/// What `uuid::Uuid::parse_str` makes of a text: the 16 bytes that it reads, in any
/// of the formats it accepts, or the message of its error.
pub uninterp spec fn uuid_parsed(text: Seq<char>) -> Result<Seq<u8>, Seq<char>>;

spec fn parsed_view(parsed: Result<[u8; 16], String>) -> Result<Seq<u8>, Seq<char>> {
    match parsed {
        Ok(bytes) => Ok(bytes@),
        Err(message) => Err(message@),
    }
}

/// If `text` is the hexadecimal form of 16 bytes, `parsed` is those bytes.
spec fn spells_digits(text: Seq<char>, parsed: Result<Seq<u8>, Seq<char>>) -> bool {
    forall|bytes: Seq<u8>|
        bytes.len() == 16 && text == #[trigger] hex_chars(bytes) ==> parsed == Ok::<Seq<u8>, Seq<char>>(bytes)
}

/// `uuid::Uuid::parse_str`: which texts parse, to which bytes, and what is said of
/// the others depends on the text alone. Thirty-two lower-case hexadecimal digits
/// (the format's "simple" form) parse to the bytes they spell.
#[verifier::external_body]
fn uuid_parse(text: &str) -> (r: Result<[u8; 16], String>)
    ensures
        uuid_parsed(text@) == parsed_view(r),
        spells_digits(text@, parsed_view(r)),
{
    uuid::Uuid::parse_str(text).map(|id| *id.as_bytes()).map_err(|error| error.to_string())
}

/// The marks of a random UUID: its version and its variant.
pub open spec fn is_v4(bytes: Seq<u8>) -> bool {
    &&& bytes.len() == 16
    &&& bytes[6] as int / 16 == 4
    &&& bytes[8] as int / 64 == 2
}

/// `uuid::Uuid::new_v4`: the 16 bytes of a random UUID, which say that it is one.
/// The other bits may be anything.
#[verifier::external_body]
pub(crate) fn uuid_v4() -> (r: [u8; 16])
    ensures
        is_v4(r@),
{
    *uuid::Uuid::new_v4().as_bytes()
}

/// The BLAKE3 digest of a byte string.
pub uninterp spec fn blake3_digest(bytes: Seq<u8>) -> Seq<u8>;

/// `blake3::hash`: the 32-byte digest of `bytes`.
#[verifier::external_body]
pub(crate) fn blake3_hash(bytes: &[u8]) -> (r: [u8; 32])
    ensures
        r@ == blake3_digest(bytes@),
{
    *blake3::hash(bytes).as_bytes()
}

/// `blake3::Hasher::update_rayon` on a new hasher, then `finalize`: the digest
/// that `blake3::hash` gives, computed on several threads.
#[verifier::external_body]
pub(crate) fn blake3_hash_parallel(bytes: &[u8]) -> (r: [u8; 32])
    ensures
        r@ == blake3_digest(bytes@),
{
    *blake3::Hasher::new().update_rayon(bytes).finalize().as_bytes()
}

pub(crate) fn bytes_equal<const N: usize>(a: &[u8; N], b: &[u8; N]) -> (r: bool)
    ensures
        r == (*a == *b),
{
    let mut i: usize = 0;
    while i < N
        invariant
            0 <= i <= N,
            forall|j: int| 0 <= j < i ==> a@[j] == b@[j],
        decreases N - i,
    {
        if a[i] != b[i] {
            return false;
        }
        i += 1;
    }
    assert(*a =~= *b);
    true
}

/// Names one cluster; a request for another cluster is refused.
#[derive(Clone, Copy, Debug, Eq, Hash, PartialOrd, Ord)]
pub struct ClusterId(pub [u8; 16]);

impl PartialEq for ClusterId {
    fn eq(&self, other: &Self) -> (r: bool) {
        bytes_equal(&self.0, &other.0)
    }
}

impl vstd::std_specs::cmp::PartialEqSpecImpl for ClusterId {
    open spec fn obeys_eq_spec() -> bool {
        true
    }

    open spec fn eq_spec(&self, other: &Self) -> bool {
        *self == *other
    }
}

impl View for ClusterId {
    type V = ClusterId;

    open spec fn view(&self) -> ClusterId {
        *self
    }
}

impl ClusterId {
    /// A new random identifier.
    pub fn new() -> (r: Self)
        ensures
            is_v4(r.0@),
    {
        ClusterId(uuid_v4())
    }

    /// Thirty-two lower-case hexadecimal digits.
    pub fn to_string(&self) -> (r: String)
        ensures
            r@ == hex_chars(self.0@),
    {
        hex(self.0.as_slice())
    }

    /// Reads the identifier from any text form of a UUID; `to_string` gives one.
    pub fn parse(text: &str) -> (r: Result<Self, ParseIdError>)
        ensures
            match r {
                Ok(id) => uuid_parsed(text@) == Ok::<Seq<u8>, Seq<char>>(id.0@),
                Err(error) => uuid_parsed(text@) == Err::<Seq<u8>, Seq<char>>(error.0@),
            },
            forall|id: Self| text@ == hex_chars(#[trigger] id.0@) ==> r == Ok::<Self, ParseIdError>(id),
    {
        match uuid_parse(text) {
            Ok(bytes) => {
                proof {
                    assert forall|id: Self| text@ == hex_chars(#[trigger] id.0@) implies id == ClusterId(bytes) by {
                        assert(id.0 =~= bytes);
                    }
                }
                Ok(ClusterId(bytes))
            },
            Err(message) => Err(ParseIdError(message)),
        }
    }
}

impl Default for ClusterId {
    fn default() -> (r: Self)
        ensures
            is_v4(r.0@),
    {
        ClusterId::new()
    }
}

impl std::str::FromStr for ClusterId {
    type Err = ParseIdError;

    fn from_str(value: &str) -> (r: Result<Self, ParseIdError>)
        ensures
            match r {
                Ok(id) => uuid_parsed(value@) == Ok::<Seq<u8>, Seq<char>>(id.0@),
                Err(error) => uuid_parsed(value@) == Err::<Seq<u8>, Seq<char>>(error.0@),
            },
    {
        ClusterId::parse(value)
    }
}

/// One run of a coordinator.
#[derive(Clone, Copy, Debug, Eq, Hash, PartialOrd, Ord)]
pub struct CoordinatorEpoch(pub [u8; 16]);

impl PartialEq for CoordinatorEpoch {
    fn eq(&self, other: &Self) -> (r: bool) {
        bytes_equal(&self.0, &other.0)
    }
}

impl vstd::std_specs::cmp::PartialEqSpecImpl for CoordinatorEpoch {
    open spec fn obeys_eq_spec() -> bool {
        true
    }

    open spec fn eq_spec(&self, other: &Self) -> bool {
        *self == *other
    }
}

impl View for CoordinatorEpoch {
    type V = CoordinatorEpoch;

    open spec fn view(&self) -> CoordinatorEpoch {
        *self
    }
}

impl CoordinatorEpoch {
    /// A new random identifier.
    pub fn new() -> (r: Self)
        ensures
            is_v4(r.0@),
    {
        CoordinatorEpoch(uuid_v4())
    }

    /// Thirty-two lower-case hexadecimal digits.
    pub fn to_string(&self) -> (r: String)
        ensures
            r@ == hex_chars(self.0@),
    {
        hex(self.0.as_slice())
    }

    /// Reads the identifier from any text form of a UUID; `to_string` gives one.
    pub fn parse(text: &str) -> (r: Result<Self, ParseIdError>)
        ensures
            match r {
                Ok(id) => uuid_parsed(text@) == Ok::<Seq<u8>, Seq<char>>(id.0@),
                Err(error) => uuid_parsed(text@) == Err::<Seq<u8>, Seq<char>>(error.0@),
            },
            forall|id: Self| text@ == hex_chars(#[trigger] id.0@) ==> r == Ok::<Self, ParseIdError>(id),
    {
        match uuid_parse(text) {
            Ok(bytes) => {
                proof {
                    assert forall|id: Self| text@ == hex_chars(#[trigger] id.0@) implies id == CoordinatorEpoch(bytes) by {
                        assert(id.0 =~= bytes);
                    }
                }
                Ok(CoordinatorEpoch(bytes))
            },
            Err(message) => Err(ParseIdError(message)),
        }
    }
}

impl Default for CoordinatorEpoch {
    fn default() -> (r: Self)
        ensures
            is_v4(r.0@),
    {
        CoordinatorEpoch::new()
    }
}

impl std::str::FromStr for CoordinatorEpoch {
    type Err = ParseIdError;

    fn from_str(value: &str) -> (r: Result<Self, ParseIdError>)
        ensures
            match r {
                Ok(id) => uuid_parsed(value@) == Ok::<Seq<u8>, Seq<char>>(id.0@),
                Err(error) => uuid_parsed(value@) == Err::<Seq<u8>, Seq<char>>(error.0@),
            },
    {
        CoordinatorEpoch::parse(value)
    }
}

/// A worker process's place in the cluster.
#[derive(Clone, Copy, Debug, Eq, Hash, PartialOrd, Ord)]
pub struct NodeId(pub [u8; 16]);

impl PartialEq for NodeId {
    fn eq(&self, other: &Self) -> (r: bool) {
        bytes_equal(&self.0, &other.0)
    }
}

impl vstd::std_specs::cmp::PartialEqSpecImpl for NodeId {
    open spec fn obeys_eq_spec() -> bool {
        true
    }

    open spec fn eq_spec(&self, other: &Self) -> bool {
        *self == *other
    }
}

impl View for NodeId {
    type V = NodeId;

    open spec fn view(&self) -> NodeId {
        *self
    }
}

impl NodeId {
    /// A new random identifier.
    pub fn new() -> (r: Self)
        ensures
            is_v4(r.0@),
    {
        NodeId(uuid_v4())
    }

    /// Thirty-two lower-case hexadecimal digits.
    pub fn to_string(&self) -> (r: String)
        ensures
            r@ == hex_chars(self.0@),
    {
        hex(self.0.as_slice())
    }

    /// Reads the identifier from any text form of a UUID; `to_string` gives one.
    pub fn parse(text: &str) -> (r: Result<Self, ParseIdError>)
        ensures
            match r {
                Ok(id) => uuid_parsed(text@) == Ok::<Seq<u8>, Seq<char>>(id.0@),
                Err(error) => uuid_parsed(text@) == Err::<Seq<u8>, Seq<char>>(error.0@),
            },
            forall|id: Self| text@ == hex_chars(#[trigger] id.0@) ==> r == Ok::<Self, ParseIdError>(id),
    {
        match uuid_parse(text) {
            Ok(bytes) => {
                proof {
                    assert forall|id: Self| text@ == hex_chars(#[trigger] id.0@) implies id == NodeId(bytes) by {
                        assert(id.0 =~= bytes);
                    }
                }
                Ok(NodeId(bytes))
            },
            Err(message) => Err(ParseIdError(message)),
        }
    }
}

impl Default for NodeId {
    fn default() -> (r: Self)
        ensures
            is_v4(r.0@),
    {
        NodeId::new()
    }
}

impl std::str::FromStr for NodeId {
    type Err = ParseIdError;

    fn from_str(value: &str) -> (r: Result<Self, ParseIdError>)
        ensures
            match r {
                Ok(id) => uuid_parsed(value@) == Ok::<Seq<u8>, Seq<char>>(id.0@),
                Err(error) => uuid_parsed(value@) == Err::<Seq<u8>, Seq<char>>(error.0@),
            },
    {
        NodeId::parse(value)
    }
}

/// One run of a worker process.
#[derive(Clone, Copy, Debug, Eq, Hash, PartialOrd, Ord)]
pub struct WorkerEpoch(pub [u8; 16]);

impl PartialEq for WorkerEpoch {
    fn eq(&self, other: &Self) -> (r: bool) {
        bytes_equal(&self.0, &other.0)
    }
}

impl vstd::std_specs::cmp::PartialEqSpecImpl for WorkerEpoch {
    open spec fn obeys_eq_spec() -> bool {
        true
    }

    open spec fn eq_spec(&self, other: &Self) -> bool {
        *self == *other
    }
}

impl View for WorkerEpoch {
    type V = WorkerEpoch;

    open spec fn view(&self) -> WorkerEpoch {
        *self
    }
}

impl WorkerEpoch {
    /// A new random identifier.
    pub fn new() -> (r: Self)
        ensures
            is_v4(r.0@),
    {
        WorkerEpoch(uuid_v4())
    }

    /// Thirty-two lower-case hexadecimal digits.
    pub fn to_string(&self) -> (r: String)
        ensures
            r@ == hex_chars(self.0@),
    {
        hex(self.0.as_slice())
    }

    /// Reads the identifier from any text form of a UUID; `to_string` gives one.
    pub fn parse(text: &str) -> (r: Result<Self, ParseIdError>)
        ensures
            match r {
                Ok(id) => uuid_parsed(text@) == Ok::<Seq<u8>, Seq<char>>(id.0@),
                Err(error) => uuid_parsed(text@) == Err::<Seq<u8>, Seq<char>>(error.0@),
            },
            forall|id: Self| text@ == hex_chars(#[trigger] id.0@) ==> r == Ok::<Self, ParseIdError>(id),
    {
        match uuid_parse(text) {
            Ok(bytes) => {
                proof {
                    assert forall|id: Self| text@ == hex_chars(#[trigger] id.0@) implies id == WorkerEpoch(bytes) by {
                        assert(id.0 =~= bytes);
                    }
                }
                Ok(WorkerEpoch(bytes))
            },
            Err(message) => Err(ParseIdError(message)),
        }
    }
}

impl Default for WorkerEpoch {
    fn default() -> (r: Self)
        ensures
            is_v4(r.0@),
    {
        WorkerEpoch::new()
    }
}

impl std::str::FromStr for WorkerEpoch {
    type Err = ParseIdError;

    fn from_str(value: &str) -> (r: Result<Self, ParseIdError>)
        ensures
            match r {
                Ok(id) => uuid_parsed(value@) == Ok::<Seq<u8>, Seq<char>>(id.0@),
                Err(error) => uuid_parsed(value@) == Err::<Seq<u8>, Seq<char>>(error.0@),
            },
    {
        WorkerEpoch::parse(value)
    }
}

/// One registration of a worker with the coordinator.
#[derive(Clone, Copy, Debug, Eq, Hash, PartialOrd, Ord)]
pub struct WorkerSessionId(pub [u8; 16]);

impl PartialEq for WorkerSessionId {
    fn eq(&self, other: &Self) -> (r: bool) {
        bytes_equal(&self.0, &other.0)
    }
}

impl vstd::std_specs::cmp::PartialEqSpecImpl for WorkerSessionId {
    open spec fn obeys_eq_spec() -> bool {
        true
    }

    open spec fn eq_spec(&self, other: &Self) -> bool {
        *self == *other
    }
}

impl View for WorkerSessionId {
    type V = WorkerSessionId;

    open spec fn view(&self) -> WorkerSessionId {
        *self
    }
}

impl WorkerSessionId {
    /// A new random identifier.
    pub fn new() -> (r: Self)
        ensures
            is_v4(r.0@),
    {
        WorkerSessionId(uuid_v4())
    }

    /// Thirty-two lower-case hexadecimal digits.
    pub fn to_string(&self) -> (r: String)
        ensures
            r@ == hex_chars(self.0@),
    {
        hex(self.0.as_slice())
    }

    /// Reads the identifier from any text form of a UUID; `to_string` gives one.
    pub fn parse(text: &str) -> (r: Result<Self, ParseIdError>)
        ensures
            match r {
                Ok(id) => uuid_parsed(text@) == Ok::<Seq<u8>, Seq<char>>(id.0@),
                Err(error) => uuid_parsed(text@) == Err::<Seq<u8>, Seq<char>>(error.0@),
            },
            forall|id: Self| text@ == hex_chars(#[trigger] id.0@) ==> r == Ok::<Self, ParseIdError>(id),
    {
        match uuid_parse(text) {
            Ok(bytes) => {
                proof {
                    assert forall|id: Self| text@ == hex_chars(#[trigger] id.0@) implies id == WorkerSessionId(bytes) by {
                        assert(id.0 =~= bytes);
                    }
                }
                Ok(WorkerSessionId(bytes))
            },
            Err(message) => Err(ParseIdError(message)),
        }
    }
}

impl Default for WorkerSessionId {
    fn default() -> (r: Self)
        ensures
            is_v4(r.0@),
    {
        WorkerSessionId::new()
    }
}

impl std::str::FromStr for WorkerSessionId {
    type Err = ParseIdError;

    fn from_str(value: &str) -> (r: Result<Self, ParseIdError>)
        ensures
            match r {
                Ok(id) => uuid_parsed(value@) == Ok::<Seq<u8>, Seq<char>>(id.0@),
                Err(error) => uuid_parsed(value@) == Err::<Seq<u8>, Seq<char>>(error.0@),
            },
    {
        WorkerSessionId::parse(value)
    }
}

/// A submitted task.
#[derive(Clone, Copy, Debug, Eq, Hash, PartialOrd, Ord)]
pub struct TaskId(pub [u8; 16]);

impl PartialEq for TaskId {
    fn eq(&self, other: &Self) -> (r: bool) {
        bytes_equal(&self.0, &other.0)
    }
}

impl vstd::std_specs::cmp::PartialEqSpecImpl for TaskId {
    open spec fn obeys_eq_spec() -> bool {
        true
    }

    open spec fn eq_spec(&self, other: &Self) -> bool {
        *self == *other
    }
}

impl View for TaskId {
    type V = TaskId;

    open spec fn view(&self) -> TaskId {
        *self
    }
}

impl TaskId {
    /// A new random identifier.
    pub fn new() -> (r: Self)
        ensures
            is_v4(r.0@),
    {
        TaskId(uuid_v4())
    }

    /// Thirty-two lower-case hexadecimal digits.
    pub fn to_string(&self) -> (r: String)
        ensures
            r@ == hex_chars(self.0@),
    {
        hex(self.0.as_slice())
    }

    /// Reads the identifier from any text form of a UUID; `to_string` gives one.
    pub fn parse(text: &str) -> (r: Result<Self, ParseIdError>)
        ensures
            match r {
                Ok(id) => uuid_parsed(text@) == Ok::<Seq<u8>, Seq<char>>(id.0@),
                Err(error) => uuid_parsed(text@) == Err::<Seq<u8>, Seq<char>>(error.0@),
            },
            forall|id: Self| text@ == hex_chars(#[trigger] id.0@) ==> r == Ok::<Self, ParseIdError>(id),
    {
        match uuid_parse(text) {
            Ok(bytes) => {
                proof {
                    assert forall|id: Self| text@ == hex_chars(#[trigger] id.0@) implies id == TaskId(bytes) by {
                        assert(id.0 =~= bytes);
                    }
                }
                Ok(TaskId(bytes))
            },
            Err(message) => Err(ParseIdError(message)),
        }
    }
}

impl Default for TaskId {
    fn default() -> (r: Self)
        ensures
            is_v4(r.0@),
    {
        TaskId::new()
    }
}

impl std::str::FromStr for TaskId {
    type Err = ParseIdError;

    fn from_str(value: &str) -> (r: Result<Self, ParseIdError>)
        ensures
            match r {
                Ok(id) => uuid_parsed(value@) == Ok::<Seq<u8>, Seq<char>>(id.0@),
                Err(error) => uuid_parsed(value@) == Err::<Seq<u8>, Seq<char>>(error.0@),
            },
    {
        TaskId::parse(value)
    }
}

/// One client request, and one arena reservation.
#[derive(Clone, Copy, Debug, Eq, Hash, PartialOrd, Ord)]
pub struct RequestId(pub [u8; 16]);

impl PartialEq for RequestId {
    fn eq(&self, other: &Self) -> (r: bool) {
        bytes_equal(&self.0, &other.0)
    }
}

impl vstd::std_specs::cmp::PartialEqSpecImpl for RequestId {
    open spec fn obeys_eq_spec() -> bool {
        true
    }

    open spec fn eq_spec(&self, other: &Self) -> bool {
        *self == *other
    }
}

impl View for RequestId {
    type V = RequestId;

    open spec fn view(&self) -> RequestId {
        *self
    }
}

impl RequestId {
    /// A new random identifier.
    pub fn new() -> (r: Self)
        ensures
            is_v4(r.0@),
    {
        RequestId(uuid_v4())
    }

    /// Thirty-two lower-case hexadecimal digits.
    pub fn to_string(&self) -> (r: String)
        ensures
            r@ == hex_chars(self.0@),
    {
        hex(self.0.as_slice())
    }

    /// Reads the identifier from any text form of a UUID; `to_string` gives one.
    pub fn parse(text: &str) -> (r: Result<Self, ParseIdError>)
        ensures
            match r {
                Ok(id) => uuid_parsed(text@) == Ok::<Seq<u8>, Seq<char>>(id.0@),
                Err(error) => uuid_parsed(text@) == Err::<Seq<u8>, Seq<char>>(error.0@),
            },
            forall|id: Self| text@ == hex_chars(#[trigger] id.0@) ==> r == Ok::<Self, ParseIdError>(id),
    {
        match uuid_parse(text) {
            Ok(bytes) => {
                proof {
                    assert forall|id: Self| text@ == hex_chars(#[trigger] id.0@) implies id == RequestId(bytes) by {
                        assert(id.0 =~= bytes);
                    }
                }
                Ok(RequestId(bytes))
            },
            Err(message) => Err(ParseIdError(message)),
        }
    }
}

impl Default for RequestId {
    fn default() -> (r: Self)
        ensures
            is_v4(r.0@),
    {
        RequestId::new()
    }
}

impl std::str::FromStr for RequestId {
    type Err = ParseIdError;

    fn from_str(value: &str) -> (r: Result<Self, ParseIdError>)
        ensures
            match r {
                Ok(id) => uuid_parsed(value@) == Ok::<Seq<u8>, Seq<char>>(id.0@),
                Err(error) => uuid_parsed(value@) == Err::<Seq<u8>, Seq<char>>(error.0@),
            },
    {
        RequestId::parse(value)
    }
}

/// One assignment of a task to a worker.
#[derive(Clone, Copy, Debug, Eq, Hash, PartialOrd, Ord)]
pub struct LeaseId(pub [u8; 16]);

impl PartialEq for LeaseId {
    fn eq(&self, other: &Self) -> (r: bool) {
        bytes_equal(&self.0, &other.0)
    }
}

impl vstd::std_specs::cmp::PartialEqSpecImpl for LeaseId {
    open spec fn obeys_eq_spec() -> bool {
        true
    }

    open spec fn eq_spec(&self, other: &Self) -> bool {
        *self == *other
    }
}

impl View for LeaseId {
    type V = LeaseId;

    open spec fn view(&self) -> LeaseId {
        *self
    }
}

impl LeaseId {
    /// A new random identifier.
    pub fn new() -> (r: Self)
        ensures
            is_v4(r.0@),
    {
        LeaseId(uuid_v4())
    }

    /// Thirty-two lower-case hexadecimal digits.
    pub fn to_string(&self) -> (r: String)
        ensures
            r@ == hex_chars(self.0@),
    {
        hex(self.0.as_slice())
    }

    /// Reads the identifier from any text form of a UUID; `to_string` gives one.
    pub fn parse(text: &str) -> (r: Result<Self, ParseIdError>)
        ensures
            match r {
                Ok(id) => uuid_parsed(text@) == Ok::<Seq<u8>, Seq<char>>(id.0@),
                Err(error) => uuid_parsed(text@) == Err::<Seq<u8>, Seq<char>>(error.0@),
            },
            forall|id: Self| text@ == hex_chars(#[trigger] id.0@) ==> r == Ok::<Self, ParseIdError>(id),
    {
        match uuid_parse(text) {
            Ok(bytes) => {
                proof {
                    assert forall|id: Self| text@ == hex_chars(#[trigger] id.0@) implies id == LeaseId(bytes) by {
                        assert(id.0 =~= bytes);
                    }
                }
                Ok(LeaseId(bytes))
            },
            Err(message) => Err(ParseIdError(message)),
        }
    }
}

impl Default for LeaseId {
    fn default() -> (r: Self)
        ensures
            is_v4(r.0@),
    {
        LeaseId::new()
    }
}

impl std::str::FromStr for LeaseId {
    type Err = ParseIdError;

    fn from_str(value: &str) -> (r: Result<Self, ParseIdError>)
        ensures
            match r {
                Ok(id) => uuid_parsed(value@) == Ok::<Seq<u8>, Seq<char>>(id.0@),
                Err(error) => uuid_parsed(value@) == Err::<Seq<u8>, Seq<char>>(error.0@),
            },
    {
        LeaseId::parse(value)
    }
}

/// An object in the store.
#[derive(Clone, Copy, Debug, Eq, Hash, PartialOrd, Ord)]
pub struct ObjectId(pub [u8; 32]);

impl PartialEq for ObjectId {
    fn eq(&self, other: &Self) -> (r: bool) {
        bytes_equal(&self.0, &other.0)
    }
}

impl vstd::std_specs::cmp::PartialEqSpecImpl for ObjectId {
    open spec fn obeys_eq_spec() -> bool {
        true
    }

    open spec fn eq_spec(&self, other: &Self) -> bool {
        *self == *other
    }
}

impl View for ObjectId {
    type V = ObjectId;

    open spec fn view(&self) -> ObjectId {
        *self
    }
}

/// The value of two bytes read as a hexadecimal number: two digits, or a plus
/// sign and one digit.
pub open spec fn hex_pair_value(high: u8, low: u8) -> Option<int> {
    match (hex_value(high), hex_value(low)) {
        (Some(h), Some(l)) => Some(16 * h + l),
        (None, Some(l)) => if high == 43 {
            Some(l)
        } else {
            None
        },
        _ => None,
    }
}

/// `id` is what the UTF-8 bytes `text` spell, two bytes of text per byte of id.
pub open spec fn spells_object_id(text: Seq<u8>, id: ObjectId) -> bool {
    &&& text.len() == 64
    &&& forall|i: int|
        0 <= i < 32 ==> hex_pair_value(text[2 * i], text[2 * i + 1]) == Some(#[trigger] id.0@[i] as int)
}

/// The message of the standard library's error for bytes that are not UTF-8.
pub uninterp spec fn utf8_error_text(bytes: Seq<u8>) -> Seq<char>;

/// Calls `std::str::from_utf8`, which accepts exactly the valid UTF-8 encodings,
/// and gives its error as text. The text depends on the bytes alone and is not
/// stated.
#[verifier::external_body]
fn utf8_fault(bytes: &[u8]) -> (r: Option<String>)
    ensures
        match r {
            Some(message) => !vstd::utf8::valid_utf8(bytes@) && message@ == utf8_error_text(bytes@),
            None => vstd::utf8::valid_utf8(bytes@),
        },
{
    std::str::from_utf8(bytes).err().map(|error| error.to_string())
}

/// The `i`-th pair of bytes is the first that does not spell a byte.
pub open spec fn first_bad_pair(text: Seq<u8>, i: int) -> bool {
    &&& 0 <= i < 32
    &&& hex_pair_value(text[2 * i], text[2 * i + 1]) is None
    &&& forall|j: int| 0 <= j < i ==> hex_pair_value(#[trigger] text[2 * j], text[2 * j + 1]) is Some
}

/// What is wrong with a pair of bytes that does not spell a byte.
pub open spec fn pair_fault(high: u8, low: u8) -> Seq<char> {
    if vstd::utf8::valid_utf8(seq![high, low]) {
        "invalid digit found in string"@
    } else {
        utf8_error_text(seq![high, low])
    }
}

/// The result of reading an object id from the UTF-8 bytes `text`.
pub open spec fn object_id_read(text: Seq<u8>, r: Result<ObjectId, Seq<char>>) -> bool {
    match r {
        Ok(id) => spells_object_id(text, id),
        Err(message) => if text.len() != 64 {
            message == "object id must contain 64 hexadecimal characters"@
        } else {
            exists|i: int| #[trigger]
                first_bad_pair(text, i) && message == pair_fault(text[2 * i], text[2 * i + 1])
        },
    }
}

/// The view of a result of reading an object id.
pub open spec fn read_view(r: Result<ObjectId, String>) -> Result<ObjectId, Seq<char>> {
    match r {
        Ok(id) => Ok(id),
        Err(message) => Err(message@),
    }
}

/// An object id is read from exactly the texts that spell one.
pub proof fn law_unreadable_spells_nothing(text: Seq<u8>, message: Seq<char>)
    requires
        object_id_read(text, Err(message)),
    ensures
        forall|id: ObjectId| !spells_object_id(text, id),
{
    if text.len() == 64 {
        let i = choose|i: int| #[trigger]
            first_bad_pair(text, i) && message == pair_fault(text[2 * i], text[2 * i + 1]);
        assert forall|id: ObjectId| !spells_object_id(text, id) by {
            if spells_object_id(text, id) {
                assert(hex_pair_value(text[2 * i], text[2 * i + 1]) == Some(id.0@[i] as int));
            }
        }
    }
}

fn hex_digit_value(byte: u8) -> (r: Option<u8>)
    ensures
        match r {
            Some(v) => v < 16 && hex_value(byte) == Some(v as int),
            None => hex_value(byte) is None,
        },
{
    if 48 <= byte && byte <= 57 {
        Some(byte - 48)
    } else if 97 <= byte && byte <= 102 {
        Some(byte - 97 + 10)
    } else if 65 <= byte && byte <= 70 {
        Some(byte - 65 + 10)
    } else {
        None
    }
}

impl ObjectId {
    /// The digest of a new random identifier, for an object whose content is
    /// not hashed.
    pub fn new() -> (r: Self)
        ensures
            exists|seed: Seq<u8>| is_v4(seed) && r.0@ == #[trigger] blake3_digest(seed),
    {
        let seed = uuid_v4();
        let r = ObjectId(blake3_hash(seed.as_slice()));
        assert(r.0@ == blake3_digest(seed@));
        r
    }

    /// The id of an object whose content has this digest.
    pub fn from_checksum(checksum: [u8; 32]) -> (r: Self)
        ensures
            r == ObjectId(checksum),
    {
        ObjectId(checksum)
    }

    /// Sixty-four lower-case hexadecimal digits.
    pub fn to_string(&self) -> (r: String)
        ensures
            r@ == hex_chars(self.0@),
    {
        hex(self.0.as_slice())
    }

    /// Reads sixty-four hexadecimal digits.
    pub fn parse(value: &str) -> (r: Result<Self, String>)
        ensures
            object_id_read(value.spec_bytes(), read_view(r)),
    {
        let text = value.as_bytes();
        if text.len() != 64 {
            return Err("object id must contain 64 hexadecimal characters".to_string());
        }
        let mut bytes: [u8; 32] = [0; 32];
        let mut i: usize = 0;
        while i < 32
            invariant
                i <= 32,
                text@ == value.spec_bytes(),
                text@.len() == 64,
                forall|j: int|
                    0 <= j < i ==> hex_pair_value(text@[2 * j], text@[2 * j + 1]) == Some(
                        #[trigger] bytes@[j] as int,
                    ),
            decreases 32 - i,
        {
            let high = hex_digit_value(text[2 * i]);
            let low = hex_digit_value(text[2 * i + 1]);
            let value_here: u8 = match (high, low) {
                (Some(h), Some(l)) => h * 16 + l,
                (None, Some(l)) if text[2 * i] == 43 => l,
                _ => {
                    assert(first_bad_pair(text@, i as int)) by {
                        assert forall|j: int| 0 <= j < i implies hex_pair_value(
                            #[trigger] text@[2 * j],
                            text@[2 * j + 1],
                        ) is Some by {
                            assert(hex_pair_value(text@[2 * j], text@[2 * j + 1]) == Some(bytes@[j] as int));
                        }
                    }
                    let pair: [u8; 2] = [text[2 * i], text[2 * i + 1]];
                    assert(pair@ =~= seq![text@[2 * i], text@[2 * i + 1]]);
                    return match utf8_fault(pair.as_slice()) {
                        Some(message) => Err(message),
                        None => Err("invalid digit found in string".to_string()),
                    };
                },
            };
            bytes[i] = value_here;
            i += 1;
        }
        let id = ObjectId(bytes);
        assert(spells_object_id(text@, id));
        Ok(id)
    }
}

impl Default for ObjectId {
    fn default() -> (r: Self)
        ensures
            exists|seed: Seq<u8>| is_v4(seed) && r.0@ == #[trigger] blake3_digest(seed),
    {
        ObjectId::new()
    }
}

impl std::str::FromStr for ObjectId {
    type Err = String;

    fn from_str(value: &str) -> (r: Result<Self, String>)
        ensures
            object_id_read(value.spec_bytes(), read_view(r)),
    {
        ObjectId::parse(value)
    }
}

/// At most one id is spelled by a text.
pub proof fn law_spelling_is_unique(text: Seq<u8>, a: ObjectId, b: ObjectId)
    requires
        spells_object_id(text, a),
        spells_object_id(text, b),
    ensures
        a == b,
{
    assert forall|i: int| 0 <= i < 32 implies a.0@[i] == b.0@[i] by {
        assert(a.0@[i] as int == b.0@[i] as int);
    }
    assert(a.0 =~= b.0);
}

/// The text form of an object id reads back as that id.
pub proof fn law_object_id_text_round_trip(id: ObjectId, text: &str)
    requires
        text@ == hex_chars(id.0@),
    ensures
        spells_object_id(text.spec_bytes(), id),
{
    broadcast use vstd::string::group_string_axioms;

    let chars = text@;
    assert forall|i: int| 0 <= i < chars.len() implies (chars[i] as u32) < 128 by {}
    assert(is_ascii(text)) by {
        assert(vstd::utf8::is_ascii_chars(text@));
    }
    let bytes = text.spec_bytes();
    assert(bytes =~= Seq::new(chars.len(), |i: int| chars[i] as u8));
    assert forall|i: int| 0 <= i < 32 implies hex_pair_value(bytes[2 * i], bytes[2 * i + 1]) == Some(
        #[trigger] id.0@[i] as int,
    ) by {
        let b = id.0@[i];
        assert((2 * i) / 2 == i && (2 * i + 1) / 2 == i);
        assert(bytes[2 * i] == chars[2 * i] as u8);
        assert(bytes[2 * i + 1] == chars[2 * i + 1] as u8);
        assert(b as int == 16 * (b as int / 16) + b as int % 16);
    }
}

/// Counts changes of the coordinator's state.
#[derive(Clone, Copy, Debug, PartialEq, Eq, Structural, PartialOrd, Ord)]
pub struct Revision(pub u64);

/// Counts the assignments of a task.
#[derive(Clone, Copy, Debug, PartialEq, Eq, Structural, PartialOrd, Ord)]
pub struct Attempt(pub u32);

impl Default for Revision {
    fn default() -> (r: Self)
        ensures
            r == Revision(0),
    {
        Revision(0)
    }
}

impl Default for Attempt {
    fn default() -> (r: Self)
        ensures
            r == Attempt(0),
    {
        Attempt(0)
    }
}

/// A byte of an object id is read from two hexadecimal digits, the higher first, in
/// either case; a plus sign in place of the higher digit stands for zero, and no other
/// character stands for anything.
pub proof fn law_bytes_are_read_from_pairs(byte: u8, other: u8)
    ensures
        ({
            let high = byte as int / 16;
            let low = byte as int % 16;
            &&& hex_pair_value("0123456789abcdef"@[high] as u8, "0123456789abcdef"@[low] as u8) == Some(byte as int)
            &&& hex_pair_value("0123456789ABCDEF"@[high] as u8, "0123456789ABCDEF"@[low] as u8) == Some(byte as int)
            &&& hex_pair_value('+' as u8, "0123456789abcdef"@[low] as u8) == Some(low)
        }),
        hex_pair_value(byte, other) is Some ==> byte == '+' as u8 || hex_value(byte) is Some,
        hex_pair_value(byte, other) is Some ==> hex_value(other) is Some,
{
    reveal_strlit("0123456789abcdef");
    reveal_strlit("0123456789ABCDEF");
}

} // verus!
