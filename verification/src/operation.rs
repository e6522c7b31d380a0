//! Versioned operations, their descriptors, and task arguments.
use std::marker::PhantomData;
use vstd::prelude::*;
use vstd::string::*;
use vstd::utf8::encode_utf8;

use crate::coordinator::lemma_push_contains;
use crate::error::{outcome, Error, ErrorModel};
use crate::ids::ObjectId;
use crate::table::{Table, TableKey};
use crate::text::{decimal, decimal_string, lemma_says, says};

verus! {

pub const MAX_OPERATION_COMPONENT_BYTES: usize = 128;

pub const MAX_INLINE_ARG_BYTES: u64 = 65_536;

/// How the bytes of an object are encoded.
#[derive(Debug, Clone, Copy, Eq, PartialEq, Structural, Hash)]
pub enum Codec {
    BincodeV1,
    PythonPickleV1,
    JsonV1,
    RawBytes,
}

/// Names one version of an operation.
#[derive(Debug, Eq, PartialEq, Hash)]
pub struct OperationKey {
    pub namespace: String,
    pub name: String,
    pub version: u32,
}

#[verifier::ext_equal]
pub struct KeyModel {
    pub namespace: Seq<char>,
    pub name: Seq<char>,
    pub version: u32,
}

impl View for OperationKey {
    type V = KeyModel;

    open spec fn view(&self) -> KeyModel {
        KeyModel { namespace: self.namespace@, name: self.name@, version: self.version }
    }
}

impl Clone for OperationKey {
    fn clone(&self) -> (r: Self)
        ensures
            r == *self,
    {
        OperationKey { namespace: self.namespace.clone(), name: self.name.clone(), version: self.version }
    }
}

impl TableKey for OperationKey {
    fn same(&self, other: &Self) -> (r: bool) {
        self.version == other.version && self.namespace == other.namespace && self.name == other.name
    }
}

/// A byte allowed in a component of an operation's name: an ASCII letter or
/// digit, a hyphen, an underscore, or a dot.
pub open spec fn component_byte(byte: u8) -> bool {
    ||| 48 <= byte <= 57
    ||| 65 <= byte <= 90
    ||| 97 <= byte <= 122
    ||| byte == 45
    ||| byte == 95
    ||| byte == 46
}

/// A namespace or name: 1 to 128 bytes, all allowed.
pub open spec fn component_ok(text: Seq<char>) -> bool {
    let bytes = encode_utf8(text);
    &&& 0 < bytes.len() <= MAX_OPERATION_COMPONENT_BYTES
    &&& forall|i: int| 0 <= i < bytes.len() ==> component_byte(#[trigger] bytes[i])
}

impl KeyModel {
    pub open spec fn validated(self) -> Result<(), ErrorModel> {
        if !component_ok(self.namespace) {
            Err(ErrorModel::Protocol("invalid operation namespace"@))
        } else if !component_ok(self.name) {
            Err(ErrorModel::Protocol("invalid operation name"@))
        } else if self.version == 0 {
            Err(ErrorModel::Protocol("operation version must be positive"@))
        } else {
            Ok(())
        }
    }

    /// `namespace:name@version`.
    pub open spec fn text(self) -> Seq<char> {
        self.namespace + ":"@ + self.name + "@"@ + decimal(self.version as nat)
    }
}

fn check_component(text: &str) -> (r: bool)
    ensures
        r == component_ok(text@),
{
    let bytes = text.as_bytes();
    if bytes.len() == 0 || bytes.len() > MAX_OPERATION_COMPONENT_BYTES {
        return false;
    }
    let mut i: usize = 0;
    while i < bytes.len()
        invariant
            i <= bytes@.len(),
            bytes@ == encode_utf8(text@),
            forall|j: int| 0 <= j < i ==> component_byte(#[trigger] bytes@[j]),
        decreases bytes@.len() - i,
    {
        let byte: u8 = bytes[i];
        let allowed = (48 <= byte && byte <= 57) || (65 <= byte && byte <= 90) || (97 <= byte && byte <= 122)
            || byte == 45 || byte == 95 || byte == 46;
        if !allowed {
            return false;
        }
        i += 1;
    }
    true
}

impl OperationKey {
    pub fn new(namespace: &str, name: &str, version: u32) -> (r: Self)
        ensures
            r@ == (KeyModel { namespace: namespace@, name: name@, version }),
    {
        OperationKey { namespace: namespace.to_string(), name: name.to_string(), version }
    }

    /// Checks the form of the key.
    pub fn validate(&self) -> (r: Result<(), Error>)
        ensures
            outcome(r) == self@.validated(),
    {
        if !check_component(self.namespace.as_str()) {
            return Err(Error::Protocol("invalid operation namespace".to_string()));
        }
        if !check_component(self.name.as_str()) {
            return Err(Error::Protocol("invalid operation name".to_string()));
        }
        if self.version == 0 {
            return Err(Error::Protocol("operation version must be positive".to_string()));
        }
        Ok(())
    }

    pub fn to_string(&self) -> (r: String)
        ensures
            r@ == self@.text(),
    {
        let mut text = self.namespace.clone();
        text.append(":");
        text.append(self.name.as_str());
        text.append("@");
        text.append(decimal_string(self.version as u64).as_str());
        text
    }
}

/// What a worker offers under a key.
#[derive(Debug, Eq, PartialEq)]
pub struct OperationDescriptor {
    pub key: OperationKey,
    pub input_codec: Codec,
    pub output_codec: Codec,
    pub max_inline_arg_bytes: u64,
}

#[verifier::ext_equal]
pub struct DescriptorModel {
    pub key: KeyModel,
    pub input_codec: Codec,
    pub output_codec: Codec,
    pub max_inline_arg_bytes: u64,
}

impl View for OperationDescriptor {
    type V = DescriptorModel;

    open spec fn view(&self) -> DescriptorModel {
        DescriptorModel {
            key: self.key@,
            input_codec: self.input_codec,
            output_codec: self.output_codec,
            max_inline_arg_bytes: self.max_inline_arg_bytes,
        }
    }
}

impl Clone for OperationDescriptor {
    fn clone(&self) -> (r: Self)
        ensures
            r == *self,
    {
        OperationDescriptor {
            key: self.key.clone(),
            input_codec: self.input_codec,
            output_codec: self.output_codec,
            max_inline_arg_bytes: self.max_inline_arg_bytes,
        }
    }
}

impl DescriptorModel {
    pub open spec fn validated(self) -> Result<(), ErrorModel> {
        if self.key.validated() is Err {
            self.key.validated()
        } else if self.max_inline_arg_bytes > MAX_INLINE_ARG_BYTES {
            Err(ErrorModel::Protocol("max inline argument size exceeds 65536 bytes"@))
        } else {
            Ok(())
        }
    }

    /// What is wrong with one argument, if anything. Object arguments are
    /// checked where the objects are known.
    pub open spec fn arg_fault(self, arg: ArgModel) -> Option<ErrorModel> {
        match arg {
            ArgModel::Inline { codec, bytes } => if codec != self.input_codec {
                Some(ErrorModel::Protocol("inline argument codec mismatch"@))
            } else if bytes.len() > self.max_inline_arg_bytes {
                Some(ErrorModel::Protocol("inline argument exceeds operation limit"@))
            } else {
                None
            },
            ArgModel::Object(_) => None,
        }
    }

    /// The fault of the first faulty argument, if there is one.
    pub open spec fn args_validated(self, args: Seq<ArgModel>) -> Result<(), ErrorModel>
        decreases args.len(),
    {
        if args.len() == 0 {
            Ok(())
        } else {
            match self.args_validated(args.drop_last()) {
                Err(error) => Err(error),
                Ok(()) => match self.arg_fault(args.last()) {
                    Some(error) => Err(error),
                    None => Ok(()),
                },
            }
        }
    }

    proof fn lemma_first_fault(self, args: Seq<ArgModel>, n: int)
        requires
            0 <= n <= args.len(),
            self.args_validated(args.take(n)) is Err,
        ensures
            self.args_validated(args) == self.args_validated(args.take(n)),
        decreases args.len() - n,
    {
        if n < args.len() {
            assert(args.take(n + 1).drop_last() =~= args.take(n));
            self.lemma_first_fault(args, n + 1);
        } else {
            assert(args.take(n) =~= args);
        }
    }
}

impl OperationDescriptor {
    pub fn validate(&self) -> (r: Result<(), Error>)
        ensures
            outcome(r) == self@.validated(),
    {
        match self.key.validate() {
            Err(error) => return Err(error),
            Ok(()) => {},
        }
        if self.max_inline_arg_bytes > MAX_INLINE_ARG_BYTES {
            return Err(Error::Protocol("max inline argument size exceeds 65536 bytes".to_string()));
        }
        Ok(())
    }

    /// Checks the inline arguments against the codec and the size limit.
    pub fn validate_args(&self, args: &[TaskArg]) -> (r: Result<(), Error>)
        ensures
            outcome(r) == self@.args_validated(args_model(args@)),
    {
        let ghost models = args_model(args@);
        let mut i: usize = 0;
        while i < args.len()
            invariant
                i <= args@.len(),
                models == args_model(args@),
                self@.args_validated(models.take(i as int)) == Ok::<(), ErrorModel>(()),
            decreases args@.len() - i,
        {
            proof {
                assert(models.take(i + 1).drop_last() =~= models.take(i as int));
                assert(models.take(i + 1).last() == args@[i as int]@);
            }
            if let TaskArg::Inline { codec, bytes } = &args[i] {
                if *codec != self.input_codec {
                    proof {
                        self@.lemma_first_fault(models, i + 1);
                    }
                    return Err(Error::Protocol("inline argument codec mismatch".to_string()));
                }
                if bytes.len() as u64 > self.max_inline_arg_bytes {
                    proof {
                        self@.lemma_first_fault(models, i + 1);
                    }
                    return Err(Error::Protocol("inline argument exceeds operation limit".to_string()));
                }
            }
            i += 1;
        }
        assert(models.take(i as int) =~= models);
        Ok(())
    }

    pub fn same(&self, other: &Self) -> (r: bool)
        ensures
            r == (self@ == other@),
    {
        self.key.same(&other.key) && self.input_codec == other.input_codec && self.output_codec
            == other.output_codec && self.max_inline_arg_bytes == other.max_inline_arg_bytes
    }
}

/// An argument of a task: bytes, or the content of an object.
#[derive(Debug, Eq, PartialEq)]
pub enum TaskArg {
    Inline { codec: Codec, bytes: Vec<u8> },
    Object(ObjectId),
}

pub enum ArgModel {
    Inline { codec: Codec, bytes: Seq<u8> },
    Object(ObjectId),
}

impl View for TaskArg {
    type V = ArgModel;

    open spec fn view(&self) -> ArgModel {
        match *self {
            TaskArg::Inline { codec, bytes } => ArgModel::Inline { codec, bytes: bytes@ },
            TaskArg::Object(id) => ArgModel::Object(id),
        }
    }
}

impl Clone for TaskArg {
    fn clone(&self) -> (r: Self)
        ensures
            r@ == self@,
    {
        match self {
            TaskArg::Inline { codec, bytes } => {
                let copy = bytes.clone();
                assert(copy@ =~= bytes@);
                TaskArg::Inline { codec: *codec, bytes: copy }
            },
            TaskArg::Object(id) => TaskArg::Object(*id),
        }
    }
}

pub open spec fn args_model(args: Seq<TaskArg>) -> Seq<ArgModel> {
    args.map_values(|arg: TaskArg| arg@)
}

pub(crate) fn clone_args(args: &Vec<TaskArg>) -> (r: Vec<TaskArg>)
    ensures
        args_model(r@) == args_model(args@),
{
    let r = args.clone();
    assert(args_model(r@) =~= args_model(args@)) by {
        assert forall|i: int| 0 <= i < args@.len() implies #[trigger] args_model(r@)[i] == args_model(args@)[i] by {
            assert(cloned(args@[i], r@[i]));
        }
    }
    r
}

/// A descriptor that passed validation, with the types of argument and result.
#[derive(Debug)]
pub struct Operation<A, O> {
    descriptor: OperationDescriptor,
    marker: PhantomData<(A, O)>,
}

impl<A, O> Clone for Operation<A, O> {
    fn clone(&self) -> (r: Self)
        ensures
            r.spec_descriptor() == self.spec_descriptor(),
    {
        Operation { descriptor: self.descriptor.clone(), marker: PhantomData }
    }
}

impl<A, O> Operation<A, O> {
    pub closed spec fn spec_descriptor(&self) -> DescriptorModel {
        self.descriptor@
    }

    pub fn new(descriptor: OperationDescriptor) -> (r: Result<Self, Error>)
        ensures
            match r {
                Ok(operation) => descriptor@.validated() is Ok && operation.spec_descriptor() == descriptor@,
                Err(error) => descriptor@.validated() == Err::<(), ErrorModel>(error@),
            },
    {
        match descriptor.validate() {
            Err(error) => Err(error),
            Ok(()) => Ok(Operation { descriptor, marker: PhantomData }),
        }
    }

    pub fn descriptor(&self) -> (r: &OperationDescriptor)
        ensures
            r@ == self.spec_descriptor(),
    {
        &self.descriptor
    }
}

/// Descriptors by key.
#[derive(Debug)]
pub struct Operations {
    table: Table<OperationKey, OperationDescriptor>,
}

impl View for Operations {
    type V = Map<KeyModel, DescriptorModel>;

    closed spec fn view(&self) -> Map<KeyModel, DescriptorModel> {
        self.table@
    }
}

/// The map that holds each descriptor of a list under its key; of two under
/// one key, the later.
pub open spec fn by_key(list: Seq<DescriptorModel>) -> Map<KeyModel, DescriptorModel>
    decreases list.len(),
{
    if list.len() == 0 {
        Map::empty()
    } else {
        by_key(list.drop_last()).insert(list.last().key, list.last())
    }
}

pub open spec fn descriptors_model(list: Seq<OperationDescriptor>) -> Seq<DescriptorModel> {
    list.map_values(|descriptor: OperationDescriptor| descriptor@)
}

impl Clone for Operations {
    fn clone(&self) -> (r: Self)
        ensures
            r@ == self@,
    {
        proof {
            use_type_invariant(self);
            self.table.lemma_keys();
        }
        let mut r = Operations::new();
        let mut i: usize = 0;
        while i < self.table.len()
            invariant
                self.table.wf(),
                forall|key: KeyModel| #[trigger] self.table@.contains_key(key) ==> self.table@[key].key == key,
                i <= self.table.keys().len(),
                forall|j: int|
                    0 <= j < i ==> r@.contains_key(#[trigger] self.table.keys()[j]) && r@[self.table.keys()[j]]
                        == self.table@[self.table.keys()[j]],
                forall|key: KeyModel| #[trigger]
                    r@.contains_key(key) ==> self.table@.contains_key(key) && r@[key] == self.table@[key],
            decreases self.table.keys().len() - i,
        {
            let (_, descriptor) = self.table.entry_at(i);
            r.insert(descriptor.clone());
            i += 1;
        }
        proof {
            self.table.lemma_keys();
            assert forall|key: KeyModel| #[trigger] self.table@.contains_key(key) implies r@.contains_key(key) by {
                assert(self.table.keys().contains(key));
                let j = self.table.keys().index_of(key);
                assert(self.table.keys()[j] == key);
            }
            assert(r@ =~= self@);
        }
        r
    }
}

impl Operations {
    #[verifier::type_invariant]
    closed spec fn inv(self) -> bool {
        &&& self.table.wf()
        &&& forall|key: KeyModel| #[trigger] self.table@.contains_key(key) ==> self.table@[key].key == key
    }

    pub fn new() -> (r: Self)
        ensures
            r@ == Map::<KeyModel, DescriptorModel>::empty(),
    {
        Operations { table: Table::new() }
    }

    pub fn get(&self, key: &OperationKey) -> (r: Option<&OperationDescriptor>)
        ensures
            match r {
                Some(descriptor) => self@.contains_key(key@) && descriptor@ == self@[key@],
                None => !self@.contains_key(key@),
            },
    {
        proof {
            use_type_invariant(self);
        }
        self.table.get(key)
    }

    pub fn contains_key(&self, key: &OperationKey) -> (r: bool)
        ensures
            r == self@.contains_key(key@),
    {
        proof {
            use_type_invariant(self);
        }
        self.table.contains_key(key)
    }

    /// Puts a descriptor under its key.
    pub fn insert(&mut self, descriptor: OperationDescriptor)
        ensures
            final(self)@ == old(self)@.insert(descriptor@.key, descriptor@),
    {
        proof {
            use_type_invariant(&*self);
        }
        let mut table: Table<OperationKey, OperationDescriptor> = Table::new();
        std::mem::swap(&mut self.table, &mut table);
        table.insert(descriptor.key.clone(), descriptor);
        std::mem::swap(&mut self.table, &mut table);
    }

    fn within(&self, other: &Self) -> (r: bool)
        ensures
            r <==> forall|key: KeyModel| #[trigger]
                self@.contains_key(key) ==> other@.contains_key(key) && other@[key] == self@[key],
    {
        proof {
            use_type_invariant(self);
            self.table.lemma_keys();
        }
        let mut i: usize = 0;
        while i < self.table.len()
            invariant
                self.table.wf(),
                i <= self.table.keys().len(),
                forall|j: int|
                    0 <= j < i ==> other@.contains_key(#[trigger] self.table.keys()[j])
                        && other@[self.table.keys()[j]] == self.table@[self.table.keys()[j]],
            decreases self.table.keys().len() - i,
        {
            let (key, descriptor) = self.table.entry_at(i);
            let agrees = match other.get(key) {
                Some(found) => found.same(descriptor),
                None => false,
            };
            if !agrees {
                assert(self@.contains_key(key@));
                return false;
            }
            i += 1;
        }
        proof {
            self.table.lemma_keys();
            assert forall|key: KeyModel| #[trigger] self@.contains_key(key) implies other@.contains_key(key)
                && other@[key] == self@[key] by {
                assert(self.table.keys().contains(key));
                let j = self.table.keys().index_of(key);
                assert(self.table.keys()[j] == key);
            }
        }
        true
    }

    /// Whether both hold the same descriptors.
    pub fn same(&self, other: &Self) -> (r: bool)
        ensures
            r == (self@ == other@),
    {
        let r = self.within(other) && other.within(self);
        proof {
            if r {
                assert(self@ =~= other@);
            }
        }
        r
    }

    /// Adds every descriptor of `other`.
    pub fn merge(&mut self, other: &Self)
        ensures
            final(self)@ == old(self)@.union_prefer_right(other@),
    {
        proof {
            use_type_invariant(other);
            use_type_invariant(&*self);
            other.table.lemma_keys();
        }
        let ghost before = self@;
        let mut i: usize = 0;
        while i < other.table.len()
            invariant
                other.table.wf(),
                i <= other.table.keys().len(),
                before == old(self)@,
                forall|key: KeyModel| #[trigger]
                    self@.contains_key(key) <==> before.contains_key(key) || other.table.keys().take(
                        i as int,
                    ).contains(key),
                forall|key: KeyModel| #[trigger]
                    self@.contains_key(key) ==> self@[key] == if other.table.keys().take(i as int).contains(key) {
                        other@[key]
                    } else {
                        before[key]
                    },
                forall|key: KeyModel| #[trigger] other@.contains_key(key) ==> other@[key].key == key,
            decreases other.table.keys().len() - i,
        {
            let (key, descriptor) = other.table.entry_at(i);
            let ghost prior = self@;
            self.insert(descriptor.clone());
            proof {
                let seen = other.table.keys().take(i as int);
                let grown = other.table.keys().take(i + 1);
                assert(grown =~= seen.push(key@));
                assert(other@.contains_key(key@));
                assert forall|k: KeyModel| #[trigger] grown.contains(k) <==> (seen.contains(k) || k == key@) by {
                    assert(grown[i as int] == key@);
                    if seen.contains(k) {
                        let j = seen.index_of(k);
                        assert(grown[j] == k);
                    }
                    if grown.contains(k) {
                        let j = grown.index_of(k);
                        if j < i {
                            assert(seen[j] == k);
                        }
                    }
                }
                assert forall|k: KeyModel| #[trigger] self@.contains_key(k) <==> before.contains_key(k) || grown.contains(
                    k,
                ) by {
                    assert(prior.contains_key(k) <==> before.contains_key(k) || seen.contains(k));
                    assert(grown.contains(k) <==> (seen.contains(k) || k == key@));
                }
                assert forall|k: KeyModel| #[trigger] self@.contains_key(k) implies self@[k] == if grown.contains(k) {
                    other@[k]
                } else {
                    before[k]
                } by {
                    assert(grown.contains(k) <==> (seen.contains(k) || k == key@));
                    assert(k != key@ ==> prior.contains_key(k));
                }
            }
            i += 1;
        }
        proof {
            other.table.lemma_keys();
            assert(other.table.keys().take(i as int) =~= other.table.keys());
            assert(self@ =~= before.union_prefer_right(other@));
        }
    }

    /// Every descriptor, each once.
    pub fn list(&self) -> (r: Vec<OperationDescriptor>)
        ensures
            by_key(descriptors_model(r@)) == self@,
            r@.len() == self@.dom().len(),
    {
        proof {
            use_type_invariant(self);
            self.table.lemma_keys();
        }
        let mut r: Vec<OperationDescriptor> = Vec::new();
        let mut i: usize = 0;
        assert(by_key(descriptors_model(r@)) =~= Map::<KeyModel, DescriptorModel>::empty());
        while i < self.table.len()
            invariant
                self.table.wf(),
                forall|key: KeyModel| #[trigger] self.table@.contains_key(key) ==> self.table@[key].key == key,
                i <= self.table.keys().len(),
                r@.len() == i,
                forall|key: KeyModel| #[trigger]
                    by_key(descriptors_model(r@)).contains_key(key) <==> self.table.keys().take(i as int).contains(
                        key,
                    ),
                forall|key: KeyModel| #[trigger]
                    by_key(descriptors_model(r@)).contains_key(key) ==> by_key(descriptors_model(r@))[key]
                        == self.table@[key],
            decreases self.table.keys().len() - i,
        {
            let (key, descriptor) = self.table.entry_at(i);
            let ghost before = r@;
            r.push(descriptor.clone());
            proof {
                assert(descriptors_model(r@).drop_last() =~= descriptors_model(before));
                assert(descriptors_model(r@).last() == descriptor@);
                assert(self.table@.contains_key(key@));
                assert(by_key(descriptors_model(r@)) == by_key(descriptors_model(before)).insert(key@, descriptor@));
                assert(self.table.keys().take(i + 1) =~= self.table.keys().take(i as int).push(key@));
                lemma_push_contains(self.table.keys().take(i as int), key@);
            }
            i += 1;
        }
        proof {
            self.table.lemma_keys();
            assert(self.table.keys().take(i as int) =~= self.table.keys());
            assert(by_key(descriptors_model(r@)) =~= self@);
        }
        r
    }
}

/// A key is valid if and only if its namespace and name are one to 128 letters,
/// digits, hyphens, underscores or dots each, and its version is positive.
pub proof fn law_valid_keys(key: KeyModel)
    ensures
        key.validated() is Ok <==> {
            let namespace = encode_utf8(key.namespace);
            let name = encode_utf8(key.name);
            &&& 1 <= namespace.len() <= 128
            &&& 1 <= name.len() <= 128
            &&& key.version >= 1
            &&& forall|i: int| 0 <= i < namespace.len() ==> {
                let byte = #[trigger] namespace[i];
                48 <= byte <= 57 || 65 <= byte <= 90 || 97 <= byte <= 122 || byte == 45 || byte == 95 || byte == 46
            }
            &&& forall|i: int| 0 <= i < name.len() ==> {
                let byte = #[trigger] name[i];
                48 <= byte <= 57 || 65 <= byte <= 90 || 97 <= byte <= 122 || byte == 45 || byte == 95 || byte == 46
            }
        },
{
    let namespace = encode_utf8(key.namespace);
    let name = encode_utf8(key.name);
    if component_ok(key.namespace) {
        assert forall|i: int| 0 <= i < namespace.len() implies {
            let byte = #[trigger] namespace[i];
            48 <= byte <= 57 || 65 <= byte <= 90 || 97 <= byte <= 122 || byte == 45 || byte == 95 || byte == 46
        } by {
            assert(component_byte(namespace[i]));
        }
    }
    if component_ok(key.name) {
        assert forall|i: int| 0 <= i < name.len() implies {
            let byte = #[trigger] name[i];
            48 <= byte <= 57 || 65 <= byte <= 90 || 97 <= byte <= 122 || byte == 45 || byte == 95 || byte == 46
        } by {
            assert(component_byte(name[i]));
        }
    }
}

/// A descriptor is valid if its key is and it takes inline arguments of no more than
/// 64 KiB.
pub proof fn law_valid_descriptors(descriptor: DescriptorModel)
    ensures
        descriptor.validated() is Ok <==> descriptor.key.validated() is Ok && descriptor.max_inline_arg_bytes <= 65_536,
{
}

/// Arguments are valid if and only if each inline one is in the operation's input
/// codec and no larger than the operation takes. Otherwise the first that is not gives
/// the reason.
pub proof fn law_first_bad_argument_is_named(descriptor: DescriptorModel, args: Seq<ArgModel>, i: int)
    ensures
        descriptor.args_validated(args) is Ok <==> forall|j: int|
            0 <= j < args.len() ==> (#[trigger] args[j] matches ArgModel::Inline { codec, bytes } ==> codec
                == descriptor.input_codec && bytes.len() <= descriptor.max_inline_arg_bytes),
        0 <= i < args.len() && descriptor.args_validated(args.take(i)) is Ok ==> (args[i] matches ArgModel::Inline {
            codec,
            bytes,
        } ==> (codec != descriptor.input_codec ==> descriptor.args_validated(args) == Err::<(), ErrorModel>(
            ErrorModel::Protocol("inline argument codec mismatch"@),
        )) && (codec == descriptor.input_codec && bytes.len() > descriptor.max_inline_arg_bytes
            ==> descriptor.args_validated(args) == Err::<(), ErrorModel>(
            ErrorModel::Protocol("inline argument exceeds operation limit"@),
        ))),
    decreases args.len(),
{
    if args.len() > 0 {
        let rest = args.drop_last();
        law_first_bad_argument_is_named(descriptor, rest, i);
        let fine = |arg: ArgModel|
            arg matches ArgModel::Inline { codec, bytes } ==> codec == descriptor.input_codec && bytes.len()
                <= descriptor.max_inline_arg_bytes;
        if descriptor.args_validated(args) is Ok {
            assert forall|j: int| 0 <= j < args.len() implies (#[trigger] args[j] matches ArgModel::Inline {
                codec,
                bytes,
            } ==> codec == descriptor.input_codec && bytes.len() <= descriptor.max_inline_arg_bytes) by {
                if j < rest.len() {
                    assert(rest[j] == args[j]);
                }
            }
        } else if forall|j: int|
            0 <= j < args.len() ==> (#[trigger] args[j] matches ArgModel::Inline { codec, bytes } ==> codec
                == descriptor.input_codec && bytes.len() <= descriptor.max_inline_arg_bytes) {
            assert forall|j: int| 0 <= j < rest.len() implies (#[trigger] rest[j] matches ArgModel::Inline {
                codec,
                bytes,
            } ==> codec == descriptor.input_codec && bytes.len() <= descriptor.max_inline_arg_bytes) by {
                assert(rest[j] == args[j]);
            }
            assert(args[args.len() - 1] == args.last());
        }
        if 0 <= i < args.len() && descriptor.args_validated(args.take(i)) is Ok {
            if i < rest.len() {
                assert(rest.take(i) =~= args.take(i));
                assert(rest[i] == args[i]);
            } else {
                assert(args.take(i) =~= rest);
                assert(args[i] == args.last());
            }
        }
    }
}

/// Of several descriptors under one key the last counts, and no key is made up.
pub proof fn law_last_descriptor_counts(list: Seq<DescriptorModel>, i: int, key: KeyModel)
    ensures
        0 <= i < list.len() && (forall|j: int| i < j < list.len() ==> (#[trigger] list[j]).key != list[i].key) ==> by_key(
            list,
        ).contains_key(list[i].key) && by_key(list)[list[i].key] == list[i],
        (forall|j: int| 0 <= j < list.len() ==> (#[trigger] list[j]).key != key) ==> !by_key(list).contains_key(key),
    decreases list.len(),
{
    if list.len() > 0 {
        let rest = list.drop_last();
        let last = list.len() - 1;
        law_last_descriptor_counts(rest, i, key);
        if 0 <= i < list.len() && (forall|j: int| i < j < list.len() ==> (#[trigger] list[j]).key != list[i].key) {
            if i < last {
                assert(rest[i] == list[i]);
                assert forall|j: int| i < j < rest.len() implies (#[trigger] rest[j]).key != rest[i].key by {
                    assert(list[j].key != list[i].key);
                }
                assert(list[last].key != list[i].key);
            }
        }
        if forall|j: int| 0 <= j < list.len() ==> (#[trigger] list[j]).key != key {
            assert forall|j: int| 0 <= j < rest.len() implies (#[trigger] rest[j]).key != key by {
                assert(list[j].key != key);
            }
            assert(list[last].key != key);
        }
    }
}

/// The text of an operation's key tells its namespace, its name and its version.
pub proof fn law_key_text_tells_the_key(key: KeyModel)
    ensures
        key.namespace.is_prefix_of(key.text()),
        says(key.text(), ":"@ + key.name),
        says(key.text(), "@"@ + decimal(key.version as nat)),
        key.text().len() == key.namespace.len() + key.name.len() + decimal(key.version as nat).len() + 2,
{
    lemma_says();
    reveal_strlit(":");
    reveal_strlit("@");
    assert(key.namespace =~= key.text().take(key.namespace.len() as int));
}

} // verus!
