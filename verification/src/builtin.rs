//! The operations that a worker brings with it: their descriptors, how a worker
//! is told which to offer, and what they compute.
use vstd::prelude::*;
use vstd::string::*;

use crate::error::{Error, ErrorModel};
use crate::ids::{object_id_read, ObjectId};
use crate::operation::{
    descriptors_model, ArgModel, Codec, DescriptorModel, KeyModel, OperationDescriptor, OperationKey, TaskArg,
};
use crate::text::same_text;

verus! {

pub open spec fn builtin_model(name: Seq<char>) -> DescriptorModel {
    let raw = name == "copy"@;
    DescriptorModel {
        key: KeyModel { namespace: "builtin"@, name, version: 1 },
        input_codec: if raw {
            Codec::RawBytes
        } else {
            Codec::BincodeV1
        },
        output_codec: if raw {
            Codec::RawBytes
        } else {
            Codec::BincodeV1
        },
        max_inline_arg_bytes: if raw {
            65536
        } else {
            1024
        },
    }
}

/// The descriptor of a built-in operation. `copy` hands raw bytes through; the
/// others take and return small bincode values.
pub fn builtin_descriptor(name: &str) -> (r: OperationDescriptor)
    ensures
        r@ == builtin_model(name@),
{
    let (codec, max_inline_arg_bytes): (Codec, u64) = if same_text(name, "copy") {
        (Codec::RawBytes, 65536)
    } else {
        (Codec::BincodeV1, 1024)
    };
    OperationDescriptor {
        key: OperationKey::new("builtin", name, 1),
        input_codec: codec,
        output_codec: codec,
        max_inline_arg_bytes,
    }
}

pub open spec fn rl_model() -> DescriptorModel {
    DescriptorModel {
        key: KeyModel { namespace: "rl"@, name: "rollout"@, version: 1 },
        input_codec: Codec::BincodeV1,
        output_codec: Codec::BincodeV1,
        max_inline_arg_bytes: 65536,
    }
}

/// The descriptor of the simulated rollout.
pub fn rl_descriptor() -> (r: OperationDescriptor)
    ensures
        r@ == rl_model(),
{
    OperationDescriptor {
        key: OperationKey::new("rl", "rollout", 1),
        input_codec: Codec::BincodeV1,
        output_codec: Codec::BincodeV1,
        max_inline_arg_bytes: 65536,
    }
}

pub open spec fn llm_model(name: Seq<char>) -> DescriptorModel {
    DescriptorModel {
        key: KeyModel { namespace: "llm"@, name, version: 1 },
        input_codec: Codec::JsonV1,
        output_codec: Codec::JsonV1,
        max_inline_arg_bytes: 65536,
    }
}

/// The descriptor of an operation of the language-model pipeline. Both sides are
/// JSON, so that a driver in another language reads and writes them directly.
pub fn llm_descriptor(name: &str) -> (r: OperationDescriptor)
    ensures
        r@ == llm_model(name@),
{
    OperationDescriptor {
        key: OperationKey::new("llm", name, 1),
        input_codec: Codec::JsonV1,
        output_codec: Codec::JsonV1,
        max_inline_arg_bytes: 65536,
    }
}

/// What a worker that is started with the selection `operations` offers.
pub open spec fn offered_models(operations: Seq<char>) -> Seq<DescriptorModel> {
    if operations == "all"@ {
        seq![builtin_model("add"@), builtin_model("copy"@), builtin_model("sleep"@), rl_model()]
    } else if operations == "add"@ || operations == "copy"@ || operations == "sleep"@ {
        seq![builtin_model(operations)]
    } else if operations == "rl"@ {
        seq![rl_model()]
    } else if operations == "llm-actor"@ {
        seq![llm_model("rollout"@)]
    } else if operations == "llm-judge"@ {
        seq![llm_model("judge"@)]
    } else {
        Seq::empty()
    }
}

/// The descriptors that a worker registers for the selection `operations`: all
/// the general ones, or one by name. The operations of the language-model
/// pipeline are offered by name only.
pub fn offered(operations: &str) -> (r: Result<Vec<OperationDescriptor>, Error>)
    ensures
        match r {
            Ok(list) => list@.len() > 0 && descriptors_model(list@) == offered_models(operations@),
            Err(error) => {
                &&& offered_models(operations@).len() == 0
                &&& error@ == ErrorModel::OperationUnavailable(operations@)
            },
        },
{
    proof {
        reveal_strlit("all");
        reveal_strlit("add");
        reveal_strlit("copy");
        reveal_strlit("sleep");
        reveal_strlit("rl");
        reveal_strlit("llm-actor");
        reveal_strlit("llm-judge");
        assert("add"@[1] == 'd' && "all"@[1] == 'l');
        assert("llm-actor"@[4] == 'a' && "llm-judge"@[4] == 'j');
        assert("all"@.len() == 3 && "add"@.len() == 3 && "copy"@.len() == 4 && "sleep"@.len() == 5 && "rl"@.len() == 2
            && "llm-actor"@.len() == 9 && "llm-judge"@.len() == 9);
    }
    let all = same_text(operations, "all");
    let mut list: Vec<OperationDescriptor> = Vec::new();
    if all || same_text(operations, "add") {
        list.push(builtin_descriptor("add"));
    }
    if all || same_text(operations, "copy") {
        list.push(builtin_descriptor("copy"));
    }
    if all || same_text(operations, "sleep") {
        list.push(builtin_descriptor("sleep"));
    }
    if all || same_text(operations, "rl") {
        list.push(rl_descriptor());
    }
    if same_text(operations, "llm-actor") {
        list.push(llm_descriptor("rollout"));
    }
    if same_text(operations, "llm-judge") {
        list.push(llm_descriptor("judge"));
    }
    assert(descriptors_model(list@) =~= offered_models(operations@));
    if list.len() == 0 {
        return Err(Error::OperationUnavailable(operations.to_string()));
    }
    Ok(list)
}

/// The number that a row of bytes spells, least significant byte first.
pub open spec fn little_endian(bytes: Seq<u8>) -> int
    decreases bytes.len(),
{
    if bytes.len() == 0 {
        0
    } else {
        bytes[0] + 256 * little_endian(bytes.drop_first())
    }
}

/// The signed number that eight bytes spell in two's complement.
pub open spec fn signed_little_endian(bytes: Seq<u8>) -> int {
    let unsigned = little_endian(bytes);
    if unsigned > i64::MAX {
        unsigned - 0x1_0000_0000_0000_0000
    } else {
        unsigned
    }
}

/// The message of bincode's error for an input that is too short. It ends in what
/// the standard library says of an unexpected end of file.
pub uninterp spec fn bincode_fault(bytes: Seq<u8>) -> Seq<char>;

/// Calls `bincode::deserialize` for an unsigned 64-bit number: the first eight
/// bytes, least significant first; what follows them is ignored. The text of the
/// error depends on the input alone and is not stated.
#[verifier::external_body]
fn read_u64(bytes: &[u8]) -> (r: Result<u64, String>)
    ensures
        match r {
            Ok(value) => bytes@.len() >= 8 && value == little_endian(bytes@.take(8)),
            Err(message) => bytes@.len() < 8 && message@ == bincode_fault(bytes@),
        },
{
    bincode::deserialize::<u64>(bytes).map_err(|error| error.to_string())
}

/// Calls `bincode::deserialize` for a signed 64-bit number: the first eight
/// bytes in two's complement, least significant first; what follows them is
/// ignored. The text of the error depends on the input alone and is not stated.
#[verifier::external_body]
fn read_i64(bytes: &[u8]) -> (r: Result<i64, String>)
    ensures
        match r {
            Ok(value) => bytes@.len() >= 8 && value == signed_little_endian(bytes@.take(8)),
            Err(message) => bytes@.len() < 8 && message@ == bincode_fault(bytes@),
        },
{
    bincode::deserialize::<i64>(bytes).map_err(|error| error.to_string())
}

/// Calls `bincode::serialize` on an unsigned 64-bit number, which writes it in
/// eight bytes, least significant first, and does not fail.
#[verifier::external_body]
fn write_u64(value: u64) -> (r: Result<Vec<u8>, String>)
    ensures
        r is Ok,
        r->Ok_0@.len() == 8,
        little_endian(r->Ok_0@) == value,
{
    bincode::serialize(&value).map_err(|error| error.to_string())
}

/// Calls `bincode::serialize` on a signed 64-bit number, which writes it in eight
/// bytes, in two's complement, least significant first, and does not fail.
#[verifier::external_body]
fn write_i64(value: i64) -> (r: Result<Vec<u8>, String>)
    ensures
        r is Ok,
        r->Ok_0@.len() == 8,
        signed_little_endian(r->Ok_0@) == value,
{
    bincode::serialize(&value).map_err(|error| error.to_string())
}

/// The first argument that is too short for a number, or the numbers.
pub open spec fn addends(args: Seq<Vec<u8>>) -> Result<(int, int), ErrorModel> {
    if args.len() != 2 {
        Err(ErrorModel::Protocol("add expects two arguments"@))
    } else if args[0]@.len() < 8 {
        Err(ErrorModel::Serialization(bincode_fault(args[0]@)))
    } else if args[1]@.len() < 8 {
        Err(ErrorModel::Serialization(bincode_fault(args[1]@)))
    } else {
        Ok((signed_little_endian(args[0]@.take(8)), signed_little_endian(args[1]@.take(8))))
    }
}

/// The two numbers that `add` is to add.
pub fn add_inputs(args: &[Vec<u8>]) -> (r: Result<(i64, i64), Error>)
    ensures
        match r {
            Ok((a, b)) => addends(args@) == Ok::<(int, int), ErrorModel>((a as int, b as int)),
            Err(error) => addends(args@) == Err::<(int, int), ErrorModel>(error@),
        },
{
    if args.len() != 2 {
        return Err(Error::Protocol("add expects two arguments".to_string()));
    }
    let a: i64 = match read_i64(args[0].as_slice()) {
        Ok(value) => value,
        Err(message) => return Err(Error::Serialization(message)),
    };
    match read_i64(args[1].as_slice()) {
        Ok(b) => Ok((a, b)),
        Err(message) => Err(Error::Serialization(message)),
    }
}

/// The output of `add`. The sum must be a 64-bit number.
pub fn add_output(a: i64, b: i64) -> (r: Result<Vec<u8>, Error>)
    requires
        i64::MIN <= a + b <= i64::MAX,
    ensures
        r matches Ok(bytes) && bytes@.len() == 8 && signed_little_endian(bytes@) == a + b,
{
    match write_i64(a + b) {
        Ok(bytes) => Ok(bytes),
        Err(message) => Err(Error::Serialization(message)),
    }
}

/// The number that an output of `copy` or `sleep` holds.
pub fn number_output(bytes: &[u8]) -> (r: Result<u64, Error>)
    ensures
        match r {
            Ok(value) => bytes@.len() >= 8 && value == little_endian(bytes@.take(8)),
            Err(error) => bytes@.len() < 8 && error@ == ErrorModel::Serialization(bincode_fault(bytes@)),
        },
{
    match read_u64(bytes) {
        Ok(value) => Ok(value),
        Err(message) => Err(Error::Serialization(message)),
    }
}

/// The whole of `copy`: its one argument, unchanged.
pub fn copy_output(args: Vec<Vec<u8>>) -> (r: Result<Vec<u8>, Error>)
    ensures
        if args@.len() == 1 {
            r == Ok::<Vec<u8>, Error>(args@[0])
        } else {
            r matches Err(error) && error@ == ErrorModel::Protocol("copy expects one argument"@)
        },
{
    let mut args = args;
    if args.len() != 1 {
        return Err(Error::Protocol("copy expects one argument".to_string()));
    }
    Ok(args.remove(0))
}

/// The one argument of `rl.rollout`.
pub fn rollout_input(args: Vec<Vec<u8>>) -> (r: Result<Vec<u8>, Error>)
    ensures
        if args@.len() == 1 {
            r == Ok::<Vec<u8>, Error>(args@[0])
        } else {
            r matches Err(error) && error@ == ErrorModel::Protocol("rl.rollout expects one argument"@)
        },
{
    let mut args = args;
    if args.len() != 1 {
        return Err(Error::Protocol("rl.rollout expects one argument".to_string()));
    }
    Ok(args.remove(0))
}

/// How many milliseconds `sleep` is to sleep.
pub fn sleep_input(args: &[Vec<u8>]) -> (r: Result<u64, Error>)
    ensures
        match r {
            Ok(millis) => args@.len() == 1 && args@[0]@.len() >= 8 && millis == little_endian(args@[0]@.take(8)),
            Err(error) => if args@.len() != 1 {
                error@ == ErrorModel::Protocol("sleep expects one argument"@)
            } else {
                args@[0]@.len() < 8 && error@ == ErrorModel::Serialization(bincode_fault(args@[0]@))
            },
        },
{
    if args.len() != 1 {
        return Err(Error::Protocol("sleep expects one argument".to_string()));
    }
    match read_u64(args[0].as_slice()) {
        Ok(millis) => Ok(millis),
        Err(message) => Err(Error::Serialization(message)),
    }
}

/// The output of `sleep`: how long it slept.
pub fn sleep_output(millis: u64) -> (r: Result<Vec<u8>, Error>)
    ensures
        r matches Ok(bytes) && bytes@.len() == 8 && little_endian(bytes@) == millis,
{
    match write_u64(millis) {
        Ok(bytes) => Ok(bytes),
        Err(message) => Err(Error::Serialization(message)),
    }
}

/// The descriptor of an operation that can be submitted by name from a shell.
pub fn detached_descriptor(name: &str) -> (r: Result<OperationDescriptor, Error>)
    ensures
        match r {
            Ok(descriptor) => (name@ == "copy"@ || name@ == "sleep"@) && descriptor@ == builtin_model(name@),
            Err(error) => name@ != "copy"@ && name@ != "sleep"@ && error@ == ErrorModel::OperationUnavailable(name@),
        },
{
    if same_text(name, "copy") || same_text(name, "sleep") {
        Ok(builtin_descriptor(name))
    } else {
        Err(Error::OperationUnavailable(name.to_string()))
    }
}

/// The argument of such a submission: the object `id`, unless it is left out or
/// a hyphen, and otherwise `value` itself.
pub fn detached_arg(codec: Codec, value: u64, id: Option<&str>) -> (r: Result<TaskArg, Error>)
    ensures
        if id is Some && id->0@ != "-"@ {
            match r {
                Ok(arg) => arg matches TaskArg::Object(object) && object_id_read(id->0.spec_bytes(), Ok(object)),
                Err(error) => error matches Error::Protocol(message) && object_id_read(
                    id->0.spec_bytes(),
                    Err(message@),
                ),
            }
        } else {
            &&& r matches Ok(TaskArg::Inline { codec: given, bytes })
            &&& given == codec
            &&& bytes@.len() == 8
            &&& little_endian(bytes@) == value
        },
{
    if let Some(text) = id {
        if !same_text(text, "-") {
            return match ObjectId::parse(text) {
                Ok(object) => Ok(TaskArg::Object(object)),
                Err(message) => Err(Error::Protocol(message)),
            };
        }
    }
    match write_u64(value) {
        Ok(bytes) => Ok(TaskArg::Inline { codec, bytes }),
        Err(message) => Err(Error::Serialization(message)),
    }
}

/// An inline argument that holds a number.
pub fn number_arg(value: i64) -> (r: Result<TaskArg, Error>)
    ensures
        r is Ok,
        r->Ok_0@ matches ArgModel::Inline { codec, bytes } && codec == Codec::BincodeV1 && bytes.len() == 8
            && signed_little_endian(bytes) == value,
{
    match write_i64(value) {
        Ok(bytes) => Ok(TaskArg::Inline { codec: Codec::BincodeV1, bytes }),
        Err(message) => Err(Error::Serialization(message)),
    }
}

/// Numbers are written with the least byte first.
pub proof fn law_least_byte_comes_first(first: u8, rest: Seq<u8>)
    ensures
        little_endian(seq![first] + rest) == first + 256 * little_endian(rest),
        little_endian(seq![first]) == first,
{
    assert((seq![first] + rest).drop_first() =~= rest);
    assert(seq![first].drop_first() =~= Seq::<u8>::empty());
    reveal_with_fuel(little_endian, 2);
}

/// The sum of two arguments is the sum of the numbers that were passed.
pub proof fn law_add_adds_its_arguments(a: i64, b: i64, args: Seq<Vec<u8>>, one: TaskArg, other: TaskArg)
    requires
        call_ensures(number_arg, (a,), Ok(one)),
        call_ensures(number_arg, (b,), Ok(other)),
        args.len() == 2,
        one@ matches ArgModel::Inline { codec, bytes } && args[0]@ == bytes,
        other@ matches ArgModel::Inline { codec, bytes } && args[1]@ == bytes,
    ensures
        addends(args) == Ok::<(int, int), ErrorModel>((a as int, b as int)),
{
    assert(args[0]@.take(8) =~= args[0]@);
    assert(args[1]@.take(8) =~= args[1]@);
}

/// A number that was written is read back.
pub proof fn law_slept_time_is_answered(millis: u64, out: Result<Vec<u8>, Error>, bytes: &[u8], r: Result<u64, Error>)
    requires
        call_ensures(sleep_output, (millis,), out),
        out is Ok ==> bytes@ == out->Ok_0@,
        call_ensures(number_output, (bytes,), r),
    ensures
        r == Ok::<u64, Error>(millis),
{
    assert(bytes@.take(8) =~= bytes@);
}

/// Whatever a worker offers under a name is valid, of version one, and comes in one codec
/// and goes out in the same.
pub proof fn law_offered_operations(operations: Seq<char>, i: int)
    requires
        0 <= i < offered_models(operations).len(),
    ensures
        ({
            let offer = offered_models(operations)[i];
            &&& offer.key.version == 1
            &&& offer.input_codec == offer.output_codec
            &&& offer.key.namespace == "builtin"@ || offer.key.namespace == "rl"@ || offer.key.namespace == "llm"@
            &&& offer.key.namespace == "llm"@ <==> offer.input_codec == Codec::JsonV1
            &&& offer.input_codec == Codec::RawBytes ==> offer.key.name == "copy"@
            &&& offer.key.namespace == "builtin"@ && offer.key.name != "copy"@ ==> offer.max_inline_arg_bytes == 1024
            &&& offer.key.namespace != "builtin"@ || offer.key.name == "copy"@ ==> offer.max_inline_arg_bytes == 65536
        }),
{
    reveal_strlit("builtin");
    reveal_strlit("rl");
    reveal_strlit("llm");
    reveal_strlit("copy");
    reveal_strlit("add");
    reveal_strlit("sleep");
    reveal_strlit("rollout");
    reveal_strlit("judge");
    assert("builtin"@.len() == 7 && "rl"@.len() == 2 && "llm"@.len() == 3);
    assert("copy"@.len() == 4 && "add"@.len() == 3 && "sleep"@.len() == 5);
    assert("rollout"@.len() == 7 && "judge"@.len() == 5);
}

/// What a worker offers under a name: everything but the language model's operations, or
/// the one operation that is named.
pub proof fn law_operations_are_offered_by_name(operations: Seq<char>)
    ensures
        operations == "all"@ ==> {
            let offers = offered_models(operations);
            &&& offers.len() == 4
            &&& offers[0].key.namespace == "builtin"@ && offers[0].key.name == "add"@
            &&& offers[1].key.namespace == "builtin"@ && offers[1].key.name == "copy"@
            &&& offers[2].key.namespace == "builtin"@ && offers[2].key.name == "sleep"@
            &&& offers[3].key.namespace == "rl"@ && offers[3].key.name == "rollout"@
        },
        operations == "add"@ || operations == "copy"@ || operations == "sleep"@ ==> {
            let offers = offered_models(operations);
            offers.len() == 1 && offers[0].key.namespace == "builtin"@ && offers[0].key.name == operations
        },
        operations == "rl"@ ==> {
            let offers = offered_models(operations);
            offers.len() == 1 && offers[0].key.namespace == "rl"@ && offers[0].key.name == "rollout"@
        },
        operations == "llm-actor"@ ==> {
            let offers = offered_models(operations);
            offers.len() == 1 && offers[0].key.namespace == "llm"@ && offers[0].key.name == "rollout"@
        },
        operations == "llm-judge"@ ==> {
            let offers = offered_models(operations);
            offers.len() == 1 && offers[0].key.namespace == "llm"@ && offers[0].key.name == "judge"@
        },
{
    reveal_strlit("all");
    reveal_strlit("add");
    reveal_strlit("copy");
    reveal_strlit("sleep");
    reveal_strlit("rl");
    reveal_strlit("llm-actor");
    reveal_strlit("llm-judge");
    assert("all"@.len() == 3 && "add"@.len() == 3 && "copy"@.len() == 4 && "sleep"@.len() == 5 && "rl"@.len() == 2);
    assert("llm-actor"@.len() == 9 && "llm-judge"@.len() == 9);
    assert("all"@[1] == 'l' && "add"@[1] == 'd');
    assert("llm-actor"@[4] == 'a' && "llm-judge"@[4] == 'j');
}

} // verus!
