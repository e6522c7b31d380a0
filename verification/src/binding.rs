//! Calls from scripts: how their arguments become task arguments, and how results
//! are put back into order.
use vstd::prelude::*;
use vstd::string::*;
use vstd::utf8::encode_utf8;

use crate::common::{CrayonError, FaultModel};
use crate::ids::{object_id_read, read_view, spells_object_id, ObjectId};
use crate::operation::{ArgModel, Codec, DescriptorModel, KeyModel, OperationDescriptor, OperationKey, TaskArg};
use crate::text::{debug_quoted, quoted, same_text};

verus! {

/// The most that an argument of a script's operation may hold.
pub const SCRIPT_INLINE_BYTES: u64 = 65_536;

/// The memory of a store that is given a spill directory but no limit.
pub const DEFAULT_MEMORY_BYTES: usize = 2_147_483_648;

/// The codec that a script calls by this name.
pub open spec fn codec_called(name: Seq<char>) -> Option<Codec> {
    if name == "json"@ {
        Some(Codec::JsonV1)
    } else if name == "bincode"@ {
        Some(Codec::BincodeV1)
    } else if name == "raw"@ {
        Some(Codec::RawBytes)
    } else if name == "pickle"@ {
        Some(Codec::PythonPickleV1)
    } else {
        None
    }
}

/// Finds the codec that a script calls by this name.
pub fn parse_codec(name: &str) -> (r: Result<Codec, String>)
    ensures
        match codec_called(name@) {
            Some(codec) => r == Ok::<Codec, String>(codec),
            None => r is Err && r->Err_0@ == "unknown codec "@ + debug_quoted(name@),
        },
{
    if same_text(name, "json") {
        Ok(Codec::JsonV1)
    } else if same_text(name, "bincode") {
        Ok(Codec::BincodeV1)
    } else if same_text(name, "raw") {
        Ok(Codec::RawBytes)
    } else if same_text(name, "pickle") {
        Ok(Codec::PythonPickleV1)
    } else {
        let mut message = "unknown codec ".to_string();
        let name = quoted(name);
        message.append(name.as_str());
        Err(message)
    }
}

/// An operation whose inputs and outputs have the same codec.
pub fn descriptor(namespace: &str, name: &str, version: u32, codec: Codec) -> (r: OperationDescriptor)
    ensures
        r@ == (DescriptorModel {
            key: KeyModel { namespace: namespace@, name: name@, version },
            input_codec: codec,
            output_codec: codec,
            max_inline_arg_bytes: SCRIPT_INLINE_BYTES,
        }),
{
    OperationDescriptor {
        key: OperationKey::new(namespace, name, version),
        input_codec: codec,
        output_codec: codec,
        max_inline_arg_bytes: SCRIPT_INLINE_BYTES,
    }
}

/// An argument as a script gives it.
#[derive(Debug)]
pub enum ScriptArg {
    /// Bytes: an inline argument.
    Bytes(Vec<u8>),
    /// Text: the id of an object.
    Text(String),
    Other,
}

/// What an argument of a script amounts to.
pub open spec fn arg_read(item: ScriptArg, codec: Codec, r: Result<ArgModel, Seq<char>>) -> bool {
    match item {
        ScriptArg::Bytes(bytes) => r == Ok::<ArgModel, Seq<char>>(ArgModel::Inline { codec, bytes: bytes@ }),
        ScriptArg::Text(text) => exists|read: Result<ObjectId, Seq<char>>| #[trigger]
            object_id_read(encode_utf8(text@), read) && r == match read {
                Ok(id) => Ok(ArgModel::Object(id)),
                Err(message) => Err(message),
            },
        ScriptArg::Other => r == Err::<ArgModel, Seq<char>>("task args must be bytes (inline) or str (object id)"@),
    }
}

/// The argument amounts to something.
pub open spec fn readable(item: ScriptArg, codec: Codec) -> bool {
    exists|arg: ArgModel| #[trigger] arg_read(item, codec, Ok(arg))
}

/// What the arguments of a script amount to: each in its place, or the first fault.
pub open spec fn args_read(items: Seq<ScriptArg>, codec: Codec, r: Result<Seq<ArgModel>, Seq<char>>) -> bool {
    match r {
        Ok(args) => {
            &&& args.len() == items.len()
            &&& forall|i: int| 0 <= i < items.len() ==> arg_read(#[trigger] items[i], codec, Ok(args[i]))
        },
        Err(message) => exists|at: int|
            {
                &&& 0 <= at < items.len()
                &&& arg_read(#[trigger] items[at], codec, Err(message))
                &&& forall|i: int| 0 <= i < at ==> readable(#[trigger] items[i], codec)
            },
    }
}

/// The view of the task arguments.
pub open spec fn args_view(r: Result<Vec<TaskArg>, String>) -> Result<Seq<ArgModel>, Seq<char>> {
    match r {
        Ok(args) => Ok(args@.map_values(|arg: TaskArg| arg@)),
        Err(message) => Err(message@),
    }
}

/// Turns the arguments of a script into task arguments.
pub fn parse_args(items: Vec<ScriptArg>, codec: Codec) -> (r: Result<Vec<TaskArg>, String>)
    ensures
        args_read(items@, codec, args_view(r)),
{
    let mut args: Vec<TaskArg> = Vec::new();
    let ghost all = items@;
    let mut rest = items;
    let mut i: usize = 0;
    let len: usize = rest.len();
    while i < len
        invariant
            i <= len,
            len == all.len(),
            all == items@,
            rest@ == all.skip(i as int),
            args@.len() == i,
            forall|j: int| 0 <= j < i ==> arg_read(#[trigger] all[j], codec, Ok(args@[j]@)),
        decreases len - i,
    {
        let ghost before = args@;
        let item = rest.remove(0);
        assert(item == all[i as int]);
        assert(rest@ =~= all.skip(i + 1));
        let arg: Result<TaskArg, String> = match item {
            ScriptArg::Bytes(bytes) => Ok(TaskArg::Inline { codec, bytes }),
            ScriptArg::Text(text) => {
                let parsed = ObjectId::parse(text.as_str());
                assert(object_id_read(encode_utf8(text@), read_view(parsed)));
                match parsed {
                    Ok(id) => Ok(TaskArg::Object(id)),
                    Err(message) => Err(message),
                }
            },
            ScriptArg::Other => Err("task args must be bytes (inline) or str (object id)".to_string()),
        };
        match arg {
            Ok(arg) => {
                assert(arg_read(all[i as int], codec, Ok(arg@)));
                args.push(arg);
                assert forall|j: int| 0 <= j < i + 1 implies arg_read(#[trigger] all[j], codec, Ok(args@[j]@)) by {
                    if j < i {
                        assert(args@[j] == before[j]);
                    }
                }
            },
            Err(message) => {
                assert(arg_read(all[i as int], codec, Err(message@)));
                assert forall|j: int| 0 <= j < i implies readable(#[trigger] all[j], codec) by {
                    assert(arg_read(all[j], codec, Ok(args@[j]@)));
                }
                return Err(message);
            },
        }
        i += 1;
    }
    Ok(args)
}

/// The results that are there, each with its place.
pub open spec fn ready<T>(results: Seq<Option<T>>) -> Seq<(usize, T)>
    decreases results.len(),
{
    if results.len() == 0 {
        Seq::empty()
    } else {
        let rest = ready(results.drop_last());
        match results.last() {
            Some(value) => rest.push(((results.len() - 1) as usize, value)),
            None => rest,
        }
    }
}

/// Picks the results that are there, each with its place, in order.
pub fn ready_slots<T>(results: Vec<Option<T>>) -> (r: Vec<(usize, T)>)
    ensures
        r@ == ready(results@),
{
    let mut r: Vec<(usize, T)> = Vec::new();
    let mut results = results;
    let ghost all = results@;
    let len: usize = results.len();
    let mut i: usize = 0;
    assert(all.take(0) =~= Seq::<Option<T>>::empty());
    while i < len
        invariant
            i <= len,
            len == all.len(),
            results@ == all.skip(i as int),
            r@ == ready(all.take(i as int)),
        decreases len - i,
    {
        let result = results.remove(0);
        assert(result == all[i as int]);
        assert(results@ =~= all.skip(i + 1));
        assert(all.take(i + 1).drop_last() =~= all.take(i as int));
        match result {
            Some(value) => r.push((i, value)),
            None => {},
        }
        i += 1;
    }
    assert(all.take(i as int) =~= all);
    r
}

/// An argument of a call: one that was fetched, or one that was there.
#[derive(Debug)]
pub enum CallArg<R, P> {
    Resolved(R),
    Plain(P),
}

/// The arguments of a call in their order. A mark says for each whether it is the
/// next of those that were fetched, or the next of those that were there.
pub open spec fn call_args<R, P>(marks: Seq<bool>, resolved: Seq<R>, plain: Seq<P>) -> Result<
    Seq<CallArg<R, P>>,
    Seq<char>,
>
    decreases marks.len(),
{
    if marks.len() == 0 {
        Ok(Seq::empty())
    } else {
        match call_args(marks.drop_last(), resolved, plain) {
            Err(message) => Err(message),
            Ok(args) => {
                let fetched = marked(marks.drop_last(), true);
                let given = marked(marks.drop_last(), false);
                if marks.last() {
                    if fetched < resolved.len() {
                        Ok(args.push(CallArg::Resolved(resolved[fetched as int])))
                    } else {
                        Err("resolved argument missing"@)
                    }
                } else {
                    if given < plain.len() {
                        Ok(args.push(CallArg::Plain(plain[given as int])))
                    } else {
                        Err("plain argument missing"@)
                    }
                }
            },
        }
    }
}

/// How many marks are so.
pub open spec fn marked(marks: Seq<bool>, so: bool) -> nat
    decreases marks.len(),
{
    if marks.len() == 0 {
        0
    } else {
        marked(marks.drop_last(), so) + if marks.last() == so {
            1nat
        } else {
            0
        }
    }
}

/// What was read from some marks stays so for more of them.
proof fn lemma_call_args_fail<R, P>(marks: Seq<bool>, resolved: Seq<R>, plain: Seq<P>, n: int)
    requires
        0 <= n <= marks.len(),
        call_args(marks.take(n), resolved, plain) is Err,
    ensures
        call_args(marks, resolved, plain) == call_args(marks.take(n), resolved, plain),
    decreases marks.len() - n,
{
    if n < marks.len() {
        assert(marks.take(n + 1).drop_last() =~= marks.take(n));
        lemma_call_args_fail(marks, resolved, plain, n + 1);
    } else {
        assert(marks.take(n) =~= marks);
    }
}

/// Puts the arguments of a call into their order.
pub fn order_args<R, P>(marks: &Vec<bool>, resolved: Vec<R>, plain: Vec<P>) -> (r: Result<Vec<CallArg<R, P>>, String>)
    ensures
        match (r, call_args(marks@, resolved@, plain@)) {
            (Ok(args), Ok(found)) => args@ == found,
            (Err(message), Err(found)) => message@ == found,
            _ => false,
        },
{
    let ghost every_resolved = resolved@;
    let ghost every_plain = plain@;
    let mut fetched_left = resolved;
    let mut given_left = plain;
    let mut args: Vec<CallArg<R, P>> = Vec::new();
    let mut i: usize = 0;
    assert(marks@.take(0) =~= Seq::<bool>::empty());
    assert(fetched_left@ =~= every_resolved.skip(0));
    assert(given_left@ =~= every_plain.skip(0));
    while i < marks.len()
        invariant
            i <= marks@.len(),
            marked(marks@.take(i as int), true) <= every_resolved.len(),
            marked(marks@.take(i as int), false) <= every_plain.len(),
            every_resolved == resolved@,
            every_plain == plain@,
            fetched_left@ == every_resolved.skip(marked(marks@.take(i as int), true) as int),
            given_left@ == every_plain.skip(marked(marks@.take(i as int), false) as int),
            call_args(marks@.take(i as int), every_resolved, every_plain) == Ok::<Seq<CallArg<R, P>>, Seq<char>>(args@),
        decreases marks@.len() - i,
    {
        let ghost fetched = marked(marks@.take(i as int), true);
        let ghost given = marked(marks@.take(i as int), false);
        assert(marks@.take(i + 1).drop_last() =~= marks@.take(i as int));
        if marks[i] {
            if fetched_left.len() == 0 {
                proof {
                    lemma_call_args_fail(marks@, every_resolved, every_plain, i + 1);
                }
                return Err("resolved argument missing".to_string());
            }
            let value = fetched_left.remove(0);
            assert(value == every_resolved[fetched as int]);
            assert(fetched_left@ =~= every_resolved.skip(fetched as int + 1));
            args.push(CallArg::Resolved(value));
        } else {
            if given_left.len() == 0 {
                proof {
                    lemma_call_args_fail(marks@, every_resolved, every_plain, i + 1);
                }
                return Err("plain argument missing".to_string());
            }
            let value = given_left.remove(0);
            assert(value == every_plain[given as int]);
            assert(given_left@ =~= every_plain.skip(given as int + 1));
            args.push(CallArg::Plain(value));
        }
        i += 1;
    }
    assert(marks@.take(i as int) =~= marks@);
    Ok(args)
}

/// Results in order: those that were found at once in their places, and in the
/// other places those that were fetched, one after the other. Places for which
/// nothing was fetched are left out.
pub open spec fn merged<T>(found: Seq<Option<T>>, fetched: Seq<T>) -> Seq<T>
    decreases found.len(),
{
    if found.len() == 0 {
        Seq::empty()
    } else {
        match found[0] {
            Some(value) => seq![value] + merged(found.drop_first(), fetched),
            None => if fetched.len() > 0 {
                seq![fetched[0]] + merged(found.drop_first(), fetched.drop_first())
            } else {
                merged(found.drop_first(), fetched)
            },
        }
    }
}

/// Puts results into order.
pub fn merge_found<T>(found: Vec<Option<T>>, fetched: Vec<T>) -> (r: Vec<T>)
    ensures
        r@ == merged(found@, fetched@),
{
    let ghost whole = merged(found@, fetched@);
    let mut found = found;
    let mut fetched = fetched;
    let mut r: Vec<T> = Vec::new();
    assert(r@ + merged(found@, fetched@) =~= whole);
    while found.len() > 0
        invariant
            whole == r@ + merged(found@, fetched@),
        decreases found@.len(),
    {
        let ghost left = found@;
        let ghost more = fetched@;
        let ghost done = r@;
        let first = found.remove(0);
        assert(found@ =~= left.drop_first());
        match first {
            Some(value) => {
                r.push(value);
                assert(r@ + merged(found@, fetched@) =~= done + merged(left, more));
            },
            None => {
                if fetched.len() > 0 {
                    let value = fetched.remove(0);
                    assert(fetched@ =~= more.drop_first());
                    r.push(value);
                    assert(r@ + merged(found@, fetched@) =~= done + merged(left, more));
                }
            },
        }
    }
    assert(r@ =~= whole);
    r
}

/// All of these, if none failed; else the first failure.
pub open spec fn all_resolved<T>(results: Seq<Result<T, CrayonError>>) -> Result<Seq<T>, FaultModel>
    decreases results.len(),
{
    if results.len() == 0 {
        Ok(Seq::empty())
    } else {
        match all_resolved(results.drop_last()) {
            Err(fault) => Err(fault),
            Ok(values) => match results.last() {
                Ok(value) => Ok(values.push(value)),
                Err(error) => Err(error@),
            },
        }
    }
}

proof fn lemma_resolved_fail<T>(results: Seq<Result<T, CrayonError>>, n: int)
    requires
        0 <= n <= results.len(),
        all_resolved(results.take(n)) is Err,
    ensures
        all_resolved(results) == all_resolved(results.take(n)),
    decreases results.len() - n,
{
    if n < results.len() {
        assert(results.take(n + 1).drop_last() =~= results.take(n));
        lemma_resolved_fail(results, n + 1);
    } else {
        assert(results.take(n) =~= results);
    }
}

/// The arguments of a task, once each was fetched or failed.
pub fn resolve<T>(results: Vec<Result<T, CrayonError>>) -> (r: Result<Vec<T>, CrayonError>)
    ensures
        match (r, all_resolved(results@)) {
            (Ok(values), Ok(found)) => values@ == found,
            (Err(error), Err(fault)) => error@ == fault,
            _ => false,
        },
{
    let ghost all = results@;
    let len: usize = results.len();
    let mut rest = results;
    let mut values: Vec<T> = Vec::new();
    let mut i: usize = 0;
    assert(all.take(0) =~= Seq::<Result<T, CrayonError>>::empty());
    while i < len
        invariant
            i <= len,
            len == all.len(),
            all == results@,
            rest@ == all.skip(i as int),
            all_resolved(all.take(i as int)) == Ok::<Seq<T>, FaultModel>(values@),
        decreases len - i,
    {
        let result = rest.remove(0);
        assert(result == all[i as int]);
        assert(rest@ =~= all.skip(i + 1));
        assert(all.take(i + 1).drop_last() =~= all.take(i as int));
        match result {
            Ok(value) => values.push(value),
            Err(error) => {
                proof {
                    lemma_resolved_fail(all, i + 1);
                }
                return Err(error);
            },
        }
        i += 1;
    }
    assert(all.take(i as int) =~= all);
    Ok(values)
}

/// The memory limit of a runtime that a script starts: none of its own if neither
/// a limit nor a spill directory was given.
pub fn memory_limit(limit: Option<usize>, has_directory: bool) -> (r: Option<usize>)
    ensures
        r == if limit is None && !has_directory {
            None
        } else {
            match limit {
                Some(bytes) => Some(bytes),
                None => Some(DEFAULT_MEMORY_BYTES),
            }
        },
{
    match limit {
        Some(bytes) => Some(bytes),
        None => if has_directory {
            Some(DEFAULT_MEMORY_BYTES)
        } else {
            None
        },
    }
}

/// With as many fetched and given values as there are marks for them, every call
/// gets all its arguments.
pub proof fn law_every_argument_is_found<R, P>(marks: Seq<bool>, resolved: Seq<R>, plain: Seq<P>)
    requires
        marked(marks, true) <= resolved.len(),
        marked(marks, false) <= plain.len(),
    ensures
        call_args(marks, resolved, plain) is Ok,
        call_args(marks, resolved, plain)->Ok_0.len() == marks.len(),
    decreases marks.len(),
{
    if marks.len() > 0 {
        law_every_argument_is_found(marks.drop_last(), resolved, plain);
    }
}

/// With a fetched result for every place where none was found, there is a result
/// for every place.
pub proof fn law_every_place_is_filled<T>(found: Seq<Option<T>>, fetched: Seq<T>)
    requires
        missing(found) <= fetched.len(),
    ensures
        merged(found, fetched).len() == found.len(),
    decreases found.len(),
{
    if found.len() > 0 {
        let rest = if found[0] is None && fetched.len() > 0 {
            fetched.drop_first()
        } else {
            fetched
        };
        law_every_place_is_filled(found.drop_first(), rest);
    }
}

/// In how many places nothing was found.
pub open spec fn missing<T>(found: Seq<Option<T>>) -> nat
    decreases found.len(),
{
    if found.len() == 0 {
        0
    } else {
        missing(found.drop_first()) + if found[0] is None {
            1nat
        } else {
            0
        }
    }
}

/// The results that are there are listed with their places, in order, and no others.
pub proof fn law_ready_results_keep_their_places<T>(results: Seq<Option<T>>, i: int, value: T)
    requires
        results.len() <= usize::MAX,
        0 <= i < results.len(),
    ensures
        ready(results).contains((i as usize, value)) <==> results[i] == Some(value),
        ready(results).len() + missing(results) == results.len(),
        forall|a: int, b: int|
            0 <= a < b < ready(results).len() ==> (#[trigger] ready(results)[a]).0 < (#[trigger] ready(results)[b]).0,
        forall|a: int| 0 <= a < ready(results).len() ==> (#[trigger] ready(results)[a]).0 < results.len(),
    decreases results.len(),
{
    let rest = results.drop_last();
    lemma_missing_last(results);
    if rest.len() > 0 {
        law_ready_results_keep_their_places(
            rest,
            if i < rest.len() {
                i
            } else {
                0
            },
            value,
        );
        assert(i < rest.len() ==> rest[i] == results[i]);
    } else {
        assert(ready(rest) =~= Seq::empty());
        assert(missing(rest) == 0);
    }
    let before = ready(rest);
    let list = ready(results);
    assert(results[results.len() - 1] == results.last());
    match results.last() {
        Some(last) => {
            crate::coordinator::lemma_push_contains(before, ((results.len() - 1) as usize, last));
            assert forall|a: int, b: int| 0 <= a < b < list.len() implies (#[trigger] list[a]).0 < (
            #[trigger] list[b]).0 by {
                assert(list[a] == before[a]);
                if b < before.len() {
                    assert(list[b] == before[b]);
                } else {
                    assert(before[a].0 < rest.len());
                }
            }
            assert forall|a: int| 0 <= a < list.len() implies (#[trigger] list[a]).0 < results.len() by {
                if a < before.len() {
                    assert(list[a] == before[a]);
                }
            }
        },
        None => {},
    }
    if i == results.len() - 1 && before.contains((i as usize, value)) {
        let a = before.index_of((i as usize, value));
        assert(before[a].0 < rest.len());
    }
}

proof fn lemma_missing_last<T>(results: Seq<Option<T>>)
    requires
        results.len() > 0,
    ensures
        missing(results) == missing(results.drop_last()) + if results.last() is None {
            1nat
        } else {
            0
        },
    decreases results.len(),
{
    if results.len() > 1 {
        lemma_missing_last(results.drop_first());
        assert(results.drop_first().drop_last() =~= results.drop_last().drop_first());
        assert(results.drop_last()[0] == results[0]);
    } else {
        assert(results.drop_last() =~= Seq::<Option<T>>::empty());
        assert(results.drop_first() =~= Seq::<Option<T>>::empty());
        assert(results.last() == results[0]);
    }
}

/// Arguments stand in the order of their marks: a marked one is the next that was
/// resolved, an unmarked one the next that was given.
pub proof fn law_arguments_keep_their_order<R, P>(marks: Seq<bool>, resolved: Seq<R>, plain: Seq<P>, i: int)
    requires
        call_args(marks, resolved, plain) is Ok,
        0 <= i < marks.len(),
    ensures
        call_args(marks, resolved, plain)->Ok_0.len() == marks.len(),
        marks[i] ==> marked(marks.take(i), true) < resolved.len() && call_args(marks, resolved, plain)->Ok_0[i]
            == CallArg::<R, P>::Resolved(resolved[marked(marks.take(i), true) as int]),
        !marks[i] ==> marked(marks.take(i), false) < plain.len() && call_args(marks, resolved, plain)->Ok_0[i]
            == CallArg::<R, P>::Plain(plain[marked(marks.take(i), false) as int]),
        marked(marks.take(i), true) + marked(marks.take(i), false) == i,
    decreases marks.len(),
{
    let rest = marks.drop_last();
    lemma_marks_add_up(marks.take(i));
    if i < rest.len() {
        law_arguments_keep_their_order(rest, resolved, plain, i);
        assert(rest[i] == marks[i]);
        assert(rest.take(i) =~= marks.take(i));
    } else {
        assert(marks.take(i) =~= rest);
        assert(marks[i] == marks.last());
        if rest.len() > 0 {
            law_arguments_keep_their_order(rest, resolved, plain, 0);
        } else {
            assert(rest =~= Seq::<bool>::empty());
        }
    }
}

proof fn lemma_marks_add_up(marks: Seq<bool>)
    ensures
        marked(marks, true) + marked(marks, false) == marks.len(),
    decreases marks.len(),
{
    if marks.len() > 0 {
        lemma_marks_add_up(marks.drop_last());
    }
}

/// Values that were found keep their places, and those that were fetched fill the others
/// in order.
pub proof fn law_fetched_values_fill_the_gaps<T>(found: Seq<Option<T>>, fetched: Seq<T>, i: int)
    requires
        missing(found) <= fetched.len(),
        0 <= i < found.len(),
    ensures
        found[i] matches Some(value) ==> merged(found, fetched)[i] == value,
        found[i] is None ==> missing(found.take(i)) < fetched.len() && merged(found, fetched)[i] == fetched[missing(
            found.take(i),
        ) as int],
    decreases found.len(),
{
    law_every_place_is_filled(found, fetched);
    let rest = found.drop_first();
    let left = if found[0] is None {
        fetched.drop_first()
    } else {
        fetched
    };
    if i > 0 {
        law_fetched_values_fill_the_gaps(rest, left, i - 1);
        assert(rest[i - 1] == found[i]);
        assert(found.take(i).drop_first() =~= rest.take(i - 1));
        assert(found.take(i)[0] == found[0]);
        assert(missing(found.take(i)) == missing(rest.take(i - 1)) + if found[0] is None {
            1nat
        } else {
            0
        });
    } else {
        assert(found.take(0) =~= Seq::<Option<T>>::empty());
    }
}

/// Results resolve together exactly if each does, and then in order; otherwise the first
/// that does not gives the reason.
pub proof fn law_results_resolve_together<T>(results: Seq<Result<T, CrayonError>>, i: int)
    ensures
        all_resolved(results) is Ok <==> forall|j: int| 0 <= j < results.len() ==> (#[trigger] results[j]) is Ok,
        all_resolved(results) matches Ok(values) ==> values.len() == results.len() && (0 <= i < results.len()
            ==> results[i] == Ok::<T, CrayonError>(values[i])),
        0 <= i < results.len() && results[i] is Err && (forall|j: int| 0 <= j < i ==> (#[trigger] results[j]) is Ok)
            ==> all_resolved(results) == Err::<Seq<T>, FaultModel>(results[i]->Err_0@),
    decreases results.len(),
{
    if results.len() > 0 {
        let rest = results.drop_last();
        law_results_resolve_together(rest, i);
        assert(results[results.len() - 1] == results.last());
        assert forall|j: int| 0 <= j < rest.len() implies rest[j] == results[j] by {}
        if all_resolved(results) is Ok {
            assert forall|j: int| 0 <= j < results.len() implies (#[trigger] results[j]) is Ok by {
                if j < rest.len() {
                    assert(rest[j] is Ok);
                }
            }
        }
        if forall|j: int| 0 <= j < results.len() ==> (#[trigger] results[j]) is Ok {
            assert forall|j: int| 0 <= j < rest.len() implies (#[trigger] rest[j]) is Ok by {
                assert(results[j] is Ok);
            }
        }
        if 0 <= i < rest.len() {
            assert(rest[i] == results[i]);
            if results[i] is Err && (forall|j: int| 0 <= j < i ==> (#[trigger] results[j]) is Ok) {
                assert forall|j: int| 0 <= j < i implies (#[trigger] rest[j]) is Ok by {
                    assert(results[j] is Ok);
                }
            }
        }
        if i == rest.len() && results[i] is Err && (forall|j: int| 0 <= j < i ==> (#[trigger] results[j]) is Ok) {
            assert forall|j: int| 0 <= j < rest.len() implies (#[trigger] rest[j]) is Ok by {
                assert(results[j] is Ok);
            }
        }
    }
}

/// Memory is limited where a limit or a directory to spill to is given: to the limit, or
/// else to two GiB.
pub proof fn law_memory_is_limited_where_asked(limit: Option<usize>, has_directory: bool, r: Option<usize>)
    requires
        call_ensures(memory_limit, (limit, has_directory), r),
    ensures
        limit is Some ==> r == limit,
        limit is None && has_directory ==> r == Some(2_147_483_648usize),
        limit is None && !has_directory ==> r is None,
{
}

/// Each codec has one name, and no other name stands for any.
pub proof fn law_codecs_are_called_by_name(name: Seq<char>)
    ensures
        name == "json"@ ==> codec_called(name) == Some(Codec::JsonV1),
        name == "bincode"@ ==> codec_called(name) == Some(Codec::BincodeV1),
        name == "raw"@ ==> codec_called(name) == Some(Codec::RawBytes),
        name == "pickle"@ ==> codec_called(name) == Some(Codec::PythonPickleV1),
        codec_called(name) is Some <==> name == "json"@ || name == "bincode"@ || name == "raw"@ || name == "pickle"@,
{
    reveal_strlit("json");
    reveal_strlit("bincode");
    reveal_strlit("raw");
    reveal_strlit("pickle");
    assert("json"@.len() == 4 && "bincode"@.len() == 7 && "raw"@.len() == 3 && "pickle"@.len() == 6);
}

/// Bytes are handed on as they are, in the codec that was asked for; a text names an
/// object; and nothing else is an argument.
pub proof fn law_arguments_are_bytes_or_objects(item: ScriptArg, codec: Codec, r: Result<ArgModel, Seq<char>>)
    requires
        arg_read(item, codec, r),
    ensures
        item matches ScriptArg::Bytes(given) ==> (r matches Ok(ArgModel::Inline { codec: used, bytes }) && used == codec
            && bytes == given@),
        item is Text ==> (r is Err || r->Ok_0 is Object),
        item matches ScriptArg::Text(text) ==> (r matches Ok(ArgModel::Object(id)) ==> spells_object_id(
            encode_utf8(text@),
            id,
        )),
        item is Other ==> r is Err,
{
}

} // verus!
