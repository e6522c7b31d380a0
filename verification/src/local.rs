//! A cluster of processes on one host: what each is started with, and how long
//! to wait for it.
use vstd::prelude::*;
use vstd::string::*;

use crate::error::{Error, ErrorModel};
use crate::text::{decimal, decimal_string};

verus! {

/// How long the coordinator may take until it accepts connections.
pub const LISTEN_TIMEOUT_MS: u64 = 10_000;

/// How long the workers may take until they have registered.
pub const READY_TIMEOUT_MS: u64 = 15_000;

/// What to do next while waiting.
#[derive(Debug)]
pub enum ReadyStep {
    Ready,
    /// Ask again after so many milliseconds.
    Pause(u64),
    Failed(Error),
}

/// Whether a step is the failure with this error.
pub open spec fn ready_failed(step: ReadyStep, error: ErrorModel) -> bool {
    step matches ReadyStep::Failed(found) && found@ == error
}

/// The characters of some strings.
pub open spec fn words(list: Seq<String>) -> Seq<Seq<char>> {
    list.map_values(|word: String| word@)
}

/// What the coordinator process is started with: its address, and a lease of five
/// seconds for workers.
pub fn coordinator_args(address: &str) -> (r: Vec<String>)
    ensures
        words(r@) == seq!["coordinator"@, address@, "5000"@],
{
    let mut r: Vec<String> = Vec::new();
    r.push("coordinator".to_string());
    r.push(address.to_string());
    r.push("5000".to_string());
    assert(words(r@) =~= seq!["coordinator"@, address@, "5000"@]);
    r
}

/// What a worker process is started with: where the coordinator is, where it is
/// itself found, who it is, one processor, and the operations that it offers.
pub fn worker_args(coordinator: &str, advertise: &str, node_id: &str, operations: &str) -> (r: Vec<String>)
    ensures
        words(r@) == seq!["worker"@, coordinator@, advertise@, node_id@, "1.0"@, operations@],
{
    let mut r: Vec<String> = Vec::new();
    r.push("worker".to_string());
    r.push(coordinator.to_string());
    r.push(advertise.to_string());
    r.push(node_id.to_string());
    r.push("1.0".to_string());
    r.push(operations.to_string());
    assert(words(r@) =~= seq!["worker"@, coordinator@, advertise@, node_id@, "1.0"@, operations@]);
    r
}

/// The binary to start: the one that was asked for, else the one beside this
/// program, else the one on the search path.
pub fn resolve_binary(asked: Option<String>, sibling: Option<String>) -> (r: String)
    ensures
        r@ == match (asked, sibling) {
            (Some(path), _) => path@,
            (None, Some(path)) => path@,
            (None, None) => "crayon-cluster"@,
        },
{
    match asked {
        Some(path) => path,
        None => match sibling {
            Some(path) => path,
            None => "crayon-cluster".to_string(),
        },
    }
}

/// One look at whether the coordinator accepts connections. It is tried before the
/// deadline only.
pub fn listening_step(now: u64, deadline: u64, accepted: bool) -> (r: ReadyStep)
    ensures
        if now >= deadline {
            ready_failed(r, ErrorModel::Protocol("coordinator did not start in time"@))
        } else if accepted {
            r is Ready
        } else {
            r == ReadyStep::Pause(50)
        },
{
    if now >= deadline {
        ReadyStep::Failed(Error::Protocol("coordinator did not start in time".to_string()))
    } else if accepted {
        ReadyStep::Ready
    } else {
        ReadyStep::Pause(50)
    }
}

/// One look at how many workers have registered; `listed` is what the coordinator
/// answered, if it did.
pub fn workers_step(expected: usize, listed: Option<usize>, now: u64, deadline: u64) -> (r: ReadyStep)
    ensures
        if listed is Some && listed->0 >= expected {
            r is Ready
        } else if now < deadline {
            r == ReadyStep::Pause(100)
        } else {
            ready_failed(
                r,
                ErrorModel::Protocol(
                    "expected "@ + decimal(expected as nat) + " workers but not all registered in time"@,
                ),
            )
        },
{
    match listed {
        Some(count) if count >= expected => return ReadyStep::Ready,
        _ => {},
    }
    if now < deadline {
        return ReadyStep::Pause(100);
    }
    let mut message = "expected ".to_string();
    let number = decimal_string(expected as u64);
    message.append(number.as_str());
    message.append(" workers but not all registered in time");
    ReadyStep::Failed(Error::Protocol(message))
}

/// One look at a coordinator that is being started by a benchmark: it is up once it
/// answers.
pub fn answering_step(answered: bool, now: u64, deadline: u64) -> (r: ReadyStep)
    ensures
        if answered {
            r is Ready
        } else if now >= deadline {
            ready_failed(r, ErrorModel::Protocol("coordinator did not start in time"@))
        } else {
            r == ReadyStep::Pause(25)
        },
{
    if answered {
        ReadyStep::Ready
    } else if now >= deadline {
        ReadyStep::Failed(Error::Protocol("coordinator did not start in time".to_string()))
    } else {
        ReadyStep::Pause(25)
    }
}

/// One look at the workers that a benchmark waits for. A coordinator that does not
/// answer any more is a failure.
pub fn registered_step(expected: usize, listed: Result<usize, Error>, now: u64, deadline: u64) -> (r: ReadyStep)
    ensures
        match listed {
            Err(error) => r == ReadyStep::Failed(error),
            Ok(count) => if count >= expected {
                r is Ready
            } else if now >= deadline {
                ready_failed(r, ErrorModel::Protocol("workers did not register in time"@))
            } else {
                r == ReadyStep::Pause(25)
            },
        },
{
    match listed {
        Err(error) => ReadyStep::Failed(error),
        Ok(count) => {
            if count >= expected {
                ReadyStep::Ready
            } else if now >= deadline {
                ReadyStep::Failed(Error::Protocol("workers did not register in time".to_string()))
            } else {
                ReadyStep::Pause(25)
            }
        },
    }
}

/// One look at the workers by a benchmark that bears with a coordinator which does
/// not answer, until the deadline.
pub fn patient_step(expected: usize, listed: Result<usize, Error>, now: u64, deadline: u64) -> (r: ReadyStep)
    ensures
        if listed is Ok && listed->Ok_0 >= expected {
            r is Ready
        } else if now < deadline {
            r == ReadyStep::Pause(100)
        } else if listed is Ok {
            ready_failed(r, ErrorModel::Protocol("workers did not register in time"@))
        } else {
            r == ReadyStep::Failed(listed->Err_0)
        },
{
    match listed {
        Ok(count) => {
            if count >= expected {
                ReadyStep::Ready
            } else if now < deadline {
                ReadyStep::Pause(100)
            } else {
                ReadyStep::Failed(Error::Protocol("workers did not register in time".to_string()))
            }
        },
        Err(error) => {
            if now < deadline {
                ReadyStep::Pause(100)
            } else {
                ReadyStep::Failed(error)
            }
        },
    }
}

/// A cluster is ready once as many workers are registered as are expected; until then
/// it is looked at again while there is time.
pub proof fn law_cluster_is_ready_with_its_workers(
    expected: usize,
    listed: Option<usize>,
    now: u64,
    deadline: u64,
    step: ReadyStep,
)
    requires
        call_ensures(workers_step, (expected, listed, now, deadline), step),
    ensures
        step is Ready <==> listed is Some && listed->0 >= expected,
        step is Pause <==> !(listed is Some && listed->0 >= expected) && now < deadline,
        step matches ReadyStep::Pause(wait) ==> wait == 100,
{
}

/// The coordinator is ready once it answers, and is given up at the deadline.
pub proof fn law_coordinator_is_ready_when_it_answers(
    answered: bool,
    now: u64,
    deadline: u64,
    step: ReadyStep,
    listening: ReadyStep,
)
    requires
        call_ensures(answering_step, (answered, now, deadline), step),
        call_ensures(listening_step, (now, deadline, answered), listening),
    ensures
        step is Ready <==> answered,
        step is Pause <==> !answered && now < deadline,
        listening is Ready <==> answered && now < deadline,
        listening is Pause <==> !answered && now < deadline,
        listening is Failed <==> now >= deadline,
{
}

} // verus!
