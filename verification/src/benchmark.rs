//! The benchmarks: their options, the steps of their scenarios, and their samples.
//! Clocks, processes and statistics are the caller's.
use vstd::prelude::*;
use vstd::string::*;

use crate::builtin::{number_arg, signed_little_endian};
use crate::coordinator::lemma_same_array;
use crate::error::{outcome, Error, ErrorModel};
use crate::fields::{number_upto, parse_u32, parse_u64, parse_usize, pieces, split, texts, trim, trimmed};
use crate::ids::{blake3_digest, blake3_hash, bytes_equal, ObjectId};
use crate::operation::{args_model, ArgModel, Codec, TaskArg};
use crate::protocol::TaskStatus;
use crate::table::Table;
use crate::text::{decimal, decimal_string, lemma_says, same_text, says, signed_decimal, signed_decimal_string};

verus! {

/// Options by name.
#[derive(Debug)]
pub struct Options {
    table: Table<String, String>,
}

impl View for Options {
    type V = Map<Seq<char>, Seq<char>>;

    closed spec fn view(&self) -> Map<Seq<char>, Seq<char>> {
        self.table@
    }
}

/// Why the reading of options came to its end.
#[derive(Debug)]
pub enum OptionsEnd {
    All,
    /// Help was asked for.
    Help,
    /// There is no value for this name.
    Missing(String),
}

/// The view of an [`OptionsEnd`].
pub enum OptionsEndModel {
    All,
    Help,
    Missing(Seq<char>),
}

impl View for OptionsEnd {
    type V = OptionsEndModel;

    open spec fn view(&self) -> OptionsEndModel {
        match *self {
            OptionsEnd::All => OptionsEndModel::All,
            OptionsEnd::Help => OptionsEndModel::Help,
            OptionsEnd::Missing(name) => OptionsEndModel::Missing(name@),
        }
    }
}

/// The first `n` names with their values; of values for the same name the last one
/// counts.
pub open spec fn paired(words: Seq<String>, n: int) -> Map<Seq<char>, Seq<char>>
    decreases n,
{
    if n <= 0 {
        Map::empty()
    } else {
        paired(words, n - 1).insert(words[2 * n - 2]@, words[2 * n - 1]@)
    }
}

/// How many pairs are read from the `n`-th on, and why the reading ends there.
pub open spec fn options_end(words: Seq<String>, helps: bool, n: int) -> (int, OptionsEndModel)
    decreases words.len() - 2 * n,
{
    if n < 0 || 2 * n >= words.len() {
        (n, OptionsEndModel::All)
    } else if helps && (words[2 * n]@ == "-h"@ || words[2 * n]@ == "--help"@) {
        (n, OptionsEndModel::Help)
    } else if 2 * n + 1 >= words.len() {
        (n, OptionsEndModel::Missing(words[2 * n]@))
    } else {
        options_end(words, helps, n + 1)
    }
}

/// A count among the options: the default if it was not given or is no number.
pub open spec fn option_number(options: Map<Seq<char>, Seq<char>>, name: Seq<char>, limit: int, default: int) -> int {
    if options.contains_key(name) {
        match number_upto(options[name], limit) {
            Some(value) => value,
            None => default,
        }
    } else {
        default
    }
}

/// A text among the options.
pub open spec fn option_text(options: Map<Seq<char>, Seq<char>>, name: Seq<char>, default: Seq<char>) -> Seq<char> {
    if options.contains_key(name) {
        options[name]
    } else {
        default
    }
}

impl Options {
    pub closed spec fn wf(&self) -> bool {
        self.table.wf()
    }

    /// Reads names and values in turn. Where `helps` is set, a call for help ends
    /// the reading.
    pub fn read(words: &Vec<String>, helps: bool) -> (r: (Self, OptionsEnd))
        ensures
            r.0.wf(),
            r.0@ == paired(words@, options_end(words@, helps, 0).0),
            r.1@ == options_end(words@, helps, 0).1,
    {
        let mut table: Table<String, String> = Table::new();
        let mut at: usize = 0;
        let ghost mut n: int = 0;
        while at < words.len()
            invariant
                table.wf(),
                at <= words@.len(),
                0 <= n,
                at == 2 * n,
                table@ == paired(words@, n),
                options_end(words@, helps, 0) == options_end(words@, helps, n),
            decreases words@.len() - at,
        {
            let name = &words[at];
            if helps && (same_text(name.as_str(), "-h") || same_text(name.as_str(), "--help")) {
                return (Options { table }, OptionsEnd::Help);
            }
            if words.len() - at < 2 {
                return (Options { table }, OptionsEnd::Missing(name.clone()));
            }
            table.insert(name.clone(), words[at + 1].clone());
            proof {
                n = n + 1;
            }
            at += 2;
        }
        (Options { table }, OptionsEnd::All)
    }

    /// The text of an option.
    pub fn text(&self, name: &str, default: &str) -> (r: String)
        requires
            self.wf(),
        ensures
            r@ == option_text(self@, name@, default@),
    {
        match self.table.get(&name.to_string()) {
            Some(value) => value.clone(),
            None => default.to_string(),
        }
    }

    /// Whether an option was given, and its text.
    pub fn get(&self, name: &str) -> (r: Option<String>)
        requires
            self.wf(),
        ensures
            match r {
                Some(value) => self@.contains_key(name@) && value@ == self@[name@],
                None => !self@.contains_key(name@),
            },
    {
        match self.table.get(&name.to_string()) {
            Some(value) => Some(value.clone()),
            None => None,
        }
    }

    /// An option that is a count.
    pub fn count(&self, name: &str, default: usize) -> (r: usize)
        requires
            self.wf(),
        ensures
            r == option_number(self@, name@, usize::MAX as int, default as int),
    {
        match self.table.get(&name.to_string()) {
            Some(value) => match parse_usize(value.as_str()) {
                Some(count) => count,
                None => default,
            },
            None => default,
        }
    }

    /// An option that is a number of 32 bits.
    pub fn number(&self, name: &str, default: u32) -> (r: u32)
        requires
            self.wf(),
        ensures
            r == option_number(self@, name@, u32::MAX as int, default as int),
    {
        match self.table.get(&name.to_string()) {
            Some(value) => match parse_u32(value.as_str()) {
                Some(number) => number,
                None => default,
            },
            None => default,
        }
    }

    /// An option that is a number of 64 bits.
    pub fn seed(&self, name: &str, default: u64) -> (r: u64)
        requires
            self.wf(),
        ensures
            r == option_number(self@, name@, u64::MAX as int, default as int),
    {
        match self.table.get(&name.to_string()) {
            Some(value) => match parse_u64(value.as_str()) {
                Some(number) => number,
                None => default,
            },
            None => default,
        }
    }
}

/// The options of the benchmark of tasks.
#[derive(Debug)]
pub struct ClusterArgs {
    pub workers: usize,
    pub concurrency: usize,
    pub warmups: usize,
    pub samples: usize,
    pub payload_bytes: usize,
    pub artifact_dir: String,
}

impl ClusterArgs {
    pub fn parse(options: &Options) -> (r: Self)
        requires
            options.wf(),
        ensures
            r.workers == option_number(options@, "--workers"@, usize::MAX as int, 1),
            r.concurrency == option_number(options@, "--concurrency"@, usize::MAX as int, 1),
            r.warmups == option_number(options@, "--warmups"@, usize::MAX as int, 5),
            r.samples == option_number(options@, "--samples"@, usize::MAX as int, 50),
            r.payload_bytes == option_number(options@, "--payload-bytes"@, usize::MAX as int, 1024),
            r.artifact_dir@ == option_text(options@, "--artifact-dir"@, "benchmark_artifacts/cluster"@),
    {
        ClusterArgs {
            workers: options.count("--workers", 1),
            concurrency: options.count("--concurrency", 1),
            warmups: options.count("--warmups", 5),
            samples: options.count("--samples", 50),
            payload_bytes: options.count("--payload-bytes", 1024),
            artifact_dir: options.text("--artifact-dir", "benchmark_artifacts/cluster"),
        }
    }
}

/// The options of the rollout benchmark, but for the tolerated loss of speed.
#[derive(Debug)]
pub struct RolloutArgs {
    pub workers: usize,
    pub parallelism: usize,
    pub iterations: u32,
    pub steps: u32,
    pub policy_dim: usize,
    pub max_attempts: u32,
    pub seed_base: u64,
    pub artifact_dir: String,
    pub baseline: Option<String>,
}

impl RolloutArgs {
    pub fn parse(options: &Options) -> (r: Self)
        requires
            options.wf(),
        ensures
            r.workers == option_number(options@, "--workers"@, usize::MAX as int, 2),
            r.parallelism == option_number(options@, "--parallelism"@, usize::MAX as int, 8),
            r.iterations == option_number(options@, "--iterations"@, u32::MAX as int, 100),
            r.steps == option_number(options@, "--steps"@, u32::MAX as int, 100),
            r.policy_dim == option_number(options@, "--policy-dim"@, usize::MAX as int, 16),
            r.max_attempts == option_number(options@, "--max-attempts"@, u32::MAX as int, 3),
            r.seed_base == option_number(options@, "--seed"@, u64::MAX as int, 42),
            r.artifact_dir@ == option_text(options@, "--artifact-dir"@, "benchmark_artifacts/rl"@),
            match r.baseline {
                Some(path) => options@.contains_key("--baseline"@) && path@ == options@["--baseline"@],
                None => !options@.contains_key("--baseline"@),
            },
    {
        RolloutArgs {
            workers: options.count("--workers", 2),
            parallelism: options.count("--parallelism", 8),
            iterations: options.number("--iterations", 100),
            steps: options.number("--steps", 100),
            policy_dim: options.count("--policy-dim", 16),
            max_attempts: options.number("--max-attempts", 3),
            seed_base: options.seed("--seed", 42),
            artifact_dir: options.text("--artifact-dir", "benchmark_artifacts/rl"),
            baseline: options.get("--baseline"),
        }
    }
}

/// The sizes in a list, without what is no number.
pub open spec fn sizes_in(list: Seq<Seq<char>>) -> Seq<usize>
    decreases list.len(),
{
    if list.len() == 0 {
        Seq::empty()
    } else {
        let rest = sizes_in(list.drop_last());
        match number_upto(trimmed(list.last()), usize::MAX as int) {
            Some(value) => rest.push(value as usize),
            None => rest,
        }
    }
}

/// Reads a list of sizes with commas between them.
pub fn parse_sizes(text: &str) -> (r: Vec<usize>)
    ensures
        r@ == sizes_in(pieces(text@, ',')),
{
    let list = split(text, ',');
    let ghost all = texts(list@);
    let mut r: Vec<usize> = Vec::new();
    let mut i: usize = 0;
    assert(all.take(0) =~= Seq::<Seq<char>>::empty());
    while i < list.len()
        invariant
            all == texts(list@),
            i <= list@.len(),
            r@ == sizes_in(all.take(i as int)),
        decreases list@.len() - i,
    {
        assert(all.take(i + 1).drop_last() =~= all.take(i as int));
        assert(all.take(i + 1).last() == list@[i as int]@);
        match parse_usize(trim(list[i])) {
            Some(size) => r.push(size),
            None => {},
        }
        i += 1;
    }
    assert(all.take(i as int) =~= all);
    r
}

/// The options of the storage benchmark.
#[derive(Debug)]
pub struct StorageArgs {
    pub samples: usize,
    pub warmups: usize,
    pub sizes: Vec<usize>,
    pub artifact_dir: String,
}

impl StorageArgs {
    pub fn parse(options: &Options) -> (r: Self)
        requires
            options.wf(),
        ensures
            r.samples == option_number(options@, "--samples"@, usize::MAX as int, 2000),
            r.warmups == option_number(options@, "--warmups"@, usize::MAX as int, 200),
            r.sizes@ == if options@.contains_key("--sizes"@) {
                sizes_in(pieces(options@["--sizes"@], ','))
            } else {
                seq![1024usize, 16_384usize, 262_144usize, 1_048_576usize, 4_194_304usize]
            },
            r.artifact_dir@ == option_text(options@, "--artifact-dir"@, "benchmark_artifacts/storage"@),
    {
        let sizes: Vec<usize> = match options.get("--sizes") {
            Some(list) => parse_sizes(list.as_str()),
            None => vec![1024, 16_384, 262_144, 1_048_576, 4_194_304],
        };
        assert(!options@.contains_key("--sizes"@) ==> sizes@ =~= seq![
            1024usize,
            16_384usize,
            262_144usize,
            1_048_576usize,
            4_194_304usize,
        ]);
        StorageArgs {
            samples: options.count("--samples", 2000),
            warmups: options.count("--warmups", 200),
            sizes,
            artifact_dir: options.text("--artifact-dir", "benchmark_artifacts/storage"),
        }
    }
}

/// The bytes that the copy scenario sends.
pub fn dag_payload(len: usize) -> (r: Vec<u8>)
    ensures
        r@.len() == len,
        forall|i: int| 0 <= i < len ==> #[trigger] r@[i] == i % 251,
{
    let mut r: Vec<u8> = Vec::new();
    let mut i: usize = 0;
    while i < len
        invariant
            i <= len,
            r@.len() == i,
            forall|j: int| 0 <= j < i ==> #[trigger] r@[j] == j % 251,
        decreases len - i,
    {
        r.push((i % 251) as u8);
        i += 1;
    }
    r
}

/// How long a task of the copy scenario may take.
pub const DAG_TIMEOUT_MS: u64 = 30_000;

/// Where a run of the copy scenario is: at its first task, at the second, which
/// copies the output of the first, or at reading what came out.
#[derive(Debug, Clone, Copy, PartialEq, Eq, Structural)]
pub enum DagStage {
    First,
    Second,
    Read,
}

/// A run of the copy scenario.
#[derive(Debug)]
pub struct DagRun {
    pub stage: DagStage,
    pub deadline: u64,
    pub expected: [u8; 32],
}

/// What a run of the copy scenario does next.
#[derive(Debug)]
pub enum DagStep {
    /// Submit a task with these arguments.
    Submit(Vec<TaskArg>),
    /// Ask for the status of the task.
    Ask,
    /// Ask for the status of the task after so many milliseconds.
    Pause(u64),
    /// Read this object.
    Read(ObjectId),
    Done,
    Failed(Error),
}

/// The view of a [`DagStep`].
pub enum DagModel {
    Submit(Seq<ArgModel>),
    Ask,
    Pause(u64),
    Read(ObjectId),
    Done,
    Failed(ErrorModel),
}

impl View for DagStep {
    type V = DagModel;

    open spec fn view(&self) -> DagModel {
        match *self {
            DagStep::Submit(args) => DagModel::Submit(args_model(args@)),
            DagStep::Ask => DagModel::Ask,
            DagStep::Pause(millis) => DagModel::Pause(millis),
            DagStep::Read(id) => DagModel::Read(id),
            DagStep::Done => DagModel::Done,
            DagStep::Failed(error) => DagModel::Failed(error@),
        }
    }
}

/// What a look at the status of the task leads to.
pub open spec fn dag_looked(run: DagRun, output: ObjectId, status: TaskStatus, now: u64) -> (DagStage, DagModel) {
    if status is Succeeded {
        if run.stage == DagStage::First {
            (DagStage::Second, DagModel::Submit(seq![ArgModel::Object(output)]))
        } else {
            (DagStage::Read, DagModel::Read(output))
        }
    } else if status is Failed || status is Cancelled {
        (
            run.stage,
            DagModel::Failed(
                ErrorModel::Protocol(
                    (if run.stage == DagStage::First {
                        "first dag task terminal: "@
                    } else {
                        "second dag task terminal: "@
                    }) + status.text(),
                ),
            ),
        )
    } else if now >= run.deadline {
        (run.stage, DagModel::Failed(ErrorModel::DeadlineExceeded))
    } else {
        (run.stage, DagModel::Pause(10))
    }
}

impl DagRun {
    /// Begins with a task that copies the payload.
    pub fn start(payload: Vec<u8>) -> (r: (Self, DagStep))
        ensures
            r.0.stage == DagStage::First,
            r.0.expected@ == blake3_digest(payload@),
            r.1@ == DagModel::Submit(seq![ArgModel::Inline { codec: Codec::RawBytes, bytes: payload@ }]),
    {
        let expected = blake3_hash(payload.as_slice());
        let mut args: Vec<TaskArg> = Vec::new();
        let ghost sent = payload@;
        args.push(TaskArg::Inline { codec: Codec::RawBytes, bytes: payload });
        assert(args_model(args@) =~= seq![ArgModel::Inline { codec: Codec::RawBytes, bytes: sent }]);
        (DagRun { stage: DagStage::First, deadline: 0, expected }, DagStep::Submit(args))
    }

    /// The task was taken in.
    pub fn submitted(&mut self, now: u64) -> (r: DagStep)
        ensures
            final(self).stage == old(self).stage,
            final(self).expected == old(self).expected,
            final(self).deadline == if now + DAG_TIMEOUT_MS <= u64::MAX {
                now + DAG_TIMEOUT_MS
            } else {
                u64::MAX as int
            },
            r is Ask,
    {
        self.deadline = now.saturating_add(DAG_TIMEOUT_MS);
        DagStep::Ask
    }

    /// Takes in the status of the task whose output is `output`.
    pub fn looked(&mut self, output: ObjectId, status: &TaskStatus, now: u64) -> (r: DagStep)
        ensures
            final(self).stage == dag_looked(*old(self), output, *status, now).0,
            final(self).deadline == old(self).deadline,
            final(self).expected == old(self).expected,
            r@ == dag_looked(*old(self), output, *status, now).1,
    {
        match status {
            TaskStatus::Succeeded => {
                if self.stage == DagStage::First {
                    self.stage = DagStage::Second;
                    let mut args: Vec<TaskArg> = Vec::new();
                    args.push(TaskArg::Object(output));
                    assert(args_model(args@) =~= seq![ArgModel::Object(output)]);
                    DagStep::Submit(args)
                } else {
                    self.stage = DagStage::Read;
                    DagStep::Read(output)
                }
            },
            TaskStatus::Failed(_) | TaskStatus::Cancelled => {
                let mut message = if self.stage == DagStage::First {
                    "first dag task terminal: ".to_string()
                } else {
                    "second dag task terminal: ".to_string()
                };
                let text = status.to_string();
                message.append(text.as_str());
                DagStep::Failed(Error::Protocol(message))
            },
            _ => {
                if now >= self.deadline {
                    DagStep::Failed(Error::DeadlineExceeded)
                } else {
                    DagStep::Pause(10)
                }
            },
        }
    }

    /// Takes in what came out. It must be what went in.
    pub fn read(&self, value: &[u8]) -> (r: DagStep)
        ensures
            r@ == if blake3_digest(value@) == self.expected@ {
                DagModel::Done
            } else {
                DagModel::Failed(ErrorModel::Protocol("dag payload checksum mismatch"@))
            },
    {
        let digest = blake3_hash(value);
        proof {
            if digest@ == self.expected@ {
                lemma_same_array(digest, self.expected);
            }
        }
        if bytes_equal(&digest, &self.expected) {
            DagStep::Done
        } else {
            DagStep::Failed(Error::Protocol("dag payload checksum mismatch".to_string()))
        }
    }
}

/// A task that gets nowhere is given up at the deadline.
pub proof fn law_dag_does_not_wait_forever(run: DagRun, output: ObjectId, status: TaskStatus, now: u64)
    requires
        now >= run.deadline,
    ensures
        !(dag_looked(run, output, status, now).1 is Pause),
{
}

/// The arguments of the addition that the task scenario asks for: twenty and
/// twenty-two.
pub fn task_args() -> (r: Result<Vec<TaskArg>, Error>)
    ensures
        r is Ok,
        r->Ok_0@.len() == 2,
        is_number_arg(r->Ok_0@[0]@, 20),
        is_number_arg(r->Ok_0@[1]@, 22),
{
    let mut args: Vec<TaskArg> = Vec::new();
    match number_arg(20) {
        Ok(arg) => args.push(arg),
        Err(error) => return Err(error),
    }
    match number_arg(22) {
        Ok(arg) => args.push(arg),
        Err(error) => return Err(error),
    }
    Ok(args)
}

/// An inline argument that holds this number.
pub open spec fn is_number_arg(arg: ArgModel, number: int) -> bool {
    arg matches ArgModel::Inline { codec, bytes } && codec == Codec::BincodeV1 && bytes.len() == 8
        && signed_little_endian(bytes) == number
}

/// Checks the sum that the task scenario asked for.
pub fn task_checked(value: i64) -> (r: Result<(), Error>)
    ensures
        outcome(r) == if value == 42 {
            Ok(())
        } else {
            Err(ErrorModel::Protocol("expected 42, got "@ + signed_decimal(value as int)))
        },
{
    if value == 42 {
        return Ok(());
    }
    let mut message = "expected 42, got ".to_string();
    let number = signed_decimal_string(value);
    message.append(number.as_str());
    Err(Error::Protocol(message))
}

/// One measurement.
#[derive(Debug)]
pub struct Sample {
    pub scenario: String,
    pub index: usize,
    pub warmup: bool,
    pub payload_bytes: usize,
    pub elapsed_ns: u64,
}

/// A measurement; the first ones only warm up.
pub fn sample(scenario: &str, index: usize, warmups: usize, payload_bytes: usize, elapsed_ns: u64) -> (r: Sample)
    ensures
        r.scenario@ == scenario@,
        r.index == index,
        r.warmup == (index < warmups),
        r.payload_bytes == payload_bytes,
        r.elapsed_ns == elapsed_ns,
{
    Sample { scenario: scenario.to_string(), index, warmup: index < warmups, payload_bytes, elapsed_ns }
}

/// The row for a measurement.
pub open spec fn csv_row(sample: Sample) -> Seq<char> {
    sample.scenario@ + ","@ + decimal(sample.index as nat) + ","@ + (if sample.warmup {
        "true"@
    } else {
        "false"@
    }) + ","@ + decimal(sample.payload_bytes as nat) + ","@ + decimal(sample.elapsed_ns as nat) + "\n"@
}

/// A heading, and a row for each measurement.
pub open spec fn csv_text(samples: Seq<Sample>) -> Seq<char>
    decreases samples.len(),
{
    if samples.len() == 0 {
        "scenario,index,warmup,payload_bytes,elapsed_ns\n"@
    } else {
        csv_text(samples.drop_last()) + csv_row(samples.last())
    }
}

/// The measurements as a table.
pub fn csv(samples: &Vec<Sample>) -> (r: String)
    ensures
        r@ == csv_text(samples@),
{
    let mut text = "scenario,index,warmup,payload_bytes,elapsed_ns\n".to_string();
    let mut i: usize = 0;
    assert(samples@.take(0) =~= Seq::<Sample>::empty());
    while i < samples.len()
        invariant
            i <= samples@.len(),
            text@ == csv_text(samples@.take(i as int)),
        decreases samples@.len() - i,
    {
        assert(samples@.take(i + 1).drop_last() =~= samples@.take(i as int));
        let sample = &samples[i];
        let mut row = sample.scenario.clone();
        row.append(",");
        let index = decimal_string(sample.index as u64);
        row.append(index.as_str());
        row.append(",");
        row.append(
            if sample.warmup {
                "true"
            } else {
                "false"
            },
        );
        row.append(",");
        let size = decimal_string(sample.payload_bytes as u64);
        row.append(size.as_str());
        row.append(",");
        let elapsed = decimal_string(sample.elapsed_ns);
        row.append(elapsed.as_str());
        row.append("\n");
        text.append(row.as_str());
        i += 1;
    }
    assert(samples@.take(i as int) =~= samples@);
    text
}

/// The times of a scenario, without those that only warm up.
pub open spec fn times_of(samples: Seq<Sample>, scenario: Seq<char>) -> Seq<u64>
    decreases samples.len(),
{
    if samples.len() == 0 {
        Seq::empty()
    } else {
        let rest = times_of(samples.drop_last(), scenario);
        if samples.last().scenario@ == scenario && !samples.last().warmup {
            rest.push(samples.last().elapsed_ns)
        } else {
            rest
        }
    }
}

/// Picks the times of a scenario that count.
pub fn measured(samples: &Vec<Sample>, scenario: &str) -> (r: Vec<u64>)
    ensures
        r@ == times_of(samples@, scenario@),
{
    let mut r: Vec<u64> = Vec::new();
    let mut i: usize = 0;
    assert(samples@.take(0) =~= Seq::<Sample>::empty());
    while i < samples.len()
        invariant
            i <= samples@.len(),
            r@ == times_of(samples@.take(i as int), scenario@),
        decreases samples@.len() - i,
    {
        assert(samples@.take(i + 1).drop_last() =~= samples@.take(i as int));
        let sample = &samples[i];
        if same_text(sample.scenario.as_str(), scenario) && !sample.warmup {
            r.push(sample.elapsed_ns);
        }
        i += 1;
    }
    assert(samples@.take(i as int) =~= samples@);
    r
}

/// One step of an environment with this many actions: its next state, the action
/// that is taken there, and the reward for it, in parts of two hundred and
/// fifty-five.
pub fn rollout_step(state: u64, actions: usize) -> (r: (u64, usize, u8))
    ensures
        r.0 == (state * 6364136223846793005 + 1) % 0x1_0000_0000_0000_0000,
        r.1 == (r.0 as int / 0x2_0000_0000) % if actions == 0 {
            1
        } else {
            actions as int
        },
        r.2 == (r.0 as int / 2) % 256,
{
    let next: u64 = state.wrapping_mul(6364136223846793005).wrapping_add(1);
    proof {
        let product = state * 6364136223846793005;
        vstd::arithmetic::div_mod::lemma_add_mod_noop(product, 1, 0x1_0000_0000_0000_0000);
        assert(next >> 33 == next / 0x2_0000_0000 && next >> 33 <= 0x7fff_ffff) by (bit_vector);
        assert((next >> 1) & 0xff == (next / 2) % 256 && (next >> 1) & 0xff <= 0xff) by (bit_vector);
    }
    let choices: usize = if actions == 0 {
        1
    } else {
        actions
    };
    (next, ((next >> 33) as usize) % choices, ((next >> 1) & 0xff) as u8)
}

/// The seed of an environment: different ones for the rollouts of an iteration, and
/// below two to the thirty-first.
pub fn env_seed(seed_base: u64, iteration: u32, rollout: usize) -> (r: u64)
    requires
        seed_base + iteration * 1000 + rollout <= u64::MAX,
    ensures
        r == (seed_base + iteration * 1000 + rollout) % 0x8000_0000,
{
    (seed_base + iteration as u64 * 1000 + rollout as u64) % 0x8000_0000
}

/// Checks that every rollout of an iteration was taken in and came back.
pub fn iteration_checked(admitted: usize, returned: Option<usize>, expected: usize) -> (r: Result<(), String>)
    ensures
        if admitted != expected {
            r is Err && r->Err_0@ == "incomplete rollout admission"@
        } else if returned is Some && returned->0 != expected {
            r is Err && r->Err_0@ == "incomplete rollout iteration"@
        } else {
            r is Ok
        },
{
    if admitted != expected {
        return Err("incomplete rollout admission".to_string());
    }
    match returned {
        Some(count) if count != expected => Err("incomplete rollout iteration".to_string()),
        _ => Ok(()),
    }
}

/// Checks that every episode was run.
pub fn total_checked(episodes: usize, iterations: u32, parallelism: usize) -> (r: Result<(), String>)
    requires
        iterations * parallelism <= usize::MAX,
    ensures
        if episodes == iterations * parallelism {
            r is Ok
        } else {
            r is Err && r->Err_0@ == "incomplete benchmark: "@ + decimal(episodes as nat) + "/"@ + decimal(
                (iterations * parallelism) as nat,
            ) + " episodes"@
        },
{
    assert(0 <= iterations * parallelism) by (nonlinear_arith)
        requires
            0 <= iterations,
            0 <= parallelism,
    ;
    let expected: usize = iterations as usize * parallelism;
    if episodes == expected {
        return Ok(());
    }
    let mut message = "incomplete benchmark: ".to_string();
    let found = decimal_string(episodes as u64);
    message.append(found.as_str());
    message.append("/");
    let wanted = decimal_string(expected as u64);
    message.append(wanted.as_str());
    message.append(" episodes");
    Err(message)
}

/// The byte of a number at this place, the least significant one first.
pub open spec fn byte_at(number: int, place: int) -> int
    decreases place,
{
    if place <= 0 {
        number % 256
    } else {
        byte_at(number / 256, place - 1)
    }
}

/// Writes a number over the first eight bytes of a payload, or as many as it has, so
/// that no two payloads are alike.
pub fn stamp(payload: &mut Vec<u8>, number: u64)
    ensures
        final(payload)@.len() == old(payload)@.len(),
        forall|i: int|
            0 <= i < final(payload)@.len() ==> #[trigger] final(payload)@[i] == if i < 8 {
                byte_at(number as int, i)
            } else {
                old(payload)@[i] as int
            },
{
    let ghost before = payload@;
    let mut rest: u64 = number;
    let mut i: usize = 0;
    while i < 8 && i < payload.len()
        invariant
            i <= 8,
            i <= payload@.len(),
            payload@.len() == before.len(),
            forall|j: int| 0 <= j < i ==> #[trigger] payload@[j] == byte_at(number as int, j),
            forall|j: int| i <= j < payload@.len() ==> #[trigger] payload@[j] == before[j],
            forall|k: int| k >= 0 ==> #[trigger] byte_at(rest as int, k) == byte_at(number as int, k + i),
        decreases 8 - i,
    {
        assert(byte_at(rest as int, 0) == byte_at(number as int, 0 + i));
        payload.set(i, (rest % 256) as u8);
        let ghost left = rest;
        rest = rest / 256;
        assert forall|k: int| k >= 0 implies #[trigger] byte_at(rest as int, k) == byte_at(number as int, k + (i + 1)) by {
            assert(byte_at(left as int, k + 1) == byte_at(number as int, (k + 1) + i));
        }
        i += 1;
    }
}

/// A measurement is of one scenario, without its warm-ups, in the order it was taken.
pub proof fn law_warmups_are_not_measured(samples: Seq<Sample>, scenario: Seq<char>)
    ensures
        times_of(samples, scenario) == samples.filter(
            |sample: Sample| sample.scenario@ == scenario && !sample.warmup,
        ).map_values(|sample: Sample| sample.elapsed_ns),
    decreases samples.len(),
{
    reveal(Seq::filter);
    let chosen = |sample: Sample| sample.scenario@ == scenario && !sample.warmup;
    let time = |sample: Sample| sample.elapsed_ns;
    if samples.len() > 0 {
        law_warmups_are_not_measured(samples.drop_last(), scenario);
        let before = samples.drop_last().filter(chosen);
        assert(before.push(samples.last()).map_values(time) =~= before.map_values(time).push(time(samples.last())));
    } else {
        assert(samples.filter(chosen).map_values(time) =~= Seq::<u64>::empty());
    }
}

/// Of an option that is given more than once the last counts.
pub proof fn law_last_option_counts(words: Seq<String>, n: int, i: int)
    requires
        0 <= i < n,
        2 * n <= words.len(),
        forall|j: int| i < j < n ==> #[trigger] words[2 * j]@ != words[2 * i]@,
    ensures
        paired(words, n).contains_key(words[2 * i]@),
        paired(words, n)[words[2 * i]@] == words[2 * i + 1]@,
    decreases n,
{
    if i < n - 1 {
        law_last_option_counts(words, n - 1, i);
        assert(words[2 * (n - 1)]@ != words[2 * i]@);
    }
}

/// A run of two tasks goes on with the second once the first has succeeded, and reads
/// the result once the second has; it ends where one fails or is cancelled, or where it
/// takes longer than it may.
pub proof fn law_dag_goes_step_by_step(run: DagRun, output: ObjectId, status: TaskStatus, now: u64)
    ensures
        ({
            let (stage, step) = dag_looked(run, output, status, now);
            &&& status is Succeeded && run.stage == DagStage::First ==> stage == DagStage::Second && step
                == DagModel::Submit(seq![ArgModel::Object(output)])
            &&& status is Succeeded && run.stage != DagStage::First ==> step == DagModel::Read(output)
            &&& status is Failed || status is Cancelled ==> step is Failed
            &&& !(status is Succeeded || status is Failed || status is Cancelled) && now < run.deadline ==> step
                == DagModel::Pause(10) && stage == run.stage
            &&& !(status is Succeeded || status is Failed || status is Cancelled) && now >= run.deadline ==> step
                == DagModel::Failed(ErrorModel::DeadlineExceeded)
        }),
{
}

/// An option that is given as a number within its limit counts; any other leaves the
/// default.
pub proof fn law_options_override_defaults(
    options: Map<Seq<char>, Seq<char>>,
    name: Seq<char>,
    limit: int,
    default: int,
)
    ensures
        !options.contains_key(name) ==> option_number(options, name, limit, default) == default,
        options.contains_key(name) && number_upto(options[name], limit) is None ==> option_number(
            options,
            name,
            limit,
            default,
        ) == default,
        options.contains_key(name) && number_upto(options[name], limit) is Some ==> option_number(
            options,
            name,
            limit,
            default,
        ) == number_upto(options[name], limit)->0,
{
}

/// The table has a header and then a line for each sample, with its values in the order
/// that the header names.
pub proof fn law_table_has_a_line_for_each_sample(samples: Seq<Sample>, i: int)
    requires
        0 <= i < samples.len(),
    ensures
        "scenario,index,warmup,payload_bytes,elapsed_ns\n"@.is_prefix_of(csv_text(samples)),
        says(csv_text(samples), csv_row(samples[i])),
        samples[i].warmup ==> csv_row(samples[i]) == samples[i].scenario@ + ","@ + decimal(samples[i].index as nat)
            + ","@ + "true"@ + ","@ + decimal(samples[i].payload_bytes as nat) + ","@ + decimal(
            samples[i].elapsed_ns as nat,
        ) + "\n"@,
        !samples[i].warmup ==> csv_row(samples[i]) == samples[i].scenario@ + ","@ + decimal(samples[i].index as nat)
            + ","@ + "false"@ + ","@ + decimal(samples[i].payload_bytes as nat) + ","@ + decimal(
            samples[i].elapsed_ns as nat,
        ) + "\n"@,
    decreases samples.len(),
{
    lemma_says();
    let header = "scenario,index,warmup,payload_bytes,elapsed_ns\n"@;
    let rest = samples.drop_last();
    if i < rest.len() {
        law_table_has_a_line_for_each_sample(rest, i);
        assert(rest[i] == samples[i]);
    } else if rest.len() > 0 {
        law_table_has_a_line_for_each_sample(rest, 0);
    }
    assert(header.is_prefix_of(csv_text(rest))) by {
        if rest.len() == 0 {
            assert(header =~= header.take(header.len() as int));
        }
    }
    assert(csv_text(samples).take(header.len() as int) =~= csv_text(rest).take(header.len() as int));
}

/// Options are read in pairs until one asks for help, where help is given, or a name
/// has no value; the pairs before are kept.
pub proof fn law_help_ends_the_options(words: Seq<String>, helps: bool, n: int)
    requires
        0 <= n,
        2 * n <= words.len(),
    ensures
        ({
            let (count, end) = options_end(words, helps, n);
            &&& n <= count
            &&& 2 * count <= words.len()
            &&& end is All ==> 2 * count == words.len()
            &&& end is Help ==> helps && 2 * count < words.len() && (words[2 * count]@ == "-h"@ || words[2 * count]@
                == "--help"@)
            &&& end matches OptionsEndModel::Missing(name) ==> 2 * count + 1 == words.len() && name == words[2
                * count]@
            &&& helps ==> forall|k: int|
                n <= k && 2 * k < words.len() && ((#[trigger] words[2 * k])@ == "-h"@ || words[2 * k]@ == "--help"@)
                    ==> count <= k && end is Help
        }),
    decreases words.len() - 2 * n,
{
    if 2 * n >= words.len() {
    } else if helps && (words[2 * n]@ == "-h"@ || words[2 * n]@ == "--help"@) {
    } else if 2 * n + 1 >= words.len() {
    } else {
        law_help_ends_the_options(words, helps, n + 1);
    }
}

} // verus!
