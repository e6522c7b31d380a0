//! Options, devices, scripts, benchmarks and other things around the cluster.

use crayon::arena::{arena_token, copy_part, copy_wide, file_name, file_owner, to_vec_wide};
use crayon::benchmark::{
    csv, dag_payload, env_seed, iteration_checked, measured, parse_sizes, rollout_step, sample, stamp, task_args,
    task_checked, total_checked, ClusterArgs, DagRun, DagStage, DagStep, Options, OptionsEnd, RolloutArgs, StorageArgs,
};
use crayon::binding::{
    descriptor, memory_limit, merge_found, order_args, parse_args, parse_codec, ready_slots, resolve, CallArg,
    ScriptArg,
};
use crayon::builtin::add_inputs;
use crayon::cluster::checksum;
use crayon::common::CrayonError;
use crayon::device::{core_for, cpu_model, gpu_count, listed_devices, visible_devices, DeviceSlot};
use crayon::error::Error;
use crayon::fields::{parse_u32, parse_u64, parse_usize, split, trim};
use crayon::ids::{NodeId, ObjectId, ParseIdError, TaskId};
use crayon::local::{
    answering_step, coordinator_args, listening_step, patient_step, registered_step, resolve_binary, worker_args,
    workers_step, ReadyStep,
};
use crayon::operation::{Codec, TaskArg};
use crayon::protocol::TaskStatus;
use crayon::text::{decimal_string, signed_decimal_string};

fn words(list: &[&str]) -> Vec<String> {
    list.iter().map(|word| word.to_string()).collect()
}

#[test]
fn numbers_are_read_as_they_are_written() {
    for n in [0, 1, 9, 10, 4_294_967_295, u64::MAX] {
        assert_eq!(decimal_string(n), n.to_string());
        assert_eq!(parse_u64(&decimal_string(n)), Some(n));
    }
    for n in [0, 7, -7, i64::MIN, i64::MAX] {
        assert_eq!(signed_decimal_string(n), n.to_string());
    }
}

#[test]
fn numbers_are_read_like_the_standard_library_does() {
    for text in [
        "", "+", "-", "+1", "-1", "007", " 1", "1 ", "1_000", "4294967295", "4294967296", "18446744073709551615",
        "18446744073709551616", "00000000000000000000000000001", "\u{661}", "1.0",
    ] {
        assert_eq!(parse_u64(text), text.parse().ok(), "{text:?}");
        assert_eq!(parse_u32(text), text.parse().ok(), "{text:?}");
        assert_eq!(parse_usize(text), text.parse().ok(), "{text:?}");
    }
}

#[test]
fn text_is_split_and_trimmed_like_the_standard_library_does() {
    for text in ["", ",", "a", "a,b", ",a,,b,", " a , b ", "\u{3000}x\u{85}\t", "\u{200b}y", "\n \r"] {
        assert_eq!(split(text, ','), text.split(',').collect::<Vec<_>>(), "{text:?}");
        assert_eq!(trim(text), text.trim(), "{text:?}");
    }
}

#[test]
fn visible_devices_are_counted() {
    assert_eq!(visible_devices(""), 0);
    assert_eq!(visible_devices("-1"), 0);
    assert_eq!(visible_devices("0"), 1);
    assert_eq!(visible_devices("0,1, ,3,"), 3);
    assert_eq!(visible_devices("-1,"), 1);
    let listing = "GPU 0: V100\nGPU 1: V100\n GPU 2\nGPUs\nGPU 3";
    assert_eq!(listed_devices(listing), 3);
    assert_eq!(listed_devices("GPU"), 0);
    assert_eq!(gpu_count(Some(""), Some(4), Some(listing)), 0);
    assert_eq!(gpu_count(None, Some(4), Some(listing)), 4);
    assert_eq!(gpu_count(None, Some(0), Some(listing)), 3);
    assert_eq!(gpu_count(None, None, None), 0);
}

#[test]
fn devices_and_cores_are_assigned() {
    let mut slot = DeviceSlot::new();
    assert_eq!(slot.current_device(), None);
    slot.set_current_device(Some(2));
    assert_eq!(slot.current_device(), Some(2));
    let cores: Vec<Option<usize>> = (0..5).map(|thread| core_for(thread, 3)).collect();
    assert_eq!(cores, vec![Some(0), Some(1), Some(2), Some(0), Some(1)]);
    assert_eq!(core_for(0, 0), None);
}

#[test]
fn a_local_cluster_is_started_and_awaited() {
    assert_eq!(coordinator_args("h:1"), words(&["coordinator", "h:1", "5000"]));
    assert_eq!(worker_args("h:1", "h:2", "ab", "rl"), words(&["worker", "h:1", "h:2", "ab", "1.0", "rl"]));
    assert_eq!(resolve_binary(Some("/a".into()), Some("/b".into())), "/a");
    assert_eq!(resolve_binary(None, Some("/b".into())), "/b");
    assert_eq!(resolve_binary(None, None), "crayon-cluster");
    assert!(matches!(listening_step(1, 2, true), ReadyStep::Ready));
    assert!(matches!(listening_step(1, 2, false), ReadyStep::Pause(50)));
    assert!(matches!(listening_step(2, 2, true), ReadyStep::Failed(Error::Protocol(text)) if text == "coordinator did not start in time"));
    assert!(matches!(workers_step(2, Some(2), 9, 5), ReadyStep::Ready));
    assert!(matches!(workers_step(2, Some(1), 4, 5), ReadyStep::Pause(100)));
    assert!(matches!(
        workers_step(2, None, 5, 5),
        ReadyStep::Failed(Error::Protocol(text)) if text == "expected 2 workers but not all registered in time"
    ));
    assert!(matches!(answering_step(true, 9, 5), ReadyStep::Ready));
    assert!(matches!(answering_step(false, 4, 5), ReadyStep::Pause(25)));
    assert!(matches!(answering_step(false, 5, 5), ReadyStep::Failed(Error::Protocol(_))));
    assert!(matches!(registered_step(1, Err(Error::StaleEpoch), 0, 5), ReadyStep::Failed(Error::StaleEpoch)));
    assert!(matches!(registered_step(1, Ok(1), 9, 5), ReadyStep::Ready));
    assert!(matches!(registered_step(1, Ok(0), 4, 5), ReadyStep::Pause(25)));
    assert!(matches!(registered_step(1, Ok(0), 5, 5), ReadyStep::Failed(Error::Protocol(text)) if text == "workers did not register in time"));
    assert!(matches!(patient_step(1, Err(Error::StaleEpoch), 4, 5), ReadyStep::Pause(100)));
    assert!(matches!(patient_step(1, Err(Error::StaleEpoch), 5, 5), ReadyStep::Failed(Error::StaleEpoch)));
    assert!(matches!(patient_step(1, Ok(0), 5, 5), ReadyStep::Failed(Error::Protocol(_))));
    assert!(matches!(patient_step(1, Ok(3), 5, 5), ReadyStep::Ready));
}

#[test]
fn arena_files_name_their_owner() {
    let token = arena_token(123, "00ff");
    assert_eq!(token, "123-00ff");
    assert_eq!(file_name(&token), "arena-123-00ff");
    assert_eq!(file_owner("arena-123-00ff"), Some("123".to_string()));
    assert_eq!(file_owner("arena-123"), Some("123".to_string()));
    assert_eq!(file_owner("arena-x-1"), None);
    assert_eq!(file_owner("arena-"), None);
    assert_eq!(file_owner("areno-1-2"), None);
    assert_eq!(file_owner("aren"), None);
    assert_eq!(file_owner("arena-4294967296-1"), None);
}

#[test]
fn copies_are_whole() {
    let source: Vec<u8> = (0..1_000u32).map(|n| n as u8).collect();
    let mut target = vec![0; 1_000];
    copy_wide(&mut target, &source);
    assert_eq!(target, source);
    assert_eq!(to_vec_wide(&source), source);
    assert_eq!(copy_part(1_000, 8), 1_000);
    assert_eq!(copy_part(8_388_608, 8), 1_048_576);
    assert_eq!(copy_part(8_388_609, 3), 2_796_203);
    assert_eq!(copy_part(16_777_216, 64), 2_097_152);
}

#[test]
fn codecs_have_names_for_scripts() {
    assert_eq!(parse_codec("json"), Ok(Codec::JsonV1));
    assert_eq!(parse_codec("bincode"), Ok(Codec::BincodeV1));
    assert_eq!(parse_codec("raw"), Ok(Codec::RawBytes));
    assert_eq!(parse_codec("pickle"), Ok(Codec::PythonPickleV1));
    assert_eq!(parse_codec("a\"b\n"), Err("unknown codec \"a\\\"b\\n\"".to_string()));
    let made = descriptor("llm", "rollout", 1, Codec::JsonV1);
    assert_eq!(made.key.to_string(), "llm:rollout@1");
    assert_eq!(made.max_inline_arg_bytes, 65_536);
}

#[test]
fn script_arguments_become_task_arguments() {
    let id = ObjectId([0xab; 32]);
    let args = parse_args(
        vec![ScriptArg::Bytes(vec![1]), ScriptArg::Text(id.to_string())],
        Codec::JsonV1,
    );
    assert_eq!(
        args,
        Ok(vec![TaskArg::Inline { codec: Codec::JsonV1, bytes: vec![1] }, TaskArg::Object(id)])
    );
    assert_eq!(
        parse_args(vec![ScriptArg::Other], Codec::RawBytes),
        Err("task args must be bytes (inline) or str (object id)".to_string())
    );
    assert_eq!(
        parse_args(vec![ScriptArg::Bytes(vec![]), ScriptArg::Text("ab".into()), ScriptArg::Other], Codec::RawBytes),
        Err("object id must contain 64 hexadecimal characters".to_string())
    );
}

#[test]
fn results_are_put_into_order() {
    assert_eq!(ready_slots(vec![None, Some('a'), None, Some('b')]), vec![(1, 'a'), (3, 'b')]);
    let args = order_args(&vec![true, false, true], vec!["r0", "r1"], vec![10]).unwrap();
    assert!(matches!(&args[..], [CallArg::Resolved("r0"), CallArg::Plain(10), CallArg::Resolved("r1")]));
    assert_eq!(order_args(&vec![true], Vec::<u8>::new(), vec![1]).unwrap_err(), "resolved argument missing");
    assert_eq!(order_args(&vec![false, false], vec![1], vec![1]).unwrap_err(), "plain argument missing");
    assert_eq!(merge_found(vec![Some(1), None, Some(3), None], vec![2, 4]), vec![1, 2, 3, 4]);
    assert_eq!(merge_found(vec![None, Some(3), None], vec![2]), vec![2, 3]);
    assert_eq!(resolve(vec![Ok(1), Ok(2)]).unwrap(), vec![1, 2]);
    let failed = resolve(vec![Ok(1), Err(CrayonError::TypeMismatch), Err(CrayonError::TaskFailed("x".into()))]);
    assert!(matches!(failed, Err(CrayonError::TypeMismatch)));
    assert_eq!(memory_limit(None, false), None);
    assert_eq!(memory_limit(None, true), Some(2_147_483_648));
    assert_eq!(memory_limit(Some(5), false), Some(5));
}

#[test]
fn options_are_read_in_pairs() {
    let (options, end) = Options::read(&words(&["--workers", "3", "--workers", "4", "--samples", "x"]), false);
    assert!(matches!(end, OptionsEnd::All));
    let args = ClusterArgs::parse(&options);
    assert_eq!((args.workers, args.concurrency, args.warmups, args.samples), (4, 1, 5, 50));
    assert_eq!((args.payload_bytes, args.artifact_dir.as_str()), (1024, "benchmark_artifacts/cluster"));
    let (_, end) = Options::read(&words(&["--workers"]), true);
    assert!(matches!(end, OptionsEnd::Missing(name) if name == "--workers"));
    let (options, end) = Options::read(&words(&["--seed", "7", "--help", "--steps", "1"]), true);
    assert!(matches!(end, OptionsEnd::Help));
    let args = RolloutArgs::parse(&options);
    assert_eq!((args.seed_base, args.steps, args.parallelism, args.iterations), (7, 100, 8, 100));
    assert_eq!((args.workers, args.policy_dim, args.max_attempts), (2, 16, 3));
    assert_eq!(args.baseline, None);
    let (options, _) = Options::read(&words(&["--help", "1", "--baseline", "b", "--sizes", "1, 2,x,,3"]), false);
    assert_eq!(RolloutArgs::parse(&options).baseline, Some("b".to_string()));
    assert_eq!(StorageArgs::parse(&options).sizes, vec![1, 2, 3]);
    let (options, _) = Options::read(&Vec::new(), false);
    let args = StorageArgs::parse(&options);
    assert_eq!(args.sizes, vec![1024, 16_384, 262_144, 1_048_576, 4_194_304]);
    assert_eq!((args.samples, args.warmups), (2000, 200));
    assert_eq!(parse_sizes(""), Vec::<usize>::new());
}

#[test]
fn the_copy_scenario_runs_through() {
    let payload = dag_payload(600);
    assert_eq!((payload[0], payload[250], payload[251], payload[599]), (0, 250, 0, 97));
    let (mut run, step) = DagRun::start(payload.clone());
    assert!(matches!(step, DagStep::Submit(args) if args == vec![TaskArg::Inline { codec: Codec::RawBytes, bytes: payload.clone() }]));
    assert!(matches!(run.submitted(1_000), DagStep::Ask));
    assert_eq!(run.deadline, 31_000);
    let first = ObjectId([1; 32]);
    assert!(matches!(run.looked(first, &TaskStatus::Running, 30_999), DagStep::Pause(10)));
    assert!(matches!(run.looked(first, &TaskStatus::Running, 31_000), DagStep::Failed(Error::DeadlineExceeded)));
    assert!(matches!(run.looked(first, &TaskStatus::Succeeded, 31_000), DagStep::Submit(args) if args == vec![TaskArg::Object(first)]));
    run.submitted(2_000);
    let second = ObjectId([2; 32]);
    assert!(matches!(run.looked(second, &TaskStatus::Succeeded, 2_001), DagStep::Read(id) if id == second));
    assert_eq!(run.stage, DagStage::Read);
    assert!(matches!(run.read(&payload), DagStep::Done));
    assert!(matches!(run.read(&payload[1..]), DagStep::Failed(Error::Protocol(text)) if text == "dag payload checksum mismatch"));
    let (mut run, _) = DagRun::start(Vec::new());
    assert!(matches!(
        run.looked(first, &TaskStatus::Failed("no".into()), 0),
        DagStep::Failed(Error::Protocol(text)) if text == "first dag task terminal: Failed(\"no\")"
    ));
    run.looked(first, &TaskStatus::Succeeded, 0);
    assert!(matches!(
        run.looked(second, &TaskStatus::Cancelled, 0),
        DagStep::Failed(Error::Protocol(text)) if text == "second dag task terminal: Cancelled"
    ));
}

#[test]
fn the_task_scenario_adds() {
    let args: Vec<Vec<u8>> = task_args()
        .unwrap()
        .into_iter()
        .map(|arg| match arg {
            TaskArg::Inline { bytes, .. } => bytes,
            TaskArg::Object(_) => panic!("not inline"),
        })
        .collect();
    assert_eq!(add_inputs(&args), Ok((20, 22)));
    assert_eq!(task_checked(42), Ok(()));
    assert_eq!(task_checked(-1), Err(Error::Protocol("expected 42, got -1".into())));
}

#[test]
fn samples_are_written_and_picked() {
    let samples = vec![sample("task", 0, 1, 0, 10), sample("task", 1, 1, 0, 20), sample("dag", 2, 1, 512, 30)];
    assert_eq!(
        csv(&samples),
        "scenario,index,warmup,payload_bytes,elapsed_ns\ntask,0,true,0,10\ntask,1,false,0,20\ndag,2,false,512,30\n"
    );
    assert_eq!(measured(&samples, "task"), vec![20]);
    assert_eq!(measured(&samples, "dag"), vec![30]);
    assert_eq!(measured(&samples, "other"), Vec::<u64>::new());
}

#[test]
fn rollouts_are_seeded_and_counted() {
    assert_eq!(env_seed(42, 3, 5), 3_047);
    assert_eq!(env_seed(1 << 31, 0, 1), 1);
    assert_eq!(iteration_checked(8, Some(8), 8), Ok(()));
    assert_eq!(iteration_checked(7, None, 8), Err("incomplete rollout admission".to_string()));
    assert_eq!(iteration_checked(8, Some(7), 8), Err("incomplete rollout iteration".to_string()));
    assert_eq!(total_checked(24, 3, 8), Ok(()));
    assert_eq!(total_checked(23, 3, 8), Err("incomplete benchmark: 23/24 episodes".to_string()));
}

#[test]
fn payloads_are_stamped() {
    let mut payload = vec![0xA5; 10];
    stamp(&mut payload, 0x0102_0304_0506_0708);
    assert_eq!(payload, vec![8, 7, 6, 5, 4, 3, 2, 1, 0xA5, 0xA5]);
    let mut short = vec![0xA5; 2];
    stamp(&mut short, 0x0304);
    assert_eq!(short, vec![4, 3]);
}

#[test]
fn an_environment_goes_on_step_by_step() {
    assert_eq!(rollout_step(0, 4), (1, 0, 0));
    let next = 12_345u64.wrapping_mul(6_364_136_223_846_793_005).wrapping_add(1);
    let reward = ((next >> 1) & 0xff) as u8;
    assert_eq!(rollout_step(12_345, 4), (next, ((next >> 33) % 4) as usize, reward));
    assert_eq!(rollout_step(12_345, 0), (next, 0, reward));
}

#[test]
fn new_identifiers_are_marked_as_random() {
    for _ in 0..32 {
        let bytes = TaskId::new().0;
        assert_eq!((bytes[6] / 16, bytes[8] / 64), (4, 2));
        assert_eq!(uuid::Uuid::from_bytes(NodeId::default().0).get_version_num(), 4);
    }
    assert_ne!(ObjectId::default(), ObjectId::default());
}

#[test]
fn the_processor_is_named_by_the_first_line_that_names_one() {
    let listing = "Architecture: x86_64\nModel name:   A  B \nModel name: C\n";
    assert_eq!(cpu_model(Some(listing), Some("brand")), "A  B");
    assert_eq!(cpu_model(Some("Architecture: x86_64\n"), Some(" brand\n")), "brand");
    assert_eq!(cpu_model(None, None), "unknown");
}

#[test]
fn identifiers_are_read_in_any_form_of_a_uuid() {
    let id = NodeId([0x5a; 16]);
    assert_eq!(NodeId::parse(&id.to_string()).unwrap(), id);
    assert_eq!(NodeId::parse("5a5a5a5a-5a5a-5a5a-5a5a-5a5a5a5a5a5a").unwrap(), id);
    assert_eq!(NodeId::parse("{5A5A5A5A-5a5a-5a5a-5a5a-5a5a5a5a5a5a}").unwrap(), id);
    let fault = uuid::Uuid::parse_str("5a").unwrap_err().to_string();
    assert_eq!(NodeId::parse("5a"), Err(ParseIdError(fault)));
    assert_ne!(TaskId::new(), TaskId::new());
}

#[test]
fn object_ids_are_read_from_hexadecimal_digits() {
    let id = ObjectId([0x0f; 32]);
    assert_eq!(ObjectId::parse(&id.to_string()), Ok(id));
    assert_eq!(ObjectId::parse(&id.to_string().to_uppercase()), Ok(id));
    assert_eq!(ObjectId::parse(&format!("+f{}", "0f".repeat(31))), Ok(id));
    let invalid = format!("zz{}", "0f".repeat(31));
    assert_eq!(ObjectId::parse(&invalid), Err("invalid digit found in string".to_string()));
    let cut = format!("\u{e9}\u{e9}{}", "0f".repeat(30));
    assert_eq!(cut.len(), 64);
    assert_eq!(ObjectId::parse(&cut), Err("invalid digit found in string".to_string()));
    let odd = format!("0\u{e9}{}0", "0f".repeat(30));
    assert_eq!(odd.len(), 64);
    let expected = std::str::from_utf8(&odd.as_bytes()[..2]).unwrap_err().to_string();
    assert_eq!(ObjectId::parse(&odd), Err(expected));
}

#[test]
fn digests_are_those_of_blake3() {
    let empty = "af1349b9f5f9a1a6a0404dea36dcc9499bcb25c9adc112b7cc9a93cae41f3262";
    assert_eq!(ObjectId(checksum(b"")).to_string(), empty);
    for len in [1, 1_000, 131_071, 131_072, 3_000_000] {
        let bytes = dag_payload(len);
        assert_eq!(checksum(&bytes), *blake3::hash(&bytes).as_bytes(), "{len}");
    }
}
