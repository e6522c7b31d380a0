use crayon::data_plane::LocalObjectStore;
use crayon::error::Error;
use crayon::ids::{ClusterId, ObjectId, TaskId};
use crayon::operation::{Codec, OperationDescriptor, OperationKey, TaskArg, MAX_INLINE_ARG_BYTES};
use crayon::protocol::{ClientRequest, Envelope, FailureClass, RpcRequest};
use crayon::resources::ResourceSet;

fn cpu_gpu(cpu: f64, gpu: f64) -> ResourceSet {
    ResourceSet::cpu_gpu_milli((cpu * 1000.0).round() as i64, (gpu * 1000.0).round() as i64).unwrap()
}

fn descriptor() -> OperationDescriptor {
    OperationDescriptor {
        key: OperationKey::new("test", "op", 1),
        input_codec: Codec::BincodeV1,
        output_codec: Codec::RawBytes,
        max_inline_arg_bytes: 4,
    }
}

#[test]
fn validates_exact_codec_and_inline_limit() {
    let descriptor = descriptor();
    assert!(descriptor
        .validate_args(&[TaskArg::Inline {
            codec: Codec::BincodeV1,
            bytes: vec![0; 4],
        }])
        .is_ok());
    assert!(descriptor
        .validate_args(&[TaskArg::Inline {
            codec: Codec::JsonV1,
            bytes: vec![0; 4],
        }])
        .is_err());
    assert!(descriptor
        .validate_args(&[TaskArg::Inline {
            codec: Codec::BincodeV1,
            bytes: vec![0; 5],
        }])
        .is_err());
}

#[test]
fn rejects_invalid_descriptor() {
    let mut value = descriptor();
    value.key.version = 0;
    assert!(value.validate().is_err());
    value.key.version = 1;
    value.max_inline_arg_bytes = MAX_INLINE_ARG_BYTES + 1;
    assert!(value.validate().is_err());
}

#[test]
fn envelope_rejects_wrong_cluster_and_deadline() {
    let cluster = ClusterId::new();
    let envelope = Envelope::new(
        cluster,
        RpcRequest::Client(ClientRequest::Status(TaskId::new())),
        10,
    );
    assert!(envelope.validate(cluster, 9).is_ok());
    assert!(envelope.validate(ClusterId::new(), 9).is_err());
    assert!(matches!(
        envelope.validate(cluster, 10),
        Err(Error::DeadlineExceeded)
    ));
}

#[test]
fn failure_class_maps_lost_and_deterministic_to_permanent() {
    assert_eq!(
        Error::ObjectLost(ObjectId::new()).failure_class(),
        FailureClass::Permanent
    );
    assert_eq!(
        Error::Serialization("bad".into()).failure_class(),
        FailureClass::Permanent
    );
    assert_eq!(
        Error::Protocol("bad arg".into()).failure_class(),
        FailureClass::Permanent
    );
}

#[test]
fn failure_class_maps_infra_to_transient() {
    assert_eq!(
        Error::Io("reset".into()).failure_class(),
        FailureClass::Transient
    );
    assert_eq!(
        Error::DeadlineExceeded.failure_class(),
        FailureClass::Transient
    );
    assert_eq!(
        Error::ObjectNotFound(ObjectId::new()).failure_class(),
        FailureClass::Transient
    );
}

#[test]
fn release_is_atomic_and_capped() {
    let total = cpu_gpu(1.0, 1.0);
    let mut available = cpu_gpu(0.5, 0.5);
    let before = available.clone();
    assert!(available.add_capped(&cpu_gpu(0.5, 1.0), &total).is_err());
    assert_eq!(available, before);
}

#[test]
fn object_id_is_the_exact_blake3_digest() {
    let bytes = b"crayon";
    let checksum = *blake3::hash(bytes).as_bytes();
    let id = ObjectId::from_checksum(checksum);
    assert_eq!(id.0, checksum);
    assert_eq!(id.to_string().parse::<ObjectId>().unwrap(), id);
}

#[test]
fn object_id_is_fenced_against_bytes_and_codec() {
    let mut store = LocalObjectStore::default();
    let id = ObjectId::new();
    store.put(id, Codec::RawBytes, vec![1]).unwrap();
    assert!(matches!(
        store.put(id, Codec::RawBytes, vec![2]),
        Err(Error::ObjectConflict(_))
    ));
    assert!(matches!(
        store.put(id, Codec::JsonV1, vec![1]),
        Err(Error::ObjectConflict(_))
    ));
}
