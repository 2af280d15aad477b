use amadeus::read::{read_bytes, ProbeEvent, ProbeOp, ProbeStep, ReadOp, ReadStep, S3Page, TransportEvent};
use amadeus::s3::{
    AcceptAll, AwsCredentials, AwsError, AwsRegion, ObjectMeta, RejectLastComponent, S3Directory,
    S3File, S3Partition,
};
use amadeus::util::IoError;

fn region() -> AwsRegion {
    AwsRegion { name: "us-east-1".to_string() }
}

fn object(key: &str, size: u64) -> ObjectMeta {
    ObjectMeta { key: key.as_bytes().to_vec(), size }
}

fn io_error(msg: &str) -> IoError {
    IoError::from_message(msg.to_string())
}

#[test]
fn filtered_listing_keeps_unrejected_subtrees() {
    // keys in strict lexicographic order; the filter rejects any path
    // whose last component is "b", so everything under a/b disappears
    let dir = S3Directory::new(region(), "bucket", "");
    let objects = vec![
        object("a", 1),
        object("a/b", 2),
        object("a/b/c.parquet", 3),
        object("a/d.parquet", 4),
    ];
    let mut filter = RejectLastComponent::new(b"b".to_vec());
    let parts = dir.partitions_filter(&mut filter, objects).unwrap();
    let keys: Vec<&[u8]> = parts.iter().map(|p| p.key.as_slice()).collect();
    // the leaf "a" is not rejected by this predicate, so the key "a"
    // stays alongside a/d.parquet
    assert_eq!(keys, vec![b"a".as_slice(), b"a/d.parquet".as_slice()]);
    assert_eq!(parts[1].len, 4);
    // the filter was asked once per subtree: the leaf a, the directory
    // a (at key a/b), the leaf a/b, the directory a/b (at key
    // a/b/c.parquet, and never again), and the leaf a/d.parquet
    assert_eq!(filter.calls, 5);
}

#[test]
fn rejected_directory_is_not_asked_again() {
    let dir = S3Directory::new(region(), "bucket", "");
    let objects = vec![
        object("b/one", 1),
        object("b/three", 2),
        object("b/two", 3),
        object("c/x", 4),
    ];
    let mut filter = RejectLastComponent::new(b"b".to_vec());
    let parts = dir.partitions_filter(&mut filter, objects).unwrap();
    let keys: Vec<&[u8]> = parts.iter().map(|p| p.key.as_slice()).collect();
    assert_eq!(keys, vec![b"c/x".as_slice()]);
    // one call for directory b, none for its leaves, then directory c
    // and leaf c/x
    assert_eq!(filter.calls, 3);
}

#[test]
fn listing_strips_the_prefix_before_walking() {
    let dir = S3Directory::new(region(), "bucket", "data/");
    let objects = vec![object("data/b/keep", 1), object("data/c", 2)];
    let mut filter = RejectLastComponent::new(b"b".to_vec());
    let parts = dir.partitions_filter(&mut filter, objects).unwrap();
    let keys: Vec<&[u8]> = parts.iter().map(|p| p.key.as_slice()).collect();
    assert_eq!(keys, vec![b"data/c".as_slice()]);
}

#[test]
fn unsorted_listing_violates_the_contract() {
    let dir = S3Directory::new(region(), "bucket", "");
    let objects = vec![object("b", 1), object("a", 2)];
    match dir.partitions(objects) {
        Err(AwsError::ListingContractViolation) => {},
        _ => panic!("an out-of-order listing must be rejected"),
    }
    // equal neighbouring keys are out of order too
    let dir = S3Directory::new(region(), "bucket", "");
    let objects = vec![object("a", 1), object("a", 2)];
    match dir.partitions(objects) {
        Err(AwsError::ListingContractViolation) => {},
        _ => panic!("a repeated key must be rejected"),
    }
}

#[test]
fn key_without_prefix_violates_the_contract() {
    let dir = S3Directory::new(region(), "bucket", "data/");
    let objects = vec![object("other/x", 1)];
    match dir.partitions(objects) {
        Err(AwsError::ListingContractViolation) => {},
        _ => panic!("a key outside the prefix must be rejected"),
    }
}

#[test]
fn unfiltered_listing_keeps_everything() {
    let dir = S3Directory::new_with(region(), "bucket", "", AwsCredentials::Anonymous);
    let objects = vec![object("a", 1), object("a/b", 2)];
    let parts = dir.partitions(objects).unwrap();
    assert_eq!(parts.len(), 2);
    assert_eq!(parts[0].key, b"a".to_vec());
    assert_eq!(parts[0].len, 1);
    assert_eq!(parts[0].bucket, "bucket");
}

#[test]
fn accept_all_accepts() {
    let dir = S3Directory::new(region(), "bucket", "");
    let mut f = AcceptAll::new();
    let parts = dir.partitions_filter(&mut f, vec![object("x/y", 7)]).unwrap();
    assert_eq!(parts.len(), 1);
}

#[test]
fn file_is_its_own_partition_and_page() {
    let file = S3File::new(region(), "bucket", "key.parquet");
    assert_eq!(file.bucket, "bucket");
    let file = S3File::new_with(region(), "bucket", "key.parquet", AwsCredentials::Anonymous);
    let partitions = file.partitions().unwrap();
    assert_eq!(partitions.len(), 1);
    let pages = partitions.into_iter().next().unwrap().pages(99).unwrap();
    assert_eq!(pages.len(), 1);
    assert_eq!(pages[0].len(), 99);
    assert_eq!(pages[0].key, b"key.parquet".to_vec());
}

#[test]
fn partition_exposes_one_page_of_its_length() {
    let partition = S3Partition {
        region: region(),
        bucket: "bucket".to_string(),
        key: b"a/d.parquet".to_vec(),
        len: 4,
        credentials: AwsCredentials::Environment,
    };
    let pages = partition.pages().unwrap();
    assert_eq!(pages.len(), 1);
    assert_eq!(pages[0].len(), 4);
}

#[test]
fn read_inside_object_returns_requested_window() {
    let object: Vec<u8> = (0u8..15).collect();
    let got = read_bytes(&object, 10, 10);
    assert_eq!(got.len(), 5);
    assert_eq!(got, vec![10, 11, 12, 13, 14]);
}

#[test]
fn sequential_reads_concatenate_to_the_object() {
    let object: Vec<u8> = (0u8..15).collect();
    let mut all = Vec::new();
    all.extend(read_bytes(&object, 0, 6));
    all.extend(read_bytes(&object, 6, 6));
    all.extend(read_bytes(&object, 12, 6));
    assert_eq!(all, object);
    // a read past the end is empty
    assert_eq!(read_bytes(&object, 15, 1), Vec::<u8>::new());
    assert_eq!(read_bytes(&object, 20, 1), Vec::<u8>::new());
}

#[test]
fn read_succeeds_after_transient_server_errors() {
    // three 503 responses, then the bytes: the read succeeds on the
    // fourth request
    let page = S3Page::new(
        region(),
        "bucket".to_string(),
        b"key".to_vec(),
        AwsCredentials::Environment,
        15,
    );
    let mut op = page.read(10, 10);
    let mut requests = 0u32;
    let expected: Vec<u8> = vec![10, 11, 12, 13, 14];
    let mut failures = 3;
    let result: Vec<u8> = loop {
        if op.done() {
            break op.into_bytes();
        }
        let (start, end) = op.next_range();
        assert_eq!((start, end), (10, 14));
        requests += 1;
        let event = if failures > 0 {
            failures -= 1;
            TransportEvent::Status(503, io_error("service unavailable"))
        } else {
            TransportEvent::Data(expected.clone())
        };
        match op.on_event(event) {
            ReadStep::Continue => {},
            ReadStep::Failed(e) => panic!("read failed: {:?}", e),
        }
    };
    assert_eq!(requests, 4);
    assert_eq!(result, expected);
}

#[test]
fn short_answers_fill_the_tail() {
    let page = S3Page::new(
        region(),
        "bucket".to_string(),
        b"key".to_vec(),
        AwsCredentials::Environment,
        8,
    );
    let mut op = page.read(0, 8);
    assert_eq!(op.next_range(), (0, 7));
    assert!(matches!(op.on_event(TransportEvent::Data(vec![0, 1, 2])), ReadStep::Continue));
    // the next request covers only the unfilled tail
    assert_eq!(op.next_range(), (3, 7));
    assert!(matches!(
        op.on_event(TransportEvent::Data(vec![3, 4, 5, 6, 7])),
        ReadStep::Continue
    ));
    assert!(op.done());
    assert_eq!(op.into_bytes(), vec![0, 1, 2, 3, 4, 5, 6, 7]);
}

#[test]
fn dispatch_failures_are_retried_ten_times() {
    let mut op = ReadOp::new(4, 0, 4);
    for _ in 0..10 {
        let step = op.on_event(TransportEvent::DispatchFailure(io_error("down")));
        assert!(matches!(step, ReadStep::Continue));
    }
    let step = op.on_event(TransportEvent::DispatchFailure(io_error("down")));
    match step {
        ReadStep::Failed(AwsError::TransportTransient(e)) => {
            assert_eq!(e, io_error("down"));
        },
        _ => panic!("the eleventh failure must surface"),
    }
}

#[test]
fn client_errors_surface_at_once() {
    let mut op = ReadOp::new(4, 0, 4);
    let step = op.on_event(TransportEvent::Status(404, io_error("no such key")));
    match step {
        ReadStep::Failed(AwsError::TransportFatal(e)) => {
            assert_eq!(e, io_error("no such key"));
        },
        _ => panic!("a client error is not retryable"),
    }
}

#[test]
fn write_is_unsupported() {
    let page = S3Page::new(
        region(),
        "bucket".to_string(),
        b"key".to_vec(),
        AwsCredentials::Environment,
        1,
    );
    assert!(matches!(page.write(0, vec![0]), Err(AwsError::Unsupported)));
}

#[test]
fn edge_keys_split_into_empty_components() {
    // a key equal to the prefix strips to the empty name, and a key
    // ending in the separator has an empty leaf; both walk cleanly
    let dir = S3Directory::new(region(), "bucket", "data/");
    let objects = vec![object("data/", 1), object("data/a/", 2)];
    let parts = dir.partitions(objects).unwrap();
    let keys: Vec<&[u8]> = parts.iter().map(|p| p.key.as_slice()).collect();
    assert_eq!(keys, vec![b"data/".as_slice(), b"data/a/".as_slice()]);
}

#[test]
fn zero_length_reads_finish_at_once() {
    let object: Vec<u8> = vec![1, 2, 3];
    assert_eq!(read_bytes(&object, 1, 0), Vec::<u8>::new());
    let op = ReadOp::new(3, 1, 0);
    assert!(op.done());
    assert_eq!(op.into_bytes(), Vec::<u8>::new());
}

#[test]
fn a_probe_retries_transient_failures_then_answers() {
    let mut probe = ProbeOp::new();
    let mut requests = 0u32;
    let length = loop {
        requests += 1;
        let event = if requests <= 2 {
            ProbeEvent::Status(503, io_error("service unavailable"))
        } else {
            ProbeEvent::Length(42)
        };
        match probe.on_event(event) {
            ProbeStep::Continue => {},
            ProbeStep::Done(n) => break n,
            ProbeStep::Failed(e) => panic!("probe failed: {:?}", e),
        }
    };
    assert_eq!(requests, 3);
    assert_eq!(length, 42);
}

#[test]
fn a_probe_gives_up_after_the_retry_limit() {
    let mut probe = ProbeOp::new();
    for _ in 0..10 {
        assert!(matches!(
            probe.on_event(ProbeEvent::DispatchFailure(io_error("down"))),
            ProbeStep::Continue
        ));
    }
    match probe.on_event(ProbeEvent::DispatchFailure(io_error("down"))) {
        ProbeStep::Failed(AwsError::TransportTransient(e)) => {
            assert_eq!(e, io_error("down"));
        },
        _ => panic!("the eleventh failure must surface"),
    }
}

#[test]
fn a_probe_surfaces_client_errors_at_once() {
    let mut probe = ProbeOp::new();
    match probe.on_event(ProbeEvent::Status(403, io_error("forbidden"))) {
        ProbeStep::Failed(AwsError::TransportFatal(e)) => {
            assert_eq!(e, io_error("forbidden"));
        },
        _ => panic!("a client error is not retryable"),
    }
}
