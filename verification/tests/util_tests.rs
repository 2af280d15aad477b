use amadeus::path::PathBuf;
use amadeus::schema::{downcast, Downcast, ParquetError, Root, ValueSchema};
use amadeus::s3::AwsError;
use amadeus::util::{transpose, IoError, ResultExpand, ResultExpandIter};

#[test]
fn transpose_swaps_the_nesting() {
    assert_eq!(transpose::<u8, u8>(Ok(Some(1))), Some(Ok(1)));
    assert_eq!(transpose::<u8, u8>(Err(Some(2))), Some(Err(2)));
    assert_eq!(transpose::<u8, u8>(Ok(None)), None);
    assert_eq!(transpose::<u8, u8>(Err(None)), None);
}

#[test]
fn expanding_a_collection_yields_each_item() {
    let mut iter = ResultExpand::<u8, &'static str>(Ok(vec![1, 2, 3])).into_iter();
    assert_eq!(iter.next(), Some(Ok(1)));
    assert_eq!(iter.next(), Some(Ok(2)));
    assert_eq!(iter.next(), Some(Ok(3)));
    assert_eq!(iter.next(), None);
    assert_eq!(iter.next(), None);
}

#[test]
fn expanding_an_error_yields_it_once() {
    let mut iter: ResultExpandIter<u8, &'static str> =
        ResultExpand(Err("boom")).into_iter();
    assert_eq!(iter.next(), Some(Err("boom")));
    assert_eq!(iter.next(), None);
    assert_eq!(iter.next(), None);
}

#[test]
fn io_errors_are_equal_by_message() {
    let a = IoError::from_message("disk full".to_string());
    let b = IoError::from_message("disk full".to_string());
    let c = IoError::from_message("other".to_string());
    assert_eq!(a, b);
    assert_ne!(a, c);
    let shared = a.clone();
    assert_eq!(a, shared);
}

#[test]
fn paths_track_components_and_file_name() {
    let mut p = PathBuf::new();
    assert_eq!(p.depth(), 0);
    assert!(p.last().is_none());
    p.push(b"a".to_vec());
    p.push(b"b".to_vec());
    assert_eq!(p.depth(), 2);
    assert_eq!(p.last().unwrap(), &b"b".to_vec());
    p.set_file_name(Some(b"f.parquet".to_vec()));
    // the file name does not count towards the depth
    assert_eq!(p.depth(), 2);
    assert_eq!(p.file_name().as_ref().unwrap(), &b"f.parquet".to_vec());
    p.set_file_name(None);
    assert!(p.file_name().is_none());
    assert_eq!(p.pop().unwrap(), b"b".to_vec());
    assert_eq!(p.depth(), 1);
}

#[test]
fn schemas_downcast_to_their_own_shape() {
    let schema = ValueSchema::Group(vec![("f".to_string(), ValueSchema::U8)]);
    let named = ("row".to_string(), schema);
    let (name, fields): (String, Vec<(String, ValueSchema)>) = downcast(named).unwrap();
    assert_eq!(name, "row");
    assert_eq!(fields.len(), 1);
    assert_eq!(fields[0].0, "f");
    assert!(matches!(fields[0].1, ValueSchema::U8));
}

#[test]
fn mismatched_downcasts_fail() {
    let named = ("row".to_string(), ValueSchema::Bool);
    let r: Result<(String, Vec<(String, ValueSchema)>), ParquetError> = downcast(named);
    assert!(matches!(r, Err(ParquetError::Mismatch)));
    // the identity downcast always succeeds
    let (_, same): (String, ValueSchema) =
        downcast(("row".to_string(), ValueSchema::Bool)).unwrap();
    assert!(matches!(same, ValueSchema::Bool));
    let root = Root(ValueSchema::I64);
    assert!(matches!(root.0, ValueSchema::I64));
}

#[test]
fn io_errors_wrap_into_source_errors() {
    let e = IoError::from_message("broken pipe".to_string());
    match AwsError::from(e) {
        AwsError::Io(inner) => assert_eq!(inner, IoError::from_message("broken pipe".to_string())),
        _ => panic!("an underlying I/O failure wraps as Io"),
    }
}
