use amadeus::types::{
    Date, DateWithoutTimezone, Decimal, Enum, IpAddr, Json, Time, Timezone, Url, Webpage,
};
use amadeus::types::AmadeusOrd;
use amadeus::value::{Group, Value, ValueHasher, ValueRequired};
use core::cmp::Ordering;

fn words_of_required(v: &ValueRequired) -> Vec<u64> {
    let mut h = ValueHasher::new();
    v.hash(&mut h);
    h.parts
}

fn words_of_value(v: &Value) -> Vec<u64> {
    let mut h = ValueHasher::new();
    v.hash(&mut h);
    h.parts
}

#[test]
fn required_round_trips_through_value() {
    let samples = vec![
        ValueRequired::Bool(true),
        ValueRequired::U8(7),
        ValueRequired::I64(-3),
        ValueRequired::F64(0x3ff0_0000_0000_0000),
        ValueRequired::String("hello".to_string()),
        ValueRequired::ByteArray(vec![1, 2, 3]),
        ValueRequired::List(vec![Value::U8(1), Value::Bool(false)]),
        ValueRequired::Group(Group {
            fields: vec![("x".to_string(), Value::I32(-1))],
        }),
    ];
    for v in samples {
        let expected = v.value_eq(&v);
        assert!(expected);
        let lifted: Value = Value::from(v);
        let back: Option<ValueRequired> = Option::<ValueRequired>::from(lifted);
        assert!(back.is_some());
    }
}

#[test]
fn value_round_trips_unless_empty_option() {
    // a plain arm comes back unchanged
    let v = Value::String("key".to_string());
    let round = Option::<ValueRequired>::from(v).map(Value::from);
    match round {
        Some(Value::String(s)) => assert_eq!(s, "key"),
        _ => panic!("round trip changed the arm"),
    }
    // the empty option arm unwraps to nothing
    let v = Value::Option(None);
    let round = Option::<ValueRequired>::from(v).map(Value::from);
    assert!(round.is_none());
}

#[test]
fn equal_values_hash_alike() {
    let a = ValueRequired::String("abc".to_string());
    let b = ValueRequired::String("abc".to_string());
    assert!(a.value_eq(&b));
    assert_eq!(words_of_required(&a), words_of_required(&b));

    let ga = ValueRequired::Group(Group {
        fields: vec![("f".to_string(), Value::U64(9))],
    });
    let gb = ValueRequired::Group(Group {
        fields: vec![("f".to_string(), Value::U64(9))],
    });
    assert!(ga.value_eq(&gb));
    assert_eq!(words_of_required(&ga), words_of_required(&gb));
}

#[test]
fn float_arms_hash_their_discriminator_alone() {
    // two different numbers of one float width hash alike
    let one = ValueRequired::F32(0x3f80_0000);
    let two = ValueRequired::F32(0x4000_0000);
    assert!(!one.value_eq(&two));
    assert_eq!(words_of_required(&one), words_of_required(&two));
    // plus and minus zero are equal and hash alike
    let pz = ValueRequired::F32(0x0000_0000);
    let nz = ValueRequired::F32(0x8000_0000);
    assert!(pz.value_eq(&nz));
    assert_eq!(words_of_required(&pz), words_of_required(&nz));
}

#[test]
fn shared_discriminators_collide_on_purpose() {
    // an enum string and a URL of the same text hash alike: one
    // intentional collision class
    let e = ValueRequired::Enum(Enum { name: "x".to_string() });
    let u = ValueRequired::Url(Url { text: "x".to_string() });
    assert!(!e.value_eq(&u));
    assert_eq!(words_of_required(&e), words_of_required(&u));
}

#[test]
fn option_arm_hashes_presence() {
    let some = Value::Option(Some(ValueRequired::U8(1)));
    let none = Value::Option(None);
    assert_ne!(words_of_value(&some), words_of_value(&none));
}

#[test]
fn same_arm_values_are_ordered() {
    let a = ValueRequired::I32(-5);
    let b = ValueRequired::I32(9);
    assert_eq!(a.partial_cmp(&b), Some(Ordering::Less));
    assert_eq!(b.partial_cmp(&a), Some(Ordering::Greater));
    assert_eq!(a.partial_cmp(&a), Some(Ordering::Equal));

    let s = ValueRequired::String("ab".to_string());
    let t = ValueRequired::String("b".to_string());
    assert_eq!(s.partial_cmp(&t), Some(Ordering::Less));

    let d1 = ValueRequired::Date(Date { days: 1, timezone: Timezone { offset_seconds: 0 } });
    let d2 = ValueRequired::Date(Date { days: 2, timezone: Timezone { offset_seconds: 0 } });
    assert_eq!(d1.partial_cmp(&d2), Some(Ordering::Less));
}

#[test]
fn no_order_across_arms() {
    let a = ValueRequired::Bool(true);
    let b = ValueRequired::U8(1);
    assert_eq!(a.partial_cmp(&b), None);
    let c = ValueRequired::Time(Time { micros: 0, timezone: Timezone { offset_seconds: 0 } });
    let d = ValueRequired::TimeWithoutTimezone(amadeus::types::TimeWithoutTimezone { micros: 0 });
    assert_eq!(c.partial_cmp(&d), None);
}

#[test]
fn unordered_payloads_have_no_order() {
    // a NaN has no order, even against itself
    let nan = ValueRequired::F32(0x7fc0_0000);
    assert_eq!(nan.partial_cmp(&nan), None);
    // key-value mappings are never ordered
    let m1 = ValueRequired::Mapping(vec![(Value::U8(1), Value::U8(2))]);
    let m2 = ValueRequired::Mapping(vec![(Value::U8(1), Value::U8(2))]);
    assert_eq!(m1.partial_cmp(&m2), None);
    // decimals of different scale are not compared
    let da = ValueRequired::Decimal(Decimal { unscaled: 10, scale: 1 });
    let db = ValueRequired::Decimal(Decimal { unscaled: 1, scale: 0 });
    assert_eq!(da.partial_cmp(&db), None);
    let dc = ValueRequired::Decimal(Decimal { unscaled: 2, scale: 1 });
    assert_eq!(da.partial_cmp(&dc), Some(Ordering::Greater));
}

#[test]
fn lists_order_lexicographically() {
    let a = ValueRequired::List(vec![Value::U8(1), Value::U8(2)]);
    let b = ValueRequired::List(vec![Value::U8(1), Value::U8(3)]);
    let prefix = ValueRequired::List(vec![Value::U8(1)]);
    assert_eq!(a.partial_cmp(&b), Some(Ordering::Less));
    assert_eq!(prefix.partial_cmp(&a), Some(Ordering::Less));
    // elements of different arms make lists unordered
    let mixed = ValueRequired::List(vec![Value::Bool(true)]);
    assert_eq!(a.partial_cmp(&mixed), None);
}

#[test]
fn amadeus_order_on_addresses_and_pages() {
    let v4 = IpAddr::V4(u32::from_be_bytes([127, 0, 0, 1]));
    let v6 = IpAddr::V6(1);
    assert_eq!(v4.amadeus_cmp(&v6), Ordering::Less);
    let lo = IpAddr::V4(u32::from_be_bytes([10, 0, 0, 1]));
    assert_eq!(lo.amadeus_cmp(&v4), Ordering::Less);

    let ua = Url { text: "http://a".to_string() };
    let ub = Url { text: "http://b".to_string() };
    assert_eq!(ua.amadeus_cmp(&ub), Ordering::Less);

    let pa = Webpage { ip: v4, url: ua, contents: vec![1] };
    let pb = Webpage { ip: v4, url: ub, contents: vec![0] };
    assert_eq!(pa.amadeus_cmp(&pb), Ordering::Less);
    let copy = pa.to_owned();
    assert_eq!(pa.amadeus_cmp(&copy), Ordering::Equal);
}

#[test]
fn json_and_temporal_payloads_compare_by_value() {
    let ja = ValueRequired::Json(Json { text: "{}".to_string() });
    let jb = ValueRequired::Json(Json { text: "{}".to_string() });
    assert!(ja.value_eq(&jb));
    let d1 = ValueRequired::DateWithoutTimezone(DateWithoutTimezone { days: -1 });
    let d2 = ValueRequired::DateWithoutTimezone(DateWithoutTimezone { days: 0 });
    assert_eq!(d1.partial_cmp(&d2), Some(Ordering::Less));
}
