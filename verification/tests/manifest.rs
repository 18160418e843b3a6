use nbe::bytes::{be16, be24, be32, be64, le32};
use nbe::json::{parse, Json, Real};
use nbe::manifest::{
    default_loudness, default_max_memory, default_mix_duration, default_one, default_timezone,
    default_true, default_true_peak, FrameRate,
};
use nbe::preflight::{PreflightReport, ResourceReport};
use nbe::strmap::StrMap;
use nbe::text::{before, contains, decimal_string, parse_unsigned, signed_string};

fn report() -> PreflightReport {
    PreflightReport {
        manifest_valid: true,
        air_ready: false,
        errors: vec![],
        warnings: vec![],
        assets: vec![],
        loops: vec![],
        scenes: vec![],
        plugins: vec![],
        contact_sheet: None,
        resources: ResourceReport {
            vram_demand_mib: 412,
            audio_demand_mib: 22,
            declared_house_rate: Some(30),
        },
    }
}

#[test]
fn a_package_is_ready_without_findings() {
    let mut r = report();
    r.finalize();
    assert!(r.air_ready);
    r.push_warning("loud".to_string());
    r.finalize();
    assert!(!r.air_ready);
    let mut r = report();
    r.push_error("missing".to_string());
    r.finalize();
    assert!(!r.air_ready);
    assert_eq!(r.errors, vec!["missing"]);
}

#[test]
fn rates_read_back_as_numbers() {
    for n in [30u32, 60] {
        assert_eq!(u32::from(FrameRate::from(n)), n);
    }
    assert_eq!(u32::from(FrameRate::from(25)), 30);
}

#[test]
fn json_is_read_into_the_tree() {
    let j = parse(r#"{"a":1,"b":-2,"c":0.5,"d":"x","e":[true,null]}"#).unwrap();
    assert_eq!(j.u64_at("a"), Some(1));
    assert_eq!(j.get("b").unwrap().as_i64(), Some(-2));
    assert!(matches!(j.get("c"), Some(Json::Fraction(Real { bits })) if f64::from_bits(*bits) == 0.5));
    assert_eq!(j.str_at("d"), Some("x"));
    let items = j.get("e").unwrap().as_array().unwrap();
    assert_eq!(items[0].as_bool(), Some(true));
    assert!(matches!(items[1], Json::Null));
    assert!(parse("{").is_err());
    assert!(j.get("nowhere").is_none());
}

#[test]
fn names_keep_the_value_given_last() {
    let mut m = StrMap::new();
    m.insert("a", 1);
    m.insert("b", 2);
    m.insert("a", 3);
    assert_eq!((m.len(), m.get("a"), m.get("c")), (2, Some(&3), None));
    assert_eq!((m.key_at(0), *m.value_at(1)), ("a", 2));
}

#[test]
fn numbers_are_written_and_read() {
    assert_eq!(decimal_string(0), "0");
    assert_eq!(decimal_string(u64::MAX), "18446744073709551615");
    assert_eq!(signed_string(i32::MIN), "-2147483648");
    let chars: Vec<char> = "65535".chars().collect();
    assert_eq!(parse_unsigned(&chars, 65535), Some(65535));
    assert_eq!(parse_unsigned(&chars, 65534), None);
    assert!(contains("abcde", "cd") && !contains("abcde", "ce"));
    assert!(before("a", "b") && before("a", "aa") && !before("b", "a") && !before("a", "a"));
}

#[test]
fn numbers_have_their_bytes() {
    let mut b = Vec::new();
    be16(&mut b, 0x0102);
    be24(&mut b, 0x030405);
    be32(&mut b, 0x06070809);
    be64(&mut b, 0x0a0b0c0d0e0f1011);
    le32(&mut b, 0x12345678);
    assert_eq!(
        b,
        vec![1, 2, 3, 4, 5, 6, 7, 8, 9, 10, 11, 12, 13, 14, 15, 16, 17, 0x78, 0x56, 0x34, 0x12]
    );
}

#[test]
fn names_stay_where_they_first_came() {
    let mut m: StrMap<u8> = StrMap::new();
    m.insert("b", 1);
    m.insert("a", 2);
    m.insert("b", 3);
    assert_eq!((m.len(), m.key_at(0), *m.value_at(0)), (2, "b", 3));
    assert_eq!((m.key_at(1), *m.value_at(1)), ("a", 2));
}

#[test]
fn what_a_package_leaves_out_has_a_value() {
    assert_eq!(f64::from_bits(default_loudness().bits), -16.0);
    assert_eq!(f64::from_bits(default_true_peak().bits), -1.5);
    assert_eq!(f64::from_bits(default_one().bits), 1.0);
    assert_eq!((default_mix_duration(), default_max_memory()), (15, 64));
    assert_eq!((default_true(), default_timezone().as_str()), (true, "local"));
}
