use dqcsim::cbor::canonizalize;
use dqcsim::types::arb_cmd::ArbCmd;
use dqcsim::types::arb_data::ArbData;

fn test_from_str_good(input: &str, exp_json: &str, exp_args: Vec<&[u8]>) {
    let actual = ArbData::from_str(input).unwrap();
    let exp_args: Vec<Vec<u8>> = exp_args.into_iter().map(|x| x.to_vec()).collect();
    assert_eq!(actual.get_args(), &exp_args[..]);
    assert_eq!(actual.get_json().unwrap(), exp_json);
}

fn test_from_str_fail(input: &str, msg: &str) {
    assert_eq!(ArbData::from_str(input).unwrap_err().to_string(), msg);
}

#[test]
fn arb_data_from_str() {
    test_from_str_good("{}", "{}", vec![]);
    test_from_str_good("{},x,y,z", "{}", vec![b"x", b"y", b"z"]);
    test_from_str_good(
        "{\"difficult\\u0020\\n\\t}\\\\\":33},x,y,z",
        "{\"difficult \\n\\t}\\\\\":33}",
        vec![b"x", b"y", b"z"],
    );
    test_from_str_fail(
        "{}}",
        "Invalid argument: expected comma after JSON object in ArbData, received }",
    );
    test_from_str_fail(
        "{{}",
        "Invalid argument: unterminated JSON object while parsing ArbData",
    );
    test_from_str_good("{},x_,y,z", "{}", vec![b"x,y", b"z"]);
    test_from_str_good("{},_202_2f_,__,y,z", "{}", vec![b" 2/,_", b"y", b"z"]);
    test_from_str_fail(
        "{},x,y,z_",
        "Invalid argument: unterminated binary string escape sequence while parsing ArbData",
    );
    test_from_str_fail(
        "{},x,y,z_",
        "Invalid argument: unterminated binary string escape sequence while parsing ArbData",
    );
}

fn test_to_str(json: &str, args: Vec<&[u8]>, exp_output: &str) {
    let args: Vec<Vec<u8>> = args.into_iter().map(|x| x.to_vec()).collect();
    let data = ArbData::from_json(json, args).unwrap();
    let string = data.to_string().unwrap();
    assert_eq!(string, exp_output);
    assert_eq!(ArbData::from_str(&string).unwrap(), data);
}

#[test]
fn arb_data_to_str() {
    test_to_str("{}", vec![], "{}");
    test_to_str("{\"test\":42}", vec![b"x", b"y", b"z"], "{\"test\":42},x,y,z");
    test_to_str(
        "{}",
        vec![b"Hello, world!", b"\x01\x23\x45\x67\x89\xAB\xCD\xEF"],
        "{},Hello_, world!,_01_23_45_67_89_AB_CD_EF",
    );
}

#[test]
fn eq() {
    let args: Vec<Vec<u8>> = vec![b"x", b"y", b"z"]
        .into_iter()
        .map(|x| x.to_vec())
        .collect();
    let data = ArbData::from_json("{\"test\":42}", args.clone()).unwrap();
    let data_ = ArbData::from_json("{\"test\":42}", args).unwrap();
    assert_eq!(data, data_);
}

#[test]
fn arb_data_errors() {
    test_from_str_fail("", "Invalid argument: expected JSON argument while parsing ArbData");
    test_from_str_fail("x{}", "Invalid argument: expected JSON argument while parsing ArbData");
    test_from_str_fail(
        "{\"a",
        "Invalid argument: unterminated JSON string while parsing ArbData",
    );
    test_from_str_fail(
        "{\"\\u12",
        "Invalid argument: unterminated JSON string while parsing ArbData",
    );
    test_from_str_fail(
        "{},_x1",
        "Invalid argument: invalid binary string escape sequence while parsing ArbData",
    );
    test_from_str_fail(
        "{},_1x",
        "Invalid argument: invalid binary string escape sequence while parsing ArbData",
    );
    let e = ArbData::from_str("{1:2}").unwrap_err().to_string();
    assert!(e.starts_with("Invalid argument: error parsing JSON component of ArbData, {1:2}: "));
    assert!(ArbData::from_json("[", vec![]).is_err());
}

#[test]
fn arb_data_args_only() {
    let d = ArbData::from_str_args_only("a,b_2c,__").unwrap();
    assert_eq!(d.get_args(), &[b"a".to_vec(), b"b,".to_vec(), b"_".to_vec()][..]);
    assert_eq!(d.get_cbor(), &[0xA0][..]);
    let d = ArbData::from_str_args_only("").unwrap();
    assert_eq!(d.get_args(), &[Vec::<u8>::new()][..]);
    let d = ArbData::from_str_args_only("\u{e9}").unwrap();
    assert_eq!(d.get_args(), &[vec![0xC3, 0xA9]][..]);
}

#[test]
fn arb_data_roundtrip_args() {
    let args: Vec<Vec<u8>> = vec![
        b"plain".to_vec(),
        b"with,comma_and_underscore".to_vec(),
        vec![0, 1, 2, 255],
        vec![],
    ];
    let data = ArbData::from_args(args.clone());
    let text = data.to_string().unwrap();
    let back = ArbData::from_str(&text).unwrap();
    assert_eq!(back.get_args(), &args[..]);
    assert_eq!(back, data);
}

#[test]
fn arb_data_setters() {
    let mut d = ArbData::default();
    assert_eq!(d.get_json().unwrap(), "{}");
    d.set_json("{\"b\":1,\"a\":2}").unwrap();
    assert_eq!(d.get_json().unwrap(), "{\"a\":2,\"b\":1}");
    assert!(d.set_json("{").is_err());
    assert_eq!(d.get_json().unwrap(), "{\"a\":2,\"b\":1}");
    d.set_cbor(&[0xBF, 0xFF]).unwrap();
    assert_eq!(d.get_cbor(), &[0xA0][..]);
    assert!(d.set_cbor(&[0xFF]).is_err());
    d.get_args_mut().push(b"x".to_vec());
    assert_eq!(d.get_args(), &[b"x".to_vec()][..]);
    let mut e = ArbData::default();
    e.copy_from(&d);
    assert_eq!(e, d);
    e.clear_args();
    assert!(e.get_args().is_empty());
    e.set_args(vec![b"y".to_vec()]);
    e.set_json("{\"q\":[1,2]}").unwrap();
    e.clear_cbor();
    assert_eq!(e.get_cbor(), &[0xA0][..]);
    assert_eq!(e.get_args(), &[b"y".to_vec()][..]);
    e.clear();
    assert_eq!(e, ArbData::default());
    let f = ArbData::from_cbor(&[0xA1, 0x61, 0x61, 0x01], vec![]).unwrap();
    assert_eq!(f.get_json().unwrap(), "{\"a\":1}");
    assert!(ArbData::from_cbor(&[0xA1, 0x61], vec![]).is_err());
}

fn cbor_cmp_golden(a: &[u8], b: &[u8]) {
    let a: serde_cbor::value::Value = serde_cbor::from_slice(a).unwrap();
    let b: serde_cbor::value::Value = serde_cbor::from_slice(b).unwrap();
    assert_eq!(a, b);
}

#[test]
fn test() {
    let data: Vec<Vec<u8>> = vec![
        vec![0x00],
        vec![0x01],
        vec![0x0A],
        vec![0x17],
        vec![0x18, 0x18],
        vec![0x18, 0x19],
        vec![0x18, 0x64],
        vec![0x18, 0xFF],
        vec![0x19, 0x01, 0x00],
        vec![0x19, 0x03, 0xE8],
        vec![0x19, 0xFF, 0xFF],
        vec![0x1A, 0x00, 0x01, 0x00, 0x00],
        vec![0x1A, 0x00, 0x0F, 0x42, 0x40],
        vec![0x1A, 0xFF, 0xFF, 0xFF, 0xFF],
        vec![0x1B, 0x00, 0x00, 0x00, 0x01, 0xFF, 0xFF, 0xFF, 0xFF],
        vec![0x1B, 0x00, 0x00, 0x00, 0xE8, 0xD4, 0xA5, 0x10, 0x00],
        vec![0x1B, 0x00, 0x1F, 0xFF, 0xFF, 0xFF, 0xFF, 0xFF, 0xFF],
        vec![0x1B, 0x7F, 0xFF, 0xFF, 0xFF, 0xFF, 0xFF, 0xFF, 0xFF],
        vec![0x1B, 0xFF, 0xFF, 0xFF, 0xFF, 0xFF, 0xFF, 0xFF, 0xFF],
        vec![0x20],
        vec![0x29],
        vec![0x38, 0x63],
        vec![0x39, 0x03, 0xE7],
        vec![0x3A, 0x7F, 0xFF, 0xFF, 0xFF],
        vec![0x3B, 0x00, 0x1F, 0xFF, 0xFF, 0xFF, 0xFF, 0xFF, 0xFF],
        vec![0x3B, 0x7F, 0xFF, 0xFF, 0xFF, 0xFF, 0xFF, 0xFF, 0xFF],
        vec![0x3B, 0xFF, 0xFF, 0xFF, 0xFF, 0xFF, 0xFF, 0xFF, 0xFF],
        vec![0x40],
        vec![0x44, 0x01, 0x02, 0x03, 0x04],
        vec![0x45, 0x00, 0x01, 0x02, 0x03, 0x04],
        vec![0x45, 0x01, 0x02, 0x03, 0x04, 0x05],
        vec![
            0x58, 0x19, 0x00, 0x01, 0x02, 0x03, 0x04, 0x05, 0x06, 0x07, 0x08, 0x09, 0x0A, 0x0B,
            0x0C, 0x0D, 0x0E, 0x0F, 0x10, 0x11, 0x12, 0x13, 0x14, 0x15, 0x16, 0x17, 0x18,
        ],
        vec![0x60],
        vec![0x61, 0x61],
        vec![0x62, 0x22, 0x5C],
        vec![0x62, 0xC3, 0xBC],
        vec![0x63, 0xE6, 0xB0, 0xB4],
        vec![0x64, 0x49, 0x45, 0x54, 0x46],
        vec![0x64, 0xF0, 0x90, 0x85, 0x91],
        vec![0x69, 0x73, 0x74, 0x72, 0x65, 0x61, 0x6D, 0x69, 0x6E, 0x67],
        vec![0x80],
        vec![0x82, 0x01, 0x02],
        vec![0x82, 0x61, 0x61, 0xA1, 0x61, 0x62, 0x61, 0x63],
        vec![0x82, 0x61, 0x61, 0xBF, 0x61, 0x62, 0x61, 0x63, 0xFF],
        vec![0x83, 0x01, 0x02, 0x03],
        vec![0x83, 0x01, 0x82, 0x02, 0x03, 0x82, 0x04, 0x05],
        vec![0x83, 0x01, 0x82, 0x02, 0x03, 0x9F, 0x04, 0x05, 0xFF],
        vec![0x83, 0x01, 0x9F, 0x02, 0x03, 0xFF, 0x82, 0x04, 0x05],
        vec![
            0x98, 0x19, 0x01, 0x02, 0x03, 0x04, 0x05, 0x06, 0x07, 0x08, 0x09, 0x0A, 0x0B, 0x0C,
            0x0D, 0x0E, 0x0F, 0x10, 0x11, 0x12, 0x13, 0x14, 0x15, 0x16, 0x17, 0x18, 0x18, 0x18,
            0x19,
        ],
        vec![
            0x9F, 0x01, 0x02, 0x03, 0x04, 0x05, 0x06, 0x07, 0x08, 0x09, 0x0A, 0x0B, 0x0C, 0x0D,
            0x0E, 0x0F, 0x10, 0x11, 0x12, 0x13, 0x14, 0x15, 0x16, 0x17, 0x18, 0x18, 0x18, 0x19,
            0xFF,
        ],
        vec![0x9F, 0x01, 0x82, 0x02, 0x03, 0x82, 0x04, 0x05, 0xFF],
        vec![0x9F, 0x01, 0x82, 0x02, 0x03, 0x9F, 0x04, 0x05, 0xFF, 0xFF],
        vec![0x9F, 0xFF],
        vec![0xA0],
        vec![0xA1, 0x01, 0x02],
        vec![0xA1, 0xA1, 0x61, 0x62, 0x01, 0xA1, 0x61, 0x62, 0x01],
        vec![0xA2, 0x01, 0x02, 0x03, 0x04],
        vec![0xA2, 0x61, 0x31, 0x02, 0x61, 0x33, 0x04],
        vec![0xA2, 0x61, 0x61, 0x01, 0x61, 0x62, 0x82, 0x02, 0x03],
        vec![
            0xA5, 0x61, 0x61, 0x61, 0x41, 0x61, 0x62, 0x61, 0x42, 0x61, 0x63, 0x61, 0x43, 0x61,
            0x64, 0x61, 0x44, 0x61, 0x65, 0x61, 0x45,
        ],
        vec![
            0xB8, 0x19, 0x00, 0x61, 0x30, 0x01, 0x61, 0x31, 0x02, 0x61, 0x32, 0x03, 0x61, 0x33,
            0x04, 0x61, 0x34, 0x05, 0x61, 0x35, 0x06, 0x61, 0x36, 0x07, 0x61, 0x37, 0x08, 0x61,
            0x38, 0x09, 0x61, 0x39, 0x0A, 0x62, 0x31, 0x30, 0x0B, 0x62, 0x31, 0x31, 0x0C, 0x62,
            0x31, 0x32, 0x0D, 0x62, 0x31, 0x33, 0x0E, 0x62, 0x31, 0x34, 0x0F, 0x62, 0x31, 0x35,
            0x10, 0x62, 0x31, 0x36, 0x11, 0x62, 0x31, 0x37, 0x12, 0x62, 0x31, 0x38, 0x13, 0x62,
            0x31, 0x39, 0x14, 0x62, 0x32, 0x30, 0x15, 0x62, 0x32, 0x31, 0x16, 0x62, 0x32, 0x32,
            0x17, 0x62, 0x32, 0x33, 0x18, 0x18, 0x62, 0x32, 0x34,
        ],
        vec![0xBF, 0x61, 0x61, 0x01, 0x61, 0x62, 0x9F, 0x02, 0x03, 0xFF, 0xFF],
        vec![0xBF, 0x63, 0x46, 0x75, 0x6E, 0xF5, 0x63, 0x41, 0x6D, 0x74, 0x21, 0xFF],
        vec![0xBF, 0xFF],
        vec![
            0xC0, 0x74, 0x32, 0x30, 0x31, 0x33, 0x2D, 0x30, 0x33, 0x2D, 0x32, 0x31, 0x54, 0x32,
            0x30, 0x3A, 0x30, 0x34, 0x3A, 0x30, 0x30, 0x5A,
        ],
        vec![0xC1, 0x00],
        vec![0xC1, 0x1A, 0x51, 0x4B, 0x67, 0xB0],
        vec![0xC1, 0xFB, 0x41, 0xD4, 0x52, 0xD9, 0xEC, 0x20, 0x00, 0x00],
        vec![0xC2, 0x41, 0x00],
        vec![0xC2, 0x49, 0x01, 0x00, 0x00, 0x00, 0x00, 0x00, 0x00, 0x00, 0x00],
        vec![0xC3, 0x49, 0x01, 0x00, 0x00, 0x00, 0x00, 0x00, 0x00, 0x00, 0x00],
        vec![0xC3, 0x49, 0x1C, 0x00, 0x00, 0x00, 0x00, 0x00, 0x00, 0x00, 0x00],
        vec![0xC4, 0x82, 0x20, 0x01],
        vec![0xC4, 0x82, 0x20, 0x18, 0x65],
        vec![0xC4, 0x82, 0x20, 0x19, 0x03, 0xE9],
        vec![0xC4, 0x82, 0x20, 0x20],
        vec![0xC4, 0x82, 0x20, 0xC2, 0x49, 0x09, 0xFF, 0xFF, 0xFF, 0xFF, 0xFF, 0xFF, 0xFF, 0xF7],
        vec![0xC5, 0x82, 0x20, 0x03],
        vec![0xD7, 0x44, 0x01, 0x02, 0x03, 0x04],
        vec![0xD8, 0x18, 0x45, 0x64, 0x49, 0x45, 0x54, 0x46],
        vec![
            0xD8, 0x20, 0x76, 0x68, 0x74, 0x74, 0x70, 0x3A, 0x2F, 0x2F, 0x77, 0x77, 0x77, 0x2E,
            0x65, 0x78, 0x61, 0x6D, 0x70, 0x6C, 0x65, 0x2E, 0x63, 0x6F, 0x6D,
        ],
        vec![
            0xD8, 0x20, 0x77, 0x68, 0x74, 0x74, 0x70, 0x3A, 0x2F, 0x2F, 0x77, 0x77, 0x77, 0x2E,
            0x65, 0x78, 0x61, 0x6D, 0x70, 0x6C, 0x65, 0x2E, 0x63, 0x6F, 0x6D, 0x2F,
        ],
        vec![0xD8, 0x23, 0x61, 0x61],
        vec![0xD8, 0x40, 0xD8, 0x40, 0x9F, 0xFF],
        vec![0xD9, 0x01, 0x00, 0x01],
        vec![0xD9, 0xFF, 0xFF, 0x63, 0x66, 0x6F, 0x6F],
        vec![0xF4],
        vec![0xF5],
        vec![0xF6],
        vec![0xF7],
        vec![0xF9, 0x00, 0x00],
        vec![0xF9, 0x00, 0x01],
        vec![0xF9, 0x04, 0x00],
        vec![0xF9, 0x3C, 0x00],
        vec![0xF9, 0x3E, 0x00],
        vec![0xF9, 0x7B, 0xFF],
        vec![0xF9, 0x7C, 0x00],
        vec![0xF9, 0x7E, 0x00],
        vec![0xF9, 0x80, 0x00],
        vec![0xF9, 0xC4, 0x00],
        vec![0xF9, 0xFC, 0x00],
        vec![0xFA, 0x47, 0xC3, 0x50, 0x00],
        vec![0xFA, 0x7F, 0x7F, 0xFF, 0xFF],
        vec![0xFA, 0x7F, 0x80, 0x00, 0x00],
        vec![0xFA, 0x7F, 0xC0, 0x00, 0x00],
        vec![0xFA, 0xFF, 0x80, 0x00, 0x00],
        vec![0xFB, 0x3E, 0x70, 0x00, 0x00, 0x00, 0x00, 0x00, 0x00],
        vec![0xFB, 0x3F, 0x10, 0x00, 0x00, 0x00, 0x00, 0x00, 0x00],
        vec![0xFB, 0x3F, 0xF1, 0x99, 0x99, 0x99, 0x99, 0x99, 0x9A],
        vec![0xFB, 0x3F, 0xF8, 0x00, 0x00, 0x00, 0x00, 0x00, 0x00],
        vec![0xFB, 0x43, 0x40, 0x00, 0x00, 0x00, 0x00, 0x00, 0x00],
        vec![0xFB, 0x47, 0xEF, 0xFF, 0xFF, 0xE0, 0x00, 0x00, 0x00],
        vec![0xFB, 0x7E, 0x37, 0xE4, 0x3C, 0x88, 0x00, 0x75, 0x9C],
        vec![0xFB, 0x7F, 0xEF, 0xFF, 0xFF, 0xFF, 0xFF, 0xFF, 0xFF],
        vec![0xFB, 0x7F, 0xF0, 0x00, 0x00, 0x00, 0x00, 0x00, 0x00],
        vec![0xFB, 0x7F, 0xF8, 0x00, 0x00, 0x00, 0x00, 0x00, 0x00],
        vec![0xFB, 0xC0, 0x10, 0x66, 0x66, 0x66, 0x66, 0x66, 0x66],
        vec![0xFB, 0xC3, 0xE0, 0x00, 0x00, 0x00, 0x00, 0x00, 0x00],
        vec![0xFB, 0xFF, 0xF0, 0x00, 0x00, 0x00, 0x00, 0x00, 0x00],
        vec![0xFB, 0xFF, 0xF0, 0x00, 0x00, 0x00, 0x00, 0x00, 0x00],
    ];
    for cbor in data {
        cbor_cmp_golden(&cbor[..], &canonizalize(&cbor[..]).unwrap());
    }
}

#[test]
fn cbor_canonical_forms() {
    assert_eq!(canonizalize(&[0x18, 0x05]).unwrap(), vec![0x05]);
    assert_eq!(canonizalize(&[0x9F, 0x01, 0xFF]).unwrap(), vec![0x81, 0x01]);
    assert_eq!(
        canonizalize(&[0xA2, 0x61, 0x62, 0x01, 0x61, 0x61, 0x02]).unwrap(),
        vec![0xA2, 0x61, 0x61, 0x02, 0x61, 0x62, 0x01]
    );
    assert_eq!(canonizalize(&[0x5F, 0x41, 0x01, 0x42, 0x02, 0x03, 0xFF]).unwrap(), vec![0x43, 0x01, 0x02, 0x03]);
    let once = canonizalize(&[0xBF, 0x61, 0x62, 0x9F, 0x02, 0xFF, 0x61, 0x61, 0x01, 0xFF]).unwrap();
    assert_eq!(canonizalize(&once).unwrap(), once);
    assert!(canonizalize(&[]).is_err());
    assert!(canonizalize(&[0x01, 0x02]).is_err());
    assert!(canonizalize(&[0x1C]).is_err());
    assert!(canonizalize(&[0xFF]).is_err());
    assert!(canonizalize(&[0x82, 0x01]).is_err());
}

fn test_cmd_from_str_good(input: &str, exp_iface: &str, exp_oper: &str, exp_json: &str, exp_args: Vec<&[u8]>) {
    let exp_args: Vec<Vec<u8>> = exp_args.into_iter().map(|x| x.to_vec()).collect();
    assert_eq!(
        ArbCmd::from_str(input).unwrap(),
        ArbCmd::new(exp_iface, exp_oper, ArbData::from_json(exp_json, exp_args).unwrap())
    );
}

fn test_cmd_from_str_fail(input: &str, msg: &str) {
    assert_eq!(ArbCmd::from_str(input).unwrap_err().to_string(), msg);
}

#[test]
fn arb_cmd_from_str() {
    test_cmd_from_str_good("a.b", "a", "b", "{}", vec![]);
    test_cmd_from_str_good("a.b.x,y,z", "a", "b", "{}", vec![b"x", b"y", b"z"]);
    test_cmd_from_str_good("a.b:{\"answer\":42}", "a", "b", "{\"answer\":42}", vec![]);
    test_cmd_from_str_good(
        "a.b:{\"answer\":42},x,y,z",
        "a",
        "b",
        "{\"answer\":42}",
        vec![b"x", b"y", b"z"],
    );
    test_cmd_from_str_good("a.b.:x,y,z", "a", "b", "{}", vec![b":x", b"y", b"z"]);
    test_cmd_from_str_good(
        "a.b:{\"answer\":42},.x,y,z",
        "a",
        "b",
        "{\"answer\":42}",
        vec![b".x", b"y", b"z"],
    );
    test_cmd_from_str_fail(
        "a",
        "Invalid argument: expected period after interface identifier while parsing ArbCmd",
    );
    test_cmd_from_str_fail(
        "a%.b",
        "Invalid argument: \"a%\" is not a valid identifier; it contains characters outside [a-zA-Z0-9_]",
    );
    test_cmd_from_str_fail(
        "a.b%",
        "Invalid argument: \"b%\" is not a valid identifier; it contains characters outside [a-zA-Z0-9_]",
    );
}

fn test_cmd_to_str(iface: &str, oper: &str, json: &str, args: Vec<&[u8]>, exp_output: &str) {
    let args: Vec<Vec<u8>> = args.into_iter().map(|x| x.to_vec()).collect();
    let cmd = ArbCmd::new(iface, oper, ArbData::from_json(json, args).unwrap());
    let string = cmd.to_string().unwrap();
    assert_eq!(string, exp_output);
    assert_eq!(ArbCmd::from_str(&string).unwrap(), cmd);
}

#[test]
fn arb_cmd_to_str() {
    test_cmd_to_str("a", "b", "{}", vec![], "a.b:{}");
    test_cmd_to_str(
        "a",
        "b",
        "{\"answer\":42}",
        vec![b"x", b"y", b"z"],
        "a.b:{\"answer\":42},x,y,z",
    );
}

#[test]
fn into_arbdata() {
    let cmd = ArbCmd::from_str("a.b").unwrap();
    let data: ArbData = cmd.into();
    assert_eq!(ArbCmd::from_str("a.b").unwrap().data(), &data);
}

#[test]
fn arb_cmd_accessors() {
    let mut cmd = ArbCmd::try_from("iface_1", "Op", ArbData::default()).unwrap();
    assert_eq!(cmd.interface_identifier(), "iface_1");
    assert_eq!(cmd.operation_identifier(), "Op");
    cmd.data_mut().set_args(vec![b"z".to_vec()]);
    assert_eq!(cmd.data().get_args(), &[b"z".to_vec()][..]);
    assert_eq!(
        ArbCmd::try_from("", "b", ArbData::default()).unwrap_err().to_string(),
        "Invalid argument: identifiers must not be empty"
    );
    assert!(ArbCmd::try_from("a", "b c", ArbData::default()).is_err());
    assert!(ArbCmd::from_str("a.").is_err());
}

#[test]
fn canonicalize_rejects_trailing_bytes() {
    for item in [vec![0x05u8], vec![0x18, 0x05], vec![0xA1, 0x61, 0x61, 0x01], vec![0x9F, 0x01, 0xFF]] {
        assert!(canonizalize(&item).is_ok());
        for extra in [0x00u8, 0xFF, 0x18] {
            let mut longer = item.clone();
            longer.push(extra);
            assert!(canonizalize(&longer).is_err());
        }
        let once = canonizalize(&item).unwrap();
        assert_eq!(canonizalize(&once).unwrap(), once);
    }
}
