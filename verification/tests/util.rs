use dqcsim::util::{friendly_enum_parse, friendly_enumerate, friendly_name, log_2, num_bits};

#[test]
fn log2_check() {
    assert_eq!(log_2(1), Some(0));
    assert_eq!(log_2(2), Some(1));
    assert_eq!(log_2(3), None);
    assert_eq!(log_2(4), Some(2));
    assert_eq!(log_2(5), None);
    assert_eq!(log_2(6), None);
    assert_eq!(log_2(7), None);
    assert_eq!(log_2(8), Some(3));
}

#[test]
fn log2_edges() {
    assert_eq!(log_2(0), None);
    assert_eq!(log_2(1 << 63), Some(63));
    assert_eq!(log_2(usize::MAX), None);
}

#[test]
fn util_friendlyname() {
    assert_eq!(friendly_name("String"), "string");
    assert_eq!(friendly_name("EnumVariants"), "enum variants");
    assert_eq!(friendly_name("TestABC"), "test ABC");
    assert_eq!(friendly_name("TestABCtestTest"), "test ABCtest test");
    assert_eq!(friendly_name("TestABC_TestTest"), "test ABC test test");
}

#[test]
fn util_friendlyenumerate() {
    assert_eq!(friendly_enumerate(&["a", "b", "c"], Some("or")), "a, b, or c");
    assert_eq!(friendly_enumerate(&["x", "y"], Some("and")), "x and y");
    assert_eq!(friendly_enumerate(&["x", "y"], None), "x, y");
    assert_eq!(friendly_enumerate(&["foo", "bar", "baz"], None), "foo, bar, baz");
    assert_eq!(friendly_enumerate(&["one"], Some("and")), "one");
    assert_eq!(friendly_enumerate(&["one"], None), "one");
    let empty: Vec<&str> = vec![];
    assert_eq!(friendly_enumerate(&empty, None), "<nothing>");
}

const TEST_ENUM: [&str; 3] = ["Foo", "Bar", "Baz"];

#[test]
fn friendlyenumparse() {
    assert_eq!(friendly_enum_parse("bar", "TestEnum", &TEST_ENUM).unwrap(), 1);
    assert_eq!(friendly_enum_parse("BAR", "TestEnum", &TEST_ENUM).unwrap(), 1);
    assert_eq!(friendly_enum_parse("Bar", "TestEnum", &TEST_ENUM).unwrap(), 1);
    assert_eq!(friendly_enum_parse("baz", "TestEnum", &TEST_ENUM).unwrap(), 2);
    assert_eq!(
        friendly_enum_parse("BA", "TestEnum", &TEST_ENUM).unwrap_err().to_string(),
        "Invalid argument: ba is an ambiguous test enum, it could mean either bar or baz"
    );
    assert_eq!(
        friendly_enum_parse("bla", "TestEnum", &TEST_ENUM).unwrap_err().to_string(),
        "Invalid argument: bla is not a valid test enum, valid values are foo, bar, or baz"
    );
    assert_eq!(
        friendly_enum_parse("", "TestEnum", &TEST_ENUM).unwrap_err().to_string(),
        "Invalid argument:  is an ambiguous test enum, it could mean either foo, bar, or baz"
    );
}

#[allow(dead_code)]
enum ThreeWay {
    Foo,
    Bar,
    Baz,
}

#[test]
fn num_bits_check() {
    assert_eq!(num_bits::<u8>(), 8);
    assert_eq!(num_bits::<u16>(), 16);
    assert_eq!(num_bits::<u32>(), 32);
    assert_eq!(num_bits::<u64>(), 64);
    assert_eq!(num_bits::<u128>(), 128);
    assert_eq!(num_bits::<ThreeWay>(), 8);
    assert_eq!(num_bits::<Option<ThreeWay>>(), 8);
    assert_eq!(num_bits::<Option<Option<ThreeWay>>>(), 8);
}

#[test]
fn enum_parse_lists_unicode_lowercase() {
    let names = ["Ärger", "Ökonom"];
    assert_eq!(
        friendly_enum_parse("x", "Mood", &names).unwrap_err().to_string(),
        "Invalid argument: x is not a valid mood, valid values are ärger or ökonom"
    );
    assert_eq!(friendly_enum_parse("Ö", "Mood", &names).unwrap(), 1);
}
