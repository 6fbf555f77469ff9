use dqcsim::configuration::{EnvMod, Seed};

#[test]
fn env_mod_from_str() {
    assert_eq!(EnvMod::from_str("a=b").unwrap(), EnvMod::set("a", "b"),);
    assert_eq!(EnvMod::from_str("a=b=c").unwrap(), EnvMod::set("a", "b=c"),);
    assert_eq!(EnvMod::from_str("FOO=").unwrap(), EnvMod::set("FOO", ""),);
    assert_eq!(EnvMod::from_str("bar").unwrap(), EnvMod::set("bar", ""),);
    assert_eq!(EnvMod::from_str("~baz").unwrap(), EnvMod::remove("baz"),);
}

#[test]
fn env_mod_to_str() {
    assert_eq!(EnvMod::set("a", "b").to_string(), "a=b",);
    assert_eq!(EnvMod::remove("a").to_string(), "~a",);
}

#[test]
fn env_mod_roundtrip() {
    for m in [EnvMod::set("K", "v=w"), EnvMod::remove("x=y"), EnvMod::set("", "")] {
        assert_eq!(EnvMod::from_str(&m.to_string()).unwrap(), m);
    }
}

#[test]
fn seed_from_str() {
    let s: Seed = "1234".into();
    assert_eq!(s.value, 1234);
    let s: Seed = "+7".into();
    assert_eq!(s.value, 7);
    let a: Seed = "hello".into();
    let b: Seed = "hello".into();
    assert_eq!(a, b);
    let c: Seed = "18446744073709551616".into();
    assert_ne!(c.value, 0);
    let v: u64 = Seed { value: 99 }.into();
    assert_eq!(v, 99);
    assert_eq!(Seed { value: 42 }.to_string(), "42");
    let d = Seed::default();
    let back: Seed = d.to_string().as_str().into();
    assert_eq!(back, d);
}

#[test]
fn seed_from_text_is_default_hash() {
    use_default_hasher_check("hello");
    use_default_hasher_check("");
}

fn use_default_hasher_check(text: &str) {
    let mut hasher = std::collections::hash_map::DefaultHasher::new();
    std::hash::Hash::hash(text, &mut hasher);
    let expected = std::hash::Hasher::finish(&hasher);
    let s: Seed = text.into();
    assert_eq!(s.value, expected);
}
