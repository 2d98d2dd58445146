use ron_config::{Config, ConfigPath, ConfigValue, DefaultConfigMerger, DefaultPathResolver};

#[test]
fn test_config_path() {
    let p = ConfigPath::from("a.b.c");
    assert_eq!(p.segments, vec!["a", "b", "c"]);
    assert_eq!(p.to_string(), "a.b.c");
}

#[test]
fn test_config_path_from_string() {
    let p = ConfigPath::from("a.b.c".to_string());
    assert_eq!(p.segments, vec!["a", "b", "c"]);
    assert_eq!(p.to_string(), "a.b.c");
}

#[test]
fn test_config_path_from_str() {
    let p = ConfigPath::from("a.b.c");
    assert_eq!(p.segments, vec!["a", "b", "c"]);
    assert_eq!(p.to_string(), "a.b.c");
}

#[test]
fn test_config_path_from_vec() {
    let p = ConfigPath::from(vec!["a", "b", "c"]);
    assert_eq!(p.segments, vec!["a", "b", "c"]);
    assert_eq!(p.to_string(), "a.b.c");
}

#[test]
fn test_config_path_from_vec_of_str() {
    let p = ConfigPath::from(vec!["a", "b", "c"]);
    assert_eq!(p.segments, vec!["a", "b", "c"]);
}

#[test]
fn test_config_string() {
    let config = Config::try_from_string("(foo: \"bar\")").expect("value");
    let t: String = config.try_get("foo".into()).unwrap();
    assert_eq!(t, "bar");
}

#[test]
fn test_config_number() {
    let config = Config::try_from_string("(foo: 1)").expect("value");
    let t: i32 = config.try_get("foo".into()).unwrap();
    assert_eq!(t, 1);
}

#[test]
fn test_config_bool() {
    let config = Config::try_from_string("(foo: true)").expect("value");
    let t: bool = config.try_get("foo".into()).unwrap();
    assert_eq!(t, true);
}

#[test]
fn test_config_option_some() {
    let config = Config::try_from_string("(foo: Some(1))").expect("value");
    let t: Option<i32> = config.try_get("foo".into()).unwrap();
    assert_eq!(t, Some(1));
}

#[test]
fn test_config_option_none() {
    let config = Config::try_from_string("(foo: None)").expect("value");
    let t: Option<i32> = config.try_get("foo".into()).unwrap();
    assert_eq!(t, None);
}

#[test]
fn test_config_vec() {
    let config = Config::from_string("(foo: [1, 2, 3])");
    let t: Vec<i32> = config.try_get("foo".into()).unwrap();
    assert_eq!(t, vec![1, 2, 3]);
}

#[test]
fn test_config_merge() {
    let mut config = Config::from_string("(foo: 1)");
    let config2 = Config::from_string("(bar: 2)");
    config.merge(config2);
    let t: i32 = config.try_get("foo".into()).unwrap();
    assert_eq!(t, 1);
    let t: i32 = config.try_get("bar".into()).unwrap();
    assert_eq!(t, 2);
}

#[derive(Debug, PartialEq)]
struct Bar {
    t: i32,
}

impl<'de> serde::Deserialize<'de> for Bar {
    fn deserialize<D: serde::Deserializer<'de>>(d: D) -> Result<Bar, D::Error> {
        struct BarVisitor;
        impl<'de> serde::de::Visitor<'de> for BarVisitor {
            type Value = Bar;

            fn expecting(&self, f: &mut std::fmt::Formatter) -> std::fmt::Result {
                f.write_str("a struct with an integer field t")
            }

            fn visit_map<A: serde::de::MapAccess<'de>>(self, mut m: A) -> Result<Bar, A::Error> {
                let mut t: Option<i32> = None;
                while let Some(k) = m.next_key::<String>()? {
                    if k == "t" {
                        t = Some(m.next_value::<i32>()?);
                    } else {
                        let _ = m.next_value::<serde::de::IgnoredAny>()?;
                    }
                }
                match t {
                    Some(t) => Ok(Bar { t }),
                    None => Err(serde::de::Error::missing_field("t")),
                }
            }
        }
        d.deserialize_map(BarVisitor)
    }
}

#[test]
fn test_config_merge_complex() {
    let mut config = Config::from_string("(foo: bar(t: 1))");
    let config2 = Config::from_string("(bar: 2)");
    let config3 = Config::from_string("(baz: 3)");
    config.merge(config2);
    config.merge(config3);
    let t: Bar = config.try_get("foo".into()).unwrap();
    assert_eq!(t, Bar { t: 1 });
    let t: i32 = config.try_get("foo.t".into()).unwrap();
    assert_eq!(t, 1);
    let t: i32 = config.try_get("bar".into()).unwrap();
    assert_eq!(t, 2);
    let t: i32 = config.try_get("baz".into()).unwrap();
    assert_eq!(t, 3);
}

#[test]
fn merge_override_order_three_sources() {
    // A key of a single source keeps that source's value; a key several
    // sources define takes the last source's value; map-shaped values of
    // several sources deep-merge, later scalars winning per sub-key.
    let mut config = Config::from_string("(only_a: 1, shared: 10, nest: (x: 1, y: 2))");
    let config_b = Config::from_string("(only_b: 2, shared: 20, nest: (y: 3, z: 4))");
    let config_c = Config::from_string("(only_c: 3, shared: 30)");
    config.merge(config_b);
    config.merge(config_c);
    assert_eq!(config.try_get::<i32>("only_a".into()), Some(1));
    assert_eq!(config.try_get::<i32>("only_b".into()), Some(2));
    assert_eq!(config.try_get::<i32>("only_c".into()), Some(3));
    assert_eq!(config.try_get::<i32>("shared".into()), Some(30));
    assert_eq!(config.try_get::<i32>("nest.x".into()), Some(1));
    assert_eq!(config.try_get::<i32>("nest.y".into()), Some(3));
    assert_eq!(config.try_get::<i32>("nest.z".into()), Some(4));
}

#[test]
fn merge_right_bias_on_shape_conflict() {
    // Merging a map-shaped entry with a scalar replaces it wholesale.
    let mut config = Config::from_string("(a: (x: 1))");
    let over = Config::from_string("(a: 5)");
    config.merge(over);
    assert_eq!(config.try_get::<i32>("a".into()), Some(5));
    // The old sub-key is gone: mid-path descent into the scalar fails.
    assert_eq!(config.try_get::<i32>("a.x".into()), None);
}

#[test]
fn merge_keeps_unrelated_keys() {
    let mut config = Config::from_string("(foo: 1)");
    config.merge(Config::from_string("(bar: 2)"));
    assert_eq!(config.try_get::<i32>("foo".into()), Some(1));
    assert_eq!(config.try_get::<i32>("bar".into()), Some(2));
}

#[test]
fn merge_of_identical_copy_is_identity() {
    let base = ConfigValue::Table(vec![
        (ConfigValue::Text("foo".to_string()), ConfigValue::Int(1)),
        (
            ConfigValue::Text("nest".to_string()),
            ConfigValue::Table(vec![(ConfigValue::Text("t".to_string()), ConfigValue::Int(2))]),
        ),
    ]);
    let copy = base.deep_clone();
    let merged = DefaultConfigMerger::merge(base.deep_clone(), copy);
    assert_eq!(merged, base);
}

#[test]
fn resolution_depth() {
    let config = Config::from_string("(foo: (t: 1))");
    assert_eq!(config.try_get::<i32>("foo.t".into()), Some(1));
    assert_eq!(config.try_get::<Bar>("foo".into()), Some(Bar { t: 1 }));
    // The root has no such key, so the permissive fallback hands back the
    // root map, which does not decode as an integer.
    assert_eq!(config.try_get::<i32>("missing".into()), None);
}

#[test]
fn unmatched_segment_falls_back_to_subtree_reached() {
    // The documented mid-path edge case: a segment that matches no key
    // stops the descent and yields the sub-tree reached so far.
    let config = Config::from_string("(foo: (t: 1))");
    let reached = config.resolve("foo.missing".into()).expect("fallback");
    let expected = ConfigValue::Table(vec![(
        ConfigValue::Text("t".to_string()),
        ConfigValue::Int(1),
    )]);
    assert_eq!(*reached, expected);
}

#[test]
fn non_map_root_resolves_to_nothing() {
    let config = Config::from_value(ConfigValue::Int(7));
    assert!(config.resolve("anything".into()).is_none());
    assert_eq!(config.try_get::<i32>("anything".into()), None);
}

#[test]
fn root_path_decodes_whole_config() {
    let config = Config::from_string("(t: 1)");
    // Splitting "." gives two empty segments; an empty segment matches no
    // key, so resolution falls through to the root.
    assert_eq!(config.try_get::<Bar>(".".into()), Some(Bar { t: 1 }));
}

#[test]
fn unparseable_text_yields_nothing() {
    assert!(Config::try_from_string("(foo: ").is_none());
    assert!(Config::try_from_string("(foo: 1)").is_some());
}

#[test]
fn path_round_trip_with_empty_and_plain_segments() {
    let p = ConfigPath::from("");
    assert_eq!(p.segments, vec![""]);
    assert_eq!(p.to_string(), "");
    let p = ConfigPath::from(".");
    assert_eq!(p.segments, vec!["", ""]);
    assert_eq!(p.to_string(), ".");
    let p = ConfigPath::from("a..b");
    assert_eq!(p.segments, vec!["a", "", "b"]);
    assert_eq!(p.to_string(), "a..b");
}

#[test]
fn path_from_segments_is_equivalent() {
    let from_text = ConfigPath::from("a.b.c");
    let from_vec = ConfigPath::from(vec!["a".to_string(), "b".to_string(), "c".to_string()]);
    assert_eq!(from_text.segments, from_vec.segments);
    assert_eq!(from_vec.to_string(), "a.b.c");
}

#[test]
fn resolver_find_walks_plain_values() {
    let tree = ConfigValue::Table(vec![(
        ConfigValue::Text("k".to_string()),
        ConfigValue::List(vec![ConfigValue::Int(1), ConfigValue::Int(2)]),
    )]);
    let found = DefaultPathResolver::find(&tree, "k".into()).expect("found");
    assert_eq!(
        *found,
        ConfigValue::List(vec![ConfigValue::Int(1), ConfigValue::Int(2)])
    );
}
