use nemoscene::configuration::{ConfigurationBase, ConfigurationRegistry};
use nemoscene::http::HttpError;
use nemoscene::value::Value;

#[test]
fn set_then_get_round_trip() {
    let mut base = ConfigurationBase::new("data/u/config/b");
    base.set("k", Value::Integer(5));
    match base.get("k") {
        Some(Value::Integer(v)) => assert_eq!(*v, 5),
        _ => panic!("expected the stored integer"),
    }
    assert_eq!(base.get_i64("k"), Some(5));
    base.set_str("name", "mirror");
    assert_eq!(base.get_str("name").unwrap(), "mirror");
    base.set("flag", Value::Boolean(true));
    assert_eq!(base.get_bool("flag"), Some(true));
    base.set_array("nets", vec![String::from("a"), String::from("b")]);
    assert_eq!(
        base.get_string_array("nets").unwrap(),
        vec![String::from("a"), String::from("b")]
    );
}

#[test]
fn typed_getters_treat_mismatch_as_absence() {
    let mut base = ConfigurationBase::new("data/u/config/b");
    base.set_str("k", "text");
    assert_eq!(base.get_i64("k"), None);
    assert_eq!(base.get_bool("k"), None);
    assert!(base.get_table("k").is_none());
    assert_eq!(base.get_string_array("k"), None);
    assert_eq!(base.get_i64("missing"), None);
    assert_eq!(base.get_str("missing"), None);
}

#[test]
fn string_array_with_foreign_element_reads_as_absent() {
    let mut base = ConfigurationBase::new("data/u/config/b");
    base.set(
        "mixed",
        Value::Array(vec![Value::Text(String::from("a")), Value::Integer(1)]),
    );
    assert_eq!(base.get_string_array("mixed"), None);
}

#[test]
fn tables_are_returned_whole() {
    let mut base = ConfigurationBase::new("data/u/config/b");
    base.set(
        "t",
        Value::Table(vec![(String::from("inner"), Value::Integer(3))]),
    );
    let t = base.get_table("t").unwrap();
    assert_eq!(t.len(), 1);
    assert_eq!(t[0].0, "inner");
    assert!(matches!(t[0].1, Value::Integer(3)));
}

#[test]
fn from_entries_later_key_wins() {
    let base = ConfigurationBase::from_entries(
        "data/u/config/b",
        vec![
            (String::from("k"), Value::Integer(1)),
            (String::from("k"), Value::Integer(2)),
        ],
    );
    assert_eq!(base.get_i64("k"), Some(2));
    assert_eq!(base.property_count(), 1);
    assert_eq!(base.get_path(), "data/u/config/b");
    assert!(!base.is_empty());
}

#[test]
fn properties_iterate_in_key_order() {
    let mut base = ConfigurationBase::new("data/u/config/b");
    base.set("zeta", Value::Integer(1));
    base.set("alpha", Value::Integer(2));
    base.set("mid", Value::Integer(3));
    let mut keys: Vec<String> = Vec::new();
    for i in 0..base.property_count() {
        keys.push(base.property_at(i).0.clone());
    }
    assert_eq!(keys, vec!["alpha", "mid", "zeta"]);
}

#[test]
fn base_path_format() {
    assert_eq!(
        ConfigurationRegistry::base_path("u", "b"),
        "data/u/config/b"
    );
}

#[test]
fn create_existing_base_fails_and_changes_nothing() {
    let mut reg = ConfigurationRegistry::new();
    reg.create_base_of_bundle("u", "b").unwrap();
    assert!(reg.set_value("data/u/config/b", "k", Value::Integer(7)));
    let e = reg.create_base_of_bundle("u", "b").unwrap_err();
    match e {
        HttpError::ServerError(m) => {
            assert_eq!(m, "Base 'data/u/config/b' already exists.")
        }
        _ => panic!("expected the existing-base error"),
    }
    let b = reg.get_base_of_bundle("u", "b").unwrap();
    assert_eq!(b.get_i64("k"), Some(7));
}

#[test]
fn delete_missing_base_fails_without_effect() {
    let mut reg = ConfigurationRegistry::new();
    reg.create_base_of_bundle("u", "other").unwrap();
    let e = reg.delete_base_of_bundle("u", "b").unwrap_err();
    match e {
        HttpError::NotFound(m) => {
            assert_eq!(m, "Base 'data/u/config/b' does not exist.")
        }
        _ => panic!("expected the missing-base error"),
    }
    assert_eq!(reg.base_count(), 1);
    reg.delete_base_of_bundle("u", "other").unwrap();
    assert_eq!(reg.base_count(), 0);
    assert!(reg.get_base_of_bundle("u", "other").is_none());
}

#[test]
fn set_value_requires_an_existing_base() {
    let mut reg = ConfigurationRegistry::new();
    assert!(!reg.set_value("data/u/config/b", "k", Value::Integer(1)));
    reg.create_base_of_bundle("u", "b").unwrap();
    assert!(reg.set_value("data/u/config/b", "k", Value::Integer(1)));
    assert_eq!(
        reg.get_base("data/u/config/b").unwrap().get_i64("k"),
        Some(1)
    );
}

#[test]
fn writes_to_distinct_bases_are_independent() {
    let mut reg = ConfigurationRegistry::new();
    reg.create_base_of_bundle("u", "one").unwrap();
    reg.create_base_of_bundle("u", "two").unwrap();
    assert!(reg.set_value("data/u/config/one", "k", Value::Integer(1)));
    assert!(reg.set_value("data/u/config/two", "k", Value::Integer(2)));
    let one = reg.get_base_of_bundle("u", "one").unwrap();
    let two = reg.get_base_of_bundle("u", "two").unwrap();
    assert_eq!(one.get_i64("k"), Some(1));
    assert_eq!(two.get_i64("k"), Some(2));
    assert_eq!(one.property_count(), 1);
    assert_eq!(two.property_count(), 1);
}

#[test]
fn repeated_writes_to_one_key_converge_to_the_last() {
    let mut reg = ConfigurationRegistry::new();
    reg.create_base_of_bundle("u", "b").unwrap();
    assert!(reg.set_value("data/u/config/b", "k", Value::Integer(1)));
    assert!(reg.set_value("data/u/config/b", "k", Value::Integer(2)));
    assert!(reg.set_value("data/u/config/b", "k", Value::Integer(3)));
    let b = reg.get_base_of_bundle("u", "b").unwrap();
    assert_eq!(b.get_i64("k"), Some(3));
    assert_eq!(b.property_count(), 1);
}

#[test]
fn load_base_replaces_whole_documents() {
    let mut reg = ConfigurationRegistry::new();
    reg.load_base(
        "data/u/config/b",
        vec![(String::from("old"), Value::Integer(1))],
    );
    reg.load_base(
        "data/u/config/b",
        vec![(String::from("new"), Value::Integer(2))],
    );
    let b = reg.get_base("data/u/config/b").unwrap();
    assert_eq!(b.get_i64("old"), None);
    assert_eq!(b.get_i64("new"), Some(2));
    assert_eq!(reg.base_count(), 1);
}

#[test]
fn unload_base_removes_or_reports() {
    let mut reg = ConfigurationRegistry::new();
    reg.load_base("data/u/config/b", Vec::new());
    reg.unload_base("data/u/config/b").unwrap();
    assert!(reg.get_base("data/u/config/b").is_none());
    let e = reg.unload_base("data/u/config/b").unwrap_err();
    match e {
        HttpError::NotFound(m) => assert_eq!(m, "Configuration base not found"),
        _ => panic!("expected the not-found error"),
    }
}

#[test]
fn prefix_listing_in_path_order() {
    let mut reg = ConfigurationRegistry::new();
    reg.load_base("data/b/config/two", Vec::new());
    reg.load_base("data/a/config/one", Vec::new());
    reg.load_base("data/a/config/zzz", Vec::new());
    let all = reg.get_bases_of("data/a/");
    let paths: Vec<&str> = all.iter().map(|b| b.get_path()).collect();
    assert_eq!(paths, vec!["data/a/config/one", "data/a/config/zzz"]);
}

#[test]
fn bundle_listing_excludes_the_manifest() {
    let mut reg = ConfigurationRegistry::new();
    reg.load_base("data/wifi/config/bundle", Vec::new());
    reg.load_base("data/wifi/config/home", Vec::new());
    reg.load_base("data/other/config/x", Vec::new());
    let list = reg.get_bases_of_bundle("wifi");
    let paths: Vec<&str> = list.iter().map(|b| b.get_path()).collect();
    assert_eq!(paths, vec!["data/wifi/config/home"]);
}

#[test]
fn load_all_loads_in_order() {
    let mut reg = ConfigurationRegistry::new();
    reg.load_all(vec![
        (
            String::from("data/u/config/b"),
            vec![(String::from("k"), Value::Integer(1))],
        ),
        (
            String::from("data/u/config/b"),
            vec![(String::from("k"), Value::Integer(2))],
        ),
        (String::from("data/u/config/c"), Vec::new()),
    ]);
    assert_eq!(reg.base_count(), 2);
    assert_eq!(
        reg.get_base("data/u/config/b").unwrap().get_i64("k"),
        Some(2)
    );
}

#[test]
fn load_scan_skips_unparseable_files() {
    let mut reg = ConfigurationRegistry::new();
    let ok = reg.load_scan(vec![
        (String::from("data/u/config/a"), Some(Vec::new())),
        (String::from("data/u/config/broken"), None),
        (String::from("data/u/config/z"), Some(Vec::new())),
    ]);
    assert!(!ok);
    assert!(reg.get_base("data/u/config/a").is_some());
    assert!(reg.get_base("data/u/config/broken").is_none());
    assert!(reg.get_base("data/u/config/z").is_some());

    let clean = reg.load_scan(vec![(String::from("data/u/config/b"), Some(Vec::new()))]);
    assert!(clean);
}

#[test]
fn init_empties_the_registry() {
    let mut reg = ConfigurationRegistry::new();
    reg.load_base("data/u/config/b", Vec::new());
    reg.init();
    assert_eq!(reg.base_count(), 0);
}
