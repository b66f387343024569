//! The bookkeeping around the engine: numerals, documents, storages,
//! nodes, and the configuration.

use nodes::num::parse_u64;
use nodes::num::parse_i64;
use nodes::num::u64_to_string;
use nodes::toml::Value;
use nodes::toml::toml_find;
use nodes::toml::toml_set;
use nodes::parse::toml_new;
use nodes::parse::toml_get;
use nodes::storage::Storage;
use nodes::storage::LoadStorageError;
use nodes::node::Node;
use nodes::config::Config;
use nodes::config::ParseStorage;
use nodes::config::ParseStorageConfig;
use nodes::config::ConfigError;

fn s(x: &str) -> Value {
    Value::String(x.to_string())
}

fn table(pairs: Vec<(&str, Value)>) -> Value {
    Value::Table(pairs.into_iter().map(|(k, v)| (k.to_string(), v)).collect())
}

#[test]
fn u64_parsing() {
    assert_eq!(parse_u64("0"), Some(0));
    assert_eq!(parse_u64("42"), Some(42));
    assert_eq!(parse_u64("+42"), Some(42));
    assert_eq!(parse_u64("18446744073709551615"), Some(u64::MAX));
    assert_eq!(parse_u64("18446744073709551616"), None);
    assert_eq!(parse_u64("99999999999999999999999"), None);
    assert_eq!(parse_u64(""), None);
    assert_eq!(parse_u64("+"), None);
    assert_eq!(parse_u64("-1"), None);
    assert_eq!(parse_u64("4 2"), None);
    assert_eq!(parse_u64("007"), Some(7));
}

#[test]
fn i64_parsing() {
    assert_eq!(parse_i64("-9223372036854775808"), Some(i64::MIN));
    assert_eq!(parse_i64("-9223372036854775809"), None);
    assert_eq!(parse_i64("9223372036854775807"), Some(i64::MAX));
    assert_eq!(parse_i64("9223372036854775808"), None);
    assert_eq!(parse_i64("-0"), Some(0));
    assert_eq!(parse_i64("x"), None);
}

#[test]
fn u64_rendering() {
    assert_eq!(u64_to_string(0), "0");
    assert_eq!(u64_to_string(7), "7");
    assert_eq!(u64_to_string(1234), "1234");
    assert_eq!(u64_to_string(u64::MAX), "18446744073709551615");
}

#[test]
fn document_lookup() {
    let doc = table(vec![
        ("top", s("x")),
        ("t", table(vec![("inner", Value::Integer(5))])),
    ]);
    assert!(matches!(toml_find(&doc, "top"), Some(Value::String(v)) if v == "x"));
    assert!(matches!(toml_find(&doc, "t.inner"), Some(Value::Integer(5))));
    assert!(toml_find(&doc, "t.missing").is_none());
    assert!(toml_find(&doc, "top.deeper").is_none());
    assert!(toml_find(&doc, "").is_none());
    assert!(matches!(toml_get(&doc, "t.inner"), Some(Value::Integer(5))));
}

#[test]
fn document_set_creates_and_replaces() {
    let mut doc = toml_new();
    assert!(toml_set(&mut doc, "a.b", s("one")));
    assert!(matches!(toml_find(&doc, "a.b"), Some(Value::String(v)) if v == "one"));
    // replacing keeps the key
    assert!(toml_set(&mut doc, "a.b", s("two")));
    assert!(matches!(toml_find(&doc, "a.b"), Some(Value::String(v)) if v == "two"));
    // a scalar in the way refuses the set and leaves the document alone
    assert!(toml_set(&mut doc, "top", Value::Integer(9)));
    assert!(!toml_set(&mut doc, "top.below", s("nope")));
    assert!(matches!(toml_find(&doc, "top"), Some(Value::Integer(9))));
    assert!(toml_find(&doc, "top.below").is_none());
}

#[test]
fn parse_value_wrapper() {
    let mut v = nodes::parse::Value::new();
    assert!(v.set("k", s("val")));
    assert!(matches!(v.get("k"), Some(Value::String(x)) if x == "val"));
    assert!(v.get("missing").is_none());
}

fn state_doc(last_id: i64, last_edited: i64, last_viewed: i64, last: i64) -> Value {
    table(vec![
        ("last_id", Value::Integer(last_id)),
        ("last_edited", Value::Integer(last_edited)),
        ("last_viewed", Value::Integer(last_viewed)),
        ("last", Value::Integer(last)),
    ])
}

#[test]
fn storage_load_and_counters() {
    let st = state_doc(10, 8, 9, 9);
    let mut storage = Storage::load("main", "/base".to_string(), &st).unwrap();
    assert_eq!(storage.name(), "main");
    assert_eq!(storage.path().as_str(), "/base");
    assert_eq!(storage.nodes_path(), "/base/nodes");
    assert_eq!(storage.next_id(), 11);
    storage.use_id();
    assert_eq!(storage.next_id(), 12);
    storage.edited(4);
    storage.viewed(5);
    assert_eq!(storage.parse("le"), Some(4));
    assert_eq!(storage.parse("lv"), Some(5));
    assert_eq!(storage.parse("l"), Some(5));
    assert_eq!(storage.parse("lc"), Some(11));
    assert_eq!(storage.parse("17"), Some(17));
    assert_eq!(storage.parse("x17"), None);
}

#[test]
fn storage_load_rejects_bad_state() {
    let missing = table(vec![("last_id", Value::Integer(1))]);
    assert!(matches!(
        Storage::load("m", "/b".to_string(), &missing),
        Err(LoadStorageError::Parse)
    ));
    let negative = state_doc(-1, 0, 0, 0);
    assert!(matches!(
        Storage::load("m", "/b".to_string(), &negative),
        Err(LoadStorageError::Parse)
    ));
    let mistyped = table(vec![
        ("last_id", s("1")),
        ("last_edited", Value::Integer(0)),
        ("last_viewed", Value::Integer(0)),
        ("last", Value::Integer(0)),
    ]);
    assert!(matches!(
        Storage::load("m", "/b".to_string(), &mistyped),
        Err(LoadStorageError::Parse)
    ));
}

#[test]
fn node_paths_and_archive() {
    let st = state_doc(10, 0, 0, 0);
    let storage = Storage::load("main", "/base".to_string(), &st).unwrap();
    let mut node = Node::new_archived(&storage, 5, false);
    assert_eq!(node.id(), 5);
    assert!(!node.archived());
    assert_eq!(node.node_path(), "/base/nodes/5");
    assert_eq!(node.meta_path(), "/base/meta/5");
    let (prev, now) = node.toggle_archive();
    assert!(node.archived());
    assert_eq!(prev, "/base/nodes/5");
    assert_eq!(now, "/base/nodes/archive/5");
    assert_eq!(node.node_path(), "/base/nodes/archive/5");
    // archiving an archived node owes no real move
    let (p2, n2) = node.archive(true);
    assert_eq!(p2, n2);
}

#[test]
fn node_new_resolves_archive_flag_from_existence() {
    let st = state_doc(10, 0, 0, 0);
    let storage = Storage::load("main", "/base".to_string(), &st).unwrap();
    assert!(!Node::new(&storage, 1, true, false).archived());
    assert!(!Node::new(&storage, 1, true, true).archived());
    assert!(Node::new(&storage, 1, false, true).archived());
    assert!(!Node::new(&storage, 1, false, false).archived());
    let next = storage.next_node();
    assert_eq!(next.id(), 11);
    assert!(!next.archived());
}

fn psc(
    default: Option<&str>,
    lsp: Option<Vec<&str>>,
    storages: Option<Vec<(&str, &str)>>,
) -> ParseStorageConfig {
    ParseStorageConfig {
        default: default.map(|d| d.to_string()),
        local_search_paths: lsp.map(|v| v.into_iter().map(|x| x.to_string()).collect()),
        storages: storages.map(|v| {
            v.into_iter()
                .map(|(n, p)| ParseStorage { name: n.to_string(), path: p.to_string() })
                .collect()
        }),
    }
}

#[test]
fn storage_config_checks() {
    assert!(matches!(
        Config::parse_storage_config(&psc(None, None, None)),
        Err(ConfigError::NoStorages)
    ));
    assert!(matches!(
        Config::parse_storage_config(&psc(None, None, Some(vec![]))),
        Err(ConfigError::NoStorages)
    ));
    assert!(matches!(
        Config::parse_storage_config(&psc(None, None, Some(vec![("a", "/p"), ("b", "/p")]))),
        Err(ConfigError::RedundantStorages)
    ));
    assert!(matches!(
        Config::parse_storage_config(&psc(None, None, Some(vec![("a", "/p"), ("a", "/q")]))),
        Err(ConfigError::RedundantStorages)
    ));
    assert!(matches!(
        Config::parse_storage_config(&psc(Some("zz"), None, Some(vec![("a", "/p")]))),
        Err(ConfigError::InvalidDefaultStorage)
    ));
    // without an explicit default the first entry is it
    let _cfg = Config::parse_storage_config(&psc(None, None, Some(vec![("a", "/p"), ("b", "/q")])))
        .unwrap();
}

#[test]
fn config_from_file_value() {
    let file = table(vec![(
        "storage",
        table(vec![(
            "storages",
            Value::Array(vec![
                table(vec![("name", s("work")), ("path", s("/w"))]),
                table(vec![("name", s("home")), ("path", s("/h"))]),
            ]),
        ), ("default", s("home"))]),
    )]);
    let config = Config::load_default(Some(file), "/home/u").unwrap();
    assert_eq!(config.default_storage_name(), "home");
    assert_eq!(config.storage_path("work"), Some(&"/w".to_string()));
    assert_eq!(config.storage_path("zzz"), None);
    assert_eq!(config.local_search_paths(), &vec![".nodes".to_string()]);
    assert!(config.value().is_some());
}

#[test]
fn config_rejections() {
    let no_storage = table(vec![("other", s("x"))]);
    assert!(matches!(
        Config::load_default(Some(no_storage), "/h"),
        Err(ConfigError::NoStorage)
    ));
    let bad_storage = table(vec![("storage", s("not a table"))]);
    assert!(matches!(
        Config::load_default(Some(bad_storage), "/h"),
        Err(ConfigError::InvalidStorage)
    ));
    let mistyped = table(vec![("storage", table(vec![("storages", s("not an array"))]))]);
    assert!(matches!(
        Config::load_default(Some(mistyped), "/h"),
        Err(ConfigError::InvalidStorage)
    ));
}

#[test]
fn default_config_when_no_file() {
    let config = Config::load_default(None, "/home/u").unwrap();
    assert_eq!(config.default_storage_name(), "default");
    assert_eq!(
        config.storage_path("default"),
        Some(&"/home/u/.local/share/nodes-dummy".to_string())
    );
    assert!(config.value().is_none());
    assert_eq!(Config::config_folder("/home/u"), "/home/u/.config/nodes");
    assert_eq!(Config::config_path("/home/u"), "/home/u/.config/nodes/config");
}

#[test]
fn float_values_compare_numerically() {
    assert!(nodes::pattern::equals(&Value::Float("2.50".to_string()), "2.5"));
    assert!(nodes::pattern::equals(&Value::Float("0.5".to_string()), ".5"));
    assert!(nodes::pattern::equals(&Value::Float("100".to_string()), "1e2"));
    assert!(nodes::pattern::equals(&Value::Float("-0.0".to_string()), "0"));
    assert!(!nodes::pattern::equals(&Value::Float("2.5".to_string()), "2.05"));
    assert!(!nodes::pattern::equals(&Value::Float("abc".to_string()), "abc"));
}

#[test]
fn tree_nodes_compose() {
    let mut root: nodes::tree::Node<u32> = nodes::tree::Node::new(1);
    let i = root.add_child(2);
    assert_eq!(i, 0);
    let j = root.add_child(3);
    assert_eq!(j, 1);
    assert_eq!(root.children.len(), 2);
    assert_eq!(root.children[0].data, 2);
    assert_eq!(root.data, 1);
}
