use martin::arguments::Arguments;
use martin::config::{copy_unrecognized, finalize_config, Section};
use martin::environment::Environment;
use martin::error::Error;
use martin::ids::{decimal_string, IdResolver};
use martin::number::parse_i32;
use martin::order::lex_less;
use martin::pg::is_postgresql_string;
use martin::sources::{merge_resolved, require_sources, Sources};
use martin::text::{same_text, starts_with, starts_with_any};

fn pairs(items: &[(&str, u32)]) -> Vec<(String, u32)> {
    items.iter().map(|(k, v)| (k.to_string(), *v)).collect()
}

#[test]
fn claim_takes_matches_in_order_and_check_lists_the_rest() {
    let mut args = Arguments::new(vec![
        "a://1".to_string(),
        "x://2".to_string(),
        "b://3".to_string(),
        "y://4".to_string(),
        "a://5".to_string(),
    ]);
    let taken = args.claim(&["a://", "b://"]);
    assert_eq!(taken, vec!["a://1", "b://3", "a://5"]);
    assert_eq!(args.claim(&["a://"]), Vec::<String>::new());
    assert_eq!(
        args.check(),
        Err(Error::UnrecognizableConnections(vec!["x://2".to_string(), "y://4".to_string()]))
    );
    assert_eq!(args.claim(&["x://", "y://"]), vec!["x://2", "y://4"]);
    assert_eq!(args.check(), Ok(()));
}

#[test]
fn empty_pool_checks_clean() {
    let args = Arguments::new(vec![]);
    assert_eq!(args.check(), Ok(()));
}

#[test]
fn postgres_string_schemes() {
    assert!(is_postgresql_string("postgresql://h"));
    assert!(is_postgresql_string("postgres://h"));
    assert!(!is_postgresql_string("postgres:/h"));
    assert!(!is_postgresql_string("mysql://h"));
    assert!(!is_postgresql_string(""));
}

#[test]
fn text_helpers() {
    assert!(starts_with("abc", "ab"));
    assert!(starts_with("abc", ""));
    assert!(!starts_with("ab", "abc"));
    assert!(same_text("é", "é"));
    assert!(!same_text("ab", "abc"));
    assert!(starts_with_any("xyz", &["a", "xy"]));
    assert!(!starts_with_any("xyz", &[]));
}

#[test]
fn parse_i32_follows_decimal_grammar() {
    assert_eq!(parse_i32("10"), Some(10));
    assert_eq!(parse_i32("+7"), Some(7));
    assert_eq!(parse_i32("-0"), Some(0));
    assert_eq!(parse_i32("2147483647"), Some(i32::MAX));
    assert_eq!(parse_i32("-2147483648"), Some(i32::MIN));
    assert_eq!(parse_i32("2147483648"), None);
    assert_eq!(parse_i32("-2147483649"), None);
    assert_eq!(parse_i32("99999999999999999999"), None);
    assert_eq!(parse_i32(""), None);
    assert_eq!(parse_i32("-"), None);
    assert_eq!(parse_i32(" 1"), None);
    assert_eq!(parse_i32("1x"), None);
    for s in ["0", "42", "-17", "+3", "x", "", "4294967296"] {
        assert_eq!(parse_i32(s), s.parse::<i32>().ok());
    }
}

#[test]
fn resolving_same_name_twice_gives_distinct_ids() {
    let mut idr = IdResolver::new(vec![]);
    let a = idr.resolve("roads");
    let b = idr.resolve("roads");
    assert_eq!(a, "roads");
    assert_eq!(b, "roads.1");
    assert_ne!(a, b);
    assert!(!b.is_empty());
    assert_eq!(idr.resolve("roads"), "roads.2");
}

#[test]
fn resolver_skips_taken_alternatives() {
    let mut idr = IdResolver::new(vec!["t".to_string(), "t.1".to_string(), "t.3".to_string()]);
    assert_eq!(idr.resolve("t"), "t.2");
    assert_eq!(idr.resolve("t"), "t.4");
    assert_eq!(idr.resolve("u"), "u");
}

#[test]
fn decimal_notation() {
    assert_eq!(decimal_string(0), "0");
    assert_eq!(decimal_string(7), "7");
    assert_eq!(decimal_string(1203), "1203");
}

#[test]
fn lexicographic_order() {
    assert!(lex_less("a", "b"));
    assert!(lex_less("a", "ab"));
    assert!(!lex_less("ab", "a"));
    assert!(!lex_less("ab", "ab"));
    assert!(lex_less("", "a"));
    assert!(lex_less("Z", "a"));
}

#[test]
fn registry_is_sorted_whatever_the_completion_order() {
    let first = vec![Ok(pairs(&[("zeta", 1), ("alpha", 2)])), Ok(pairs(&[("mid", 3)]))];
    let second = vec![Ok(pairs(&[("mid", 3)])), Ok(pairs(&[("alpha", 2), ("zeta", 1)]))];
    let a: Sources<u32> = merge_resolved::<u32, String>(first).unwrap();
    let b: Sources<u32> = merge_resolved::<u32, String>(second).unwrap();
    assert_eq!(a.keys(), vec!["alpha", "mid", "zeta"]);
    assert_eq!(a.keys(), b.keys());
    assert_eq!(a.len(), 3);
    assert_eq!(a.get("zeta"), Some(&1));
    assert_eq!(a.get("mid"), Some(&3));
    assert_eq!(a.get("nope"), None);
}

#[test]
fn one_failed_backend_fails_the_whole_resolution() {
    let results: Vec<Result<Vec<(String, u32)>, String>> = vec![
        Ok(pairs(&[("a", 1)])),
        Err("cannot open b".to_string()),
        Ok(pairs(&[("c", 3)])),
    ];
    assert_eq!(merge_resolved(results).err(), Some("cannot open b".to_string()));
    let results: Vec<Result<Vec<(String, u32)>, String>> =
        vec![Err("first".to_string()), Err("second".to_string())];
    assert_eq!(merge_resolved(results).err(), Some("first".to_string()));
}

#[test]
fn empty_resolution_gives_empty_registry() {
    let results: Vec<Result<Vec<(String, u32)>, String>> = vec![];
    let r = merge_resolved(results).unwrap();
    assert_eq!(r.len(), 0);
}

#[test]
fn registry_insert_replaces_same_id() {
    let mut s: Sources<u32> = Sources::new();
    s.insert("b".to_string(), 1);
    s.insert("a".to_string(), 2);
    s.insert("b".to_string(), 3);
    assert_eq!(s.keys(), vec!["a", "b"]);
    assert_eq!(s.get("b"), Some(&3));
}

#[test]
fn no_sources_is_an_error() {
    assert_eq!(require_sources(&[0, 0, 0]), Err(Error::NoSources));
    assert_eq!(require_sources(&[]), Err(Error::NoSources));
    assert_eq!(require_sources(&[0, 2, 0]), Ok(()));
}

#[test]
fn environment_tracks_consulted_variables() {
    let mut env = Environment::new(vec![
        ("A".to_string(), "1".to_string()),
        ("B".to_string(), "2".to_string()),
        ("A".to_string(), "3".to_string()),
    ]);
    assert!(env.has_unused_var("A"));
    assert!(!env.has_unused_var("C"));
    assert_eq!(env.get_env_str("A"), Some("3".to_string()));
    assert_eq!(env.get_env_str("C"), None);
    assert!(!env.has_unused_var("A"));
    assert!(env.has_unused_var("B"));
}

fn kv(items: &[(&str, u32)]) -> Vec<(String, u32)> {
    items.iter().map(|(k, v)| (k.to_string(), *v)).collect()
}

#[test]
fn copy_unrecognized_prefixes_keys_in_order() {
    let mut res = kv(&[("keep", 0)]);
    copy_unrecognized(&mut res, "pmtiles.", kv(&[("b", 1), ("a", 2)]));
    assert_eq!(res, kv(&[("keep", 0), ("pmtiles.b", 1), ("pmtiles.a", 2)]));
}

#[test]
fn finalize_collects_leftovers_of_all_sections() {
    let sections = vec![
        Section { prefix: "postgres.".to_string(), records: 0, leftover: kv(&[("x", 1)]) },
        Section { prefix: "cogs.".to_string(), records: 2, leftover: kv(&[("y", 2)]) },
    ];
    let res = finalize_config(kv(&[("top", 0)]), sections).unwrap();
    assert_eq!(res, kv(&[("top", 0), ("postgres.x", 1), ("cogs.y", 2)]));
}

#[test]
fn finalize_without_records_is_no_sources() {
    let sections = vec![
        Section { prefix: "postgres.".to_string(), records: 0, leftover: kv(&[]) },
        Section { prefix: "cogs.".to_string(), records: 0, leftover: kv(&[("y", 2)]) },
    ];
    assert_eq!(finalize_config(kv(&[]), sections), Err(Error::NoSources));
    assert_eq!(finalize_config::<u32>(kv(&[]), vec![]), Err(Error::NoSources));
}
