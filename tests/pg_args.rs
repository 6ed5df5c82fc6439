use martin::arguments::Arguments;
use martin::environment::Environment;
use martin::error::Error;
use martin::one_or_many::OneOrMany;
use martin::pg::{PgArgs, PgConfig, PgSslCerts};

fn some(s: &str) -> Option<String> {
    Some(s.to_string())
}

fn env_of(vars: &[(&str, &str)]) -> Environment {
    Environment::new(vars.iter().map(|(k, v)| (k.to_string(), v.to_string())).collect())
}

#[test]
fn test_extract_conn_strings() {
    let mut args = Arguments::new(vec![
        "postgresql://localhost:5432".to_string(),
        "postgres://localhost:5432".to_string(),
        "mysql://localhost:3306".to_string(),
    ]);
    assert_eq!(
        PgArgs::extract_conn_strings(&mut args, &mut Environment::empty()),
        vec!["postgresql://localhost:5432", "postgres://localhost:5432"]
    );
    assert!(matches!(args.check(), Err(
        Error::UnrecognizableConnections(v)) if v == vec!["mysql://localhost:3306"]));
}

#[test]
fn test_extract_conn_strings_from_env() {
    let mut args = Arguments::new(vec![]);
    let mut env = env_of(&[("DATABASE_URL", "postgresql://localhost:5432")]);
    let strings = PgArgs::extract_conn_strings(&mut args, &mut env);
    assert_eq!(strings, vec!["postgresql://localhost:5432"]);
    assert!(args.check().is_ok());
}

#[test]
fn test_merge_into_config() {
    let mut args = Arguments::new(vec!["postgres://localhost:5432".to_string()]);
    let config = PgArgs::default().into_config(&mut args, &mut Environment::empty());
    assert_eq!(
        config,
        Some(OneOrMany::One(PgConfig {
            connection_string: some("postgres://localhost:5432"),
            ..Default::default()
        }))
    );
    assert!(args.check().is_ok());
}

#[test]
fn test_merge_into_config2() {
    let mut args = Arguments::new(vec![]);
    let mut env = env_of(&[
        ("DATABASE_URL", "postgres://localhost:5432"),
        ("DEFAULT_SRID", "10"),
        ("DANGER_ACCEPT_INVALID_CERTS", "1"),
        ("CA_ROOT_FILE", "file"),
    ]);
    let config = PgArgs::default().into_config(&mut args, &mut env);
    assert_eq!(
        config,
        Some(OneOrMany::One(PgConfig {
            connection_string: some("postgres://localhost:5432"),
            default_srid: Some(10),
            ssl_certificates: PgSslCerts {
                ssl_root_cert: some("file"),
                ..Default::default()
            },
            ..Default::default()
        }))
    );
    assert!(args.check().is_ok());
}

#[test]
fn test_merge_into_config3() {
    let mut args = Arguments::new(vec![]);
    let mut env = env_of(&[
        ("DATABASE_URL", "postgres://localhost:5432"),
        ("DEFAULT_SRID", "10"),
        ("PGSSLCERT", "cert"),
        ("PGSSLKEY", "key"),
        ("PGSSLROOTCERT", "root"),
    ]);
    let pg_args = PgArgs {
        default_srid: Some(20),
        ..Default::default()
    };
    let config = pg_args.into_config(&mut args, &mut env);
    assert_eq!(
        config,
        Some(OneOrMany::One(PgConfig {
            connection_string: some("postgres://localhost:5432"),
            default_srid: Some(20),
            ssl_certificates: PgSslCerts {
                ssl_cert: some("cert"),
                ssl_key: some("key"),
                ssl_root_cert: some("root"),
            },
            ..Default::default()
        }))
    );
    assert!(args.check().is_ok());
}

#[test]
fn cli_tokens_claim_postgres_and_leave_mysql() {
    let mut args = Arguments::new(vec![
        "postgres://localhost:5432".to_string(),
        "mysql://localhost:3306".to_string(),
    ]);
    let config = PgArgs::default().into_config(&mut args, &mut Environment::empty());
    assert_eq!(
        config,
        Some(OneOrMany::One(PgConfig {
            connection_string: some("postgres://localhost:5432"),
            ..Default::default()
        }))
    );
    assert_eq!(
        args.check(),
        Err(Error::UnrecognizableConnections(vec!["mysql://localhost:3306".to_string()]))
    );
}

#[test]
fn env_url_and_srid_make_one_record() {
    let mut args = Arguments::new(vec![]);
    let mut env = env_of(&[("DATABASE_URL", "postgresql://localhost:5432"), ("DEFAULT_SRID", "10")]);
    let config = PgArgs::default().into_config(&mut args, &mut env);
    assert_eq!(
        config,
        Some(OneOrMany::One(PgConfig {
            connection_string: some("postgresql://localhost:5432"),
            default_srid: Some(10),
            ..Default::default()
        }))
    );
}

#[test]
fn env_url_with_other_scheme_gives_no_record() {
    let mut args = Arguments::new(vec![]);
    let mut env = env_of(&[("DATABASE_URL", "mysql://localhost:3306")]);
    assert_eq!(PgArgs::default().into_config(&mut args, &mut env), None);
    assert!(args.check().is_ok());
}

#[test]
fn pool_strings_win_over_env() {
    let mut args = Arguments::new(vec!["postgres://a".to_string()]);
    let mut env = env_of(&[("DATABASE_URL", "postgres://b")]);
    let strings = PgArgs::extract_conn_strings(&mut args, &mut env);
    assert_eq!(strings, vec!["postgres://a"]);
    // the variable was not consulted, so it is reported as ignored
    assert!(env.has_unused_var("DATABASE_URL"));
}

#[test]
fn several_pool_strings_give_many_records_in_order() {
    let mut args = Arguments::new(vec!["postgres://a".to_string(), "postgresql://b".to_string()]);
    let pg_args = PgArgs { pool_size: Some(3), disable_bounds: true, ..Default::default() };
    let config = pg_args.into_config(&mut args, &mut Environment::empty());
    let expected = |c: &str| PgConfig {
        connection_string: some(c),
        pool_size: Some(3),
        disable_bounds: Some(true),
        ..Default::default()
    };
    assert_eq!(config, Some(OneOrMany::Many(vec![expected("postgres://a"), expected("postgresql://b")])));
}

#[test]
fn invalid_srid_in_env_is_unset() {
    let mut env = env_of(&[("DEFAULT_SRID", "ten")]);
    assert_eq!(PgArgs::default().get_default_srid(&mut env), None);
    let mut env = env_of(&[("DEFAULT_SRID", "-4326")]);
    assert_eq!(PgArgs::default().get_default_srid(&mut env), Some(-4326));
}

#[test]
fn deprecated_root_cert_variable_is_last_resort() {
    let mut env = env_of(&[("CA_ROOT_FILE", "old"), ("PGSSLROOTCERT", "new")]);
    assert_eq!(PgArgs::default().get_certs(&mut env).ssl_root_cert, some("new"));
    let mut env = env_of(&[("CA_ROOT_FILE", "old")]);
    let args = PgArgs { ca_root_file: some("cli"), ..Default::default() };
    assert_eq!(args.get_certs(&mut env).ssl_root_cert, some("cli"));
}

#[test]
fn cli_srid_overrides_file_record() {
    let mut cfg = OneOrMany::One(PgConfig {
        connection_string: some("postgres://file"),
        default_srid: Some(10),
        ..Default::default()
    });
    let pg_args = PgArgs { default_srid: Some(20), ..Default::default() };
    pg_args.override_config(&mut cfg, &Environment::empty());
    assert_eq!(
        cfg,
        OneOrMany::One(PgConfig {
            connection_string: some("postgres://file"),
            default_srid: Some(20),
            ..Default::default()
        })
    );
}

#[test]
fn overrides_reach_every_record() {
    let rec = |c: &str, pool: Option<usize>| PgConfig {
        connection_string: some(c),
        pool_size: pool,
        max_feature_count: Some(5),
        ..Default::default()
    };
    let mut cfg = OneOrMany::Many(vec![rec("postgres://a", Some(1)), rec("postgres://b", None)]);
    let pg_args = PgArgs {
        pool_size: Some(8),
        exclude_small_geometries: Some(true),
        ca_root_file: some("ca"),
        ..Default::default()
    };
    pg_args.override_config(&mut cfg, &Environment::empty());
    let want = |c: &str| PgConfig {
        connection_string: some(c),
        pool_size: Some(8),
        max_feature_count: Some(5),
        exclude_small_geometries: Some(true),
        ssl_certificates: PgSslCerts { ssl_root_cert: some("ca"), ..Default::default() },
        ..Default::default()
    };
    assert_eq!(cfg, OneOrMany::Many(vec![want("postgres://a"), want("postgres://b")]));
}

#[test]
fn override_reports_set_but_unused_variables() {
    let mut cfg = OneOrMany::Many(vec![]);
    let mut env = env_of(&[("PGSSLKEY", "k"), ("DATABASE_URL", "postgres://x"), ("OTHER", "1")]);
    assert_eq!(env.get_env_str("PGSSLKEY"), some("k"));
    let ignored = PgArgs::default().override_config(&mut cfg, &env);
    assert_eq!(ignored, vec!["DATABASE_URL".to_string()]);
    assert_eq!(cfg, OneOrMany::Many(vec![]));
}

#[test]
fn disable_bounds_flag_reaches_every_record() {
    let mut cfg = OneOrMany::Many(vec![
        PgConfig { connection_string: some("postgres://a"), ..Default::default() },
        PgConfig { connection_string: some("postgres://b"), disable_bounds: Some(false), ..Default::default() },
    ]);
    let pg_args = PgArgs { disable_bounds: true, ..Default::default() };
    pg_args.override_config(&mut cfg, &Environment::empty());
    assert_eq!(
        cfg,
        OneOrMany::Many(vec![
            PgConfig { connection_string: some("postgres://a"), disable_bounds: Some(true), ..Default::default() },
            PgConfig { connection_string: some("postgres://b"), disable_bounds: Some(true), ..Default::default() },
        ])
    );
}

#[test]
fn flag_srid_leaves_env_srid_unconsulted() {
    let mut env = env_of(&[("DEFAULT_SRID", "10")]);
    let args = PgArgs { default_srid: Some(20), ..Default::default() };
    assert_eq!(args.get_default_srid(&mut env), Some(20));
    assert!(env.has_unused_var("DEFAULT_SRID"));
    assert_eq!(PgArgs::default().get_default_srid(&mut env), Some(10));
    assert!(!env.has_unused_var("DEFAULT_SRID"));
}
