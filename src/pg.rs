use vstd::prelude::*;

use crate::arguments::{taken, Arguments};
use crate::environment::{env_lookup, Environment};
use crate::number::{parse_i32, parse_i32_spec};
use crate::one_or_many::OneOrMany;
use crate::text::{has_any_prefix, starts_with_any, str_views};

verus! {

/// The view of an optional string: its characters.
pub open spec fn opt_view(o: Option<String>) -> Option<Seq<char>> {
    match o {
        Some(s) => Some(s@),
        None => None,
    }
}

/// The view of an optional list of strings.
pub open spec fn opt_list_view(o: Option<Vec<String>>) -> Option<Seq<Seq<char>>> {
    match o {
        Some(v) => Some(v@.map_values(|s: String| s@)),
        None => None,
    }
}

fn clone_opt(o: &Option<String>) -> (r: Option<String>)
    ensures
        opt_view(r) == opt_view(*o),
{
    match o {
        Some(s) => Some(s.clone()),
        None => None,
    }
}

/// Paths of the TLS material used to reach the database.
#[derive(Debug, Default, PartialEq)]
pub struct PgSslCerts {
    pub ssl_cert: Option<String>,
    pub ssl_key: Option<String>,
    pub ssl_root_cert: Option<String>,
}

pub struct PgSslCertsView {
    pub ssl_cert: Option<Seq<char>>,
    pub ssl_key: Option<Seq<char>>,
    pub ssl_root_cert: Option<Seq<char>>,
}

impl View for PgSslCerts {
    type V = PgSslCertsView;

    open spec fn view(&self) -> PgSslCertsView {
        PgSslCertsView {
            ssl_cert: opt_view(self.ssl_cert),
            ssl_key: opt_view(self.ssl_key),
            ssl_root_cert: opt_view(self.ssl_root_cert),
        }
    }
}

impl PgSslCerts {
    fn copy(&self) -> (r: Self)
        ensures
            r@ == self@,
    {
        PgSslCerts {
            ssl_cert: clone_opt(&self.ssl_cert),
            ssl_key: clone_opt(&self.ssl_key),
            ssl_root_cert: clone_opt(&self.ssl_root_cert),
        }
    }
}

/// One database connection record.
#[derive(Debug, Default, PartialEq)]
pub struct PgConfig {
    pub connection_string: Option<String>,
    pub ssl_certificates: PgSslCerts,
    pub default_srid: Option<i32>,
    pub disable_bounds: Option<bool>,
    pub max_feature_count: Option<usize>,
    pub exclude_small_geometries: Option<bool>,
    pub pool_size: Option<usize>,
    pub auto_publish: Option<bool>,
    pub tables: Option<Vec<String>>,
    pub functions: Option<Vec<String>>,
}

pub struct PgConfigView {
    pub connection_string: Option<Seq<char>>,
    pub ssl_certificates: PgSslCertsView,
    pub default_srid: Option<i32>,
    pub disable_bounds: Option<bool>,
    pub max_feature_count: Option<usize>,
    pub exclude_small_geometries: Option<bool>,
    pub pool_size: Option<usize>,
    pub auto_publish: Option<bool>,
    pub tables: Option<Seq<Seq<char>>>,
    pub functions: Option<Seq<Seq<char>>>,
}

impl View for PgConfig {
    type V = PgConfigView;

    open spec fn view(&self) -> PgConfigView {
        PgConfigView {
            connection_string: opt_view(self.connection_string),
            ssl_certificates: self.ssl_certificates@,
            default_srid: self.default_srid,
            disable_bounds: self.disable_bounds,
            max_feature_count: self.max_feature_count,
            exclude_small_geometries: self.exclude_small_geometries,
            pool_size: self.pool_size,
            auto_publish: self.auto_publish,
            tables: opt_list_view(self.tables),
            functions: opt_list_view(self.functions),
        }
    }
}

/// The views of the records that a database section holds, in order.
pub open spec fn records(c: OneOrMany<PgConfig>) -> Seq<PgConfigView> {
    c.items().map_values(|p: PgConfig| p@)
}

/// The URI schemes of a database connection string.
pub open spec fn pg_prefixes() -> Seq<Seq<char>> {
    seq!["postgresql://"@, "postgres://"@]
}

/// Whether `s` is written as a database connection string.
pub open spec fn is_pg_string(s: Seq<char>) -> bool {
    has_any_prefix(s, pg_prefixes())
}

/// The connection strings of a merge: those claimed from the pool, or else the
/// `DATABASE_URL` variable when it holds a connection string.
pub open spec fn conn_strings(entries: Seq<(Seq<char>, bool)>, vars: Seq<(Seq<char>, Seq<char>)>) -> Seq<Seq<char>> {
    let claimed = taken(entries, pg_prefixes());
    if claimed.len() > 0 {
        claimed
    } else {
        match env_lookup(vars, "DATABASE_URL"@) {
            Some(v) => if is_pg_string(v) { seq![v] } else { Seq::empty() },
            None => Seq::empty(),
        }
    }
}

/// The default SRID of a merge: the flag, or else `DEFAULT_SRID` when it holds an `i32`.
pub open spec fn srid_choice(flag: Option<i32>, vars: Seq<(Seq<char>, Seq<char>)>) -> Option<i32> {
    if flag is Some {
        flag
    } else {
        match env_lookup(vars, "DEFAULT_SRID"@) {
            Some(v) => parse_i32_spec(v),
            None => None,
        }
    }
}

/// The TLS paths of a merge: certificate and key from `PGSSLCERT` and `PGSSLKEY`; the
/// root certificate from the flag, else `PGSSLROOTCERT`, else the older `CA_ROOT_FILE`.
pub open spec fn certs_choice(ca_root: Option<Seq<char>>, vars: Seq<(Seq<char>, Seq<char>)>) -> PgSslCertsView {
    PgSslCertsView {
        ssl_cert: env_lookup(vars, "PGSSLCERT"@),
        ssl_key: env_lookup(vars, "PGSSLKEY"@),
        ssl_root_cert: if ca_root is Some {
            ca_root
        } else if env_lookup(vars, "PGSSLROOTCERT"@) is Some {
            env_lookup(vars, "PGSSLROOTCERT"@)
        } else {
            env_lookup(vars, "CA_ROOT_FILE"@)
        },
    }
}

/// The variables that extracting connection strings consults: `DATABASE_URL`, and
/// only when the pool holds no connection string.
pub open spec fn conn_consulted(entries: Seq<(Seq<char>, bool)>) -> Seq<Seq<char>> {
    if taken(entries, pg_prefixes()).len() > 0 {
        Seq::empty()
    } else {
        seq!["DATABASE_URL"@]
    }
}

/// The variables that choosing the default SRID consults: `DEFAULT_SRID`, and only
/// when no flag gives the SRID.
pub open spec fn srid_consulted(flag: Option<i32>) -> Seq<Seq<char>> {
    if flag is Some {
        Seq::empty()
    } else {
        seq!["DEFAULT_SRID"@]
    }
}

/// The variables that choosing the TLS paths consults, in order: `PGSSLCERT` and
/// `PGSSLKEY`; `PGSSLROOTCERT` when no flag gives the root certificate; and
/// `CA_ROOT_FILE` when neither the flag nor `PGSSLROOTCERT` gives it.
pub open spec fn certs_consulted(ca_root: Option<Seq<char>>, vars: Seq<(Seq<char>, Seq<char>)>) -> Seq<Seq<char>> {
    let base = seq!["PGSSLCERT"@, "PGSSLKEY"@];
    if ca_root is Some {
        base
    } else if env_lookup(vars, "PGSSLROOTCERT"@) is Some {
        base.push("PGSSLROOTCERT"@)
    } else {
        base.push("PGSSLROOTCERT"@).push("CA_ROOT_FILE"@)
    }
}

/// The variables reported when they are set but were not consulted.
pub open spec fn watched_vars() -> Seq<Seq<char>> {
    seq![
        "CA_ROOT_FILE"@,
        "DANGER_ACCEPT_INVALID_CERTS"@,
        "DATABASE_URL"@,
        "DEFAULT_SRID"@,
        "PGSSLCERT"@,
        "PGSSLKEY"@,
        "PGSSLROOTCERT"@,
    ]
}

/// Whether a variable is set in `vars` but absent from `used`.
pub open spec fn set_but_unused(vars: Seq<(Seq<char>, Seq<char>)>, used: Seq<Seq<char>>, name: Seq<char>) -> bool {
    env_lookup(vars, name) is Some && !used.contains(name)
}

/// Tests whether `s` is written as a database connection string.
pub fn is_postgresql_string(s: &str) -> (r: bool)
    ensures
        r == is_pg_string(s@),
{
    let prefixes: [&str; 2] = ["postgresql://", "postgres://"];
    assert(str_views(prefixes@) =~= pg_prefixes());
    starts_with_any(s, prefixes.as_slice())
}

/// The database record that a merge builds for connection string `conn`.
pub open spec fn record_for(args: PgArgs, conn: Seq<char>, vars: Seq<(Seq<char>, Seq<char>)>) -> PgConfigView {
    PgConfigView {
        connection_string: Some(conn),
        ssl_certificates: certs_choice(opt_view(args.ca_root_file), vars),
        default_srid: srid_choice(args.default_srid, vars),
        disable_bounds: if args.disable_bounds { Some(true) } else { None },
        max_feature_count: args.max_feature_count,
        exclude_small_geometries: args.exclude_small_geometries,
        pool_size: args.pool_size,
        auto_publish: None,
        tables: None,
        functions: None,
    }
}

/// A record after the command-line overrides of `args`: each flag that was given
/// replaces the record's value, and every other field is kept.
pub open spec fn overridden(args: PgArgs, c: PgConfigView) -> PgConfigView {
    PgConfigView {
        default_srid: if args.default_srid is Some { args.default_srid } else { c.default_srid },
        disable_bounds: if args.disable_bounds { Some(true) } else { c.disable_bounds },
        pool_size: if args.pool_size is Some { args.pool_size } else { c.pool_size },
        max_feature_count: if args.max_feature_count is Some { args.max_feature_count } else { c.max_feature_count },
        exclude_small_geometries: if args.exclude_small_geometries is Some {
            args.exclude_small_geometries
        } else {
            c.exclude_small_geometries
        },
        ssl_certificates: PgSslCertsView {
            ssl_root_cert: if args.ca_root_file is Some {
                opt_view(args.ca_root_file)
            } else {
                c.ssl_certificates.ssl_root_cert
            },
            ..c.ssl_certificates
        },
        ..c
    }
}

/// The command-line options of the database backend.
#[derive(Debug, PartialEq, Default)]
pub struct PgArgs {
    /// Disable the automatic generation of bounds for spatial tables.
    pub disable_bounds: bool,
    /// A file of trusted root certificates.
    pub ca_root_file: Option<String>,
    /// The SRID used for spatial tables whose SRID is 0.
    pub default_srid: Option<i32>,
    /// The largest size of the connection pool.
    pub pool_size: Option<usize>,
    /// The largest number of features in a tile from a table source.
    pub max_feature_count: Option<usize>,
    /// Hide geometries smaller than one pixel.
    pub exclude_small_geometries: Option<bool>,
}

impl PgArgs {
    /// Builds the database records from the pool and the environment: one record per
    /// connection string, in order, each with the same options. `None` when there is
    /// no connection string.
    pub fn into_config(self, cli_strings: &mut Arguments, env: &mut Environment) -> (r: Option<OneOrMany<PgConfig>>)
        requires
            old(cli_strings).wf(),
        ensures
            final(cli_strings).wf(),
            final(cli_strings).entries() == crate::arguments::after_claim(old(cli_strings).entries(), pg_prefixes()),
            final(env).vars() == old(env).vars(),
            final(env).used() == old(env).used() + conn_consulted(old(cli_strings).entries()) + srid_consulted(
                self.default_srid,
            ) + certs_consulted(opt_view(self.ca_root_file), old(env).vars()),
            conn_strings(old(cli_strings).entries(), old(env).vars()).len() == 0 <==> r is None,
            r matches Some(c) ==> records(c) == conn_strings(old(cli_strings).entries(), old(env).vars()).map_values(
                |s: Seq<char>| record_for(self, s, old(env).vars()),
            ),
            r matches Some(c) ==> (c is One <==> conn_strings(old(cli_strings).entries(), old(env).vars()).len() == 1),
    {
        let ghost vars = env.vars();
        let connections = Self::extract_conn_strings(cli_strings, env);
        let default_srid = self.get_default_srid(env);
        let certs = self.get_certs(env);
        let ghost conns = conn_strings(old(cli_strings).entries(), vars);
        let mut results: Vec<PgConfig> = Vec::new();
        let mut i: usize = 0;
        while i < connections.len()
            invariant
                i <= connections@.len(),
                connections@.map_values(|s: String| s@) == conns,
                default_srid == srid_choice(self.default_srid, vars),
                certs@ == certs_choice(opt_view(self.ca_root_file), vars),
                results@.len() == i,
                forall|j: int| 0 <= j < i ==> #[trigger] results@[j]@ == record_for(self, conns[j], vars),
            decreases connections@.len() - i,
        {
            assert(connections@[i as int]@ == conns[i as int]);
            results.push(PgConfig {
                connection_string: Some(connections[i].clone()),
                ssl_certificates: certs.copy(),
                default_srid,
                disable_bounds: if self.disable_bounds { Some(true) } else { None },
                max_feature_count: self.max_feature_count,
                exclude_small_geometries: self.exclude_small_geometries,
                pool_size: self.pool_size,
                auto_publish: None,
                tables: None,
                functions: None,
            });
            i = i + 1;
        }
        let ghost rs = results@;
        let r = OneOrMany::from_vec(results);
        assert(rs.map_values(|p: PgConfig| p@) =~= conns.map_values(|s: Seq<char>| record_for(self, s, vars)));
        r
    }

    /// Applies every option given on the command line to all `pg_config` records and
    /// returns the watched variables that are set but were not consulted, in a fixed
    /// order, so that they can be reported.
    pub fn override_config(self, pg_config: &mut OneOrMany<PgConfig>, env: &Environment) -> (r: Vec<String>)
        ensures
            records(*final(pg_config)) == records(*old(pg_config)).map_values(|c: PgConfigView| overridden(self, c)),
            *final(pg_config) is One <==> *old(pg_config) is One,
            r@.map_values(|s: String| s@) == watched_vars().filter(
                |n: Seq<char>| set_but_unused(env.vars(), env.used(), n),
            ),
    {
        let mut current = OneOrMany::Many(Vec::new());
        core::mem::swap(pg_config, &mut current);
        match current {
            OneOrMany::One(c) => {
                let c2 = self.apply_overrides(c);
                *pg_config = OneOrMany::One(c2);
                assert(records(*pg_config) =~= records(current).map_values(|c: PgConfigView| overridden(self, c)));
            },
            OneOrMany::Many(mut v) => {
                let ghost v0 = v@;
                let mut out: Vec<PgConfig> = Vec::new();
                while v.len() > 0
                    invariant
                        out@.len() + v@.len() == v0.len(),
                        v@ == v0.subrange(out@.len() as int, v0.len() as int),
                        forall|j: int| 0 <= j < out@.len() ==> #[trigger] out@[j]@ == overridden(self, v0[j]@),
                    decreases v@.len(),
                {
                    let c = v.remove(0);
                    out.push(self.apply_overrides(c));
                }
                assert(out@.map_values(|p: PgConfig| p@) =~= v0.map_values(|p: PgConfig| p@).map_values(
                    |c: PgConfigView| overridden(self, c),
                ));
                *pg_config = OneOrMany::Many(out);
            },
        }
        let names: [&str; 7] = [
            "CA_ROOT_FILE",
            "DANGER_ACCEPT_INVALID_CERTS",
            "DATABASE_URL",
            "DEFAULT_SRID",
            "PGSSLCERT",
            "PGSSLKEY",
            "PGSSLROOTCERT",
        ];
        let ghost w = watched_vars();
        let ghost pred = |n: Seq<char>| set_but_unused(env.vars(), env.used(), n);
        assert(str_views(names@) =~= w);
        let mut ignored: Vec<String> = Vec::new();
        let mut i: usize = 0;
        while i < 7
            invariant
                i <= 7,
                str_views(names@) == w,
                w == watched_vars(),
                pred == (|n: Seq<char>| set_but_unused(env.vars(), env.used(), n)),
                ignored@.map_values(|s: String| s@) == w.subrange(0, i as int).filter(pred),
            decreases 7 - i,
        {
            reveal(Seq::filter);
            let ghost before = ignored@;
            let ghost sub = w.subrange(0, i as int);
            assert(w.subrange(0, i as int + 1).drop_last() =~= sub);
            assert(names@[i as int]@ == w[i as int]);
            if env.has_unused_var(names[i]) {
                ignored.push(names[i].to_owned());
                assert(ignored@.map_values(|s: String| s@) =~= before.map_values(|s: String| s@).push(w[i as int]));
            }
            i = i + 1;
        }
        assert(w.subrange(0, 7) =~= w);
        ignored
    }

    fn apply_overrides(&self, c: PgConfig) -> (r: PgConfig)
        ensures
            r@ == overridden(*self, c@),
    {
        let mut c = c;
        if self.disable_bounds {
            c.disable_bounds = Some(true);
        }
        if self.default_srid.is_some() {
            c.default_srid = self.default_srid;
        }
        if self.pool_size.is_some() {
            c.pool_size = self.pool_size;
        }
        if self.max_feature_count.is_some() {
            c.max_feature_count = self.max_feature_count;
        }
        if self.exclude_small_geometries.is_some() {
            c.exclude_small_geometries = self.exclude_small_geometries;
        }
        if self.ca_root_file.is_some() {
            c.ssl_certificates.ssl_root_cert = clone_opt(&self.ca_root_file);
        }
        c
    }

    pub fn extract_conn_strings(cli_strings: &mut Arguments, env: &mut Environment) -> (r: Vec<String>)
        requires
            old(cli_strings).wf(),
        ensures
            final(cli_strings).wf(),
            final(cli_strings).entries() == crate::arguments::after_claim(old(cli_strings).entries(), pg_prefixes()),
            final(env).vars() == old(env).vars(),
            final(env).used() == old(env).used() + conn_consulted(old(cli_strings).entries()),
            r@.map_values(|s: String| s@) == conn_strings(old(cli_strings).entries(), old(env).vars()),
    {
        let prefixes: [&str; 2] = ["postgresql://", "postgres://"];
        assert(str_views(prefixes@) =~= pg_prefixes());
        let mut connections = cli_strings.claim(prefixes.as_slice());
        if connections.len() == 0 {
            if let Some(s) = env.get_env_str("DATABASE_URL") {
                if is_postgresql_string(s.as_str()) {
                    connections.push(s);
                }
            }
            assert(connections@.map_values(|s: String| s@) =~= conn_strings(old(cli_strings).entries(), old(env).vars()));
        }
        connections
    }

    pub fn get_default_srid(&self, env: &mut Environment) -> (r: Option<i32>)
        ensures
            final(env).vars() == old(env).vars(),
            final(env).used() == old(env).used() + srid_consulted(self.default_srid),
            r == srid_choice(self.default_srid, old(env).vars()),
    {
        if self.default_srid.is_some() {
            return self.default_srid;
        }
        match env.get_env_str("DEFAULT_SRID") {
            Some(srid) => parse_i32(srid.as_str()),
            None => None,
        }
    }

    pub fn get_certs(&self, env: &mut Environment) -> (r: PgSslCerts)
        ensures
            final(env).vars() == old(env).vars(),
            final(env).used() == old(env).used() + certs_consulted(opt_view(self.ca_root_file), old(env).vars()),
            r@ == certs_choice(opt_view(self.ca_root_file), old(env).vars()),
    {
        let mut result = PgSslCerts {
            ssl_cert: Self::parse_env_var(env, "PGSSLCERT"),
            ssl_key: Self::parse_env_var(env, "PGSSLKEY"),
            ssl_root_cert: clone_opt(&self.ca_root_file),
        };
        if result.ssl_root_cert.is_none() {
            result.ssl_root_cert = Self::parse_env_var(env, "PGSSLROOTCERT");
        }
        if result.ssl_root_cert.is_none() {
            result.ssl_root_cert = Self::parse_env_var(env, "CA_ROOT_FILE");
        }
        result
    }

    fn parse_env_var(env: &mut Environment, env_var: &str) -> (r: Option<String>)
        ensures
            final(env).vars() == old(env).vars(),
            final(env).used() == old(env).used().push(env_var@),
            opt_view(r) == env_lookup(old(env).vars(), env_var@),
    {
        env.get_env_str(env_var)
    }
}

/// When the pool holds connection strings they are used, in order, and the
/// environment is not a fallback.
pub proof fn lemma_pool_wins(entries: Seq<(Seq<char>, bool)>, vars: Seq<(Seq<char>, Seq<char>)>)
    requires
        taken(entries, pg_prefixes()).len() > 0,
    ensures
        conn_strings(entries, vars) == taken(entries, pg_prefixes()),
{
}

/// With no connection string in the pool, `DATABASE_URL` gives exactly one connection
/// string, its value, when that value is a connection string, and none otherwise.
pub proof fn lemma_env_fallback(entries: Seq<(Seq<char>, bool)>, vars: Seq<(Seq<char>, Seq<char>)>)
    requires
        taken(entries, pg_prefixes()).len() == 0,
    ensures
        match env_lookup(vars, "DATABASE_URL"@) {
            Some(v) => if is_pg_string(v) {
                conn_strings(entries, vars) == seq![v]
            } else {
                conn_strings(entries, vars).len() == 0
            },
            None => conn_strings(entries, vars).len() == 0,
        },
{
}

/// Each option given on the command line replaces the value of every record of a
/// section, whatever the record held before.
pub proof fn lemma_overrides_reach_every_record(args: PgArgs, rs: Seq<PgConfigView>)
    ensures
        forall|i: int| 0 <= i < rs.len() ==> {
            let o = overridden(args, #[trigger] rs[i]);
            &&& (args.default_srid is Some ==> o.default_srid == args.default_srid)
            &&& (args.disable_bounds ==> o.disable_bounds == Some(true))
            &&& (args.pool_size is Some ==> o.pool_size == args.pool_size)
            &&& (args.max_feature_count is Some ==> o.max_feature_count == args.max_feature_count)
            &&& (args.exclude_small_geometries is Some ==> o.exclude_small_geometries == args.exclude_small_geometries)
            &&& (args.ca_root_file is Some ==> o.ssl_certificates.ssl_root_cert == opt_view(args.ca_root_file))
        },
{
}

} // verus!
