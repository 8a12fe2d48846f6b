//! MySQL / MariaDB server variables.
use vstd::prelude::*;
use crate::text::{
    before_char, before_char_slice, contains_ignore_ascii_case, contains_ignore_ascii_case_exec,
    decimal, eq_chars, parse_u32, parse_u64, parse_unsigned, push_decimal, to_chars, concat_str,
};
use crate::types::{findings, finding, fixed, push_result, CheckResult, Finding, Status, SystemContext};

verus! {

/// Human-readable size: whole gibibytes, mebibytes or kibibytes with a
/// `G`, `M` or `K` suffix, or plain bytes.
pub open spec fn format_bytes_spec(bytes: nat) -> Seq<char> {
    if bytes >= 1024 * 1024 * 1024 {
        decimal(bytes / (1024 * 1024 * 1024)) + "G"@
    } else if bytes >= 1024 * 1024 {
        decimal(bytes / (1024 * 1024)) + "M"@
    } else if bytes >= 1024 {
        decimal(bytes / 1024) + "K"@
    } else {
        decimal(bytes)
    }
}

pub fn format_bytes(bytes: u64) -> (r: String)
    ensures
        r@ == format_bytes_spec(bytes as nat),
{
    let mut r = String::new();
    if bytes >= 1024 * 1024 * 1024 {
        push_decimal(&mut r, bytes / (1024 * 1024 * 1024));
        r.append("G");
    } else if bytes >= 1024 * 1024 {
        push_decimal(&mut r, bytes / (1024 * 1024));
        r.append("M");
    } else if bytes >= 1024 {
        push_decimal(&mut r, bytes / 1024);
        r.append("K");
    } else {
        push_decimal(&mut r, bytes);
    }
    assert(r@ =~= format_bytes_spec(bytes as nat));
    r
}

/// A numeric server variable read as text, 0 when it does not parse.
pub open spec fn numeric_or_zero(v: Seq<char>) -> nat {
    match parse_unsigned(v, u64::MAX as nat) {
        Some(n) => n,
        None => 0,
    }
}

fn numeric_or_zero_exec(v: &str) -> (r: u64)
    ensures
        r == numeric_or_zero(v@),
{
    let c = to_chars(v);
    match parse_u64(c.as_slice()) {
        Some(n) => n,
        None => 0,
    }
}

pub open spec fn mysql_var_finding(name: Seq<char>, min_bytes: nat, hint: Seq<char>, val: Option<Seq<char>>) -> Finding {
    match val {
        Some(v) => {
            let n = numeric_or_zero(v);
            if n >= min_bytes {
                finding(Status::Pass, name, format_bytes_spec(n))
            } else {
                let rec = format_bytes_spec(min_bytes);
                fixed(
                    finding(Status::Warn, name, format_bytes_spec(n) + " — recommend "@ + hint),
                    "Set "@ + name + "="@ + rec,
                    "/etc/mysql/conf.d/flux.cnf"@,
                    name + "="@ + rec,
                )
            }
        },
        None => finding(Status::Warn, name, "Could not read"@),
    }
}

pub open spec fn opt_str(v: Option<String>) -> Option<Seq<char>> {
    match v {
        Some(s) => Some(s@),
        None => None,
    }
}

/// A byte-size variable compared with its recommended minimum.
pub fn check_mysql_var(name: &str, min_bytes: u64, hint: &str, val: &Option<String>, results: &mut Vec<CheckResult>)
    ensures
        findings(final(results)@) == findings(old(results)@).push(
            mysql_var_finding(name@, min_bytes as nat, hint@, opt_str(*val)),
        ),
{
    let r = match val {
        Some(v) => {
            let n = numeric_or_zero_exec(v.as_str());
            if n >= min_bytes {
                let d = format_bytes(n);
                CheckResult::ok(name, d.as_str())
            } else {
                let rec = format_bytes(min_bytes);
                let mut d = format_bytes(n);
                d.append(" — recommend ");
                d.append(hint);
                let mut desc = concat_str("Set ", name);
                desc.append("=");
                desc.append(rec.as_str());
                let mut content = concat_str(name, "=");
                content.append(rec.as_str());
                CheckResult::warn(name, d.as_str()).with_fix(desc.as_str(), "/etc/mysql/conf.d/flux.cnf", content.as_str())
            }
        },
        None => CheckResult::warn(name, "Could not read"),
    };
    push_result(results, r);
}

/// Major version: the part of `SELECT VERSION()` before the first `.`,
/// 0 when it does not parse.
pub open spec fn major_of(version: Option<Seq<char>>) -> nat {
    match version {
        Some(v) => match parse_unsigned(before_char(v, '.'), u32::MAX as nat) {
            Some(n) => n,
            None => 0,
        },
        None => 0,
    }
}

/// The server is MariaDB.
pub open spec fn is_mariadb(version: Option<Seq<char>>) -> bool {
    match version {
        Some(v) => contains_ignore_ascii_case(v, "mariadb"@),
        None => false,
    }
}

/// `query_cache_type` only exists before MySQL 8.0 and on MariaDB.
pub open spec fn query_cache_relevant_spec(version: Option<Seq<char>>) -> bool {
    is_mariadb(version) || major_of(version) < 8
}

/// The query cache is checked on every MariaDB server, whatever its
/// version (MariaDB still has `query_cache_type`), and on MySQL before 8.0.
pub proof fn law_query_cache_checked_on_mariadb(v: Seq<char>)
    ensures
        contains_ignore_ascii_case(v, "mariadb"@) ==> query_cache_relevant_spec(Some(v)),
        query_cache_relevant_spec(None),
{
}

pub fn query_cache_relevant(version: &Option<String>) -> (r: bool)
    ensures
        r == query_cache_relevant_spec(opt_str(*version)),
{
    match version {
        Some(v) => {
            let c = to_chars(v.as_str());
            let m = to_chars("mariadb");
            let mariadb = contains_ignore_ascii_case_exec(c.as_slice(), m.as_slice());
            let major: u32 = match parse_u32(before_char_slice(c.as_slice(), '.')) {
                Some(n) => n,
                None => 0,
            };
            mariadb || major < 8
        },
        None => true,
    }
}

pub open spec fn is_on(v: Option<Seq<char>>) -> bool {
    v == Some("ON"@) || v == Some("1"@)
}

/// `slow_query_log` is enabled.
pub fn slow_log_enabled(v: &Option<String>) -> (r: bool)
    ensures
        r == is_on(opt_str(*v)),
{
    match v {
        Some(s) => {
            let c = to_chars(s.as_str());
            let on = to_chars("ON");
            let one = to_chars("1");
            eq_chars(c.as_slice(), on.as_slice()) || eq_chars(c.as_slice(), one.as_slice())
        },
        None => false,
    }
}

fn is_lit(v: &str, lit: &str) -> (r: bool)
    ensures
        r == (v@ == lit@),
{
    let a = to_chars(v);
    let b = to_chars(lit);
    eq_chars(a.as_slice(), b.as_slice())
}

/// Server variables read with `SELECT @@global.<name>` (`None` when the
/// query failed or was not made).
pub struct MysqlFacts {
    /// `SELECT VERSION()`.
    pub version: Option<String>,
    pub innodb_buffer_pool_size: Option<String>,
    pub innodb_log_file_size: Option<String>,
    /// Read only when [`query_cache_relevant`] holds.
    pub query_cache_type: Option<String>,
    pub slow_query_log: Option<String>,
    /// Read only when [`slow_log_enabled`] holds.
    pub long_query_time: Option<String>,
    /// `long_query_time` read as a number of seconds (10 when unreadable)
    /// is above one second.
    pub long_query_time_above_one: bool,
    pub max_connections: Option<String>,
    pub innodb_flush_log_at_trx_commit: Option<String>,
    pub tmp_table_size: Option<String>,
}

/// Recommended buffer pool in MiB: 75% of the MySQL RAM share, at least 128.
pub open spec fn recommended_pool_mb(mysql_ram_mb: nat) -> nat {
    let p = mysql_ram_mb * 75 / 100;
    if p >= 128 { p } else { 128 }
}

/// The size arithmetic of the check stays within `u64`.
pub open spec fn mysql_sizes_fit(mysql_ram_mb: nat) -> bool {
    mysql_ram_mb * 75 <= u64::MAX && recommended_pool_mb(mysql_ram_mb) * 1024 * 1024 <= u64::MAX
}

/// Whether [`check`] can be given this context.
pub fn sizes_fit(ctx: &SystemContext) -> (r: bool)
    ensures
        r == mysql_sizes_fit(ctx.mysql_ram_mb as nat),
{
    match ctx.mysql_ram_mb.checked_mul(75) {
        Some(x) => {
            let p = x / 100;
            let pm = if p >= 128 { p } else { 128 };
            pm.checked_mul(1024 * 1024).is_some()
        },
        None => false,
    }
}


pub open spec fn query_cache_findings(v: Option<Seq<char>>) -> Seq<Finding> {
    match v {
        Some(x) => if x == "OFF"@ || x == "0"@ {
            seq![finding(Status::Pass, "query_cache_type"@, "OFF"@)]
        } else {
            seq![fixed(
                finding(Status::Warn, "query_cache_type"@, "'"@ + x + "' — should be OFF (global mutex on every write)"@),
                "Set query_cache_type=0"@,
                "/etc/mysql/conf.d/flux.cnf"@,
                "query_cache_type=0"@,
            )]
        },
        None => seq![],
    }
}

pub open spec fn slow_log_findings(slow: Option<Seq<char>>, long_qt: Option<Seq<char>>, above_one: bool) -> Seq<Finding> {
    if is_on(slow) {
        seq![finding(Status::Pass, "slow_query_log"@, "ON"@)] + match long_qt {
            Some(v) => if above_one {
                seq![fixed(
                    finding(Status::Warn, "long_query_time"@, v + "s — recommend ≤1s"@),
                    "Set long_query_time=1"@,
                    "/etc/mysql/conf.d/flux.cnf"@,
                    "long_query_time=1"@,
                )]
            } else {
                seq![finding(Status::Pass, "long_query_time"@, v + "s"@)]
            },
            None => seq![],
        }
    } else {
        seq![fixed(
            finding(Status::Warn, "slow_query_log"@, "OFF — recommend enabling"@),
            "Enable slow query log"@,
            "/etc/mysql/conf.d/flux.cnf"@,
            "slow_query_log=1\nlong_query_time=1"@,
        )]
    }
}

pub open spec fn max_conn_finding(v: Option<Seq<char>>) -> Finding {
    let n = match v {
        Some(x) => numeric_or_zero(x),
        None => 0,
    };
    if n >= 100 {
        finding(Status::Pass, "max_connections"@, decimal(n))
    } else {
        fixed(
            finding(Status::Warn, "max_connections"@, decimal(n) + " — recommend ≥100"@),
            "Set max_connections=200"@,
            "/etc/mysql/conf.d/flux.cnf"@,
            "max_connections=200"@,
        )
    }
}

pub open spec fn flush_findings(v: Option<Seq<char>>) -> Seq<Finding> {
    match v {
        Some(x) => if x == "1"@ {
            seq![finding(Status::Pass, "innodb_flush_log_at_trx_commit"@, "1 (full durability)"@)]
        } else {
            seq![finding(
                Status::Warn,
                "innodb_flush_log_at_trx_commit"@,
                "'"@ + x + "' — value 2 risks data loss on crash"@,
            )]
        },
        None => seq![],
    }
}

/// All MySQL findings for the given context and server variables.
pub open spec fn mysql_findings(ctx: SystemContext, f: MysqlFacts) -> Seq<Finding> {
    if !ctx.mysql_running {
        seq![finding(Status::Info, "MySQL/MariaDB"@, "Not running locally — skipping"@)]
    } else {
        let version = opt_str(f.version);
        let pool = recommended_pool_mb(ctx.mysql_ram_mb as nat);
        (match version {
            Some(v) => seq![finding(Status::Info, "MySQL Version"@, v)],
            None => seq![],
        }) + seq![
            mysql_var_finding(
                "innodb_buffer_pool_size"@,
                pool * 1024 * 1024,
                "≥"@ + decimal(pool) + "MB (75% of MySQL RAM share)"@,
                opt_str(f.innodb_buffer_pool_size),
            ),
            mysql_var_finding("innodb_log_file_size"@, 256 * 1024 * 1024, "≥256MB"@, opt_str(f.innodb_log_file_size)),
        ] + (if query_cache_relevant_spec(version) {
            query_cache_findings(opt_str(f.query_cache_type))
        } else {
            seq![]
        }) + slow_log_findings(opt_str(f.slow_query_log), opt_str(f.long_query_time), f.long_query_time_above_one)
            + seq![max_conn_finding(opt_str(f.max_connections))] + flush_findings(
            opt_str(f.innodb_flush_log_at_trx_commit),
        ) + seq![mysql_var_finding("tmp_table_size"@, 64 * 1024 * 1024, "≥64MB"@, opt_str(f.tmp_table_size))]
    }
}

fn query_cache_part(v: &Option<String>, results: &mut Vec<CheckResult>)
    ensures
        findings(final(results)@) == findings(old(results)@) + query_cache_findings(opt_str(*v)),
{
    match v {
        Some(x) => {
            if is_lit(x.as_str(), "OFF") || is_lit(x.as_str(), "0") {
                push_result(results, CheckResult::ok("query_cache_type", "OFF"));
            } else {
                let mut d = concat_str("'", x.as_str());
                d.append("' — should be OFF (global mutex on every write)");
                let r = CheckResult::warn("query_cache_type", d.as_str()).with_fix(
                    "Set query_cache_type=0",
                    "/etc/mysql/conf.d/flux.cnf",
                    "query_cache_type=0",
                );
                push_result(results, r);
            }
        },
        None => {},
    }
    assert(findings(results@) =~= findings(old(results)@) + query_cache_findings(opt_str(*v)));
}

fn slow_log_part(slow: &Option<String>, long_qt: &Option<String>, above_one: bool, results: &mut Vec<CheckResult>)
    ensures
        findings(final(results)@) == findings(old(results)@) + slow_log_findings(opt_str(*slow), opt_str(*long_qt), above_one),
{
    if slow_log_enabled(slow) {
        push_result(results, CheckResult::ok("slow_query_log", "ON"));
        match long_qt {
            Some(v) => {
                if above_one {
                    let d = concat_str(v.as_str(), "s — recommend ≤1s");
                    let r = CheckResult::warn("long_query_time", d.as_str()).with_fix(
                        "Set long_query_time=1",
                        "/etc/mysql/conf.d/flux.cnf",
                        "long_query_time=1",
                    );
                    push_result(results, r);
                } else {
                    let d = concat_str(v.as_str(), "s");
                    push_result(results, CheckResult::ok("long_query_time", d.as_str()));
                }
            },
            None => {},
        }
    } else {
        let r = CheckResult::warn("slow_query_log", "OFF — recommend enabling").with_fix(
            "Enable slow query log",
            "/etc/mysql/conf.d/flux.cnf",
            "slow_query_log=1\nlong_query_time=1",
        );
        push_result(results, r);
    }
    assert(findings(results@) =~= findings(old(results)@) + slow_log_findings(opt_str(*slow), opt_str(*long_qt), above_one));
}

fn max_conn_part(v: &Option<String>, results: &mut Vec<CheckResult>)
    ensures
        findings(final(results)@) == findings(old(results)@).push(max_conn_finding(opt_str(*v))),
{
    let n: u64 = match v {
        Some(x) => numeric_or_zero_exec(x.as_str()),
        None => 0,
    };
    let r = if n >= 100 {
        let mut d = String::new();
        push_decimal(&mut d, n);
        CheckResult::ok("max_connections", d.as_str())
    } else {
        let mut d = String::new();
        push_decimal(&mut d, n);
        d.append(" — recommend ≥100");
        CheckResult::warn("max_connections", d.as_str()).with_fix("Set max_connections=200", "/etc/mysql/conf.d/flux.cnf", "max_connections=200")
    };
    push_result(results, r);
}

fn flush_part(v: &Option<String>, results: &mut Vec<CheckResult>)
    ensures
        findings(final(results)@) == findings(old(results)@) + flush_findings(opt_str(*v)),
{
    match v {
        Some(x) => {
            if is_lit(x.as_str(), "1") {
                push_result(results, CheckResult::ok("innodb_flush_log_at_trx_commit", "1 (full durability)"));
            } else {
                let mut d = concat_str("'", x.as_str());
                d.append("' — value 2 risks data loss on crash");
                push_result(results, CheckResult::warn("innodb_flush_log_at_trx_commit", d.as_str()));
            }
        },
        None => {},
    }
    assert(findings(results@) =~= findings(old(results)@) + flush_findings(opt_str(*v)));
}

/// MySQL/MariaDB findings: buffer pool (75% of the MySQL RAM share), redo
/// log size, query cache (before 8.0 and on MariaDB), slow query log,
/// connections, flush policy and temporary tables.
pub fn check(ctx: &SystemContext, facts: &MysqlFacts) -> (results: Vec<CheckResult>)
    requires
        mysql_sizes_fit(ctx.mysql_ram_mb as nat),
    ensures
        findings(results@) == mysql_findings(*ctx, *facts),
{
    let mut results: Vec<CheckResult> = Vec::new();
    if !ctx.mysql_running {
        push_result(&mut results, CheckResult::info("MySQL/MariaDB", "Not running locally — skipping"));
        assert(findings(results@) =~= mysql_findings(*ctx, *facts));
        return results;
    }
    match &facts.version {
        Some(v) => push_result(&mut results, CheckResult::info("MySQL Version", v.as_str())),
        None => {},
    }
    let ghost a1 = findings(results@);
    assert(a1 =~= match opt_str(facts.version) {
        Some(v) => seq![finding(Status::Info, "MySQL Version"@, v)],
        None => Seq::<Finding>::empty(),
    });
    let pool = ctx.mysql_ram_mb * 75 / 100;
    let pool_mb = if pool >= 128 { pool } else { 128 };
    let mut hint = String::from_str("≥");
    push_decimal(&mut hint, pool_mb);
    hint.append("MB (75% of MySQL RAM share)");
    check_mysql_var("innodb_buffer_pool_size", pool_mb * 1024 * 1024, hint.as_str(), &facts.innodb_buffer_pool_size, &mut results);
    check_mysql_var("innodb_log_file_size", 256 * 1024 * 1024, "≥256MB", &facts.innodb_log_file_size, &mut results);
    let ghost a2 = findings(results@);
    let ghost pool_s = recommended_pool_mb(ctx.mysql_ram_mb as nat);
    assert(a2 =~= a1 + seq![
        mysql_var_finding(
            "innodb_buffer_pool_size"@,
            pool_s * 1024 * 1024,
            "≥"@ + decimal(pool_s) + "MB (75% of MySQL RAM share)"@,
            opt_str(facts.innodb_buffer_pool_size),
        ),
        mysql_var_finding("innodb_log_file_size"@, 256 * 1024 * 1024, "≥256MB"@, opt_str(facts.innodb_log_file_size)),
    ]);
    let qc = query_cache_relevant(&facts.version);
    if qc {
        query_cache_part(&facts.query_cache_type, &mut results);
    }
    let ghost a3 = findings(results@);
    assert(a3 =~= a2 + (if qc { query_cache_findings(opt_str(facts.query_cache_type)) } else { Seq::<Finding>::empty() }));
    slow_log_part(&facts.slow_query_log, &facts.long_query_time, facts.long_query_time_above_one, &mut results);
    max_conn_part(&facts.max_connections, &mut results);
    flush_part(&facts.innodb_flush_log_at_trx_commit, &mut results);
    check_mysql_var("tmp_table_size", 64 * 1024 * 1024, "≥64MB", &facts.tmp_table_size, &mut results);
    let ghost a4 = findings(results@);
    assert(a4 =~= a3 + slow_log_findings(opt_str(facts.slow_query_log), opt_str(facts.long_query_time), facts.long_query_time_above_one)
        + seq![max_conn_finding(opt_str(facts.max_connections))] + flush_findings(opt_str(facts.innodb_flush_log_at_trx_commit))
        + seq![mysql_var_finding("tmp_table_size"@, 64 * 1024 * 1024, "≥64MB"@, opt_str(facts.tmp_table_size))]);
    assert(findings(results@) =~= mysql_findings(*ctx, *facts));
    results
}

} // verus!
