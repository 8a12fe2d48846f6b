//! System context: CPU, memory, co-located services, PHP RAM budget and
//! the Laravel version.
use vstd::prelude::*;
use crate::text::{
    before_char, before_char_slice, count_matches, count_matches_exec, decimal, eq_chars,
    first_index, first_with_prefix, first_with_prefix_exec, is_ws, lines, lines_exec,
    matches_at, parse_u32, parse_u32_spec, parse_u64, parse_unsigned, push_decimal, seqs_of,
    split_ws, split_ws_exec, to_chars, trim, trim_slice,
};
use crate::types::{findings, finding, push_result, CheckResult, Finding, Status, SystemContext};

verus! {

/// Number of `processor\t` entries in `/proc/cpuinfo` (1 when unreadable).
pub open spec fn cpu_count_of(cpuinfo: Option<Seq<char>>) -> nat {
    match cpuinfo {
        Some(c) => count_matches(c, "processor\t"@),
        None => 1,
    }
}

pub fn cpu_count(cpuinfo: &Option<String>) -> (r: usize)
    ensures
        r == cpu_count_of(
            match cpuinfo {
                Some(c) => Some(c@),
                None => None,
            },
        ),
{
    match cpuinfo {
        Some(c) => {
            let chars = to_chars(c.as_str());
            let p = to_chars("processor\t");
            assert(p@.len() > 0) by {
                reveal_strlit("processor\t");
            }
            count_matches_exec(chars.as_slice(), p.as_slice())
        },
        None => 1,
    }
}

/// A `Key: <n> kB` field of a `/proc` file, in MiB (0 when absent or
/// unreadable): the first line starting with `key`, its second token.
pub open spec fn kb_field_mb(content: Seq<char>, key: Seq<char>) -> nat {
    let kb = match first_with_prefix(lines(content), key) {
        Some(l) => if split_ws(l).len() > 1 {
            match parse_unsigned(split_ws(l)[1], u64::MAX as nat) {
                Some(n) => n,
                None => 0nat,
            }
        } else {
            0nat
        },
        None => 0nat,
    };
    kb / 1024
}

fn kb_field_mb_exec(ls: &Vec<Vec<char>>, key: &str) -> (r: u64)
    ensures
        forall|content: Seq<char>| seqs_of(ls@) == lines(content) ==> r == kb_field_mb(content, key@),
{
    let k = to_chars(key);
    let kb: u64 = match first_with_prefix_exec(ls, k.as_slice()) {
        Some(i) => {
            let parts = split_ws_exec(ls[i].as_slice());
            if parts.len() > 1 {
                match parse_u64(parts[1].as_slice()) {
                    Some(n) => n,
                    None => 0,
                }
            } else {
                0
            }
        },
        None => 0,
    };
    kb / 1024
}

/// Resident set size in MiB from `/proc/<pid>/status`.
pub fn rss_mb_from_status(status: &str) -> (r: u64)
    ensures
        r == kb_field_mb(status@, "VmRSS:"@),
{
    let c = to_chars(status);
    let ls = lines_exec(c.as_slice());
    kb_field_mb_exec(&ls, "VmRSS:")
}

/// Total, available and used swap memory in MiB from `/proc/meminfo`.
pub open spec fn meminfo_of(content: Seq<char>) -> (nat, nat, nat) {
    let swap_total = kb_field_mb(content, "SwapTotal:"@);
    let swap_free = kb_field_mb(content, "SwapFree:"@);
    (
        kb_field_mb(content, "MemTotal:"@),
        kb_field_mb(content, "MemAvailable:"@),
        if swap_total >= swap_free { (swap_total - swap_free) as nat } else { 0 },
    )
}

pub fn read_meminfo(content: &str) -> (r: (u64, u64, u64))
    ensures
        (r.0 as nat, r.1 as nat, r.2 as nat) == meminfo_of(content@),
{
    let c = to_chars(content);
    let ls = lines_exec(c.as_slice());
    let total = kb_field_mb_exec(&ls, "MemTotal:");
    let available = kb_field_mb_exec(&ls, "MemAvailable:");
    let swap_total = kb_field_mb_exec(&ls, "SwapTotal:");
    let swap_free = kb_field_mb_exec(&ls, "SwapFree:");
    let swap_used = if swap_total >= swap_free { swap_total - swap_free } else { 0 };
    (total, available, swap_used)
}

/// A process id: a directory name of `/proc` that parses as `u32`.
pub fn parse_pid(name: &str) -> (r: Option<u32>)
    ensures
        r == parse_u32_spec(name@),
{
    let c = to_chars(name);
    parse_u32(c.as_slice())
}

/// The process name read from `/proc/<pid>/comm`, trimmed, is one of `names`.
pub fn comm_matches(comm: &str, names: &Vec<String>) -> (r: bool)
    ensures
        r == exists|i: int| 0 <= i < names@.len() && names@[i]@ == trim(comm@),
{
    let c = to_chars(comm);
    let t = trim_slice(c.as_slice());
    let mut i: usize = 0;
    while i < names.len()
        invariant
            i <= names@.len(),
            t@ == trim(comm@),
            forall|j: int| 0 <= j < i ==> names@[j]@ != trim(comm@),
        decreases names@.len() - i,
    {
        let n = to_chars(names[i].as_str());
        if eq_chars(n.as_slice(), t) {
            return true;
        }
        i += 1;
    }
    false
}

/// End of the whitespace run that starts at `a`.
pub open spec fn ws_run_end(s: Seq<char>, a: int) -> int
    decreases s.len() - a,
{
    if 0 <= a < s.len() && is_ws(s[a]) {
        ws_run_end(s, a + 1)
    } else {
        a
    }
}

/// The first capture of `const\s+VERSION\s*=\s*'([^']+)'` for a match that
/// starts at `p` (`\s` is Unicode whitespace). Each whitespace run is
/// followed by a non-whitespace character, so it is consumed whole, and
/// `[^']+` runs to the next `'`.
pub open spec fn version_capture_at(s: Seq<char>, p: int) -> Option<Seq<char>> {
    let a = p + 5;
    let c = ws_run_end(s, a);
    let d = ws_run_end(s, c + 7);
    let e = ws_run_end(s, d + 1);
    if matches_at(s, "const"@, p) && c > a && matches_at(s, "VERSION"@, c) && d < s.len() && s[d] == '='
        && e < s.len() && s[e] == '\'' {
        match first_index(s.skip(e + 1), '\'') {
            Some(k) => if k > 0 {
                Some(s.subrange(e + 1, e + 1 + k))
            } else {
                None
            },
            None => None,
        }
    } else {
        None
    }
}

/// The capture of the leftmost match of `const\s+VERSION\s*=\s*'([^']+)'`
/// in `s`, as `Regex::captures` finds it.
#[verifier::opaque]
pub open spec fn laravel_version_in(s: Seq<char>) -> Option<Seq<char>> {
    if exists|p: int| 0 <= p && #[trigger] version_capture_at(s, p) is Some {
        version_capture_at(
            s,
            choose|p: int|
                0 <= p && #[trigger] version_capture_at(s, p) is Some && forall|q: int|
                    0 <= q < p ==> version_capture_at(s, q) is None,
        )
    } else {
        None
    }
}

/// Runs `regex::Regex::captures` with `const\s+VERSION\s*=\s*'([^']+)'` on
/// the content of Laravel's `Application.php` and returns the first capture
/// group. The contract states the regex's meaning: the capture of the
/// leftmost match, with `\s` the Unicode whitespace class (the pattern
/// always compiles).
#[verifier::external_body]
fn find_version_constant(content: &str) -> (r: Option<String>)
    ensures
        match r {
            Some(v) => laravel_version_in(content@) == Some(v@),
            None => laravel_version_in(content@) is None,
        },
{
    let re = regex::Regex::new(r"const\s+VERSION\s*=\s*'([^']+)'").ok()?;
    let caps = re.captures(content)?;
    caps.get(1).map(|m| m.as_str().to_string())
}

/// Laravel version and its major number (the part before the first `.`).
pub open spec fn laravel_version_of(application_php: Option<Seq<char>>) -> (Option<Seq<char>>, Option<u32>) {
    match application_php {
        Some(c) => match laravel_version_in(c) {
            Some(v) => (Some(v), parse_u32_spec(before_char(v, '.'))),
            None => (None, None),
        },
        None => (None, None),
    }
}

/// Reads `VERSION` from the content of Laravel's `Application.php`.
pub fn detect_laravel_version(application_php: &Option<String>) -> (r: (Option<String>, Option<u32>))
    ensures
        (
            match r.0 {
                Some(v) => Some(v@),
                None => None,
            },
            r.1,
        ) == laravel_version_of(
            match application_php {
                Some(c) => Some(c@),
                None => None,
            },
        ),
{
    match application_php {
        Some(c) => match find_version_constant(c.as_str()) {
            Some(v) => {
                let chars = to_chars(v.as_str());
                let major = parse_u32(before_char_slice(chars.as_slice(), '.'));
                (Some(v), major)
            },
            None => (None, None),
        },
        None => (None, None),
    }
}

/// A service found among the running processes.
#[derive(Debug, Clone, Copy, PartialEq, Eq, Structural)]
pub struct ServiceFacts {
    pub running: bool,
    pub pid: Option<u32>,
    pub rss_mb: u64,
}

/// Facts read from `/proc` and the app directory.
pub struct SystemFacts {
    /// `/proc/cpuinfo`, when readable.
    pub cpuinfo: Option<String>,
    /// `/proc/meminfo` (empty when unreadable).
    pub meminfo: String,
    pub mysql: ServiceFacts,
    pub redis: ServiceFacts,
    /// `vendor/laravel/framework/src/Illuminate/Foundation/Application.php`, when readable.
    pub application_php: Option<String>,
}

/// `a - b`, or 0 when `b > a`.
pub open spec fn sat_sub(a: nat, b: nat) -> nat {
    if a >= b { (a - b) as nat } else { 0 }
}

/// PHP RAM budget: total RAM minus 512 MiB for the OS, the MySQL and Redis
/// resident sizes and a 10% buffer, never below zero.
pub open spec fn php_budget(total: nat, mysql: nat, redis: nat) -> nat {
    sat_sub(sat_sub(sat_sub(sat_sub(total, 512), mysql), redis), total / 10)
}

pub open spec fn pid_or_zero(p: Option<u32>) -> nat {
    match p {
        Some(x) => x as nat,
        None => 0,
    }
}

pub open spec fn opt_str(v: Option<String>) -> Option<Seq<char>> {
    match v {
        Some(s) => Some(s@),
        None => None,
    }
}

/// `ctx` is the context `gather` computes from `f`.
pub open spec fn is_context_of(ctx: SystemContext, f: SystemFacts) -> bool {
    let m = meminfo_of(f.meminfo@);
    let total = m.0;
    let available = m.1;
    let swap = m.2;
    let version = laravel_version_of(opt_str(f.application_php)).0;
    let major = laravel_version_of(opt_str(f.application_php)).1;
    &&& ctx.cpu_cores as nat == cpu_count_of(opt_str(f.cpuinfo))
    &&& ctx.total_ram_mb as nat == total
    &&& ctx.available_ram_mb as nat == available
    &&& ctx.swap_used_mb as nat == swap
    &&& ctx.mysql_running == f.mysql.running
    &&& ctx.mysql_pid == f.mysql.pid
    &&& ctx.mysql_ram_mb == f.mysql.rss_mb
    &&& ctx.redis_running == f.redis.running
    &&& ctx.redis_pid == f.redis.pid
    &&& ctx.redis_ram_mb == f.redis.rss_mb
    &&& ctx.php_ram_budget_mb as nat == php_budget(total, f.mysql.rss_mb as nat, f.redis.rss_mb as nat)
    &&& opt_str(ctx.laravel_version) == version
    &&& ctx.laravel_major == major
}

/// The findings `gather` reports.
pub open spec fn system_findings(f: SystemFacts) -> Seq<Finding> {
    let m = meminfo_of(f.meminfo@);
    let total = m.0;
    let available = m.1;
    let swap = m.2;
    let budget = php_budget(total, f.mysql.rss_mb as nat, f.redis.rss_mb as nat);
    let version = laravel_version_of(opt_str(f.application_php)).0;
    seq![
        finding(Status::Info, "CPU Cores"@, decimal(cpu_count_of(opt_str(f.cpuinfo)))),
        finding(Status::Info, "Memory"@, "Total: "@ + decimal(total) + "MB, Available: "@ + decimal(available) + "MB"@),
        if swap > 0 {
            finding(Status::Warn, "Swap Usage"@, decimal(swap) + "MB swap in use — indicates memory pressure"@)
        } else {
            finding(Status::Pass, "Swap Usage"@, "No swap in use"@)
        },
    ] + (if f.mysql.running {
        seq![finding(
            Status::Info,
            "MySQL/MariaDB"@,
            "Running (PID "@ + decimal(pid_or_zero(f.mysql.pid)) + ", ~"@ + decimal(f.mysql.rss_mb as nat) + "MB RSS)"@,
        )]
    } else {
        seq![]
    }) + (if f.redis.running {
        seq![finding(
            Status::Info,
            "Redis"@,
            "Running (PID "@ + decimal(pid_or_zero(f.redis.pid)) + ", ~"@ + decimal(f.redis.rss_mb as nat) + "MB RSS)"@,
        )]
    } else {
        seq![]
    }) + seq![
        finding(
            Status::Info,
            "PHP RAM Budget"@,
            decimal(budget) + "MB (Total "@ + decimal(total) + " - OS 512 - MySQL "@ + decimal(f.mysql.rss_mb as nat)
                + " - Redis "@ + decimal(f.redis.rss_mb as nat) + " - 10% buffer "@ + decimal(total / 10) + ")"@,
        ),
        match version {
            Some(v) => finding(Status::Info, "Laravel Version"@, v),
            None => finding(Status::Warn, "Laravel Version"@, "Could not detect Laravel version"@),
        },
    ]
}

fn running_detail(pid: Option<u32>, rss: u64) -> (r: String)
    ensures
        r@ == "Running (PID "@ + decimal(pid_or_zero(pid)) + ", ~"@ + decimal(rss as nat) + "MB RSS)"@,
{
    let mut d = String::from_str("Running (PID ");
    push_decimal(&mut d, match pid {
        Some(p) => p as u64,
        None => 0,
    });
    d.append(", ~");
    push_decimal(&mut d, rss);
    d.append("MB RSS)");
    d
}

fn basic_findings(cpu_cores: usize, total: u64, available: u64, swap: u64, results: &mut Vec<CheckResult>)
    ensures
        findings(final(results)@) == findings(old(results)@) + seq![
            finding(Status::Info, "CPU Cores"@, decimal(cpu_cores as nat)),
            finding(Status::Info, "Memory"@, "Total: "@ + decimal(total as nat) + "MB, Available: "@ + decimal(available as nat) + "MB"@),
            if swap > 0 {
                finding(Status::Warn, "Swap Usage"@, decimal(swap as nat) + "MB swap in use — indicates memory pressure"@)
            } else {
                finding(Status::Pass, "Swap Usage"@, "No swap in use"@)
            },
        ],
{
    let mut d = String::new();
    push_decimal(&mut d, cpu_cores as u64);
    push_result(results, CheckResult::info("CPU Cores", d.as_str()));
    let mut d = String::from_str("Total: ");
    push_decimal(&mut d, total);
    d.append("MB, Available: ");
    push_decimal(&mut d, available);
    d.append("MB");
    push_result(results, CheckResult::info("Memory", d.as_str()));
    if swap > 0 {
        let mut d = String::new();
        push_decimal(&mut d, swap);
        d.append("MB swap in use — indicates memory pressure");
        push_result(results, CheckResult::warn("Swap Usage", d.as_str()));
    } else {
        push_result(results, CheckResult::ok("Swap Usage", "No swap in use"));
    }
    assert(findings(results@) =~= findings(old(results)@) + seq![
        finding(Status::Info, "CPU Cores"@, decimal(cpu_cores as nat)),
        finding(Status::Info, "Memory"@, "Total: "@ + decimal(total as nat) + "MB, Available: "@ + decimal(available as nat) + "MB"@),
        if swap > 0 {
            finding(Status::Warn, "Swap Usage"@, decimal(swap as nat) + "MB swap in use — indicates memory pressure"@)
        } else {
            finding(Status::Pass, "Swap Usage"@, "No swap in use"@)
        },
    ]);
}

fn service_finding(label: &str, svc: ServiceFacts, results: &mut Vec<CheckResult>)
    ensures
        findings(final(results)@) == findings(old(results)@) + if svc.running {
            seq![finding(
                Status::Info,
                label@,
                "Running (PID "@ + decimal(pid_or_zero(svc.pid)) + ", ~"@ + decimal(svc.rss_mb as nat) + "MB RSS)"@,
            )]
        } else {
            Seq::<Finding>::empty()
        },
{
    if svc.running {
        let d = running_detail(svc.pid, svc.rss_mb);
        push_result(results, CheckResult::info(label, d.as_str()));
    }
    assert(findings(results@) =~= findings(old(results)@) + if svc.running {
        seq![finding(
            Status::Info,
            label@,
            "Running (PID "@ + decimal(pid_or_zero(svc.pid)) + ", ~"@ + decimal(svc.rss_mb as nat) + "MB RSS)"@,
        )]
    } else {
        Seq::<Finding>::empty()
    });
}

fn budget_detail(budget: u64, total: u64, mysql: u64, redis: u64) -> (d: String)
    ensures
        d@ == decimal(budget as nat) + "MB (Total "@ + decimal(total as nat) + " - OS 512 - MySQL "@ + decimal(mysql as nat)
            + " - Redis "@ + decimal(redis as nat) + " - 10% buffer "@ + decimal((total / 10) as nat) + ")"@,
{
    let mut d = String::new();
    push_decimal(&mut d, budget);
    d.append("MB (Total ");
    push_decimal(&mut d, total);
    d.append(" - OS 512 - MySQL ");
    push_decimal(&mut d, mysql);
    d.append(" - Redis ");
    push_decimal(&mut d, redis);
    d.append(" - 10% buffer ");
    push_decimal(&mut d, total / 10);
    d.append(")");
    d
}

/// System context and findings: CPU cores, memory and swap, co-located
/// MySQL and Redis, the PHP RAM budget and the Laravel version.
pub fn gather(facts: &SystemFacts) -> (r: (SystemContext, Vec<CheckResult>))
    ensures
        is_context_of(r.0, *facts),
        findings(r.1@) == system_findings(*facts),
{
    let mut results: Vec<CheckResult> = Vec::new();
    let cpu_cores = cpu_count(&facts.cpuinfo);
    let (total, available, swap) = read_meminfo(facts.meminfo.as_str());
    basic_findings(cpu_cores, total, available, swap, &mut results);
    let ghost a1 = findings(results@);
    service_finding("MySQL/MariaDB", facts.mysql, &mut results);
    service_finding("Redis", facts.redis, &mut results);
    let ghost a2 = findings(results@);
    let buffer = total / 10;
    let b1 = if total >= 512 { total - 512 } else { 0 };
    let b2 = if b1 >= facts.mysql.rss_mb { b1 - facts.mysql.rss_mb } else { 0 };
    let b3 = if b2 >= facts.redis.rss_mb { b2 - facts.redis.rss_mb } else { 0 };
    let budget = if b3 >= buffer { b3 - buffer } else { 0 };
    assert(budget as nat == php_budget(total as nat, facts.mysql.rss_mb as nat, facts.redis.rss_mb as nat));
    let d = budget_detail(budget, total, facts.mysql.rss_mb, facts.redis.rss_mb);
    push_result(&mut results, CheckResult::info("PHP RAM Budget", d.as_str()));
    let (laravel_version, laravel_major) = detect_laravel_version(&facts.application_php);
    match &laravel_version {
        Some(v) => push_result(&mut results, CheckResult::info("Laravel Version", v.as_str())),
        None => push_result(&mut results, CheckResult::warn("Laravel Version", "Could not detect Laravel version")),
    }
    let ghost a3 = findings(results@);
    assert(a3 =~= a2 + seq![
        finding(
            Status::Info,
            "PHP RAM Budget"@,
            decimal(budget as nat) + "MB (Total "@ + decimal(total as nat) + " - OS 512 - MySQL "@ + decimal(facts.mysql.rss_mb as nat)
                + " - Redis "@ + decimal(facts.redis.rss_mb as nat) + " - 10% buffer "@ + decimal((total / 10) as nat) + ")"@,
        ),
        match laravel_version_of(opt_str(facts.application_php)).0 {
            Some(v) => finding(Status::Info, "Laravel Version"@, v),
            None => finding(Status::Warn, "Laravel Version"@, "Could not detect Laravel version"@),
        },
    ]);
    assert(findings(results@) =~= system_findings(*facts));
    let ctx = SystemContext {
        cpu_cores,
        total_ram_mb: total,
        available_ram_mb: available,
        swap_used_mb: swap,
        mysql_running: facts.mysql.running,
        mysql_pid: facts.mysql.pid,
        mysql_ram_mb: facts.mysql.rss_mb,
        redis_running: facts.redis.running,
        redis_pid: facts.redis.pid,
        redis_ram_mb: facts.redis.rss_mb,
        php_ram_budget_mb: budget,
        laravel_version,
        laravel_major,
    };
    (ctx, results)
}

} // verus!
