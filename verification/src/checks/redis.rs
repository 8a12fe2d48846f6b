//! Redis memory settings.
use vstd::prelude::*;
use crate::text::{
    decimal, eq_chars, from_chars, lines, lines_exec, parse_u64, parse_unsigned, push_decimal,
    seqs_of, to_chars, trim, trim_slice, concat_str,
};
use crate::types::{findings, finding, fixed, push_result, CheckResult, Finding, Status, SystemContext};

verus! {

/// The value in `redis-cli CONFIG GET <key>` output: its second line, trimmed.
pub open spec fn config_get_value_of(text: Seq<char>) -> Option<Seq<char>> {
    if lines(text).len() > 1 {
        Some(trim(lines(text)[1]))
    } else {
        None
    }
}

pub fn config_get_value(text: &str) -> (r: Option<String>)
    ensures
        match r {
            Some(v) => config_get_value_of(text@) == Some(v@),
            None => config_get_value_of(text@) is None,
        },
{
    let c = to_chars(text);
    let ls = lines_exec(c.as_slice());
    if ls.len() > 1 {
        assert(seqs_of(ls@)[1] == ls@[1]@);
        Some(from_chars(trim_slice(ls[1].as_slice())))
    } else {
        None
    }
}

/// Redis settings read with `CONFIG GET` (`None` when unreadable).
pub struct RedisFacts {
    pub maxmemory: Option<String>,
    pub maxmemory_policy: Option<String>,
}

/// Recommended `maxmemory` in MiB: 10% of total RAM, at most 4096.
pub open spec fn recommended_mb(total_ram_mb: nat) -> nat {
    if total_ram_mb / 10 <= 4096 { total_ram_mb / 10 } else { 4096 }
}

pub open spec fn maxmemory_finding(v: Option<Seq<char>>, total_ram_mb: nat) -> Finding {
    let rec = decimal(recommended_mb(total_ram_mb));
    match v {
        Some(x) if x != "0"@ => {
            let bytes = match parse_unsigned(x, u64::MAX as nat) {
                Some(n) => n,
                None => 0nat,
            };
            finding(Status::Pass, "Redis maxmemory"@, decimal(bytes / 1048576) + "MB"@)
        },
        _ => fixed(
            finding(Status::Warn, "Redis maxmemory"@, "Not set — recommend "@ + rec + "MB (10% of total RAM, max 4GB)"@),
            "Set Redis maxmemory to "@ + rec + "mb"@,
            "redis-cli"@,
            "maxmemory "@ + rec + "mb"@,
        ),
    }
}

pub open spec fn policy_finding(v: Option<Seq<char>>) -> Finding {
    match v {
        Some(x) if x == "allkeys-lru"@ || x == "allkeys-lfu"@ => finding(Status::Pass, "Redis maxmemory-policy"@, x),
        Some(x) => fixed(
            finding(Status::Warn, "Redis maxmemory-policy"@, "'"@ + x + "' — recommend allkeys-lru or allkeys-lfu"@),
            "Set Redis maxmemory-policy to allkeys-lru"@,
            "redis-cli"@,
            "maxmemory-policy allkeys-lru"@,
        ),
        None => finding(Status::Warn, "Redis maxmemory-policy"@, "Could not read"@),
    }
}

pub open spec fn opt_str(v: Option<String>) -> Option<Seq<char>> {
    match v {
        Some(s) => Some(s@),
        None => None,
    }
}

pub open spec fn redis_findings(ctx: SystemContext, f: RedisFacts) -> Seq<Finding> {
    if !ctx.redis_running {
        seq![finding(Status::Info, "Redis"@, "Not running locally — skipping"@)]
    } else {
        seq![
            maxmemory_finding(opt_str(f.maxmemory), ctx.total_ram_mb as nat),
            policy_finding(opt_str(f.maxmemory_policy)),
        ]
    }
}

fn is_lit(v: &str, lit: &str) -> (r: bool)
    ensures
        r == (v@ == lit@),
{
    let a = to_chars(v);
    let b = to_chars(lit);
    eq_chars(a.as_slice(), b.as_slice())
}

/// Redis findings: `maxmemory` (recommended 10% of RAM, at most 4 GiB) and
/// an eviction policy over all keys.
pub fn check(ctx: &SystemContext, facts: &RedisFacts) -> (results: Vec<CheckResult>)
    ensures
        findings(results@) == redis_findings(*ctx, *facts),
{
    let mut results: Vec<CheckResult> = Vec::new();
    if !ctx.redis_running {
        push_result(&mut results, CheckResult::info("Redis", "Not running locally — skipping"));
        assert(findings(results@) =~= redis_findings(*ctx, *facts));
        return results;
    }
    let tenth = ctx.total_ram_mb / 10;
    let rec: u64 = if tenth <= 4096 { tenth } else { 4096 };
    let r = match &facts.maxmemory {
        Some(v) if !is_lit(v.as_str(), "0") => {
            let c = to_chars(v.as_str());
            let bytes: u64 = match parse_u64(c.as_slice()) {
                Some(n) => n,
                None => 0,
            };
            let mut d = String::new();
            push_decimal(&mut d, bytes / 1048576);
            d.append("MB");
            CheckResult::ok("Redis maxmemory", d.as_str())
        },
        _ => {
            let mut d = String::from_str("Not set — recommend ");
            push_decimal(&mut d, rec);
            d.append("MB (10% of total RAM, max 4GB)");
            let mut desc = String::from_str("Set Redis maxmemory to ");
            push_decimal(&mut desc, rec);
            desc.append("mb");
            let mut content = String::from_str("maxmemory ");
            push_decimal(&mut content, rec);
            content.append("mb");
            CheckResult::warn("Redis maxmemory", d.as_str()).with_fix(desc.as_str(), "redis-cli", content.as_str())
        },
    };
    push_result(&mut results, r);
    let r = match &facts.maxmemory_policy {
        Some(v) if is_lit(v.as_str(), "allkeys-lru") || is_lit(v.as_str(), "allkeys-lfu") => CheckResult::ok(
            "Redis maxmemory-policy",
            v.as_str(),
        ),
        Some(v) => {
            let mut d = concat_str("'", v.as_str());
            d.append("' — recommend allkeys-lru or allkeys-lfu");
            CheckResult::warn("Redis maxmemory-policy", d.as_str()).with_fix(
                "Set Redis maxmemory-policy to allkeys-lru",
                "redis-cli",
                "maxmemory-policy allkeys-lru",
            )
        },
        None => CheckResult::warn("Redis maxmemory-policy", "Could not read"),
    };
    push_result(&mut results, r);
    assert(findings(results@) =~= redis_findings(*ctx, *facts));
    results
}

} // verus!
