//! PHP-ZTS: required extensions, OPcache, realpath cache and memory limit.
use vstd::prelude::*;
use crate::text::{
    decimal, eq_chars, from_chars, parse_i64, parse_signed, parse_u64,
    parse_unsigned, push_chars, push_decimal, push_signed_decimal, signed_decimal, to_chars,
    trim, trim_slice, concat_str,
};
use crate::types::{findings, finding, fixed, push_result, CheckResult, Finding, Status, SystemContext};

verus! {

/// Extensions that must be loaded.
pub open spec fn required_extensions_spec() -> Seq<Seq<char>> {
    seq!["bcmath"@, "pdo"@, "pdo_mysql"@, "redis"@, "gd"@, "intl"@, "zip"@, "opcache"@]
}

pub fn required_extensions() -> (r: Vec<String>)
    ensures
        r@.map_values(|s: String| s@) == required_extensions_spec(),
{
    let mut r: Vec<String> = Vec::new();
    r.push(String::from_str("bcmath"));
    r.push(String::from_str("pdo"));
    r.push(String::from_str("pdo_mysql"));
    r.push(String::from_str("redis"));
    r.push(String::from_str("gd"));
    r.push(String::from_str("intl"));
    r.push(String::from_str("zip"));
    r.push(String::from_str("opcache"));
    assert(r@.map_values(|s: String| s@) =~= required_extensions_spec());
    r
}

/// A decimal number, 0 when it does not parse as `u64`.
pub open spec fn number_or_zero(s: Seq<char>) -> nat {
    match parse_unsigned(s, u64::MAX as nat) {
        Some(n) => n,
        None => 0nat,
    }
}

/// Value of a size setting such as `128M`: a number with an optional
/// `G`, `M` or `K` suffix (either case), 0 when the number does not parse.
pub open spec fn php_size(val: Seq<char>) -> nat {
    let v = trim(val);
    if v.len() > 0 && (v.last() == 'G' || v.last() == 'g') {
        number_or_zero(v.drop_last()) * 1073741824
    } else if v.len() > 0 && (v.last() == 'M' || v.last() == 'm') {
        number_or_zero(v.drop_last()) * 1048576
    } else if v.len() > 0 && (v.last() == 'K' || v.last() == 'k') {
        number_or_zero(v.drop_last()) * 1024
    } else {
        number_or_zero(v)
    }
}

fn num_or_zero(s: &[char]) -> (r: u64)
    ensures
        r == number_or_zero(s@),
{
    match parse_u64(s) {
        Some(n) => n,
        None => 0,
    }
}

/// Parses a PHP size setting (`128M`, `4096K`, `1G`, `512`) into bytes.
pub fn parse_php_size(val: &str) -> (r: Option<u64>)
    ensures
        php_size(val@) <= u64::MAX ==> r == Some(php_size(val@) as u64),
        php_size(val@) > u64::MAX ==> r is None,
{
    let c = to_chars(val);
    let v = trim_slice(c.as_slice());
    let n = v.len();
    if n > 0 && (v[n - 1] == 'G' || v[n - 1] == 'g') {
        let x = num_or_zero(&v[0..n - 1]);
        assert(v@.subrange(0, n - 1) =~= v@.drop_last());
        x.checked_mul(1073741824)
    } else if n > 0 && (v[n - 1] == 'M' || v[n - 1] == 'm') {
        let x = num_or_zero(&v[0..n - 1]);
        assert(v@.subrange(0, n - 1) =~= v@.drop_last());
        x.checked_mul(1048576)
    } else if n > 0 && (v[n - 1] == 'K' || v[n - 1] == 'k') {
        let x = num_or_zero(&v[0..n - 1]);
        assert(v@.subrange(0, n - 1) =~= v@.drop_last());
        x.checked_mul(1024)
    } else {
        Some(num_or_zero(v))
    }
}

/// Output of `ini_get`/`extension_loaded` evaluated by the FrankenPHP CLI:
/// the standard output, trimmed, when the command ran.
pub open spec fn ini_value(raw: Option<String>) -> Option<Seq<char>> {
    match raw {
        Some(s) => Some(trim(s@)),
        None => None,
    }
}

/// An integer setting; 0 when it does not parse.
pub open spec fn ini_int(raw: Option<String>) -> int {
    match ini_value(raw) {
        Some(v) => match parse_signed(v, i64::MIN as int, i64::MAX as int) {
            Some(n) => n,
            None => 0,
        },
        None => 0,
    }
}

fn ini_value_exec(raw: &Option<String>) -> (r: Option<Vec<char>>)
    ensures
        match r {
            Some(v) => ini_value(*raw) == Some(v@),
            None => ini_value(*raw) is None,
        },
{
    match raw {
        Some(s) => {
            let c = to_chars(s.as_str());
            Some(crate::text::copy_chars(trim_slice(c.as_slice())))
        },
        None => None,
    }
}

fn ini_int_exec(raw: &Option<String>) -> (r: i64)
    ensures
        r == ini_int(*raw),
{
    match ini_value_exec(raw) {
        Some(v) => match parse_i64(v.as_slice()) {
            Some(n) => n,
            None => 0,
        },
        None => 0,
    }
}

fn is_lit(v: &[char], lit: &str) -> (r: bool)
    ensures
        r == (v@ == lit@),
{
    let l = to_chars(lit);
    eq_chars(v, l.as_slice())
}

pub open spec fn ini_bool_finding(php_ini: Seq<char>, key: Seq<char>, expected: bool, raw: Option<String>) -> Finding {
    let v = ini_value(raw);
    let is_on = v == Some("1"@) || v == Some("On"@) || v == Some("on"@);
    if is_on == expected {
        finding(Status::Pass, key, if is_on { "On"@ } else { "Off"@ })
    } else {
        let ev = if expected { "1"@ } else { "0"@ };
        fixed(
            finding(
                Status::Fail,
                key,
                "Expected "@ + (if expected { "On"@ } else { "Off"@ }) + " — set "@ + key + "="@ + ev + " in "@ + php_ini,
            ),
            "Set "@ + key + "="@ + ev,
            php_ini,
            key + "="@ + ev,
        )
    }
}

/// A boolean setting compared with its expected value.
pub fn check_ini_bool(php_ini: &str, key: &str, expected: bool, raw: &Option<String>, results: &mut Vec<CheckResult>)
    ensures
        findings(final(results)@) == findings(old(results)@).push(ini_bool_finding(php_ini@, key@, expected, *raw)),
{
    let is_on = match ini_value_exec(raw) {
        Some(v) => is_lit(v.as_slice(), "1") || is_lit(v.as_slice(), "On") || is_lit(v.as_slice(), "on"),
        None => false,
    };
    let r = if is_on == expected {
        CheckResult::ok(key, if is_on { "On" } else { "Off" })
    } else {
        let ev = if expected { "1" } else { "0" };
        let mut d = String::from_str("Expected ");
        d.append(if expected { "On" } else { "Off" });
        d.append(" — set ");
        d.append(key);
        d.append("=");
        d.append(ev);
        d.append(" in ");
        d.append(php_ini);
        let mut desc = concat_str("Set ", key);
        desc.append("=");
        desc.append(ev);
        let mut content = concat_str(key, "=");
        content.append(ev);
        CheckResult::fail(key, d.as_str()).with_fix(desc.as_str(), php_ini, content.as_str())
    };
    push_result(results, r);
}

pub open spec fn ini_min_finding(php_ini: Seq<char>, key: Seq<char>, min: int, raw: Option<String>) -> Finding {
    let v = ini_int(raw);
    if v >= min {
        finding(Status::Pass, key, signed_decimal(v))
    } else {
        fixed(
            finding(Status::Fail, key, signed_decimal(v) + " — should be ≥"@ + signed_decimal(min)),
            "Set "@ + key + "="@ + signed_decimal(min),
            php_ini,
            key + "="@ + signed_decimal(min),
        )
    }
}

/// An integer setting compared with its minimum.
pub fn check_ini_min(php_ini: &str, key: &str, min: i64, raw: &Option<String>, results: &mut Vec<CheckResult>)
    ensures
        findings(final(results)@) == findings(old(results)@).push(ini_min_finding(php_ini@, key@, min as int, *raw)),
{
    let v = ini_int_exec(raw);
    let r = if v >= min {
        let mut d = String::new();
        push_signed_decimal(&mut d, v);
        CheckResult::ok(key, d.as_str())
    } else {
        let mut d = String::new();
        push_signed_decimal(&mut d, v);
        d.append(" — should be ≥");
        push_signed_decimal(&mut d, min);
        let mut desc = concat_str("Set ", key);
        desc.append("=");
        push_signed_decimal(&mut desc, min);
        let mut content = concat_str(key, "=");
        push_signed_decimal(&mut content, min);
        CheckResult::fail(key, d.as_str()).with_fix(desc.as_str(), php_ini, content.as_str())
    };
    push_result(results, r);
}

/// Settings and extension states read through the FrankenPHP CLI (raw
/// standard output of each `php-cli -r` evaluation, `None` when it could
/// not be run).
pub struct PhpFacts {
    pub php_ini_exists: bool,
    /// `extension_loaded` output for each of [`required_extensions`], in order.
    pub extensions_loaded: Vec<Option<String>>,
    pub opcache_enable: Option<String>,
    pub opcache_validate_timestamps: Option<String>,
    pub opcache_memory_consumption: Option<String>,
    pub opcache_max_accelerated_files: Option<String>,
    pub opcache_interned_strings_buffer: Option<String>,
    pub opcache_jit_buffer_size: Option<String>,
    pub opcache_preload: Option<String>,
    pub realpath_cache_size: Option<String>,
    pub realpath_cache_ttl: Option<String>,
    pub memory_limit: Option<String>,
}

/// The size arithmetic of the check stays within `u64`.
pub open spec fn php_sizes_fit(f: PhpFacts, ctx: SystemContext) -> bool {
    &&& (ini_value(f.realpath_cache_size) matches Some(v) ==> php_size(v) <= u64::MAX)
    &&& (ini_value(f.memory_limit) matches Some(v) ==> php_size(v) <= u64::MAX && (php_size(v) / (1024
        * 1024)) * ctx.cpu_cores <= u64::MAX)
}

/// Whether [`check`] can be given these facts.
pub fn sizes_fit(f: &PhpFacts, ctx: &SystemContext) -> (r: bool)
    ensures
        r == php_sizes_fit(*f, *ctx),
{
    let rp_ok = match ini_value_exec(&f.realpath_cache_size) {
        Some(v) => {
            let s = from_chars(v.as_slice());
            parse_php_size(s.as_str()).is_some()
        },
        None => true,
    };
    let ml_ok = match ini_value_exec(&f.memory_limit) {
        Some(v) => {
            let s = from_chars(v.as_slice());
            match parse_php_size(s.as_str()) {
                Some(b) => (b / (1024 * 1024)).checked_mul(ctx.cpu_cores as u64).is_some(),
                None => false,
            }
        },
        None => true,
    };
    rp_ok && ml_ok
}

pub open spec fn extension_findings(php_ini: Seq<char>, loaded: Seq<Option<String>>) -> Seq<Finding> {
    Seq::new(
        loaded.len(),
        |i: int|
            if ini_value(loaded[i]) == Some("1"@) {
                finding(Status::Pass, "PHP ext: "@ + required_extensions_spec()[i], "loaded"@)
            } else {
                finding(
                    Status::Fail,
                    "PHP ext: "@ + required_extensions_spec()[i],
                    "not loaded — install and enable in "@ + php_ini,
                )
            },
    )
}

pub open spec fn jit_finding(php_ini: Seq<char>, raw: Option<String>) -> Finding {
    match ini_value(raw) {
        Some(v) if v.len() > 0 && v != "0"@ => finding(Status::Pass, "opcache.jit_buffer_size"@, v),
        _ => fixed(
            finding(Status::Warn, "opcache.jit_buffer_size"@, "Not set — recommend 128M for Octane workers"@),
            "Set opcache.jit_buffer_size=128M"@,
            php_ini,
            "opcache.jit_buffer_size=128M"@,
        ),
    }
}

/// A JIT buffer left unset, empty, or at PHP's default of 0 never passes:
/// the finding warns and offers `opcache.jit_buffer_size=128M` in the
/// php.ini. Any other value passes and is shown as it is.
pub proof fn law_jit_buffer_default_warns(php_ini: Seq<char>, raw: Option<String>)
    ensures
        jit_finding(php_ini, raw).label == "opcache.jit_buffer_size"@,
        (ini_value(raw) is None || ini_value(raw) == Some(Seq::<char>::empty()) || ini_value(raw)
            == Some("0"@)) ==> {
            &&& jit_finding(php_ini, raw).status == Status::Warn
            &&& jit_finding(php_ini, raw).fix matches Some(fx) && fx.file == php_ini && fx.content
                == "opcache.jit_buffer_size=128M"@
        },
        ini_value(raw) is Some && (ini_value(raw)->0).len() > 0 && ini_value(raw)->0 != "0"@
            ==> jit_finding(php_ini, raw).status == Status::Pass && jit_finding(php_ini, raw).detail
            == ini_value(raw)->0,
{
}

pub open spec fn preload_finding(raw: Option<String>) -> Finding {
    match ini_value(raw) {
        Some(v) if v.len() > 0 => finding(
            Status::Warn,
            "opcache.preload"@,
            "Set to '"@ + v + "' — should NOT be set with Octane worker mode"@,
        ),
        _ => finding(Status::Pass, "opcache.preload"@, "Not set (correct for Octane)"@),
    }
}

pub open spec fn realpath_size_finding(php_ini: Seq<char>, raw: Option<String>) -> Finding {
    match ini_value(raw) {
        Some(v) if v.len() > 0 => if php_size(v) < 4096 * 1024 {
            fixed(
                finding(Status::Warn, "realpath_cache_size"@, v + " — recommend ≥4096K for large apps"@),
                "Set realpath_cache_size=4096K"@,
                php_ini,
                "realpath_cache_size=4096K"@,
            )
        } else {
            finding(Status::Pass, "realpath_cache_size"@, v)
        },
        _ => fixed(
            finding(Status::Warn, "realpath_cache_size"@, "Not set — recommend 4096K"@),
            "Set realpath_cache_size=4096K"@,
            php_ini,
            "realpath_cache_size=4096K"@,
        ),
    }
}

pub open spec fn realpath_ttl_finding(php_ini: Seq<char>, raw: Option<String>) -> Finding {
    let ttl = ini_int(raw);
    if ttl < 600 {
        fixed(
            finding(Status::Warn, "realpath_cache_ttl"@, signed_decimal(ttl) + " — recommend ≥600"@),
            "Set realpath_cache_ttl=600"@,
            php_ini,
            "realpath_cache_ttl=600"@,
        )
    } else {
        finding(Status::Pass, "realpath_cache_ttl"@, signed_decimal(ttl))
    }
}

pub open spec fn memory_limit_findings(raw: Option<String>, ctx: SystemContext) -> Seq<Finding> {
    match ini_value(raw) {
        Some(v) if v.len() > 0 => {
            let mb = php_size(v) / (1024 * 1024);
            let worker_total = (mb * ctx.cpu_cores) as nat;
            seq![
                if mb < 128 {
                    finding(Status::Warn, "memory_limit"@, v + " — may be too low for Octane workers"@)
                } else {
                    finding(Status::Pass, "memory_limit"@, v)
                },
            ] + if worker_total > ctx.php_ram_budget_mb {
                seq![finding(
                    Status::Warn,
                    "Worker Memory Risk"@,
                    decimal(ctx.cpu_cores as nat) + " workers × "@ + decimal(mb) + "MB = "@ + decimal(worker_total)
                        + "MB > "@ + decimal(ctx.php_ram_budget_mb as nat) + "MB PHP RAM budget"@,
                )]
            } else {
                seq![]
            }
        },
        _ => seq![finding(Status::Warn, "memory_limit"@, "Could not read"@)],
    }
}

/// All PHP findings.
pub open spec fn php_findings(php_ini: Seq<char>, f: PhpFacts, ctx: SystemContext) -> Seq<Finding> {
    seq![
        if f.php_ini_exists {
            finding(Status::Pass, "PHP-ZTS php.ini"@, php_ini + " found"@)
        } else {
            finding(Status::Fail, "PHP-ZTS php.ini"@, php_ini + " not found"@)
        },
    ] + extension_findings(php_ini, f.extensions_loaded@) + seq![
        ini_bool_finding(php_ini, "opcache.enable"@, true, f.opcache_enable),
        ini_bool_finding(php_ini, "opcache.validate_timestamps"@, false, f.opcache_validate_timestamps),
        ini_min_finding(php_ini, "opcache.memory_consumption"@, 256, f.opcache_memory_consumption),
        ini_min_finding(php_ini, "opcache.max_accelerated_files"@, 20000, f.opcache_max_accelerated_files),
        ini_min_finding(php_ini, "opcache.interned_strings_buffer"@, 32, f.opcache_interned_strings_buffer),
        jit_finding(php_ini, f.opcache_jit_buffer_size),
        preload_finding(f.opcache_preload),
        realpath_size_finding(php_ini, f.realpath_cache_size),
        realpath_ttl_finding(php_ini, f.realpath_cache_ttl),
    ] + memory_limit_findings(f.memory_limit, ctx)
}

fn extensions_part(php_ini: &str, loaded: &Vec<Option<String>>, results: &mut Vec<CheckResult>)
    requires
        loaded@.len() == required_extensions_spec().len(),
    ensures
        findings(final(results)@) == findings(old(results)@) + extension_findings(php_ini@, loaded@),
{
    let exts = required_extensions();
    let mut i: usize = 0;
    while i < loaded.len()
        invariant
            loaded@.len() == required_extensions_spec().len(),
            exts@.map_values(|s: String| s@) == required_extensions_spec(),
            i <= loaded@.len(),
            findings(results@) == findings(old(results)@) + extension_findings(php_ini@, loaded@).subrange(0, i as int),
        decreases loaded@.len() - i,
    {
        assert(exts@.map_values(|s: String| s@)[i as int] == exts@[i as int]@);
        let label = concat_str("PHP ext: ", exts[i].as_str());
        let is_one = match ini_value_exec(&loaded[i]) {
            Some(v) => is_lit(v.as_slice(), "1"),
            None => false,
        };
        let r = if is_one {
            CheckResult::ok(label.as_str(), "loaded")
        } else {
            let d = concat_str("not loaded — install and enable in ", php_ini);
            CheckResult::fail(label.as_str(), d.as_str())
        };
        push_result(results, r);
        i += 1;
        assert(findings(results@) =~= findings(old(results)@) + extension_findings(php_ini@, loaded@).subrange(0, i as int));
    }
    assert(extension_findings(php_ini@, loaded@).subrange(0, i as int) =~= extension_findings(php_ini@, loaded@));
}

fn settings_part(php_ini: &str, f: &PhpFacts, results: &mut Vec<CheckResult>)
    requires
        ini_value(f.realpath_cache_size) matches Some(v) ==> php_size(v) <= u64::MAX,
    ensures
        findings(final(results)@) == findings(old(results)@) + seq![
            jit_finding(php_ini@, f.opcache_jit_buffer_size),
            preload_finding(f.opcache_preload),
            realpath_size_finding(php_ini@, f.realpath_cache_size),
            realpath_ttl_finding(php_ini@, f.realpath_cache_ttl),
        ],
{
    let r = match ini_value_exec(&f.opcache_jit_buffer_size) {
        Some(v) if v.len() > 0 && !is_lit(v.as_slice(), "0") => {
            let d = from_chars(v.as_slice());
            CheckResult::ok("opcache.jit_buffer_size", d.as_str())
        },
        _ => CheckResult::warn("opcache.jit_buffer_size", "Not set — recommend 128M for Octane workers").with_fix(
            "Set opcache.jit_buffer_size=128M",
            php_ini,
            "opcache.jit_buffer_size=128M",
        ),
    };
    push_result(results, r);
    let r = match ini_value_exec(&f.opcache_preload) {
        Some(v) if v.len() > 0 => {
            let mut d = String::from_str("Set to '");
            push_chars(&mut d, v.as_slice());
            d.append("' — should NOT be set with Octane worker mode");
            CheckResult::warn("opcache.preload", d.as_str())
        },
        _ => CheckResult::ok("opcache.preload", "Not set (correct for Octane)"),
    };
    push_result(results, r);
    let r = match ini_value_exec(&f.realpath_cache_size) {
        Some(v) if v.len() > 0 => {
            let s = from_chars(v.as_slice());
            let numeric = match parse_php_size(s.as_str()) {
                Some(n) => n,
                None => 0,
            };
            if numeric < 4096 * 1024 {
                let d = concat_str(s.as_str(), " — recommend ≥4096K for large apps");
                CheckResult::warn("realpath_cache_size", d.as_str()).with_fix(
                    "Set realpath_cache_size=4096K",
                    php_ini,
                    "realpath_cache_size=4096K",
                )
            } else {
                CheckResult::ok("realpath_cache_size", s.as_str())
            }
        },
        _ => CheckResult::warn("realpath_cache_size", "Not set — recommend 4096K").with_fix(
            "Set realpath_cache_size=4096K",
            php_ini,
            "realpath_cache_size=4096K",
        ),
    };
    push_result(results, r);
    let ttl = ini_int_exec(&f.realpath_cache_ttl);
    let r = if ttl < 600 {
        let mut d = String::new();
        push_signed_decimal(&mut d, ttl);
        d.append(" — recommend ≥600");
        CheckResult::warn("realpath_cache_ttl", d.as_str()).with_fix("Set realpath_cache_ttl=600", php_ini, "realpath_cache_ttl=600")
    } else {
        let mut d = String::new();
        push_signed_decimal(&mut d, ttl);
        CheckResult::ok("realpath_cache_ttl", d.as_str())
    };
    push_result(results, r);
    assert(findings(results@) =~= findings(old(results)@) + seq![
        jit_finding(php_ini@, f.opcache_jit_buffer_size),
        preload_finding(f.opcache_preload),
        realpath_size_finding(php_ini@, f.realpath_cache_size),
        realpath_ttl_finding(php_ini@, f.realpath_cache_ttl),
    ]);
}

fn memory_part(raw: &Option<String>, ctx: &SystemContext, results: &mut Vec<CheckResult>)
    requires
        ini_value(*raw) matches Some(v) ==> php_size(v) <= u64::MAX && (php_size(v) / (1024 * 1024)) * ctx.cpu_cores
            <= u64::MAX,
    ensures
        findings(final(results)@) == findings(old(results)@) + memory_limit_findings(*raw, *ctx),
{
    match ini_value_exec(raw) {
        Some(v) if v.len() > 0 => {
            let s = from_chars(v.as_slice());
            let bytes = match parse_php_size(s.as_str()) {
                Some(n) => n,
                None => 0,
            };
            let mb = bytes / (1024 * 1024);
            if mb < 128 {
                let d = concat_str(s.as_str(), " — may be too low for Octane workers");
                push_result(results, CheckResult::warn("memory_limit", d.as_str()));
            } else {
                push_result(results, CheckResult::ok("memory_limit", s.as_str()));
            }
            let worker_total = mb * ctx.cpu_cores as u64;
            if worker_total > ctx.php_ram_budget_mb {
                let mut d = String::new();
                push_decimal(&mut d, ctx.cpu_cores as u64);
                d.append(" workers × ");
                push_decimal(&mut d, mb);
                d.append("MB = ");
                push_decimal(&mut d, worker_total);
                d.append("MB > ");
                push_decimal(&mut d, ctx.php_ram_budget_mb);
                d.append("MB PHP RAM budget");
                push_result(results, CheckResult::warn("Worker Memory Risk", d.as_str()));
            }
        },
        _ => {
            push_result(results, CheckResult::warn("memory_limit", "Could not read"));
        },
    }
    assert(findings(results@) =~= findings(old(results)@) + memory_limit_findings(*raw, *ctx));
}

/// PHP findings: php.ini presence, required extensions, OPcache settings,
/// realpath cache, and memory limit against the PHP RAM budget.
pub fn check(php_ini: &str, facts: &PhpFacts, ctx: &SystemContext) -> (results: Vec<CheckResult>)
    requires
        facts.extensions_loaded@.len() == required_extensions_spec().len(),
        php_sizes_fit(*facts, *ctx),
    ensures
        findings(results@) == php_findings(php_ini@, *facts, *ctx),
{
    let mut results: Vec<CheckResult> = Vec::new();
    let r = if facts.php_ini_exists {
        let d = concat_str(php_ini, " found");
        CheckResult::ok("PHP-ZTS php.ini", d.as_str())
    } else {
        let d = concat_str(php_ini, " not found");
        CheckResult::fail("PHP-ZTS php.ini", d.as_str())
    };
    push_result(&mut results, r);
    let ghost a0 = findings(results@);
    extensions_part(php_ini, &facts.extensions_loaded, &mut results);
    let ghost a1 = findings(results@);
    check_ini_bool(php_ini, "opcache.enable", true, &facts.opcache_enable, &mut results);
    check_ini_bool(php_ini, "opcache.validate_timestamps", false, &facts.opcache_validate_timestamps, &mut results);
    check_ini_min(php_ini, "opcache.memory_consumption", 256, &facts.opcache_memory_consumption, &mut results);
    check_ini_min(php_ini, "opcache.max_accelerated_files", 20000, &facts.opcache_max_accelerated_files, &mut results);
    check_ini_min(php_ini, "opcache.interned_strings_buffer", 32, &facts.opcache_interned_strings_buffer, &mut results);
    settings_part(php_ini, facts, &mut results);
    let ghost a2 = findings(results@);
    memory_part(&facts.memory_limit, ctx, &mut results);
    assert(a2 =~= a1 + seq![
        ini_bool_finding(php_ini@, "opcache.enable"@, true, facts.opcache_enable),
        ini_bool_finding(php_ini@, "opcache.validate_timestamps"@, false, facts.opcache_validate_timestamps),
        ini_min_finding(php_ini@, "opcache.memory_consumption"@, 256, facts.opcache_memory_consumption),
        ini_min_finding(php_ini@, "opcache.max_accelerated_files"@, 20000, facts.opcache_max_accelerated_files),
        ini_min_finding(php_ini@, "opcache.interned_strings_buffer"@, 32, facts.opcache_interned_strings_buffer),
        jit_finding(php_ini@, facts.opcache_jit_buffer_size),
        preload_finding(facts.opcache_preload),
        realpath_size_finding(php_ini@, facts.realpath_cache_size),
        realpath_ttl_finding(php_ini@, facts.realpath_cache_ttl),
    ]);
    assert(findings(results@) =~= php_findings(php_ini@, *facts, *ctx));
    results
}

} // verus!
