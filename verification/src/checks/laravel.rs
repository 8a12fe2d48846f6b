//! Laravel application: `.env` settings, bootstrap cache files and the
//! Composer class map.
use vstd::prelude::*;
use crate::text::{
    count_matches, count_matches_exec, decimal, eq_chars, first_index, first_index_exec,
    first_with_prefix, first_with_prefix_exec, from_chars, lines, lines_exec, path_join,
    path_join_exec, push_chars, push_decimal, seqs_of, to_chars, trim, trim_slice,
};
use crate::types::{findings, finding, fixed, push_result, CheckResult, Finding, Status, SystemContext};

verus! {

/// The value of a `KEY=value` line: what follows its first `=`, trimmed.
pub open spec fn value_after_eq(l: Seq<char>) -> Seq<char> {
    match first_index(l, '=') {
        Some(i) => trim(l.skip(i + 1)),
        None => seq![],
    }
}

/// The value of `key` in a `.env` file: the first line that starts with
/// `key=` decides.
pub open spec fn env_value(content: Seq<char>, key: Seq<char>) -> Option<Seq<char>> {
    match first_with_prefix(lines(content), key + "="@) {
        Some(l) => Some(value_after_eq(l)),
        None => None,
    }
}

fn env_get(ls: &Vec<Vec<char>>, key: &str) -> (r: Option<Vec<char>>)
    ensures
        ov(r) == match first_with_prefix(seqs_of(ls@), key@ + "="@) {
            Some(l) => Some(value_after_eq(l)),
            None => None,
        },
{
    let mut p = to_chars(key);
    p.push('=');
    assert(p@ =~= key@ + "="@) by {
        reveal_strlit("=");
    }
    match first_with_prefix_exec(ls, p.as_slice()) {
        Some(i) => {
            let l = ls[i].as_slice();
            proof {
                crate::text::lemma_first_index(l@, '=');
            }
            match first_index_exec(l, '=') {
                Some(j) => {
                    assert(first_index(l@, '=') == Some(j as int));
                    let n = l.len();
                    assert(j < n);
                    let rest = &l[j + 1..n];
                    assert(rest@ =~= l@.skip(j + 1));
                    Some(crate::text::copy_chars(trim_slice(rest)))
                },
                None => {
                    let v: Vec<char> = Vec::new();
                    assert(v@ =~= Seq::<char>::empty());
                    Some(v)
                },
            }
        },
        None => None,
    }
}

fn is_lit(v: &[char], lit: &str) -> (r: bool)
    ensures
        r == (v@ == lit@),
{
    let l = to_chars(lit);
    eq_chars(v, l.as_slice())
}

/// `'value'` followed by `tail`.
fn quoted(v: &[char], tail: &str) -> (r: String)
    ensures
        r@ == "'"@ + v@ + "'"@ + tail@,
{
    let mut r = String::from_str("'");
    push_chars(&mut r, v);
    r.append("'");
    r.append(tail);
    r
}

pub open spec fn app_env_finding(v: Option<Seq<char>>, f: Seq<char>) -> Finding {
    match v {
        Some(x) if x == "production"@ => finding(Status::Pass, "APP_ENV"@, "production"@),
        Some(x) => fixed(
            finding(Status::Fail, "APP_ENV"@, "'"@ + x + "'"@ + " — should be 'production'"@),
            "Set APP_ENV=production"@,
            f,
            "APP_ENV=production"@,
        ),
        None => finding(Status::Fail, "APP_ENV"@, "Not set"@),
    }
}

pub open spec fn app_debug_finding(v: Option<Seq<char>>, f: Seq<char>) -> Finding {
    match v {
        Some(x) if x == "false"@ => finding(Status::Pass, "APP_DEBUG"@, "false"@),
        Some(x) => fixed(
            finding(Status::Fail, "APP_DEBUG"@, "'"@ + x + "'"@ + " — MUST be false in production"@),
            "Set APP_DEBUG=false"@,
            f,
            "APP_DEBUG=false"@,
        ),
        None => finding(Status::Warn, "APP_DEBUG"@, "Not set — defaults to false"@),
    }
}

pub open spec fn octane_https_finding(v: Option<Seq<char>>, f: Seq<char>) -> Finding {
    match v {
        Some(x) if x == "true"@ => finding(Status::Pass, "OCTANE_HTTPS"@, "true"@),
        _ => fixed(
            finding(Status::Warn, "OCTANE_HTTPS"@, "Not set or not 'true' — URL generation may break under HTTPS"@),
            "Set OCTANE_HTTPS=true"@,
            f,
            "OCTANE_HTTPS=true"@,
        ),
    }
}

pub open spec fn cache_store_finding(v: Option<Seq<char>>, f: Seq<char>, redis: bool) -> Finding {
    let fix_it = |w: Finding| fixed(w, "Set CACHE_STORE=redis"@, f, "CACHE_STORE=redis"@);
    match v {
        Some(x) if x == "redis"@ => finding(Status::Pass, "CACHE_STORE"@, "redis"@),
        Some(x) => if redis {
            fix_it(finding(Status::Warn, "CACHE_STORE"@, "'"@ + x + "'"@ + " — Redis is running, consider using redis"@))
        } else {
            finding(Status::Info, "CACHE_STORE"@, x)
        },
        None => if redis {
            fix_it(finding(Status::Warn, "CACHE_STORE"@, "Not set — Redis is running, recommend redis"@))
        } else {
            finding(Status::Info, "CACHE_STORE"@, "Not set"@)
        },
    }
}

pub open spec fn queue_finding(v: Option<Seq<char>>, f: Seq<char>) -> Finding {
    match v {
        Some(x) if x == "sync"@ => fixed(
            finding(Status::Fail, "QUEUE_CONNECTION"@, "'sync' — queued jobs run inline, blocking requests"@),
            "Set QUEUE_CONNECTION=redis"@,
            f,
            "QUEUE_CONNECTION=redis"@,
        ),
        Some(x) => finding(Status::Pass, "QUEUE_CONNECTION"@, x),
        None => finding(Status::Warn, "QUEUE_CONNECTION"@, "Not set"@),
    }
}

pub open spec fn session_finding(v: Option<Seq<char>>, f: Seq<char>, redis: bool) -> Finding {
    match v {
        Some(x) if x == "redis"@ => finding(Status::Pass, "SESSION_DRIVER"@, "redis"@),
        Some(x) if x == "file"@ && redis => fixed(
            finding(
                Status::Warn,
                "SESSION_DRIVER"@,
                "'file' — Redis is running, file sessions don't scale with Octane workers"@,
            ),
            "Set SESSION_DRIVER=redis"@,
            f,
            "SESSION_DRIVER=redis"@,
        ),
        Some(x) => finding(Status::Pass, "SESSION_DRIVER"@, x),
        None => finding(Status::Warn, "SESSION_DRIVER"@, "Not set"@),
    }
}

pub open spec fn log_channel_finding(v: Option<Seq<char>>, f: Seq<char>) -> Finding {
    let fix_it = |w: Finding| fixed(w, "Set LOG_CHANNEL=stderr"@, f, "LOG_CHANNEL=stderr"@);
    match v {
        Some(x) if x == "stderr"@ || x == "syslog"@ => finding(Status::Pass, "LOG_CHANNEL"@, x),
        Some(x) if x == "single"@ || x == "daily"@ => fix_it(finding(
            Status::Warn,
            "LOG_CHANNEL"@,
            "'"@ + x + "'"@
                + " — file-based logging problematic with Octane (open file handles, rotation issues). Use 'stderr'"@,
        )),
        Some(x) if x == "stack"@ => fix_it(finding(
            Status::Warn,
            "LOG_CHANNEL"@,
            "'stack' — may include file-based channels (single/daily) which are problematic with Octane. Check config/logging.php or use 'stderr'"@,
        )),
        Some(x) => finding(Status::Info, "LOG_CHANNEL"@, x),
        None => finding(Status::Info, "LOG_CHANNEL"@, "Not set (using default)"@),
    }
}

/// The file-based log channels `single` and `daily` always warn and offer
/// `LOG_CHANNEL=stderr` in the app's `.env`; `stderr` and `syslog` pass.
pub proof fn law_file_log_channels_warn(app: Seq<char>, c: Seq<char>, redis: bool)
    ensures
        env_findings(app, Some(c), redis)[6].label == "LOG_CHANNEL"@,
        (env_value(c, "LOG_CHANNEL"@) == Some("single"@) || env_value(c, "LOG_CHANNEL"@) == Some(
            "daily"@,
        )) ==> {
            &&& env_findings(app, Some(c), redis)[6].status == Status::Warn
            &&& env_findings(app, Some(c), redis)[6].fix matches Some(fx) && fx.file == path_join(
                app,
                ".env"@,
            ) && fx.content == "LOG_CHANNEL=stderr"@
        },
        (env_value(c, "LOG_CHANNEL"@) == Some("stderr"@) || env_value(c, "LOG_CHANNEL"@) == Some(
            "syslog"@,
        )) ==> env_findings(app, Some(c), redis)[6].status == Status::Pass,
{
    reveal_strlit("single");
    reveal_strlit("daily");
    reveal_strlit("stderr");
    reveal_strlit("syslog");
    let f = path_join(app, ".env"@);
    let v = env_value(c, "LOG_CHANNEL"@);
    assert(env_findings(app, Some(c), redis)[6] == log_channel_finding(v, f));
    assert("single"@ != "stderr"@ && "single"@ != "syslog"@) by {
        assert("single"@[1] != "stderr"@[1]);
        assert("single"@[1] != "syslog"@[1]);
    }
    assert("daily"@ != "stderr"@ && "daily"@ != "syslog"@) by {
        assert("daily"@[0] != "stderr"@[0]);
        assert("daily"@[0] != "syslog"@[0]);
    }
}

/// The `.env` findings for an app at `app`, given the file's content.
pub open spec fn env_findings(app: Seq<char>, content: Option<Seq<char>>, redis: bool) -> Seq<Finding> {
    let f = path_join(app, ".env"@);
    match content {
        None => seq![finding(Status::Fail, "Laravel .env"@, "File not found"@)],
        Some(c) => seq![
            app_env_finding(env_value(c, "APP_ENV"@), f),
            app_debug_finding(env_value(c, "APP_DEBUG"@), f),
            octane_https_finding(env_value(c, "OCTANE_HTTPS"@), f),
            cache_store_finding(env_value(c, "CACHE_STORE"@), f, redis),
            queue_finding(env_value(c, "QUEUE_CONNECTION"@), f),
            session_finding(env_value(c, "SESSION_DRIVER"@), f, redis),
            log_channel_finding(env_value(c, "LOG_CHANNEL"@), f),
        ],
    }
}

pub open spec fn ov(v: Option<Vec<char>>) -> Option<Seq<char>> {
    match v {
        Some(x) => Some(x@),
        None => None,
    }
}

fn app_env_result(v: &Option<Vec<char>>, env_file: &str) -> (r: CheckResult)
    ensures
        r@ == app_env_finding(ov(*v), env_file@),
{
    let r = match &v {
        Some(x) if is_lit(x.as_slice(), "production") => CheckResult::ok("APP_ENV", "production"),
        Some(x) => {
            let d = quoted(x.as_slice(), " — should be 'production'");
            CheckResult::fail("APP_ENV", d.as_str()).with_fix("Set APP_ENV=production", env_file, "APP_ENV=production")
        },
        None => CheckResult::fail("APP_ENV", "Not set"),
    };
    r
}

fn app_debug_result(v: &Option<Vec<char>>, env_file: &str) -> (r: CheckResult)
    ensures
        r@ == app_debug_finding(ov(*v), env_file@),
{
    let r = match &v {
        Some(x) if is_lit(x.as_slice(), "false") => CheckResult::ok("APP_DEBUG", "false"),
        Some(x) => {
            let d = quoted(x.as_slice(), " — MUST be false in production");
            CheckResult::fail("APP_DEBUG", d.as_str()).with_fix("Set APP_DEBUG=false", env_file, "APP_DEBUG=false")
        },
        None => CheckResult::warn("APP_DEBUG", "Not set — defaults to false"),
    };
    r
}

fn octane_https_result(v: &Option<Vec<char>>, env_file: &str) -> (r: CheckResult)
    ensures
        r@ == octane_https_finding(ov(*v), env_file@),
{
    let r = match &v {
        Some(x) if is_lit(x.as_slice(), "true") => CheckResult::ok("OCTANE_HTTPS", "true"),
        _ => CheckResult::warn("OCTANE_HTTPS", "Not set or not 'true' — URL generation may break under HTTPS")
            .with_fix("Set OCTANE_HTTPS=true", env_file, "OCTANE_HTTPS=true"),
    };
    r
}

fn cache_store_result(v: &Option<Vec<char>>, env_file: &str, redis: bool) -> (r: CheckResult)
    ensures
        r@ == cache_store_finding(ov(*v), env_file@, redis),
{
    let r = match &v {
        Some(x) if is_lit(x.as_slice(), "redis") => CheckResult::ok("CACHE_STORE", "redis"),
        Some(x) => if redis {
            let d = quoted(x.as_slice(), " — Redis is running, consider using redis");
            CheckResult::warn("CACHE_STORE", d.as_str()).with_fix("Set CACHE_STORE=redis", env_file, "CACHE_STORE=redis")
        } else {
            let d = from_chars(x.as_slice());
            CheckResult::info("CACHE_STORE", d.as_str())
        },
        None => if redis {
            CheckResult::warn("CACHE_STORE", "Not set — Redis is running, recommend redis")
                .with_fix("Set CACHE_STORE=redis", env_file, "CACHE_STORE=redis")
        } else {
            CheckResult::info("CACHE_STORE", "Not set")
        },
    };
    r
}

fn queue_result(v: &Option<Vec<char>>, env_file: &str) -> (r: CheckResult)
    ensures
        r@ == queue_finding(ov(*v), env_file@),
{
    let r = match &v {
        Some(x) if is_lit(x.as_slice(), "sync") => CheckResult::fail(
            "QUEUE_CONNECTION",
            "'sync' — queued jobs run inline, blocking requests",
        ).with_fix("Set QUEUE_CONNECTION=redis", env_file, "QUEUE_CONNECTION=redis"),
        Some(x) => {
            let d = from_chars(x.as_slice());
            CheckResult::ok("QUEUE_CONNECTION", d.as_str())
        },
        None => CheckResult::warn("QUEUE_CONNECTION", "Not set"),
    };
    r
}

fn session_result(v: &Option<Vec<char>>, env_file: &str, redis: bool) -> (r: CheckResult)
    ensures
        r@ == session_finding(ov(*v), env_file@, redis),
{
    let r = match &v {
        Some(x) if is_lit(x.as_slice(), "redis") => CheckResult::ok("SESSION_DRIVER", "redis"),
        Some(x) if is_lit(x.as_slice(), "file") && redis => CheckResult::warn(
            "SESSION_DRIVER",
            "'file' — Redis is running, file sessions don't scale with Octane workers",
        ).with_fix("Set SESSION_DRIVER=redis", env_file, "SESSION_DRIVER=redis"),
        Some(x) => {
            let d = from_chars(x.as_slice());
            CheckResult::ok("SESSION_DRIVER", d.as_str())
        },
        None => CheckResult::warn("SESSION_DRIVER", "Not set"),
    };
    r
}

fn log_channel_result(v: &Option<Vec<char>>, env_file: &str) -> (r: CheckResult)
    ensures
        r@ == log_channel_finding(ov(*v), env_file@),
{
    let r = match &v {
        Some(x) if is_lit(x.as_slice(), "stderr") || is_lit(x.as_slice(), "syslog") => {
            let d = from_chars(x.as_slice());
            CheckResult::ok("LOG_CHANNEL", d.as_str())
        },
        Some(x) if is_lit(x.as_slice(), "single") || is_lit(x.as_slice(), "daily") => {
            let d = quoted(
                x.as_slice(),
                " — file-based logging problematic with Octane (open file handles, rotation issues). Use 'stderr'",
            );
            CheckResult::warn("LOG_CHANNEL", d.as_str()).with_fix("Set LOG_CHANNEL=stderr", env_file, "LOG_CHANNEL=stderr")
        },
        Some(x) if is_lit(x.as_slice(), "stack") => CheckResult::warn(
            "LOG_CHANNEL",
            "'stack' — may include file-based channels (single/daily) which are problematic with Octane. Check config/logging.php or use 'stderr'",
        ).with_fix("Set LOG_CHANNEL=stderr", env_file, "LOG_CHANNEL=stderr"),
        Some(x) => {
            let d = from_chars(x.as_slice());
            CheckResult::info("LOG_CHANNEL", d.as_str())
        },
        None => CheckResult::info("LOG_CHANNEL", "Not set (using default)"),
    };
    r
}

/// Findings on the `.env` file of the app (`content` is `None` when it
/// could not be read).
pub fn check_env(app_path: &str, content: &Option<String>, ctx: &SystemContext, results: &mut Vec<CheckResult>)
    ensures
        findings(final(results)@) == findings(old(results)@) + env_findings(
            app_path@,
            match content {
                Some(c) => Some(c@),
                None => None,
            },
            ctx.redis_running,
        ),
{
    let env_file_s = path_join_exec(app_path, ".env");
    let env_file = env_file_s.as_str();
    let ghost f = path_join(app_path@, ".env"@);
    let text = match content {
        Some(c) => c,
        None => {
            push_result(results, CheckResult::fail("Laravel .env", "File not found"));
            assert(findings(results@) =~= findings(old(results)@) + env_findings(app_path@, None, ctx.redis_running));
            return;
        },
    };
    let chars = to_chars(text.as_str());
    let ls = lines_exec(chars.as_slice());
    let ghost lv = lines(text@);
    let redis = ctx.redis_running;

    let r1 = app_env_result(&env_get(&ls, "APP_ENV"), env_file);
    let r2 = app_debug_result(&env_get(&ls, "APP_DEBUG"), env_file);
    let r3 = octane_https_result(&env_get(&ls, "OCTANE_HTTPS"), env_file);
    let r4 = cache_store_result(&env_get(&ls, "CACHE_STORE"), env_file, redis);
    let r5 = queue_result(&env_get(&ls, "QUEUE_CONNECTION"), env_file);
    let r6 = session_result(&env_get(&ls, "SESSION_DRIVER"), env_file, redis);
    let r7 = log_channel_result(&env_get(&ls, "LOG_CHANNEL"), env_file);
    push_result(results, r1);
    push_result(results, r2);
    push_result(results, r3);
    push_result(results, r4);
    push_result(results, r5);
    push_result(results, r6);
    push_result(results, r7);
    assert(findings(results@) =~= findings(old(results)@) + env_findings(app_path@, Some(text@), redis));
}

/// What is found at the path of an expected bootstrap cache file.
#[derive(Debug, Clone, Copy, PartialEq, Eq, Structural)]
pub enum CacheFileState {
    Missing,
    Empty,
    Present,
}

/// The bootstrap cache files a Laravel app is expected to have:
/// `packages.php` too before Laravel 11.
pub open spec fn bootstrap_files_of(laravel_major: Option<u32>) -> Seq<Seq<char>> {
    let base = seq!["config.php"@, "routes-v7.php"@, "services.php"@];
    if laravel_major matches Some(v) && v >= 11 {
        base
    } else {
        base.push("packages.php"@)
    }
}

pub fn bootstrap_cache_files(laravel_major: Option<u32>) -> (r: Vec<String>)
    ensures
        r@.map_values(|s: String| s@) == bootstrap_files_of(laravel_major),
{
    let mut r: Vec<String> = Vec::new();
    r.push(String::from_str("config.php"));
    r.push(String::from_str("routes-v7.php"));
    r.push(String::from_str("services.php"));
    let is_11_plus = match laravel_major {
        Some(v) => v >= 11,
        None => false,
    };
    if !is_11_plus {
        r.push(String::from_str("packages.php"));
    }
    assert(r@.map_values(|s: String| s@) =~= bootstrap_files_of(laravel_major));
    r
}

pub open spec fn bootstrap_finding(file: Seq<char>, state: CacheFileState) -> Finding {
    let label = "Bootstrap cache: "@ + file;
    match state {
        CacheFileState::Present => finding(Status::Pass, label, "exists"@),
        CacheFileState::Empty => finding(Status::Warn, label, "exists but empty — run php artisan optimize"@),
        CacheFileState::Missing => finding(Status::Warn, label, "missing — run php artisan optimize"@),
    }
}

/// One finding per expected bootstrap cache file, given what was found.
pub fn check_bootstrap_cache(files: &Vec<String>, states: &Vec<CacheFileState>, results: &mut Vec<CheckResult>)
    requires
        files@.len() == states@.len(),
    ensures
        findings(final(results)@) == findings(old(results)@) + Seq::new(
            files@.len(),
            |i: int| bootstrap_finding(files@[i]@, states@[i]),
        ),
{
    let mut i: usize = 0;
    while i < files.len()
        invariant
            files@.len() == states@.len(),
            i <= files@.len(),
            findings(results@) == findings(old(results)@) + Seq::new(
                i as nat,
                |k: int| bootstrap_finding(files@[k]@, states@[k]),
            ),
        decreases files@.len() - i,
    {
        let label = crate::text::concat_str("Bootstrap cache: ", files[i].as_str());
        let r = match states[i] {
            CacheFileState::Present => CheckResult::ok(label.as_str(), "exists"),
            CacheFileState::Empty => CheckResult::warn(label.as_str(), "exists but empty — run php artisan optimize"),
            CacheFileState::Missing => CheckResult::warn(label.as_str(), "missing — run php artisan optimize"),
        };
        push_result(results, r);
        i += 1;
        assert(findings(results@) =~= findings(old(results)@) + Seq::new(
            i as nat,
            |k: int| bootstrap_finding(files@[k]@, states@[k]),
        ));
    }
}

pub open spec fn composer_finding(classmap: Option<Seq<char>>) -> Finding {
    match classmap {
        None => finding(
            Status::Fail,
            "Composer Classmap"@,
            "vendor/composer/autoload_classmap.php not found — run composer install"@,
        ),
        Some(c) => {
            let n = count_matches(c, "=>"@);
            if n < 100 {
                finding(
                    Status::Warn,
                    "Composer Classmap"@,
                    "Only "@ + decimal(n) + " entries — run composer dump-autoload -o for optimized autoloader"@,
                )
            } else {
                finding(Status::Pass, "Composer Classmap"@, decimal(n) + " entries (optimized)"@)
            }
        },
    }
}

/// Optimized autoloader check: the number of `=>` entries in the Composer
/// class map (`None` when the file does not exist).
pub fn check_composer(classmap: &Option<String>, results: &mut Vec<CheckResult>)
    ensures
        findings(final(results)@) == findings(old(results)@).push(
            composer_finding(
                match classmap {
                    Some(c) => Some(c@),
                    None => None,
                },
            ),
        ),
{
    let r = match classmap {
        None => CheckResult::fail(
            "Composer Classmap",
            "vendor/composer/autoload_classmap.php not found — run composer install",
        ),
        Some(c) => {
            let chars = to_chars(c.as_str());
            let arrow = to_chars("=>");
            assert(arrow@.len() > 0) by {
                reveal_strlit("=>");
            }
            let n = count_matches_exec(chars.as_slice(), arrow.as_slice());
            if n < 100 {
                let mut d = String::from_str("Only ");
                push_decimal(&mut d, n as u64);
                d.append(" entries — run composer dump-autoload -o for optimized autoloader");
                CheckResult::warn("Composer Classmap", d.as_str())
            } else {
                let mut d = String::new();
                push_decimal(&mut d, n as u64);
                d.append(" entries (optimized)");
                CheckResult::ok("Composer Classmap", d.as_str())
            }
        },
    };
    push_result(results, r);
}

/// Facts read from the app's directory.
pub struct LaravelFacts {
    /// Content of `.env`, when readable.
    pub env_content: Option<String>,
    /// State of each file of `bootstrap_cache_files(ctx.laravel_major)`, in order.
    pub cache_states: Vec<CacheFileState>,
    /// Content of `vendor/composer/autoload_classmap.php` when it exists
    /// (empty when it exists but could not be read).
    pub classmap: Option<String>,
}

/// Laravel findings: `.env`, bootstrap cache and Composer class map.
pub fn check(app_path: &str, facts: &LaravelFacts, ctx: &SystemContext) -> (results: Vec<CheckResult>)
    requires
        facts.cache_states@.len() == bootstrap_files_of(ctx.laravel_major).len(),
    ensures
        findings(results@) == env_findings(
            app_path@,
            match facts.env_content {
                Some(c) => Some(c@),
                None => None,
            },
            ctx.redis_running,
        ) + Seq::new(
            facts.cache_states@.len(),
            |i: int| bootstrap_finding(bootstrap_files_of(ctx.laravel_major)[i], facts.cache_states@[i]),
        ) + seq![composer_finding(
            match facts.classmap {
                Some(c) => Some(c@),
                None => None,
            },
        )],
{
    let mut results: Vec<CheckResult> = Vec::new();
    check_env(app_path, &facts.env_content, ctx, &mut results);
    let files = bootstrap_cache_files(ctx.laravel_major);
    check_bootstrap_cache(&files, &facts.cache_states, &mut results);
    check_composer(&facts.classmap, &mut results);
    proof {
        let a = Seq::new(facts.cache_states@.len(), |i: int| bootstrap_finding(files@[i]@, facts.cache_states@[i]));
        let b = Seq::new(
            facts.cache_states@.len(),
            |i: int| bootstrap_finding(bootstrap_files_of(ctx.laravel_major)[i], facts.cache_states@[i]),
        );
        assert forall|i: int| 0 <= i < a.len() implies a[i] == b[i] by {
            assert(files@.map_values(|s: String| s@)[i] == files@[i]@);
        }
        assert(a =~= b);
    }
    assert(findings(results@) =~= env_findings(
        app_path@,
        match facts.env_content {
            Some(c) => Some(c@),
            None => None,
        },
        ctx.redis_running,
    ) + Seq::new(
        facts.cache_states@.len(),
        |i: int| bootstrap_finding(bootstrap_files_of(ctx.laravel_major)[i], facts.cache_states@[i]),
    ) + seq![composer_finding(
        match facts.classmap {
            Some(c) => Some(c@),
            None => None,
        },
    )]);
    results
}

} // verus!
