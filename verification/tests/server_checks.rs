use frankenphp_check::checks::go_runtime::{self, environ_text, service_override_from_status, GoRuntimeFacts};
use frankenphp_check::checks::laravel::{
    bootstrap_cache_files, check_bootstrap_cache, check_composer, check_env, CacheFileState,
};
use frankenphp_check::checks::libc::{self, libc_result, ulimit_result, LddOutcome};
use frankenphp_check::checks::mysql::{self, format_bytes, query_cache_relevant, slow_log_enabled, MysqlFacts};
use frankenphp_check::checks::php::{self, check_ini_bool, check_ini_min, parse_php_size, required_extensions, PhpFacts};
use frankenphp_check::checks::redis::{self, config_get_value, RedisFacts};
use frankenphp_check::checks::system::{
    comm_matches, cpu_count, detect_laravel_version, gather, parse_pid, read_meminfo,
    rss_mb_from_status, ServiceFacts, SystemFacts,
};
use frankenphp_check::types::{CheckResult, Status, SystemContext};

fn ctx(redis_running: bool) -> SystemContext {
    SystemContext {
        cpu_cores: 4,
        total_ram_mb: 8192,
        available_ram_mb: 4096,
        swap_used_mb: 0,
        mysql_running: false,
        mysql_pid: None,
        mysql_ram_mb: 0,
        redis_running,
        redis_pid: None,
        redis_ram_mb: 0,
        php_ram_budget_mb: 4096,
        laravel_version: None,
        laravel_major: Some(11),
    }
}

// --- Go runtime ---

#[test]
fn go_runtime_all_set() {
    let facts = GoRuntimeFacts {
        frankenphp_env: Some("PATH=/bin\nGODEBUG=cgocheck=0\nGOMEMLIMIT=3GiB\n".to_string()),
        service_override: None,
        recommended_gb: 3,
    };
    let r = go_runtime::check(&facts);
    assert_eq!(r.len(), 2);
    assert_eq!(r[0].status, Status::Pass);
    assert_eq!(r[0].detail, "cgocheck=0 set");
    assert_eq!(r[1].status, Status::Pass);
    assert_eq!(r[1].detail, "3GiB");
}

#[test]
fn go_runtime_missing_with_override() {
    let facts = GoRuntimeFacts {
        frankenphp_env: Some("PATH=/bin\n".to_string()),
        service_override: Some("/etc/systemd/system/frankenphp.service.d/override.conf".to_string()),
        recommended_gb: 2,
    };
    let r = go_runtime::check(&facts);
    assert_eq!(r[0].status, Status::Warn);
    let fix = r[0].fix.as_ref().unwrap();
    assert_eq!(fix.content, "Environment=GODEBUG=cgocheck=0");
    assert_eq!(r[1].detail, "Not set — recommend 2GiB based on PHP RAM budget");
    assert_eq!(r[1].fix.as_ref().unwrap().content, "Environment=GOMEMLIMIT=2GiB");
}

#[test]
fn go_runtime_unreadable_environment() {
    let facts = GoRuntimeFacts { frankenphp_env: None, service_override: None, recommended_gb: 1 };
    let r = go_runtime::check(&facts);
    assert_eq!(r[0].status, Status::Warn);
    assert_eq!(r[0].fix.as_ref().unwrap().file, "Forge Site → Environment");
    assert_eq!(r[1].status, Status::Warn);
    assert_eq!(r[1].detail, "Could not check — recommend 1GiB");
}

#[test]
fn environ_separators_become_newlines() {
    assert_eq!(environ_text("A=1\0B=2\0"), "A=1\nB=2\n");
}

#[test]
fn service_override_from_systemctl_status() {
    let status = "● frankenphp.service - FrankenPHP\n   Loaded: loaded\n";
    assert_eq!(
        service_override_from_status(status),
        Some("/etc/systemd/system/frankenphp.service.d/override.conf".to_string())
    );
    assert_eq!(service_override_from_status("no unit here\n"), None);
}

// --- Laravel ---

#[test]
fn env_missing_file_fails() {
    let mut results: Vec<CheckResult> = Vec::new();
    check_env("/app", &None, &ctx(false), &mut results);
    assert_eq!(results.len(), 1);
    assert_eq!(results[0].status, Status::Fail);
    assert_eq!(results[0].label, "Laravel .env");
}

#[test]
fn env_production_settings() {
    let env = "APP_ENV=production\nAPP_DEBUG=true\nOCTANE_HTTPS=true\nCACHE_STORE=file\nQUEUE_CONNECTION=sync\nSESSION_DRIVER=file\nLOG_CHANNEL=stack\n";
    let mut results: Vec<CheckResult> = Vec::new();
    check_env("/app", &Some(env.to_string()), &ctx(true), &mut results);
    let labels: Vec<&str> = results.iter().map(|r| r.label.as_str()).collect();
    assert_eq!(
        labels,
        vec!["APP_ENV", "APP_DEBUG", "OCTANE_HTTPS", "CACHE_STORE", "QUEUE_CONNECTION", "SESSION_DRIVER", "LOG_CHANNEL"]
    );
    assert_eq!(results[0].status, Status::Pass);
    assert_eq!(results[1].status, Status::Fail);
    assert_eq!(results[1].fix.as_ref().unwrap().file, "/app/.env");
    assert_eq!(results[2].status, Status::Pass);
    assert_eq!(results[3].status, Status::Warn);
    assert_eq!(results[4].status, Status::Fail);
    assert_eq!(results[5].status, Status::Warn);
    assert_eq!(results[6].status, Status::Warn);
}

#[test]
fn bootstrap_cache_by_laravel_version() {
    assert_eq!(bootstrap_cache_files(Some(11)).len(), 3);
    assert_eq!(bootstrap_cache_files(Some(10)).len(), 4);
    assert_eq!(bootstrap_cache_files(None).len(), 4);
    let files = bootstrap_cache_files(Some(11));
    let states = vec![CacheFileState::Present, CacheFileState::Empty, CacheFileState::Missing];
    let mut results: Vec<CheckResult> = Vec::new();
    check_bootstrap_cache(&files, &states, &mut results);
    assert_eq!(results[0].status, Status::Pass);
    assert_eq!(results[0].label, "Bootstrap cache: config.php");
    assert_eq!(results[1].status, Status::Warn);
    assert_eq!(results[2].detail, "missing — run php artisan optimize");
}

#[test]
fn composer_classmap_counts() {
    let mut results: Vec<CheckResult> = Vec::new();
    check_composer(&None, &mut results);
    assert_eq!(results[0].status, Status::Fail);
    let small = "'A' => 1,\n'B' => 2,\n".to_string();
    check_composer(&Some(small), &mut results);
    assert_eq!(results[1].status, Status::Warn);
    assert!(results[1].detail.starts_with("Only 2 entries"));
    let big = "x => y\n".repeat(100);
    check_composer(&Some(big), &mut results);
    assert_eq!(results[2].status, Status::Pass);
    assert_eq!(results[2].detail, "100 entries (optimized)");
}

// --- libc and file descriptors ---

#[test]
fn libc_detection() {
    let musl = libc_result(&LddOutcome::Output { text: "musl libc (x86_64)".to_string() });
    assert_eq!(musl.status, Status::Fail);
    let glibc = libc_result(&LddOutcome::Output { text: "ldd (GNU libc) 2.36".to_string() });
    assert_eq!(glibc.status, Status::Pass);
    assert_eq!(glibc.detail, "glibc");
    let unknown = libc_result(&LddOutcome::Output { text: "weird\nsecond".to_string() });
    assert_eq!(unknown.status, Status::Info);
    assert_eq!(unknown.detail, "Unknown: weird");
    let assumed = libc_result(&LddOutcome::Failed { musl_loader_found: false });
    assert_eq!(assumed.detail, "glibc (assumed)");
    let loader = libc_result(&LddOutcome::Failed { musl_loader_found: true });
    assert_eq!(loader.status, Status::Fail);
}

#[test]
fn ulimit_levels() {
    assert_eq!(ulimit_result(&Some("65536\n".to_string())).status, Status::Pass);
    let low = ulimit_result(&Some(" 1024 ".to_string()));
    assert_eq!(low.status, Status::Warn);
    assert_eq!(low.detail, "1024 — recommend ≥65536 for high-traffic servers");
    let none = ulimit_result(&None);
    assert_eq!(none.status, Status::Info);
    assert_eq!(none.label, "File Descriptors");
    let all = libc::check(&LddOutcome::Failed { musl_loader_found: false }, &Some("unlimited".to_string()));
    assert_eq!(all.len(), 2);
    assert_eq!(all[1].status, Status::Info);
}

// --- MySQL ---

#[test]
fn mysql_helpers() {
    assert_eq!(format_bytes(2 * 1024 * 1024 * 1024), "2G");
    assert_eq!(format_bytes(768 * 1024 * 1024), "768M");
    assert_eq!(format_bytes(2048), "2K");
    assert_eq!(format_bytes(1000), "1000");
    assert!(query_cache_relevant(&Some("5.7.44".to_string())));
    assert!(!query_cache_relevant(&Some("8.0.36".to_string())));
    assert!(slow_log_enabled(&Some("ON".to_string())));
    assert!(slow_log_enabled(&Some("1".to_string())));
    assert!(!slow_log_enabled(&Some("OFF".to_string())));
    assert!(!slow_log_enabled(&None));
}

// --- PHP ---

#[test]
fn php_sizes() {
    assert_eq!(parse_php_size("256M"), Some(256 * 1024 * 1024));
    assert_eq!(parse_php_size(" 1g "), Some(1024 * 1024 * 1024));
    assert_eq!(parse_php_size("512k"), Some(512 * 1024));
    assert_eq!(parse_php_size("1000"), Some(1000));
    assert_eq!(parse_php_size("-1"), Some(0));
    assert_eq!(parse_php_size("99999999999G"), None);
}

#[test]
fn php_ini_checks() {
    assert_eq!(required_extensions().len(), 8);
    let mut results: Vec<CheckResult> = Vec::new();
    check_ini_bool("/etc/php.ini", "opcache.enable", true, &Some("1\n".to_string()), &mut results);
    assert_eq!(results[0].status, Status::Pass);
    assert_eq!(results[0].detail, "On");
    check_ini_bool("/etc/php.ini", "opcache.validate_timestamps", false, &Some("1".to_string()), &mut results);
    assert_eq!(results[1].status, Status::Fail);
    assert_eq!(results[1].fix.as_ref().unwrap().content, "opcache.validate_timestamps=0");
    check_ini_min("/etc/php.ini", "opcache.memory_consumption", 256, &Some("128".to_string()), &mut results);
    assert_eq!(results[2].status, Status::Fail);
    assert_eq!(results[2].detail, "128 — should be ≥256");
    check_ini_min("/etc/php.ini", "opcache.memory_consumption", 256, &None, &mut results);
    assert_eq!(results[3].detail, "0 — should be ≥256");
}

// --- Redis ---

#[test]
fn redis_checks() {
    assert_eq!(config_get_value("maxmemory\n0\n"), Some("0".to_string()));
    assert_eq!(config_get_value("maxmemory\n"), None);
    let off = redis::check(&ctx(false), &RedisFacts { maxmemory: None, maxmemory_policy: None });
    assert_eq!(off.len(), 1);
    assert_eq!(off[0].status, Status::Info);
    let r = redis::check(
        &ctx(true),
        &RedisFacts { maxmemory: Some("0".to_string()), maxmemory_policy: Some("noeviction".to_string()) },
    );
    assert_eq!(r[0].status, Status::Warn);
    assert_eq!(r[0].fix.as_ref().unwrap().content, "maxmemory 819mb");
    assert_eq!(r[1].detail, "'noeviction' — recommend allkeys-lru or allkeys-lfu");
    let ok = redis::check(
        &ctx(true),
        &RedisFacts {
            maxmemory: Some("2147483648".to_string()),
            maxmemory_policy: Some("allkeys-lru".to_string()),
        },
    );
    assert_eq!(ok[0].detail, "2048MB");
    assert_eq!(ok[1].status, Status::Pass);
}

// --- System ---

#[test]
fn system_parsers() {
    assert_eq!(cpu_count(&Some("processor\t: 0\nprocessor\t: 1\n".to_string())), 2);
    assert_eq!(cpu_count(&None), 1);
    let mem = "MemTotal:       8388608 kB\nMemAvailable:   4194304 kB\nSwapTotal: 2048 kB\nSwapFree: 1024 kB\n";
    assert_eq!(read_meminfo(mem), (8192, 4096, 1));
    assert_eq!(rss_mb_from_status("Name: x\nVmRSS:\t  204800 kB\n"), 200);
    assert_eq!(parse_pid("1234"), Some(1234));
    assert_eq!(parse_pid("self"), None);
    let names = vec!["mysqld".to_string(), "mariadbd".to_string()];
    assert!(comm_matches("mariadbd\n", &names));
    assert!(!comm_matches("mysql", &names));
}

#[test]
fn laravel_version_detection() {
    let php = "class Application {\n    const VERSION = '11.2.0';\n}".to_string();
    assert_eq!(detect_laravel_version(&Some(php)), (Some("11.2.0".to_string()), Some(11)));
    assert_eq!(detect_laravel_version(&Some("nothing".to_string())), (None, None));
    assert_eq!(detect_laravel_version(&None), (None, None));
}

#[test]
fn gather_budget_and_results() {
    let facts = SystemFacts {
        cpuinfo: Some("processor\t: 0\nprocessor\t: 1\n".to_string()),
        meminfo: "MemTotal: 4194304 kB\nMemAvailable: 2097152 kB\nSwapTotal: 0 kB\nSwapFree: 0 kB\n".to_string(),
        mysql: ServiceFacts { running: true, pid: Some(42), rss_mb: 500 },
        redis: ServiceFacts { running: false, pid: None, rss_mb: 0 },
        application_php: None,
    };
    let (c, results) = gather(&facts);
    assert_eq!(c.cpu_cores, 2);
    assert_eq!(c.total_ram_mb, 4096);
    // 4096 - 512 - 500 - 0 - 409
    assert_eq!(c.php_ram_budget_mb, 2675);
    assert!(c.mysql_running);
    let labels: Vec<&str> = results.iter().map(|r| r.label.as_str()).collect();
    assert_eq!(labels, vec!["CPU Cores", "Memory", "Swap Usage", "MySQL/MariaDB", "PHP RAM Budget", "Laravel Version"]);
    assert_eq!(results[3].detail, "Running (PID 42, ~500MB RSS)");
    assert_eq!(results[5].status, Status::Warn);
}

#[test]
fn php_check_end_to_end() {
    let mut loaded: Vec<Option<String>> = vec![Some("1".to_string()); 8];
    loaded[4] = Some("0".to_string()); // gd
    loaded[5] = None; // intl
    let facts = PhpFacts {
        php_ini_exists: true,
        extensions_loaded: loaded,
        opcache_enable: Some("1".to_string()),
        opcache_validate_timestamps: Some("0".to_string()),
        opcache_memory_consumption: Some("256".to_string()),
        opcache_max_accelerated_files: Some("20000".to_string()),
        opcache_interned_strings_buffer: Some("32".to_string()),
        opcache_jit_buffer_size: Some("".to_string()),
        opcache_preload: Some("".to_string()),
        realpath_cache_size: Some("4096K".to_string()),
        realpath_cache_ttl: Some("120".to_string()),
        memory_limit: Some("512M".to_string()),
    };
    let c = ctx(false);
    assert!(php::sizes_fit(&facts, &c));
    let r = php::check("/etc/php-zts/php.ini", &facts, &c);
    let labels: Vec<&str> = r.iter().map(|x| x.label.as_str()).collect();
    assert_eq!(
        labels,
        vec![
            "PHP-ZTS php.ini",
            "PHP ext: bcmath",
            "PHP ext: pdo",
            "PHP ext: pdo_mysql",
            "PHP ext: redis",
            "PHP ext: gd",
            "PHP ext: intl",
            "PHP ext: zip",
            "PHP ext: opcache",
            "opcache.enable",
            "opcache.validate_timestamps",
            "opcache.memory_consumption",
            "opcache.max_accelerated_files",
            "opcache.interned_strings_buffer",
            "opcache.jit_buffer_size",
            "opcache.preload",
            "realpath_cache_size",
            "realpath_cache_ttl",
            "memory_limit",
        ]
    );
    assert_eq!(r[0].detail, "/etc/php-zts/php.ini found");
    assert_eq!(r[5].status, Status::Fail);
    assert_eq!(r[5].detail, "not loaded — install and enable in /etc/php-zts/php.ini");
    assert_eq!(r[6].status, Status::Fail);
    assert_eq!(r[10].status, Status::Pass);
    assert_eq!(r[10].detail, "Off");
    assert_eq!(r[14].status, Status::Warn);
    assert_eq!(r[14].fix.as_ref().unwrap().content, "opcache.jit_buffer_size=128M");
    assert_eq!(r[15].detail, "Not set (correct for Octane)");
    assert_eq!(r[16].status, Status::Pass);
    assert_eq!(r[17].detail, "120 — recommend ≥600");
    assert_eq!(r[18].status, Status::Pass);
}

#[test]
fn realpath_ttl_below_600_warns() {
    let facts = |ttl: &str| PhpFacts {
        php_ini_exists: true,
        extensions_loaded: vec![Some("1".to_string()); 8],
        opcache_enable: Some("1".to_string()),
        opcache_validate_timestamps: Some("0".to_string()),
        opcache_memory_consumption: Some("256".to_string()),
        opcache_max_accelerated_files: Some("20000".to_string()),
        opcache_interned_strings_buffer: Some("32".to_string()),
        opcache_jit_buffer_size: Some("128M".to_string()),
        opcache_preload: Some("".to_string()),
        realpath_cache_size: Some("4096K".to_string()),
        realpath_cache_ttl: Some(ttl.to_string()),
        memory_limit: Some("512M".to_string()),
    };
    let c = ctx(false);
    let r = php::check("/etc/php-zts/php.ini", &facts("400"), &c);
    let ttl = r.iter().find(|x| x.label == "realpath_cache_ttl").unwrap();
    assert_eq!(ttl.status, Status::Warn);
    assert_eq!(ttl.detail, "400 — recommend ≥600");
    assert_eq!(ttl.fix.as_ref().unwrap().content, "realpath_cache_ttl=600");
    let r = php::check("/etc/php-zts/php.ini", &facts("600"), &c);
    let ttl = r.iter().find(|x| x.label == "realpath_cache_ttl").unwrap();
    assert_eq!(ttl.status, Status::Pass);
    assert_eq!(ttl.detail, "600");
}

#[test]
fn php_memory_limit_unlimited_and_worker_risk() {
    let facts = |limit: &str| PhpFacts {
        php_ini_exists: false,
        extensions_loaded: vec![Some("1".to_string()); 8],
        opcache_enable: None,
        opcache_validate_timestamps: None,
        opcache_memory_consumption: None,
        opcache_max_accelerated_files: None,
        opcache_interned_strings_buffer: None,
        opcache_jit_buffer_size: None,
        opcache_preload: Some("/app/preload.php".to_string()),
        realpath_cache_size: None,
        realpath_cache_ttl: None,
        memory_limit: Some(limit.to_string()),
    };
    let c = ctx(false);
    let r = php::check("/etc/php.ini", &facts("-1"), &c);
    assert_eq!(r[0].status, Status::Fail);
    assert_eq!(r[0].detail, "/etc/php.ini not found");
    let last = r.last().unwrap();
    assert_eq!(last.label, "memory_limit");
    assert_eq!(last.status, Status::Warn);
    assert_eq!(last.detail, "-1 — may be too low for Octane workers");
    let preload = r.iter().find(|x| x.label == "opcache.preload").unwrap();
    assert_eq!(preload.detail, "Set to '/app/preload.php' — should NOT be set with Octane worker mode");
    // 4 workers of 2048MB exceed a 4096MB budget.
    let r = php::check("/etc/php.ini", &facts("2G"), &c);
    let last = r.last().unwrap();
    assert_eq!(last.label, "Worker Memory Risk");
    assert_eq!(last.detail, "4 workers × 2048MB = 8192MB > 4096MB PHP RAM budget");
}

#[test]
fn mysql_check_end_to_end() {
    let mut c = ctx(false);
    c.mysql_running = true;
    c.mysql_ram_mb = 1024;
    assert!(mysql::sizes_fit(&c));
    let facts = MysqlFacts {
        version: Some("8.0.36".to_string()),
        innodb_buffer_pool_size: Some("134217728".to_string()),
        innodb_log_file_size: Some("50331648".to_string()),
        query_cache_type: None,
        slow_query_log: Some("OFF".to_string()),
        long_query_time: None,
        long_query_time_above_one: false,
        max_connections: Some("151".to_string()),
        innodb_flush_log_at_trx_commit: Some("2".to_string()),
        tmp_table_size: None,
    };
    let r = mysql::check(&c, &facts);
    let labels: Vec<&str> = r.iter().map(|x| x.label.as_str()).collect();
    assert_eq!(
        labels,
        vec![
            "MySQL Version",
            "innodb_buffer_pool_size",
            "innodb_log_file_size",
            "slow_query_log",
            "max_connections",
            "innodb_flush_log_at_trx_commit",
            "tmp_table_size",
        ]
    );
    assert_eq!(r[1].detail, "128M — recommend ≥768MB (75% of MySQL RAM share)");
    assert_eq!(r[1].fix.as_ref().unwrap().content, "innodb_buffer_pool_size=768M");
    assert_eq!(r[1].fix.as_ref().unwrap().file, "/etc/mysql/conf.d/flux.cnf");
    assert_eq!(r[2].fix.as_ref().unwrap().content, "innodb_log_file_size=256M");
    assert_eq!(r[3].fix.as_ref().unwrap().content, "slow_query_log=1\nlong_query_time=1");
    assert_eq!(r[4].status, Status::Pass);
    assert_eq!(r[5].detail, "'2' — value 2 risks data loss on crash");
    assert_eq!(r[6].detail, "Could not read");
    let off = mysql::check(&ctx(false), &facts);
    assert_eq!(off.len(), 1);
    assert_eq!(off[0].detail, "Not running locally — skipping");
}
