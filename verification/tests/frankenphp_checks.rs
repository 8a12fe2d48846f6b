use frankenphp_check::checks::frankenphp::{
    admin_api_ports, admin_config_from_body, caddyfile_flag_paths, caddyfile_search_paths, check_log_level,
    check_num_threads, check_symlink_root, check_worker_mode, parse_site_config, version_result,
    AdminApiConfig, MetaKind, SiteConfig, SymlinkFacts, VersionOutcome,
};
use frankenphp_check::types::{CheckResult, Status, SystemContext};

fn no_admin() -> AdminApiConfig {
    AdminApiConfig::default()
}

fn dummy_ctx(cpu_cores: usize) -> SystemContext {
    SystemContext {
        cpu_cores,
        total_ram_mb: 4096,
        available_ram_mb: 2048,
        swap_used_mb: 0,
        mysql_running: false,
        mysql_pid: None,
        mysql_ram_mb: 0,
        redis_running: false,
        redis_pid: None,
        redis_ram_mb: 0,
        php_ram_budget_mb: 2048,
        laravel_version: None,
        laravel_major: None,
    }
}

// --- Caddyfile parsing ---

#[test]
fn parse_single_site_with_worker() {
    let caddyfile = r#"
{
    frankenphp
}

app.example.com {
    root * /home/forge/myapp/public
    php_server {
        worker index.php 16
    }
}
"#;
    let cfg = parse_site_config(caddyfile, "/home/forge/myapp");
    assert!(cfg.has_worker);
    assert!(cfg.has_php_server);
    assert_eq!(cfg.worker_num, Some(16));
}

#[test]
fn parse_worker_block_form() {
    let caddyfile = r#"
app.example.com {
    root * /home/forge/myapp/public
    php_server {
        worker {
            file index.php
            num 8
        }
    }
}
"#;
    let cfg = parse_site_config(caddyfile, "/home/forge/myapp");
    assert!(cfg.has_worker);
    assert_eq!(cfg.worker_num, Some(8));
}

#[test]
fn parse_multi_site_matches_correct_app() {
    let caddyfile = r#"
{
    frankenphp
}

one.example.com {
    root * /home/forge/app-one/public
    php_server {
        worker index.php 4
    }
}

two.example.com {
    root * /home/forge/app-two/public
    php_server {
        worker index.php 12
    }
}
"#;
    let cfg1 = parse_site_config(caddyfile, "/home/forge/app-one");
    assert_eq!(cfg1.worker_num, Some(4));

    let cfg2 = parse_site_config(caddyfile, "/home/forge/app-two");
    assert_eq!(cfg2.worker_num, Some(12));
}

#[test]
fn parse_no_worker_mode() {
    let caddyfile = r#"
app.example.com {
    root * /home/forge/myapp/public
    php_server
}
"#;
    let cfg = parse_site_config(caddyfile, "/home/forge/myapp");
    assert!(!cfg.has_worker);
    assert!(cfg.has_php_server);
}

#[test]
fn parse_global_num_threads() {
    let caddyfile = r#"
{
    frankenphp {
        num_threads 32
    }
}

app.example.com {
    root * /home/forge/myapp/public
    php_server {
        worker index.php
    }
}
"#;
    let cfg = parse_site_config(caddyfile, "/home/forge/myapp");
    assert_eq!(cfg.num_threads, Some(32));
}

#[test]
fn parse_global_worker_short_form() {
    let caddyfile = r#"
{
    frankenphp {
        worker /home/forge/myapp/public/frankenphp-worker.php 8
    }
}

:443 {
    root * /home/forge/myapp/public
    php_server
}
"#;
    let cfg = parse_site_config(caddyfile, "/home/forge/myapp");
    assert!(cfg.has_worker);
    assert_eq!(cfg.worker_num, Some(8));
}

#[test]
fn parse_global_worker_block_form() {
    let caddyfile = r#"
{
    frankenphp {
        worker {
            file /home/forge/myapp/public/frankenphp-worker.php
            num 12
        }
    }
}

:443 {
    root * /home/forge/myapp/public
    php_server
}
"#;
    let cfg = parse_site_config(caddyfile, "/home/forge/myapp");
    assert!(cfg.has_worker);
    assert_eq!(cfg.worker_num, Some(12));
}

#[test]
fn parse_octane_stub_style() {
    // An Octane-generated Caddyfile with its environment variables resolved.
    let caddyfile = r#"
{
    admin localhost:2019

    frankenphp {
        worker {
            file "/home/forge/myapp/public/frankenphp-worker.php"
            num 4
        }
    }
}

:443 {
    log {
        level WARN
    }

    route {
        root * "/home/forge/myapp/public"
        encode zstd br gzip

        php_server {
            index frankenphp-worker.php
            try_files {path} frankenphp-worker.php
            resolve_root_symlink
        }
    }
}
"#;
    let cfg = parse_site_config(caddyfile, "/home/forge/myapp");
    assert!(cfg.has_worker, "should detect worker in global block");
    assert_eq!(cfg.worker_num, Some(4));
    assert!(cfg.has_php_server);
}

#[test]
fn parse_no_matching_site() {
    let caddyfile = r#"
other.example.com {
    root * /home/forge/other-app/public
    php_server {
        worker index.php 8
    }
}
"#;
    let cfg = parse_site_config(caddyfile, "/home/forge/myapp");
    assert!(!cfg.has_worker);
    assert!(!cfg.has_php_server);
}

#[test]
fn parse_empty_caddyfile() {
    let cfg = parse_site_config("", "/home/forge/myapp");
    assert!(!cfg.has_worker);
    assert!(!cfg.has_php_server);
    assert_eq!(cfg.num_threads, None);
}

#[test]
fn parse_comments_and_blank_lines() {
    let caddyfile = r#"
# This is a comment

app.example.com {
    # root is set below
    root * /home/forge/myapp/public
    php_server {
        worker index.php 6
    }
}
"#;
    let cfg = parse_site_config(caddyfile, "/home/forge/myapp");
    assert!(cfg.has_worker);
    assert_eq!(cfg.worker_num, Some(6));
}

// --- Worker mode ---

#[test]
fn worker_mode_ok_when_present() {
    let cfg = SiteConfig {
        has_worker: true,
        worker_num: Some(8),
        has_php_server: true,
        ..Default::default()
    };
    let mut results = Vec::new();
    check_worker_mode(&Some(cfg), &no_admin(), &mut results);
    assert_eq!(results[0].status, Status::Pass);
    assert!(results[0].detail.contains("8 workers"));
}

#[test]
fn worker_mode_ok_from_admin_api() {
    let admin = AdminApiConfig {
        has_worker: true,
        worker_count: Some(4),
        reachable: true,
        ..Default::default()
    };
    let mut results = Vec::new();
    check_worker_mode(&None, &admin, &mut results);
    assert_eq!(results[0].status, Status::Pass);
    assert!(results[0].detail.contains("4 workers"));
    assert!(results[0].detail.contains("admin API"));
}

#[test]
fn worker_mode_admin_api_overrides_caddyfile() {
    let cfg = SiteConfig {
        has_php_server: true,
        has_worker: false,
        ..Default::default()
    };
    let admin = AdminApiConfig {
        has_worker: true,
        worker_count: Some(8),
        reachable: true,
        ..Default::default()
    };
    let mut results = Vec::new();
    check_worker_mode(&Some(cfg), &admin, &mut results);
    assert_eq!(results[0].status, Status::Pass);
}

#[test]
fn worker_mode_warn_when_php_server_only() {
    let cfg = SiteConfig {
        has_worker: false,
        has_php_server: true,
        ..Default::default()
    };
    let mut results = Vec::new();
    check_worker_mode(&Some(cfg), &no_admin(), &mut results);
    assert_eq!(results[0].status, Status::Warn);
}

#[test]
fn worker_mode_warn_when_no_config() {
    let mut results = Vec::new();
    check_worker_mode(&None, &no_admin(), &mut results);
    assert_eq!(results[0].status, Status::Warn);
}

#[test]
fn worker_mode_warn_admin_reachable_no_workers() {
    let admin = AdminApiConfig {
        reachable: true,
        has_worker: false,
        ..Default::default()
    };
    let mut results = Vec::new();
    check_worker_mode(&None, &admin, &mut results);
    assert_eq!(results[0].status, Status::Warn);
    assert!(results[0].detail.contains("not enabled"));
}

// --- num_threads ---

#[test]
fn num_threads_ok_when_explicit() {
    let cfg = SiteConfig {
        num_threads: Some(16),
        ..Default::default()
    };
    let ctx = dummy_ctx(4);
    let mut results = Vec::new();
    check_num_threads(&Some(cfg), &no_admin(), &ctx, &mut results);
    assert_eq!(results[0].status, Status::Pass);
    assert!(results[0].detail.contains("16"));
}

#[test]
fn num_threads_ok_from_admin_api() {
    let admin = AdminApiConfig {
        num_threads: Some(32),
        reachable: true,
        ..Default::default()
    };
    let ctx = dummy_ctx(4);
    let mut results = Vec::new();
    check_num_threads(&None, &admin, &ctx, &mut results);
    assert_eq!(results[0].status, Status::Pass);
    assert!(results[0].detail.contains("32"));
}

#[test]
fn num_threads_warn_when_default() {
    let cfg = SiteConfig::default();
    let ctx = dummy_ctx(4);
    let mut results = Vec::new();
    check_num_threads(&Some(cfg), &no_admin(), &ctx, &mut results);
    assert_eq!(results[0].status, Status::Warn);
    assert!(results[0].detail.contains("8")); // 2×4
}

#[test]
fn num_threads_uses_worker_num_as_fallback() {
    let cfg = SiteConfig {
        has_worker: true,
        worker_num: Some(12),
        num_threads: None,
        ..Default::default()
    };
    let ctx = dummy_ctx(4);
    let mut results = Vec::new();
    check_num_threads(&Some(cfg), &no_admin(), &ctx, &mut results);
    assert_eq!(results[0].status, Status::Pass);
    assert!(results[0].detail.contains("12"));
}

// --- Log level ---

#[test]
fn log_level_ok_when_not_debug() {
    let mut results = Vec::new();
    check_log_level("level INFO\n", &mut results);
    assert_eq!(results[0].status, Status::Pass);
}

#[test]
fn log_level_warn_when_debug() {
    let mut results = Vec::new();
    check_log_level("log {\n    level DEBUG\n}\n", &mut results);
    assert_eq!(results[0].status, Status::Warn);
}

#[test]
fn log_level_case_insensitive() {
    let mut results = Vec::new();
    check_log_level("level debug\n", &mut results);
    assert_eq!(results[0].status, Status::Warn);
}

#[test]
fn log_level_ok_no_level_directive() {
    let mut results = Vec::new();
    check_log_level("php_server\n", &mut results);
    assert_eq!(results[0].status, Status::Pass);
}

// --- Symlink root ---

#[test]
fn symlink_check_missing_public() {
    let facts = SymlinkFacts {
        public_meta: MetaKind::Unreadable,
        app_meta: MetaKind::Other,
        public_exists: false,
    };
    let mut results: Vec<CheckResult> = Vec::new();
    check_symlink_root("/tmp/some-app", facts, &mut results);
    assert_eq!(results[0].status, Status::Info);
    assert_eq!(results[0].detail, "/tmp/some-app/public not found — skipping symlink check");
}

#[test]
fn symlink_facts_plain_directory_passes() {
    let facts = SymlinkFacts {
        public_meta: MetaKind::Other,
        app_meta: MetaKind::Other,
        public_exists: true,
    };
    let mut results: Vec<CheckResult> = Vec::new();
    check_symlink_root("/srv/app", facts, &mut results);
    assert_eq!(results[0].status, Status::Pass);
    assert_eq!(results[0].label, "FrankenPHP Symlink Root");
}

#[test]
fn symlink_facts_symlinked_public_warns() {
    let facts = SymlinkFacts {
        public_meta: MetaKind::Symlink,
        app_meta: MetaKind::Other,
        public_exists: true,
    };
    let mut results: Vec<CheckResult> = Vec::new();
    check_symlink_root("/srv/app", facts, &mut results);
    assert_eq!(results[0].status, Status::Warn);
    assert!(results[0].detail.starts_with("/srv/app/public is a symlink"));
}

#[test]
fn symlink_facts_symlinked_app_is_info() {
    let facts = SymlinkFacts {
        public_meta: MetaKind::Other,
        app_meta: MetaKind::Symlink,
        public_exists: true,
    };
    let mut results: Vec<CheckResult> = Vec::new();
    check_symlink_root("/srv/app", facts, &mut results);
    assert_eq!(results[0].status, Status::Info);
}

#[test]
fn symlink_facts_unreadable_existing_public_is_silent() {
    let facts = SymlinkFacts {
        public_meta: MetaKind::Unreadable,
        app_meta: MetaKind::Other,
        public_exists: true,
    };
    let mut results: Vec<CheckResult> = Vec::new();
    check_symlink_root("/srv/app", facts, &mut results);
    assert!(results.is_empty());
}

// --- Admin API, version, Caddyfile discovery ---

#[test]
fn admin_body_with_workers_and_threads() {
    let body = r#"{"apps":{"frankenphp":{"workers":[{"num":4},{"num":2}],"num_threads":16}}}"#;
    let cfg = admin_config_from_body(body).unwrap();
    assert!(cfg.reachable);
    assert!(cfg.has_worker);
    assert_eq!(cfg.worker_count, Some(6));
    assert_eq!(cfg.num_threads, Some(16));
}

#[test]
fn admin_body_invalid_json_is_reachable_without_config() {
    let cfg = admin_config_from_body("not json").unwrap();
    assert!(cfg.reachable);
    assert!(!cfg.has_worker);
    assert_eq!(cfg.worker_count, None);
    assert_eq!(cfg.num_threads, None);
}

#[test]
fn admin_body_empty_workers_array() {
    let cfg = admin_config_from_body(r#"{"apps":{"frankenphp":{"workers":[]}}}"#).unwrap();
    assert!(!cfg.has_worker);
}

#[test]
fn admin_body_workers_without_num() {
    let cfg = admin_config_from_body(r#"{"apps":{"frankenphp":{"workers":[{"file":"x.php"}]}}}"#).unwrap();
    assert!(cfg.has_worker);
    assert_eq!(cfg.worker_count, None);
}

#[test]
fn version_prefers_stdout_then_stderr() {
    let out = version_result(&VersionOutcome::Output {
        stdout: "  FrankenPHP v1.2.3 \n".to_string(),
        stderr: "ignored".to_string(),
    });
    assert_eq!(out.status, Status::Info);
    assert_eq!(out.detail, "FrankenPHP v1.2.3");
    let err = version_result(&VersionOutcome::Output {
        stdout: "  ".to_string(),
        stderr: " v9 \n".to_string(),
    });
    assert_eq!(err.detail, "v9");
    let failed = version_result(&VersionOutcome::Failed { error: "no such file".to_string() });
    assert_eq!(failed.status, Status::Warn);
    assert_eq!(failed.detail, "Could not determine: no such file");
}

#[test]
fn caddyfile_paths_system_first_then_project() {
    let paths = caddyfile_search_paths("/home/forge/app");
    assert_eq!(
        paths,
        vec!["/etc/caddy/Caddyfile", "/etc/frankenphp/Caddyfile", "/home/forge/app/Caddyfile"]
    );
}

#[test]
fn caddyfile_flag_paths_from_ps() {
    let ps = "/usr/bin/frankenphp run --config /etc/caddy/Caddyfile\nnginx: worker\n";
    let paths = caddyfile_flag_paths(ps);
    assert!(paths.contains(&"/etc/caddy/Caddyfile".to_string()));
}

#[test]
fn admin_api_ports_in_order() {
    assert_eq!(admin_api_ports(), [2019, 2020]);
}
