use frankenphp_check::fixes::{
    apply_env_fixes, apply_fixes, automatic_fix_count, cnf_value_to_set_global, file_fix_action,
    file_fix_choices, fix_target_of, manual_fixes, plan_fixes, redis_backup_key, restart_advice,
    redis_answer_ok, redis_rewrite_due, runtime_settings, set_global_value_fits, split_redis_fix, FileFixAction, FixTarget,
    STATIC_MYSQL_VARS,
};
use frankenphp_check::types::CheckResult;

fn fixes(contents: &[&str]) -> Vec<String> {
    contents.iter().map(|c| c.to_string()).collect()
}

// --- Writing fix lines into the text of a file ---

#[test]
fn mysql_cnf_new_file_gets_mysqld_header() {
    let (content, count) = apply_fixes("/tmp/x/mysql-custom.cnf", "", &fixes(&["innodb_buffer_pool_size=768M"]));
    assert_eq!(count, 1);
    assert!(content.contains("[mysqld]"), "Missing [mysqld] header in: {content}");
    assert!(content.contains("innodb_buffer_pool_size=768M"));
}

#[test]
fn mysql_cnf_existing_header_not_duplicated() {
    let (content, _) = apply_fixes(
        "/tmp/x/mysql-custom.cnf",
        "[mysqld]\nmax_connections=50\n",
        &fixes(&["max_connections=200"]),
    );
    assert_eq!(content.matches("[mysqld]").count(), 1, "Should not duplicate [mysqld] header");
    assert!(content.contains("max_connections=200"));
    assert!(!content.contains("max_connections=50"));
}

#[test]
fn mysql_cnf_appends_under_mysqld() {
    let (content, _) = apply_fixes(
        "/tmp/x/mysql-custom.cnf",
        "[mysqld]\ninnodb_log_file_size=64M\n",
        &fixes(&["tmp_table_size=64M"]),
    );
    assert!(content.contains("[mysqld]"));
    assert!(content.contains("innodb_log_file_size=64M"));
    assert!(content.contains("tmp_table_size=64M"));
}

#[test]
fn php_ini_no_mysqld_header() {
    let (content, _) = apply_fixes("/tmp/x/php.ini", "", &fixes(&["opcache.enable=1"]));
    assert!(!content.contains("[mysqld]"), "php.ini should not get [mysqld] header");
    assert!(content.contains("opcache.enable=1"));
}

#[test]
fn replaces_commented_out_line() {
    let (content, _) = apply_fixes(
        "/tmp/x/mysql-custom.cnf",
        "[mysqld]\n;innodb_buffer_pool_size=128M\n",
        &fixes(&["innodb_buffer_pool_size=768M"]),
    );
    assert!(content.contains("innodb_buffer_pool_size=768M"));
    assert!(!content.contains(";innodb_buffer_pool_size"));
}

#[test]
fn multiple_fixes_same_file() {
    let (content, count) = apply_fixes(
        "/tmp/x/mysql-custom.cnf",
        "",
        &fixes(&["innodb_buffer_pool_size=768M", "innodb_log_file_size=256M", "max_connections=200"]),
    );
    assert_eq!(count, 3);
    assert!(content.contains("[mysqld]"));
    assert!(content.contains("innodb_buffer_pool_size=768M"));
    assert!(content.contains("innodb_log_file_size=256M"));
    assert!(content.contains("max_connections=200"));
}

#[test]
fn mariadb_cnf_gets_mysqld_header() {
    let (content, _) = apply_fixes("/tmp/x/mariadb-custom.cnf", "", &fixes(&["innodb_buffer_pool_size=512M"]));
    assert!(content.contains("[mysqld]"), "MariaDB .cnf should also get [mysqld] header");
}

#[test]
fn replaces_key_with_spaces_around_equals() {
    let (content, _) = apply_fixes("/tmp/x/php.ini", "opcache.enable = 0\n", &fixes(&["opcache.enable=1"]));
    assert!(content.contains("opcache.enable=1"));
    assert!(!content.contains("opcache.enable = 0"));
}

#[test]
fn does_not_replace_substring_key() {
    // "max" does not match "max_connections"
    let (content, _) = apply_fixes("/tmp/x/mysql-custom.cnf", "[mysqld]\nmax_connections=100\n", &fixes(&["max=50"]));
    assert!(content.contains("max_connections=100"));
    assert!(content.contains("max=50"));
}

#[test]
fn replaces_commented_with_space() {
    let (content, _) = apply_fixes(
        "/tmp/x/php.ini",
        "; opcache.jit_buffer_size=64M\n",
        &fixes(&["opcache.jit_buffer_size=128M"]),
    );
    assert!(content.contains("opcache.jit_buffer_size=128M"));
    assert!(!content.contains("; opcache"));
}

#[test]
fn multiline_fix_content() {
    let (content, count) = apply_fixes("/tmp/x/mysql-custom.cnf", "", &fixes(&["slow_query_log=1\nlong_query_time=1"]));
    assert_eq!(count, 2, "Each line counts as one fix");
    assert!(content.contains("slow_query_log=1"));
    assert!(content.contains("long_query_time=1"));
}

#[test]
fn empty_file_gets_header_and_fix() {
    let (content, _) = apply_fixes("/tmp/x/mysql-empty.cnf", "", &fixes(&["innodb_buffer_pool_size=768M"]));
    assert!(content.contains("[mysqld]"));
    assert!(content.contains("innodb_buffer_pool_size=768M"));
}

#[test]
fn file_with_only_mysqld_header() {
    let (content, _) = apply_fixes("/tmp/x/mysql-bare.cnf", "[mysqld]\n", &fixes(&["max_connections=200"]));
    assert_eq!(content.matches("[mysqld]").count(), 1);
    assert!(content.contains("max_connections=200"));
}

#[test]
fn non_mysql_cnf_no_header() {
    let (content, _) = apply_fixes("/tmp/x/something.cnf", "", &fixes(&["key=value"]));
    assert!(!content.contains("[mysqld]"), "Non-mysql .cnf should not get [mysqld] header");
}

#[test]
fn preserves_other_content_in_file() {
    let (content, _) = apply_fixes(
        "/tmp/x/php.ini",
        "[PHP]\nmax_execution_time=30\nmemory_limit=128M\ndate.timezone=UTC\n",
        &fixes(&["memory_limit=256M"]),
    );
    assert!(content.contains("[PHP]"), "Should preserve [PHP] header");
    assert!(content.contains("max_execution_time=30"), "Untouched keys preserved");
    assert!(content.contains("date.timezone=UTC"), "Untouched keys preserved");
    assert!(content.contains("memory_limit=256M"), "Key replaced");
    assert!(!content.contains("memory_limit=128M"), "Old value gone");
}

#[test]
fn fix_applied_count_accurate() {
    let (_, count) = apply_fixes(
        "/tmp/x/php.ini",
        "opcache.enable=0\nrealpath_cache_ttl=120\n",
        &fixes(&["opcache.enable=1", "realpath_cache_ttl=600", "opcache.jit_buffer_size=128M"]),
    );
    assert_eq!(count, 3, "2 replacements + 1 append = 3");
}

#[test]
fn write_fixes_idempotent() {
    let f = fixes(&["opcache.enable=1"]);
    let (after_first, _) = apply_fixes("/tmp/x/php.ini", "opcache.enable=0\n", &f);
    let (after_second, _) = apply_fixes("/tmp/x/php.ini", &after_first, &f);
    assert_eq!(after_first, after_second, "Applying same fix twice should be idempotent");
}

#[test]
fn exact_texts_of_replacement_and_append() {
    // A replacement writes the lines back, each ended by a line feed; an
    // append ends with a line feed too.
    let (replaced, _) = apply_fixes("/tmp/x/php.ini", "a=1\nb=2\n", &fixes(&["b=3"]));
    assert_eq!(replaced, "a=1\nb=3\n");
    let (blank_kept, _) = apply_fixes("/tmp/x/php.ini", "a=1\n\n", &fixes(&["a=2"]));
    assert_eq!(blank_kept, "a=2\n\n");
    let (appended, _) = apply_fixes("/tmp/x/php.ini", "a=1", &fixes(&["c=4"]));
    assert_eq!(appended, "a=1\nc=4\n");
    let (on_empty, _) = apply_fixes("/tmp/x/php.ini", "", &fixes(&["c=4"]));
    assert_eq!(on_empty, "\nc=4\n");
    let (header, _) = apply_fixes("/etc/mysql/conf.d/x.cnf", "# note", &fixes(&["k=v"]));
    assert_eq!(header, "# note\n[mysqld]\nk=v\n");
}

#[test]
fn line_without_equals_is_not_counted() {
    let (content, count) = apply_fixes("/tmp/x/php.ini", "a=1\n", &fixes(&["just text\nb=2"]));
    assert_eq!(count, 1);
    assert_eq!(content, "a=1\nb=2\n");
}

// --- systemd overrides ---

#[test]
fn env_fix_adds_service_header_and_line() {
    let out = apply_env_fixes("", &fixes(&["Environment=GODEBUG=cgocheck=0"]));
    assert_eq!(out, "[Service]\nEnvironment=GODEBUG=cgocheck=0\n");
}

#[test]
fn env_fix_replaces_same_variable() {
    let out = apply_env_fixes(
        "[Service]\nEnvironment=GOMEMLIMIT=1GiB\nUser=www\n",
        &fixes(&["Environment=GOMEMLIMIT=2GiB"]),
    );
    assert_eq!(out, "[Service]\nEnvironment=GOMEMLIMIT=2GiB\nUser=www\n");
}

#[test]
fn env_fix_idempotent() {
    let f = fixes(&["Environment=GODEBUG=cgocheck=0", "Environment=GOMEMLIMIT=3GiB"]);
    let once = apply_env_fixes("[Service]\nUser=www", &f);
    let twice = apply_env_fixes(&once, &f);
    assert_eq!(once, twice);
}

#[test]
fn env_fix_ignores_other_shapes() {
    let out = apply_env_fixes("[Service]\n", &fixes(&["GODEBUG=cgocheck=0", "Environment=NOEQUALS"]));
    assert_eq!(out, "[Service]\n");
}

// --- SET GLOBAL values ---

#[test]
fn cnf_value_gigabytes() {
    assert_eq!(cnf_value_to_set_global("2G"), (2u64 * 1024 * 1024 * 1024).to_string());
}

#[test]
fn cnf_value_megabytes() {
    assert_eq!(cnf_value_to_set_global("768M"), (768u64 * 1024 * 1024).to_string());
}

#[test]
fn cnf_value_kilobytes() {
    assert_eq!(cnf_value_to_set_global("512K"), (512u64 * 1024).to_string());
}

#[test]
fn cnf_value_plain_number() {
    assert_eq!(cnf_value_to_set_global("200"), "200");
}

#[test]
fn cnf_value_zero() {
    assert_eq!(cnf_value_to_set_global("0"), "0");
}

#[test]
fn cnf_value_with_whitespace() {
    assert_eq!(cnf_value_to_set_global(" 256M "), (256u64 * 1024 * 1024).to_string());
}

#[test]
fn cnf_value_unparsable_kept() {
    assert_eq!(cnf_value_to_set_global(" xG "), "xG");
    assert_eq!(cnf_value_to_set_global("ON"), "ON");
}

#[test]
fn cnf_value_fit_check() {
    assert!(set_global_value_fits("16G"));
    assert!(set_global_value_fits("ON"));
    assert!(!set_global_value_fits("99999999999999G"));
}

#[test]
fn static_mysql_vars_contains_log_file_size() {
    assert!(STATIC_MYSQL_VARS.contains(&"innodb_log_file_size"));
}

#[test]
fn runtime_settings_skip_static_vars() {
    let pairs = runtime_settings(&fixes(&[
        "innodb_buffer_pool_size=768M",
        "innodb_log_file_size=256M\n max_connections = 200 ",
        "no equals here",
    ]));
    assert_eq!(
        pairs,
        vec![
            ("innodb_buffer_pool_size".to_string(), "768M".to_string()),
            ("max_connections".to_string(), "200".to_string()),
        ]
    );
}

// --- Redis ---

#[test]
fn redis_fix_split_at_first_space() {
    assert_eq!(
        split_redis_fix("maxmemory 2397mb"),
        Some(("maxmemory".to_string(), "2397mb".to_string()))
    );
    assert_eq!(split_redis_fix("a b c"), Some(("a".to_string(), "b c".to_string())));
    assert_eq!(split_redis_fix("nospace"), None);
}

#[test]
fn redis_backup_key_is_first_word() {
    assert_eq!(redis_backup_key("  maxmemory-policy allkeys-lru"), Some("maxmemory-policy".to_string()));
    assert_eq!(redis_backup_key("   "), None);
}

// --- Sorting fixes by how they are applied ---

#[test]
fn fix_targets() {
    assert_eq!(fix_target_of("redis-cli"), FixTarget::Redis);
    assert_eq!(fix_target_of("/etc/systemd/system/frankenphp.service.d/override.conf"), FixTarget::Systemd);
    assert_eq!(fix_target_of("/etc/php-zts/php.ini"), FixTarget::File);
    assert_eq!(fix_target_of("composer → optimize"), FixTarget::Manual);
    assert_eq!(fix_target_of("/etc/a \u{2192} b"), FixTarget::Manual);
    assert_eq!(fix_target_of("php artisan config:cache"), FixTarget::Manual);
}

#[test]
fn plan_groups_fixes() {
    let results = vec![
        CheckResult::warn("a", "").with_fix("d", "/etc/z.ini", "z=1"),
        CheckResult::ok("b", "").with_fix("d", "/etc/a.ini", "a=1"),
        CheckResult::fail("c", "").with_fix("d", "redis-cli", "maxmemory 1mb"),
        CheckResult::warn("d", "").with_fix("d", "/etc/a.ini", "a=2"),
        CheckResult::warn("e", "").with_fix("d", "cache", "php artisan config:cache"),
        CheckResult::warn("f", "").with_fix(
            "d",
            "/etc/systemd/system/frankenphp.service.d/override.conf",
            "Environment=GODEBUG=cgocheck=0",
        ),
        CheckResult::warn("g", "").with_fix("d", "/etc/z.ini", "z=2"),
        CheckResult::warn("h", "").with_fix("d", "before", "do this"),
        CheckResult::info("i", "").with_fix("d", "/etc/i.ini", "i=1"),
    ];
    let plan = plan_fixes(&results);
    assert_eq!(plan.files.len(), 2);
    assert_eq!(plan.files[0].file, "/etc/a.ini");
    assert_eq!(plan.files[0].entries, vec![3]);
    assert_eq!(plan.files[1].file, "/etc/z.ini");
    assert_eq!(plan.files[1].entries, vec![0, 6]);
    assert_eq!(plan.redis, vec![2]);
    assert_eq!(plan.systemd.len(), 1);
    assert_eq!(plan.systemd[0].entries, vec![5]);
    assert_eq!(plan.manual.len(), 2);
    assert_eq!(plan.manual[0].file, "before");
    assert_eq!(plan.manual[0].entries, vec![7]);
    assert_eq!(plan.manual[1].file, "cache");
    assert_eq!(plan.manual[1].entries, vec![4]);
    assert_eq!(manual_fixes(&results), vec![4, 7]);
    assert_eq!(automatic_fix_count(&results), 5);
}

#[test]
fn file_fix_dialog_decisions() {
    let three = vec!["Try with benchmark", "Apply without benchmark", "Skip"];
    assert_eq!(file_fix_choices("/etc/php-zts/php.ini"), three);
    assert_eq!(file_fix_choices("/etc/mysql/conf.d/custom.cnf"), three);
    assert_eq!(file_fix_choices("/home/forge/app/.env"), vec!["Apply", "Skip"]);
    assert_eq!(file_fix_choices("/home/forge/mysql-app/.env"), vec!["Apply", "Skip"]);
    assert_eq!(file_fix_choices("/home/forge/php-zts-site/.env"), vec!["Apply", "Skip"]);
    assert_eq!(
        file_fix_choices("/etc/systemd/system/frankenphp.service.d/override.conf"),
        vec!["Apply", "Skip"]
    );
    let cnf = "/etc/mysql/conf.d/custom.cnf";
    assert_eq!(file_fix_action(cnf, Some(0)), FileFixAction::BenchmarkFirst);
    assert_eq!(file_fix_action(cnf, Some(1)), FileFixAction::Apply);
    assert_eq!(file_fix_action(cnf, Some(2)), FileFixAction::Skip);
    let env = "/home/forge/mysql-app/.env";
    assert_eq!(file_fix_action(env, Some(0)), FileFixAction::Apply);
    assert_eq!(file_fix_action(env, Some(1)), FileFixAction::Skip);
    assert_eq!(file_fix_action("/etc/php-zts/php.ini", None), FileFixAction::Skip);
    assert_eq!(restart_advice(false), "Restart FrankenPHP and MySQL for changes to take effect.");
    assert!(restart_advice(true).starts_with("MySQL runtime variables are already active"));
}

#[test]
fn redis_rewrite_only_when_every_set_was_accepted() {
    assert!(redis_answer_ok("OK\n"));
    assert!(!redis_answer_ok("ERR unknown option\n"));
    assert!(redis_rewrite_due(&[Some("OK\n".to_string()), Some(" OK ".to_string())]));
    assert!(redis_rewrite_due(&[]));
    assert!(!redis_rewrite_due(&[Some("OK\n".to_string()), None]));
    assert!(!redis_rewrite_due(&[Some("(error) ERR\n".to_string())]));
}

#[test]
fn several_multi_line_fixes_twice_change_nothing() {
    let file = "/etc/mysql/conf.d/tuning.cnf";
    let content = "[mysqld]\r\nslow_query_log=0\r\n; long_query_time=10\r\nmax_connections = 100\r\n";
    let f = fixes(&["slow_query_log=1\nlong_query_time=1", "max_connections=500"]);
    let (once, n1) = apply_fixes(file, content, &f);
    assert_eq!(once, "[mysqld]\nslow_query_log=1\nlong_query_time=1\nmax_connections=500\n");
    assert_eq!(n1, 3);
    let (twice, n2) = apply_fixes(file, &once, &f);
    assert_eq!(twice, once);
    assert_eq!(n2, 3);
}

#[test]
fn appended_fix_twice_changes_nothing() {
    let f = fixes(&["a=1"]);
    let (once, _) = apply_fixes("/tmp/x/php.ini", "", &f);
    assert_eq!(once, "\na=1\n");
    let (twice, _) = apply_fixes("/tmp/x/php.ini", &once, &f);
    assert_eq!(twice, once);
    let f = fixes(&["opcache.enable=1", "realpath_cache_ttl=600", "opcache.jit_buffer_size=128M"]);
    let (once, _) = apply_fixes("/tmp/x/php.ini", "opcache.enable=0\nrealpath_cache_ttl=120\n", &f);
    assert_eq!(once, "opcache.enable=1\nrealpath_cache_ttl=600\nopcache.jit_buffer_size=128M\n");
    let (twice, _) = apply_fixes("/tmp/x/php.ini", &once, &f);
    assert_eq!(twice, once);
}
