use frankenphp_check::benchmark::{fix_benchmark, restart_hint, BenchmarkKind};

#[test]
fn benchmark_kind_from_php_ini() {
    assert!(matches!(BenchmarkKind::from_file("/etc/php-zts/php.ini"), BenchmarkKind::Php));
    assert!(matches!(BenchmarkKind::from_file("/etc/php.ini"), BenchmarkKind::Php));
}

#[test]
fn benchmark_kind_from_mysql_cnf() {
    assert!(matches!(BenchmarkKind::from_file("/etc/mysql/conf.d/custom.cnf"), BenchmarkKind::Mysql));
}

#[test]
fn benchmark_kind_from_env() {
    assert!(matches!(BenchmarkKind::from_file("/home/forge/app/.env"), BenchmarkKind::NoBenchmark));
}

#[test]
fn benchmark_kind_labels() {
    assert_eq!(BenchmarkKind::Php.label(), "PHP Performance");
    assert_eq!(BenchmarkKind::Mysql.label(), "MySQL Performance");
    assert_eq!(BenchmarkKind::NoBenchmark.label(), "");
}

#[test]
fn benchmark_kind_php_zts_path() {
    assert!(matches!(BenchmarkKind::from_file("/etc/php-zts/php.ini"), BenchmarkKind::Php));
}

#[test]
fn benchmark_kind_mysql_conf_d() {
    assert!(matches!(BenchmarkKind::from_file("/etc/mysql/conf.d/custom.cnf"), BenchmarkKind::Mysql));
}

#[test]
fn benchmark_kind_env_file() {
    assert!(matches!(BenchmarkKind::from_file("/home/forge/app/.env"), BenchmarkKind::NoBenchmark));
}

#[test]
fn benchmark_kind_systemd_override() {
    assert!(matches!(
        BenchmarkKind::from_file("/etc/systemd/system/frankenphp.service.d/override.conf"),
        BenchmarkKind::NoBenchmark
    ));
}

#[test]
fn benchmark_kind_php_wins_over_cnf() {
    assert!(matches!(BenchmarkKind::from_file("/etc/mysql/php.ini.cnf"), BenchmarkKind::Php));
    assert!(matches!(BenchmarkKind::from_file("/etc/my.cnf"), BenchmarkKind::Mysql));
}

#[test]
fn restart_hints() {
    assert_eq!(restart_hint("/etc/php-zts/php.ini"), Some("Restart FrankenPHP for changes to take effect."));
    assert_eq!(restart_hint("/etc/mysql/conf.d/flux.cnf"), Some("Restart MySQL for changes to take effect."));
    assert_eq!(restart_hint("/home/forge/app/.env"), None);
}

#[test]
fn benchmark_offered_only_for_ini_and_cnf() {
    assert_eq!(fix_benchmark("/etc/php-zts/php.ini"), BenchmarkKind::Php);
    assert_eq!(fix_benchmark("/etc/php-zts/conf.d/10-opcache.ini"), BenchmarkKind::Php);
    assert_eq!(fix_benchmark("/etc/mysql/conf.d/custom.cnf"), BenchmarkKind::Mysql);
    assert_eq!(fix_benchmark("/etc/my.cnf"), BenchmarkKind::Mysql);
    assert_eq!(fix_benchmark("/home/forge/mysql-app/.env"), BenchmarkKind::NoBenchmark);
    assert_eq!(fix_benchmark("/home/forge/php-zts-site/.env"), BenchmarkKind::NoBenchmark);
    assert_eq!(fix_benchmark("/etc/systemd/system/frankenphp.service.d/override.conf"), BenchmarkKind::NoBenchmark);
}
