use frankenphp_check::supervisor::{
    detect_from_process, detect_from_supervisor_configs, detect_octane_ports, parse_octane_flags,
    OctanePorts,
};

#[test]
fn parse_flags_equals_form() {
    let cmd = "php /home/forge/app.com/artisan octane:start --server=frankenphp --host=127.0.0.1 --port=8000 --admin-port=2019";
    let ports = parse_octane_flags(cmd);
    assert_eq!(ports.http_port, Some(8000));
    assert_eq!(ports.admin_port, Some(2019));
    assert_eq!(ports.host.as_deref(), Some("127.0.0.1"));
}

#[test]
fn parse_flags_space_form() {
    let cmd = "php artisan octane:start --server frankenphp --host 0.0.0.0 --port 9000 --admin-port 2020";
    let ports = parse_octane_flags(cmd);
    assert_eq!(ports.http_port, Some(9000));
    assert_eq!(ports.admin_port, Some(2020));
    assert_eq!(ports.host.as_deref(), Some("0.0.0.0"));
}

#[test]
fn parse_flags_minimal() {
    let cmd = "php artisan octane:start --server=frankenphp";
    let ports = parse_octane_flags(cmd);
    assert_eq!(ports.http_port, None);
    assert_eq!(ports.admin_port, None);
    assert_eq!(ports.host, None);
}

#[test]
fn parse_flags_only_port() {
    let cmd = "/usr/bin/php /home/forge/example.com/artisan octane:start --server=frankenphp --port=443";
    let ports = parse_octane_flags(cmd);
    assert_eq!(ports.http_port, Some(443));
    assert_eq!(ports.admin_port, None);
}

#[test]
fn parse_flags_mixed_form() {
    let cmd = "php artisan octane:start --server=frankenphp --port 8080 --admin-port=3000 --host=127.0.0.1";
    let ports = parse_octane_flags(cmd);
    assert_eq!(ports.http_port, Some(8080));
    assert_eq!(ports.admin_port, Some(3000));
    assert_eq!(ports.host.as_deref(), Some("127.0.0.1"));
}

#[test]
fn parse_flags_bad_port_clears_earlier_value() {
    let ports = parse_octane_flags("octane:start --port=80 --port=abc");
    assert_eq!(ports.http_port, None);
    let ports = parse_octane_flags("octane:start --port 70000");
    assert_eq!(ports.http_port, None);
}

#[test]
fn parse_flags_trailing_flag_without_value_keeps_earlier() {
    let ports = parse_octane_flags("octane:start --port=81 --port");
    assert_eq!(ports.http_port, Some(81));
    let ports = parse_octane_flags("octane:start --host=a --host");
    assert_eq!(ports.host.as_deref(), Some("a"));
}

#[test]
fn process_listing_picks_first_matching_line() {
    let ps = "nginx: master\nphp /srv/other/artisan queue:work\nphp /home/forge/app/artisan octane:start --port=8001\nphp artisan octane:start --port=9\n";
    let p = detect_from_process(ps, "/home/forge/app").unwrap();
    assert_eq!(p.http_port, Some(8001));
    assert!(detect_from_process("nginx: master\n", "/home/forge/app").is_none());
}

#[test]
fn process_line_needs_app_or_artisan() {
    let ps = "frankenphp octane:start --port=1\n";
    assert!(detect_from_process(ps, "/home/forge/app").is_none());
    assert_eq!(detect_from_process(ps, "").unwrap().http_port, Some(1));
}

#[test]
fn supervisor_prefers_app_then_frankenphp() {
    let a = "[program:x]\ncommand=php /srv/other/artisan octane:start --server=frankenphp --port=7000\n".to_string();
    let b = "[program:y]\n  command=php /home/forge/app/artisan octane:start --port=8000 \n".to_string();
    let files = vec![a.clone(), b];
    let p = detect_from_supervisor_configs(&files, "/home/forge/app").unwrap();
    assert_eq!(p.http_port, Some(8000));
    let only_other = vec![a];
    let p = detect_from_supervisor_configs(&only_other, "/home/forge/app").unwrap();
    assert_eq!(p.http_port, Some(7000));
    assert!(detect_from_supervisor_configs(&[], "/home/forge/app").is_none());
}

#[test]
fn detect_ports_order_and_default() {
    let files = vec!["command=php artisan octane:start --server=frankenphp --admin-port=2020\n".to_string()];
    let from_ps = detect_octane_ports(
        &Some("php /app/artisan octane:start --admin-port=3000\n".to_string()),
        &files,
        "/app",
    );
    assert_eq!(from_ps.admin_port, Some(3000));
    let from_conf = detect_octane_ports(&None, &files, "/app");
    assert_eq!(from_conf.admin_port, Some(2020));
    let none: OctanePorts = detect_octane_ports(&None, &[], "/app");
    assert_eq!(none.http_port, None);
    assert_eq!(none.admin_port, None);
    assert_eq!(none.host, None);
}
