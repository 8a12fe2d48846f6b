use frankenphp_check::discover::{caddy_root_paths, extract_root_directives, find_laravel_apps, strip_public};

#[test]
fn strip_public_removes_suffix() {
    assert_eq!(strip_public("/home/forge/app.com/public"), "/home/forge/app.com");
}

#[test]
fn strip_public_removes_trailing_slash() {
    assert_eq!(strip_public("/home/forge/app.com/public/"), "/home/forge/app.com");
}

#[test]
fn strip_public_no_public_suffix() {
    assert_eq!(strip_public("/home/forge/app.com"), "/home/forge/app.com");
}

#[test]
fn strip_public_only_public() {
    assert_eq!(strip_public("/public"), "");
}

#[test]
fn extract_nginx_root_directive() {
    let config = r#"
server {
    listen 80;
    server_name app.com;
    root /home/forge/app.com/public;

    location / {
        try_files $uri $uri/ /index.php?$query_string;
    }
}
"#;
    let roots = extract_root_directives(config);
    assert_eq!(roots, vec!["/home/forge/app.com"]);
}

#[test]
fn extract_multiple_nginx_roots() {
    let config = r#"
server {
    root /home/forge/site1.com/public;
}
server {
    root /home/forge/site2.com/public;
}
"#;
    let roots = extract_root_directives(config);
    assert_eq!(roots, vec!["/home/forge/site1.com", "/home/forge/site2.com"]);
}

#[test]
fn extract_nginx_root_without_public() {
    let config = "    root /var/www/html;\n";
    let roots = extract_root_directives(config);
    assert_eq!(roots, vec!["/var/www/html"]);
}

#[test]
fn extract_nginx_ignores_commented_root() {
    let config = "    # root /old/path/public;\n    root /new/path/public;\n";
    let roots = extract_root_directives(config);
    assert_eq!(roots, vec!["/new/path"]);
}

#[test]
fn strip_public_multiple_trailing_slashes() {
    // Every trailing slash goes before the final /public is stripped.
    assert_eq!(strip_public("/home/forge/app.com/public///"), "/home/forge/app.com");
}

#[test]
fn strip_public_nested_public() {
    // /public/public loses only the last one
    assert_eq!(strip_public("/public/public"), "/public");
}

#[test]
fn strip_public_empty_string() {
    assert_eq!(strip_public(""), "");
}

#[test]
fn strip_public_just_slash() {
    assert_eq!(strip_public("/"), "");
}

#[test]
fn extract_nginx_root_with_tabs() {
    let config = "\t\troot\t/home/forge/app.com/public;\n";
    let roots = extract_root_directives(config);
    assert_eq!(roots, vec!["/home/forge/app.com"]);
}

#[test]
fn extract_nginx_root_no_semicolon() {
    // Caddyfile-style without semicolon
    let config = "    root /home/forge/app.com/public\n";
    let roots = extract_root_directives(config);
    assert_eq!(roots, vec!["/home/forge/app.com"]);
}

#[test]
fn extract_nginx_empty_config() {
    assert_eq!(extract_root_directives("").len(), 0);
}

#[test]
fn extract_nginx_root_with_extra_spaces() {
    let config = "    root    /home/forge/app.com/public  ;  \n";
    let roots = extract_root_directives(config);
    assert!(!roots.is_empty());
}

#[test]
fn extract_nginx_root_inside_location_block() {
    let config = r#"
server {
    listen 80;
    root /home/forge/main/public;

    location /admin {
        root /home/forge/admin/public;
    }
}
"#;
    let roots = extract_root_directives(config);
    assert_eq!(roots.len(), 2);
    assert!(roots.contains(&"/home/forge/main".to_string()));
    assert!(roots.contains(&"/home/forge/admin".to_string()));
}

#[test]
fn extract_nginx_no_root_directive() {
    let config = r#"
server {
    listen 80;
    server_name example.com;
    proxy_pass http://backend;
}
"#;
    let roots = extract_root_directives(config);
    assert!(roots.is_empty());
}

#[test]
fn extract_nginx_root_with_variable_ignored() {
    // Lines with $variables hold no '/' so they are left out
    let config = "    root $document_root;\n";
    let roots = extract_root_directives(config);
    assert!(roots.is_empty(), "$variable paths are ignored (no / in path)");
}

#[test]
fn extract_realistic_nginx_config() {
    let config = r#"
server {
    listen 80;
    listen [::]:80;
    server_name example.com www.example.com;

    # Redirect to HTTPS
    return 301 https://$host$request_uri;
}

server {
    listen 443 ssl http2;
    listen [::]:443 ssl http2;
    server_name example.com;

    ssl_certificate /etc/letsencrypt/live/example.com/fullchain.pem;
    ssl_certificate_key /etc/letsencrypt/live/example.com/privkey.pem;

    root /home/forge/example.com/public;

    add_header X-Frame-Options "SAMEORIGIN";
    add_header X-Content-Type-Options "nosniff";

    index index.php;

    charset utf-8;

    location / {
        try_files $uri $uri/ /index.php?$query_string;
    }

    location = /favicon.ico { access_log off; log_not_found off; }
    location = /robots.txt  { access_log off; log_not_found off; }

    error_page 404 /index.php;

    location ~ \.php$ {
        fastcgi_pass unix:/var/run/php/php8.2-fpm.sock;
        fastcgi_param SCRIPT_FILENAME $realpath_root$fastcgi_script_name;
        include fastcgi_params;
    }

    location ~ /\.(?!well-known).* {
        deny all;
    }
}
"#;
    let roots = extract_root_directives(config);
    assert_eq!(roots, vec!["/home/forge/example.com"]);
}

// --- Caddyfile roots and the combined discovery ---

#[test]
fn caddy_root_paths_take_last_word() {
    let caddyfile = "app.com {\n    root * /home/forge/app.com/public\n}\nother {\n  root /srv/other/\n}\n";
    let roots = caddy_root_paths(caddyfile);
    assert_eq!(roots, vec!["/home/forge/app.com", "/srv/other"]);
}

#[test]
fn find_apps_sorted_and_unique() {
    let nginx = vec!["/home/forge/b.com".to_string(), "/home/forge/a.com".to_string()];
    let caddy = vec!["/home/forge/b.com".to_string(), "/home/forge/c.com".to_string()];
    let forge = vec!["/home/forge/zzz".to_string()];
    let apps = find_laravel_apps(&nginx, &caddy, &forge);
    assert_eq!(apps, vec!["/home/forge/a.com", "/home/forge/b.com", "/home/forge/c.com"]);
}

#[test]
fn find_apps_falls_back_to_forge() {
    let forge = vec!["/home/forge/y".to_string(), "/home/forge/x".to_string(), "/home/forge/x".to_string()];
    let apps = find_laravel_apps(&[], &[], &forge);
    assert_eq!(apps, vec!["/home/forge/x", "/home/forge/y"]);
}

#[test]
fn find_apps_none_found() {
    assert!(find_laravel_apps(&[], &[], &[]).is_empty());
}

#[test]
fn find_apps_orders_by_code_point() {
    // Upper case sorts before lower case, as String's order has it.
    let nginx = vec!["/b".to_string(), "/B".to_string(), "/a".to_string()];
    let apps = find_laravel_apps(&nginx, &[], &[]);
    assert_eq!(apps, vec!["/B", "/a", "/b"]);
}

#[test]
fn root_directives_of_joined_configs_come_in_order() {
    let a = "server {\n    root /home/forge/one.com/public;\n}\n";
    let b = "server {\n    # root /ignored;\n    root /home/forge/two.com/public;\n}\n";
    let joined = format!("{a}{b}");
    let mut expected = extract_root_directives(a);
    expected.extend(extract_root_directives(b));
    assert_eq!(extract_root_directives(&joined), expected);
    assert_eq!(expected, vec!["/home/forge/one.com", "/home/forge/two.com"]);
}
