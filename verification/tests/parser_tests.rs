use nginx_config_manager::braces::{find_block_end, find_http_block};
use nginx_config_manager::model::ParseError;
use nginx_config_manager::parse::parse_nginx_config;
use nginx_config_manager::scan::parse_directive;
use nginx_config_manager::settings::AppSettings;

fn lines_of(v: &[&str]) -> Vec<String> {
    v.iter().map(|s| s.to_string()).collect()
}

#[test]
fn one_server_block() {
    let input = "server {\n    listen 80;\n    server_name a.com;\n}";
    let config = parse_nginx_config(input, "/etc/nginx/nginx.conf").unwrap();
    assert_eq!(config.servers.len(), 1);
    assert_eq!(config.global_directives.len(), 0);
    let sb = &config.servers[0];
    assert_eq!(sb.listen, vec!["80".to_string()]);
    assert_eq!(sb.server_name, vec!["a.com".to_string()]);
    assert_eq!(sb.start_line, 1);
    assert_eq!(sb.end_line, 4);
    assert_eq!(sb.id, "server_0");
    assert_eq!(sb.directives.len(), 2);
    assert_eq!(config.file_path, "/etc/nginx/nginx.conf");
    assert_eq!(config.raw_content, input);
}

#[test]
fn nested_location_block() {
    let input = "server {\n    location /api {\n        proxy_pass http://x;\n    }\n}";
    let config = parse_nginx_config(input, "t.conf").unwrap();
    assert_eq!(config.servers.len(), 1);
    let sb = &config.servers[0];
    assert_eq!(sb.locations.len(), 1);
    let loc = &sb.locations[0];
    assert_eq!(loc.path, "/api");
    assert!(loc.modifier.is_none());
    assert_eq!(loc.directives.len(), 1);
    assert_eq!(loc.directives[0].name, "proxy_pass");
    assert_eq!(loc.directives[0].value, "http://x");
    assert_eq!(loc.directives[0].line, 3);
    assert_eq!(loc.id, "location_1__api");
}

#[test]
fn location_header_with_glued_brace() {
    // with the brace glued to the path token, the brace is stripped from
    // the token and the result is the same
    let input = "server {\n    location /api{\n        proxy_pass http://x;\n    }\n}";
    let config = parse_nginx_config(input, "t.conf").unwrap();
    let loc = &config.servers[0].locations[0];
    assert_eq!(loc.path, "/api");
    assert!(loc.modifier.is_none());
    assert_eq!(loc.id, "location_1__api");
    assert_eq!(loc.directives.len(), 1);
}

#[test]
fn location_modifiers_recognised() {
    // only the four matching prefixes read as modifiers
    for modifier in ["=", "~", "~*", "^~"] {
        let input = format!(
            "server {{\n    location {} /x {{\n        return 200;\n    }}\n}}",
            modifier
        );
        let config = parse_nginx_config(&input, "t.conf").unwrap();
        let loc = &config.servers[0].locations[0];
        assert_eq!(loc.modifier.as_deref(), Some(modifier));
        assert_eq!(loc.path, "/x");
    }
}

#[test]
fn location_with_modifier() {
    let input = "server {\n    location ~* \\.php$ {\n        fastcgi_pass 127.0.0.1:9000;\n    }\n}";
    let config = parse_nginx_config(input, "t.conf").unwrap();
    let loc = &config.servers[0].locations[0];
    assert_eq!(loc.modifier.as_deref(), Some("~*"));
    assert_eq!(loc.path, "\\.php$");
    assert_eq!(loc.directives[0].name, "fastcgi_pass");
    assert_eq!(loc.directives[0].value, "127.0.0.1:9000");
}

#[test]
fn unterminated_block_reports_start_line() {
    let input = "server {\n    listen 80;\n";
    let err = parse_nginx_config(input, "t.conf").unwrap_err();
    assert_eq!(err, ParseError::UnterminatedBlock { line: 1 });
}

#[test]
fn invalid_location_header() {
    let input = "server {\n    location{\n    }\n}";
    let err = parse_nginx_config(input, "t.conf").unwrap_err();
    assert_eq!(err, ParseError::InvalidLocationSyntax { line: 2 });
}

#[test]
fn empty_input_parses_empty() {
    let config = parse_nginx_config("", "t.conf").unwrap();
    assert_eq!(config.servers.len(), 0);
    assert_eq!(config.global_directives.len(), 0);
    assert_eq!(config.raw_content, "");
}

#[test]
fn global_directives_and_comments() {
    let input = "# main config\nworker_processes 4;\n\nerror_log logs/error.log;\n";
    let config = parse_nginx_config(input, "t.conf").unwrap();
    assert_eq!(config.servers.len(), 0);
    assert_eq!(config.global_directives.len(), 2);
    assert_eq!(config.global_directives[0].name, "worker_processes");
    assert_eq!(config.global_directives[0].value, "4");
    assert_eq!(config.global_directives[0].line, 2);
    assert_eq!(config.global_directives[1].name, "error_log");
    assert_eq!(config.global_directives[1].line, 4);
}

#[test]
fn multiple_server_names_flattened() {
    let input = "server {\n    server_name a.com b.com  c.com;\n}";
    let config = parse_nginx_config(input, "t.conf").unwrap();
    let sb = &config.servers[0];
    assert_eq!(
        sb.server_name,
        vec!["a.com".to_string(), "b.com".to_string(), "c.com".to_string()]
    );
}

#[test]
fn multiple_listen_in_order() {
    let input = "server {\n    listen 80;\n    listen 443 ssl;\n}";
    let config = parse_nginx_config(input, "t.conf").unwrap();
    let sb = &config.servers[0];
    assert_eq!(sb.listen, vec!["80".to_string(), "443 ssl".to_string()]);
}

#[test]
fn directive_scanner_basics() {
    let d = parse_directive("proxy_pass http://x;", 5).unwrap();
    assert_eq!(d.name, "proxy_pass");
    assert_eq!(d.value, "http://x");
    assert_eq!(d.line, 5);

    let d = parse_directive("listen 80;# default port", 1).unwrap();
    assert_eq!(d.name, "listen");
    assert_eq!(d.value, "80");

    // with a space before the comment, the semicolon is no longer
    // trailing when it is stripped, so it stays in the value
    let d = parse_directive("listen 80; # default port", 1).unwrap();
    assert_eq!(d.name, "listen");
    assert_eq!(d.value, "80;");

    let d = parse_directive("internal;", 9).unwrap();
    assert_eq!(d.name, "internal");
    assert_eq!(d.value, "");

    assert!(parse_directive("", 1).is_none());
    assert!(parse_directive("# only a comment", 1).is_none());
    assert!(parse_directive("server {", 1).is_none());
    assert!(parse_directive("}", 1).is_none());
}

#[test]
fn directive_scanner_strips_one_trailing_semicolon() {
    // only one trailing semicolon is stripped; a doubled one leaves the
    // second in the scanned text
    let d = parse_directive("listen 80;;", 1).unwrap();
    assert_eq!(d.name, "listen");
    assert_eq!(d.value, "80;");

    // a line of two semicolons still yields a directive, named `;`
    let d = parse_directive(";;", 7).unwrap();
    assert_eq!(d.name, ";");
    assert_eq!(d.value, "");
    assert_eq!(d.line, 7);
}

#[test]
fn directive_scan_of_rendered_form_round_trips() {
    // a rendered `name value;` statement scans back to the same pair
    let d = parse_directive("root /var/www/html;", 3).unwrap();
    assert_eq!(d.name, "root");
    assert_eq!(d.value, "/var/www/html");
    let rendered = format!("{} {};", d.name, d.value);
    let d2 = parse_directive(&rendered, 3).unwrap();
    assert_eq!(d2.name, d.name);
    assert_eq!(d2.value, d.value);
}

#[test]
fn boundary_matcher_balances_braces() {
    let lines = lines_of(&["server {", "    listen 80;", "}"]);
    assert_eq!(find_block_end(&lines, 0).unwrap(), 2);

    let one_line = lines_of(&["location / { return 200; }", "}"]);
    assert_eq!(find_block_end(&one_line, 0).unwrap(), 0);

    let nested = lines_of(&["http {", "    server {", "    }", "}"]);
    assert_eq!(find_block_end(&nested, 0).unwrap(), 3);
    assert_eq!(find_block_end(&nested, 1).unwrap(), 2);

    let open = lines_of(&["server {", "    listen 80;"]);
    assert_eq!(
        find_block_end(&open, 0).unwrap_err(),
        ParseError::UnterminatedBlock { line: 1 }
    );
}

#[test]
fn http_block_location() {
    let lines = lines_of(&["events {", "}", "http {", "    server {", "    }", "}"]);
    assert_eq!(find_http_block(&lines).unwrap(), (2, 5));

    let none = lines_of(&["events {", "}"]);
    assert_eq!(find_http_block(&none).unwrap_err(), ParseError::MissingHttpBlock);

    let open = lines_of(&["http {", "    server {"]);
    assert_eq!(
        find_http_block(&open).unwrap_err(),
        ParseError::UnterminatedBlock { line: 1 }
    );
}

#[test]
fn raw_content_round_trips() {
    let input = "worker_processes 1;\nserver {\n    listen 80;\n    location / {\n        root html;\n    }\n}\n";
    let config = parse_nginx_config(input, "t.conf").unwrap();
    let sb = &config.servers[0];
    let lines: Vec<&str> = input.lines().collect();
    assert_eq!(
        sb.raw_content,
        lines[sb.start_line - 1..sb.end_line].join("\n")
    );
    let loc = &sb.locations[0];
    assert_eq!(
        loc.raw_content,
        lines[loc.start_line - 1..loc.end_line].join("\n")
    );
}

#[test]
fn identifiers_are_deterministic() {
    let input = "server {\n    listen 80;\n}\nserver {\n    listen 443;\n}";
    let a = parse_nginx_config(input, "one.conf").unwrap();
    let b = parse_nginx_config(input, "two.conf").unwrap();
    assert_eq!(a.servers.len(), 2);
    assert_eq!(a.servers[0].id, b.servers[0].id);
    assert_eq!(a.servers[1].id, b.servers[1].id);
    assert_eq!(a.servers[0].id, "server_0");
    assert_eq!(a.servers[1].id, "server_3");
}

#[test]
fn default_settings() {
    let s = AppSettings::default();
    assert_eq!(s.nginx_path, "");
    assert_eq!(s.config_path, "");
    assert_eq!(s.theme, "dark");
    assert_eq!(s.language, "zh-CN");
}
