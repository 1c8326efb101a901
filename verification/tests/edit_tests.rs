use nginx_config_manager::edit::{
    add_location_content, add_server_block_content, delete_server_block_content,
    generate_add_server_text, generate_update_server_text, update_server_block_content,
};
use nginx_config_manager::model::{
    DirectiveInput, EditError, LocationBlockInput, ParseError, ServerBlockInput,
};
use nginx_config_manager::platform::{decode_gbk, decode_output, parse_nginx_path};
use nginx_config_manager::staging::{is_temp_config_path, make_temp_file_name};

fn sample_input() -> ServerBlockInput {
    ServerBlockInput {
        listen: vec!["8080".to_string()],
        server_name: vec!["x.com".to_string(), "y.com".to_string()],
        directives: vec![
            DirectiveInput { name: "root".to_string(), value: "/srv".to_string() },
            DirectiveInput { name: "internal".to_string(), value: "".to_string() },
        ],
    }
}

#[test]
fn append_server_block_text() {
    let out = add_server_block_content("worker_processes 1;\n", &sample_input());
    assert_eq!(
        out,
        "worker_processes 1;\n\nserver {\n    listen 8080;\n    server_name x.com y.com;\n    root /srv;\n    internal;\n}\n"
    );
}

#[test]
fn update_server_preserves_other_lines() {
    let content = "worker_processes 1;\nserver {\n    listen 80;\n}\nerror_log off;";
    let out = update_server_block_content(content, "server_1", &sample_input()).unwrap();
    let expected = "worker_processes 1;\nserver {\n    listen 8080;\n    server_name x.com y.com;\n    root /srv;\n    internal;\n}\nerror_log off;";
    assert_eq!(out, expected);
}

#[test]
fn update_keeps_location_raw_text() {
    let content = "server {\n    listen 80;\n    location / {\n        root html;\n    }\n}";
    let input = ServerBlockInput {
        listen: vec!["81".to_string()],
        server_name: vec![],
        directives: vec![],
    };
    let out = update_server_block_content(content, "server_0", &input).unwrap();
    // the kept raw text carries no trailing newline, so the server's own
    // closing brace lands directly after the location's
    assert_eq!(
        out,
        "server {\n    listen 81;\n\n    location / {\n        root html;\n    }}"
    );
}

#[test]
fn update_unknown_id_is_not_found() {
    let content = "server {\n    listen 80;\n}";
    match update_server_block_content(content, "server_9", &sample_input()) {
        Err(EditError::NotFound { id }) => assert_eq!(id, "server_9"),
        other => panic!("expected NotFound, got {:?}", other.map(|_| ())),
    }
}

#[test]
fn update_unparsable_file_is_parse_error() {
    let content = "server {\n    listen 80;";
    match update_server_block_content(content, "server_0", &sample_input()) {
        Err(EditError::Parse { error }) => {
            assert_eq!(error, ParseError::UnterminatedBlock { line: 1 })
        },
        other => panic!("expected Parse, got {:?}", other.map(|_| ())),
    }
}

#[test]
fn delete_removes_exactly_the_block() {
    // a ten-line file whose server block spans lines 4..=7
    let content = "# head\nworker_processes 1;\nevents {\n}\nserver {\n    listen 80;\n    root /a;\n}\n# tail\npid run/nginx.pid;";
    let lines: Vec<&str> = content.lines().collect();
    assert_eq!(lines.len(), 10);
    let out = delete_server_block_content(content, "server_4").unwrap();
    let expected = "# head\nworker_processes 1;\nevents {\n}\n# tail\npid run/nginx.pid;";
    assert_eq!(out, expected);
}

#[test]
fn delete_unknown_id_is_not_found() {
    match delete_server_block_content("server {\n}", "server_3") {
        Err(EditError::NotFound { id }) => assert_eq!(id, "server_3"),
        other => panic!("expected NotFound, got {:?}", other.map(|_| ())),
    }
}

#[test]
fn add_location_before_closing_line() {
    let content = "server {\n    listen 80;\n}";
    let li = LocationBlockInput {
        path: "/api".to_string(),
        modifier: Some("~".to_string()),
        directives: vec![DirectiveInput {
            name: "proxy_pass".to_string(),
            value: "http://up".to_string(),
        }],
    };
    let out = add_location_content(content, "server_0", &li).unwrap();
    assert_eq!(
        out,
        "server {\n    listen 80;\n\n    location ~ /api {\n        proxy_pass http://up;\n    }\n}"
    );
}

#[test]
fn generate_add_inserts_into_http_block() {
    let content = "events {\n}\nhttp {\n    server {\n    }\n}";
    let out = generate_add_server_text(content, "server {\n    listen 90;\n}\n").unwrap();
    assert_eq!(
        out,
        "events {\n}\nhttp {\n    server {\n    }\n\n    server {\n        listen 90;\n    }\n\n}"
    );
}

#[test]
fn generate_add_without_http_block_fails() {
    let err = generate_add_server_text("events {\n}", "server {\n}").unwrap_err();
    assert_eq!(err, ParseError::MissingHttpBlock);
}

#[test]
fn generate_update_splices_literal_text() {
    let content = "# a\nserver {\n    listen 80;\n}\n# b";
    let out =
        generate_update_server_text(content, "server_1", "server {\n    listen 81;\n}").unwrap();
    assert_eq!(out, "# a\nserver {\n    listen 81;\n}\n# b");
}

#[test]
fn staging_name_carries_marker() {
    let name = make_temp_file_name(12345);
    assert_eq!(name, ".nginx_temp_12345.conf");
    assert!(is_temp_config_path(&name));
    assert!(is_temp_config_path("/etc/nginx/.nginx_temp_99.conf"));
    assert!(!is_temp_config_path("/etc/nginx/nginx.conf"));
}

#[test]
fn decode_output_is_lossy_utf8() {
    assert_eq!(decode_output(b"hello"), "hello");
    assert_eq!(decode_output(&[0xe4, 0xbd, 0xa0]), "\u{4f60}");
    assert_eq!(decode_output(&[0x61, 0xff, 0x62]), "a\u{fffd}b");
}

#[test]
fn decode_gbk_decodes_chinese() {
    // GBK bytes for the two characters of "hello" in Chinese
    assert_eq!(decode_gbk(&[0xc4, 0xe3, 0xba, 0xc3]), "\u{4f60}\u{597d}");
    assert_eq!(decode_gbk(b"ok"), "ok");
}

#[test]
fn nginx_path_splits_into_exe_and_dir() {
    let (exe, dir) = parse_nginx_path("/usr/sbin/nginx");
    assert_eq!(exe, "/usr/sbin/nginx");
    assert_eq!(dir, "/usr/sbin");

    let (exe, dir) = parse_nginx_path("/opt/nginx/");
    assert_eq!(exe, "/opt/nginx/nginx");
    assert_eq!(dir, "/opt/nginx/");

    let (exe, dir) = parse_nginx_path("nginx");
    assert_eq!(exe, "nginx");
    assert_eq!(dir, "");

    let (exe, dir) = parse_nginx_path("/nginx");
    assert_eq!(exe, "/nginx");
    assert_eq!(dir, "/");
}
