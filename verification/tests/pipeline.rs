use lutim_uploader::config::{config_to_json, parse_config, Config};
use lutim_uploader::dispatch::{dispatch, status_code_string, UploadOutcome};
use lutim_uploader::response::{build_final_url, classify_response, parse_upload_response};
use lutim_uploader::upload::{
    extension_of, generate_remote_filename, path_in_watch_dir, plan_upload, remote_filename,
    upload_form_fields, EventOutcome,
};

#[test]
fn default_config_values() {
    let c = Config::default_for("/home/user");
    assert_eq!(c.watch_path, "/home/user/screenshots");
    assert_eq!(c.lutim_url, "Insert Lutim URL here");
}

#[test]
fn config_renders_pretty_json() {
    let c = Config {
        watch_path: "/tmp/shots".to_string(),
        lutim_url: "https://example.test".to_string(),
    };
    let text = config_to_json(&c);
    assert_eq!(
        text,
        "{\n  \"watch_path\": \"/tmp/shots\",\n  \"lutim_url\": \"https://example.test\"\n}"
    );
}

#[test]
fn config_round_trip_plain() {
    let c = Config {
        watch_path: "/home/user/screenshots".to_string(),
        lutim_url: "https://lutim.example".to_string(),
    };
    let parsed = parse_config(&config_to_json(&c)).expect("round trip must parse");
    assert_eq!(parsed.watch_path, c.watch_path);
    assert_eq!(parsed.lutim_url, c.lutim_url);
}

#[test]
fn config_round_trip_escaped() {
    let c = Config {
        watch_path: "C:\\Users\\me\\\"shots\"".to_string(),
        lutim_url: "https://example.test/\\\"".to_string(),
    };
    let text = config_to_json(&c);
    assert!(text.contains("C:\\\\Users\\\\me\\\\\\\"shots\\\""));
    let parsed = parse_config(&text).expect("escaped round trip must parse");
    assert_eq!(parsed.watch_path, c.watch_path);
    assert_eq!(parsed.lutim_url, c.lutim_url);
}

#[test]
fn default_config_round_trip() {
    let c = Config::default_for("/srv/work");
    let parsed = parse_config(&config_to_json(&c)).expect("default must round trip");
    assert_eq!(parsed.watch_path, "/srv/work/screenshots");
    assert_eq!(parsed.lutim_url, "Insert Lutim URL here");
}

#[test]
fn parse_returns_exact_contents() {
    let text = "{\n  \"watch_path\": \"/a/b\",\n  \"lutim_url\": \"https://x.y\"\n}";
    let parsed = parse_config(text).expect("well-formed text must parse");
    assert_eq!(parsed.watch_path, "/a/b");
    assert_eq!(parsed.lutim_url, "https://x.y");
}

#[test]
fn parse_accepts_trailing_whitespace() {
    let text = "{\n  \"watch_path\": \"/a\",\n  \"lutim_url\": \"u\"\n}\n";
    let parsed = parse_config(text).expect("a trailing newline is fine");
    assert_eq!(parsed.watch_path, "/a");
    assert_eq!(parsed.lutim_url, "u");
}

#[test]
fn parse_accepts_compact_json() {
    let parsed = parse_config("{\"watch_path\": \"/a\", \"lutim_url\": \"https://x\"}")
        .expect("compact JSON is well-formed");
    assert_eq!(parsed.watch_path, "/a");
    assert_eq!(parsed.lutim_url, "https://x");
}

#[test]
fn parse_accepts_swapped_keys_and_extras() {
    let parsed = parse_config("{\"lutim_url\":\"u\",\"note\":7,\"watch_path\":\"/a\"}")
        .expect("key order and unused members are free");
    assert_eq!(parsed.watch_path, "/a");
    assert_eq!(parsed.lutim_url, "u");
}

#[test]
fn parse_accepts_standard_escapes() {
    let parsed = parse_config(
        "{\"watch_path\": \"\\u0041\\n\\t\\/x\", \"lutim_url\": \"a\\bb\\fc\\rd\"}",
    )
    .expect("standard JSON escapes decode");
    assert_eq!(parsed.watch_path, "A\n\t/x");
    assert_eq!(parsed.lutim_url, "a\u{8}b\u{c}c\rd");
}

#[test]
fn parse_rejects_malformed() {
    assert!(parse_config("").is_none());
    assert!(parse_config("{}").is_none());
    assert!(parse_config("{\n  \"watch_path\": \"/a\"\n}").is_none());
    assert!(parse_config("{\n  \"watch_path\": \"/a\",\n  \"lutim_url\": \"u\"\n} x").is_none());
    assert!(parse_config("{\n  \"watch_path\": \"/a\",\n  \"lutim_url\": \"u").is_none());
    assert!(parse_config("{\n  \"watch_path\": \"/a\\q\",\n  \"lutim_url\": \"u\"\n}").is_none());
    assert!(parse_config("{\"watch_path\": \"\\ud800\", \"lutim_url\": \"u\"}").is_none());
    assert!(parse_config("{\"watch_path\": 3, \"lutim_url\": \"u\"}").is_none());
}

#[test]
fn parse_rejects_comma_faults() {
    assert!(parse_config("{\"watch_path\":\"/a\" \"lutim_url\":\"u\"}").is_none());
    assert!(parse_config("{\"watch_path\":\"/a\",\"lutim_url\":\"u\",}").is_none());
    assert!(parse_config("{,\"watch_path\":\"/a\",\"lutim_url\":\"u\"}").is_none());
    assert!(parse_config("{\"watch_path\":\"/a\",,\"lutim_url\":\"u\"}").is_none());
}

#[test]
fn parse_rejects_bare_control_characters() {
    assert!(parse_config("{\"watch_path\":\"a\u{1}b\",\"lutim_url\":\"u\"}").is_none());
    assert!(parse_config("{\"watch_path\":\"a\tb\",\"lutim_url\":\"u\"}").is_none());
}

#[test]
fn parse_decodes_surrogate_pairs() {
    let parsed = parse_config("{\"watch_path\":\"\\ud83d\\ude00\",\"lutim_url\":\"u\"}")
        .expect("a surrogate pair encodes one astral character");
    assert_eq!(parsed.watch_path, "\u{1F600}");
    assert_eq!(parsed.lutim_url, "u");
}

#[test]
fn config_round_trip_control_characters() {
    let c = Config {
        watch_path: "a\nb\u{1}c\td".to_string(),
        lutim_url: "u\r v".to_string(),
    };
    let text = config_to_json(&c);
    assert!(text.contains("a\\nb\\u0001c\\td"));
    assert!(text.contains("u\\r v"));
    let parsed = parse_config(&text).expect("control characters round trip");
    assert_eq!(parsed.watch_path, c.watch_path);
    assert_eq!(parsed.lutim_url, c.lutim_url);
}

#[test]
fn rendered_config_is_real_json() {
    let c = Config {
        watch_path: "/tmp/shots".to_string(),
        lutim_url: "https://example.test".to_string(),
    };
    let v: serde_json::Value = serde_json::from_str(&config_to_json(&c)).expect("valid JSON");
    assert_eq!(v.get("watch_path").unwrap().as_str().unwrap(), "/tmp/shots");
    assert_eq!(v.get("lutim_url").unwrap().as_str().unwrap(), "https://example.test");
}

#[test]
fn extension_cases() {
    assert_eq!(extension_of("shot.png").as_deref(), Some("png"));
    assert_eq!(extension_of("archive.tar.gz").as_deref(), Some("gz"));
    assert_eq!(extension_of("trailing.").as_deref(), Some(""));
    assert_eq!(extension_of("noext"), None);
    assert_eq!(extension_of(".hidden"), None);
    assert_eq!(extension_of(".hidden.png").as_deref(), Some("png"));
    assert_eq!(extension_of(""), None);
}

#[test]
fn remote_filename_concatenation() {
    assert_eq!(remote_filename("abc", "png"), "abc.png");
}

#[test]
fn generated_remote_filename_form() {
    let name = generate_remote_filename("png");
    let chars: Vec<char> = name.chars().collect();
    assert_eq!(chars.len(), 34);
    for c in &chars[..30] {
        assert!(c.is_ascii_alphanumeric());
    }
    assert_eq!(chars[30], '.');
    assert_eq!(&name[31..], "png");
}

#[test]
fn path_join() {
    assert_eq!(path_in_watch_dir("/home/u/screenshots", "a.png"), "/home/u/screenshots/a.png");
}

#[test]
fn form_fields_are_fixed() {
    let fields = upload_form_fields();
    let expected = [
        ("format", "json"),
        ("first-view", "0"),
        ("delete-day", "30"),
        ("crypt", "1"),
        ("keep-exif", "0"),
    ];
    assert_eq!(fields.len(), expected.len());
    for (got, want) in fields.iter().zip(expected.iter()) {
        assert_eq!(got.0, want.0);
        assert_eq!(got.1, want.1);
    }
}

#[test]
fn non_close_write_never_uploads() {
    assert!(matches!(
        plan_upload("/w", false, Some("shot.png")),
        EventOutcome::Ignore
    ));
    assert!(matches!(plan_upload("/w", false, None), EventOutcome::Ignore));
    assert!(matches!(plan_upload("/w", true, None), EventOutcome::Ignore));
}

#[test]
fn close_write_with_name_uploads() {
    match plan_upload("/home/u/screenshots", true, Some("shot.png")) {
        EventOutcome::Upload(p) => {
            assert_eq!(p.file_path, "/home/u/screenshots/shot.png");
            let chars: Vec<char> = p.remote_name.chars().collect();
            assert_eq!(chars.len(), 34);
            for c in &chars[..30] {
                assert!(c.is_ascii_alphanumeric());
            }
            assert_eq!(chars[30], '.');
            assert!(p.remote_name.ends_with(".png"));
        }
        _ => panic!("expected an upload plan"),
    }
}

#[test]
fn name_without_extension_is_flagged() {
    assert!(matches!(
        plan_upload("/w", true, Some("noext")),
        EventOutcome::NoExtension
    ));
    assert!(matches!(
        plan_upload("/w", true, Some(".hidden")),
        EventOutcome::NoExtension
    ));
}

#[test]
fn response_parses_documented_shape() {
    let body = "{\"msg\": {\"short\": \"abc123\", \"ext\": \"png\"}}";
    let (short, ext) = parse_upload_response(body).expect("documented shape must parse");
    assert_eq!(short, "abc123");
    assert_eq!(ext, "png");
}

#[test]
fn response_tolerates_extra_fields_and_order() {
    let body = "{\"success\": true, \"msg\": {\"real_short\": \"rs1\", \"ext\": \"png\", \
                \"thumb\": null, \"short\": \"abc123\", \"limit\": 0}, \
                \"extra\": {\"nested\": {\"deep\": 1}}}";
    let (short, ext) = parse_upload_response(body).expect("lenient parse");
    assert_eq!(short, "abc123");
    assert_eq!(ext, "png");
}

#[test]
fn response_skips_other_objects_before_msg() {
    let body = "{\"first\": {\"short\": \"WRONG\", \"ext\": \"no\"}, \
                \"msg\": {\"short\": \"abc123\", \"ext\": \"png\"}}";
    let (short, ext) = parse_upload_response(body).expect("must find msg's own fields");
    assert_eq!(short, "abc123");
    assert_eq!(ext, "png");
}

#[test]
fn response_tolerates_whitespace() {
    let body = " {\n \"msg\" : {\n \"short\" : \"abc123\" ,\n \"ext\" : \"png\"\n }\n }\n";
    let (short, ext) = parse_upload_response(body).expect("whitespace is fine");
    assert_eq!(short, "abc123");
    assert_eq!(ext, "png");
}

#[test]
fn response_tolerates_arrays_and_escapes() {
    let body = "{\"success\": true, \"msg\": {\"short\": \"\\u0061bc123\", \"ext\": \"png\", \
                \"sizes\": [100, 200, {\"k\": []}]}, \"tags\": [\"a\", \"b\"]}";
    let (short, ext) = parse_upload_response(body).expect("arrays and escapes are fine");
    assert_eq!(short, "abc123");
    assert_eq!(ext, "png");
}

#[test]
fn response_rejects_other_shapes() {
    assert!(parse_upload_response("").is_none());
    assert!(parse_upload_response("{\"msg\": {}}").is_none());
    assert!(parse_upload_response("{\"msg\": {\"short\": \"a\"}}").is_none());
    assert!(parse_upload_response("{\"msg\": \"flat\"}").is_none());
    assert!(parse_upload_response("{\"msg\": {\"short\": 7, \"ext\": \"png\"}}").is_none());
    assert!(parse_upload_response("not json").is_none());
    assert!(parse_upload_response("{\"msg\": {\"short\": \"a\", \"ext\": \"b\"}} x").is_none());
    assert!(parse_upload_response("{\"msg\": {\"short\": \"a\", \"ext\": \"b\"").is_none());
    assert!(parse_upload_response("{\"msg\": {\"short\": \"a\" \"ext\": \"b\"}}").is_none());
    assert!(parse_upload_response("{\"msg\": {\"short\": \"a\", \"ext\": \"b\",}}").is_none());
    assert!(
        parse_upload_response("{\"msg\": {\"short\": \"a\", \"ext\": \"b\"}, \"n\": [1 2]}")
            .is_none()
    );
}

#[test]
fn final_url_from_success_response() {
    let body = "{\"msg\": {\"short\": \"abc123\", \"ext\": \"png\"}}";
    match classify_response("https://example.test", 200, body) {
        Some(UploadOutcome::Success { url }) => {
            assert_eq!(url, "https://example.test/abc123.png");
        }
        _ => panic!("expected a success outcome"),
    }
}

#[test]
fn build_final_url_exact() {
    assert_eq!(
        build_final_url("https://example.test", "abc123", "png"),
        "https://example.test/abc123.png"
    );
}

#[test]
fn success_with_unreadable_body_is_fatal() {
    assert!(classify_response("https://example.test", 200, "not json").is_none());
}

#[test]
fn non_success_statuses_are_server_errors() {
    match classify_response("https://example.test", 500, "ignored") {
        Some(UploadOutcome::ServerError { status }) => assert_eq!(status, 500),
        _ => panic!("expected a server error"),
    }
    match classify_response("https://example.test", 404, "") {
        Some(UploadOutcome::ServerError { status }) => assert_eq!(status, 404),
        _ => panic!("expected a server error"),
    }
    match classify_response("https://example.test", 199, "") {
        Some(UploadOutcome::ServerError { status }) => assert_eq!(status, 199),
        _ => panic!("expected a server error"),
    }
    match classify_response("https://example.test", 300, "") {
        Some(UploadOutcome::ServerError { status }) => assert_eq!(status, 300),
        _ => panic!("expected a server error"),
    }
}

#[test]
fn status_code_digits() {
    assert_eq!(status_code_string(500), "500");
    assert_eq!(status_code_string(0), "0");
    assert_eq!(status_code_string(65535), "65535");
}

#[test]
fn dispatch_success_copies_and_opens() {
    let outcome = UploadOutcome::Success {
        url: "https://example.test/abc123.png".to_string(),
    };
    let plan = dispatch(&outcome);
    assert_eq!(plan.clipboard_text.as_deref(), Some("https://example.test/abc123.png"));
    assert_eq!(plan.browser_url.as_deref(), Some("https://example.test/abc123.png"));
    assert_eq!(plan.notification.body, "Image sent. Link copied to the clipboard");
    assert_eq!(plan.notification.appname, "lutim-uploader");
    assert_eq!(plan.notification.timeout_ms, 5000);
}

#[test]
fn dispatch_server_error_only_notifies() {
    let plan = dispatch(&UploadOutcome::ServerError { status: 500 });
    assert!(plan.clipboard_text.is_none());
    assert!(plan.browser_url.is_none());
    assert_eq!(plan.notification.body, "Server error: 500");
    assert!(plan.notification.body.contains("500"));
    assert_eq!(plan.notification.appname, "lutim-uploader");
    assert_eq!(plan.notification.timeout_ms, 5000);
}

#[test]
fn dispatch_transport_error_only_notifies() {
    let plan = dispatch(&UploadOutcome::TransportError {
        detail: "connection refused".to_string(),
    });
    assert!(plan.clipboard_text.is_none());
    assert!(plan.browser_url.is_none());
    assert_eq!(plan.notification.body, "Other error: connection refused");
    assert!(plan.notification.body.contains("connection refused"));
    assert_eq!(plan.notification.appname, "lutim-uploader");
    assert_eq!(plan.notification.timeout_ms, 5000);
}
