use cpanel_nas_backup::config::{Config, Environment};
use cpanel_nas_backup::json::{parse_json, Json};
use cpanel_nas_backup::uapi::{
    backup_pid, document_data, reply_data, CpanelClient, UapiError, UapiResult,
};

fn config(extra: &[(&str, &str)]) -> Config {
    let mut vars: Vec<(String, String)> = Vec::new();
    for (n, v) in extra.iter().chain(
        [
            ("CPANEL_BASE_URL", "https://h:2083/"),
            ("CPANEL_USERNAME", "user"),
            ("CPANEL_PASSWORD", "p:\u{e4}"),
            ("CPANEL_FTP_HOST", "f"),
            ("CPANEL_FTP_USERNAME", "fu"),
            ("CPANEL_FTP_PASSWORD", "fp"),
        ]
        .iter(),
    ) {
        vars.push((n.to_string(), v.to_string()));
    }
    Config::from_env(&Environment { vars }).unwrap()
}

fn params(list: &[(&str, &str)]) -> Vec<(String, String)> {
    list.iter().map(|(k, v)| (k.to_string(), v.to_string())).collect()
}

fn object(members: Vec<(&str, Json)>) -> Json {
    Json::Object(members.into_iter().map(|(k, v)| (k.to_string(), v)).collect())
}

fn text(s: &str) -> Json {
    Json::Text(s.to_string())
}

#[test]
fn backup_request_with_defaults() {
    let config = config(&[]);
    let request = CpanelClient::new(&config).start_full_backup();
    assert_eq!(
        request.url,
        "https://h:2083/execute/Backup/fullbackup_to_homedir?homedir=include"
    );
    assert_eq!(
        request.headers,
        params(&[("Accept", "application/json"), ("Authorization", "Basic dXNlcjpwOsOk")])
    );
    assert_eq!(request.timeout, 30);
}

#[test]
fn backup_request_with_email_and_token() {
    let config = config(&[
        ("CPANEL_API_TOKEN", "TOKEN"),
        ("CPANEL_INCLUDE_HOME", "false"),
        ("CPANEL_BACKUP_EMAIL", "a+b@example.com&x=\u{e9}"),
    ]);
    let request = CpanelClient::new(&config).start_full_backup();
    assert_eq!(
        request.url,
        "https://h:2083/execute/Backup/fullbackup_to_homedir?homedir=skip\
         &email=a%2Bb%40example.com%26x%3D%C3%A9"
    );
    assert_eq!(request.headers[1].1, "cpanel user:TOKEN");
}

#[test]
fn request_without_parameters_has_no_query() {
    let config = config(&[]);
    let request = CpanelClient::new(&config).uapi_get("Backup/list_backups", &Vec::new());
    assert_eq!(request.url, "https://h:2083/execute/Backup/list_backups");
}

#[test]
fn encoded_values_keep_only_unreserved_characters() {
    let config = config(&[]);
    let all: String = (0x20_u8..0x7f).map(|b| b as char).collect();
    let request = CpanelClient::new(&config).uapi_get("x", &params(&[("v", &all)]));
    assert_eq!(
        request.url,
        "https://h:2083/execute/x?v=%20%21%22%23%24%25%26%27%28%29%2A%2B%2C-.%2F0123456789\
         %3A%3B%3C%3D%3E%3F%40ABCDEFGHIJKLMNOPQRSTUVWXYZ%5B%5C%5D%5E_%60\
         abcdefghijklmnopqrstuvwxyz%7B%7C%7D~"
    );
}

#[test]
fn different_parameters_give_different_queries() {
    let config = config(&[]);
    let client = CpanelClient::new(&config);
    let one = client.uapi_get("x", &params(&[("a", "1&b=2")]));
    let two = client.uapi_get("x", &params(&[("a", "1"), ("b", "2")]));
    assert_eq!(one.url, "https://h:2083/execute/x?a=1%26b%3D2");
    assert_eq!(two.url, "https://h:2083/execute/x?a=1&b=2");
}

#[test]
fn basic_credentials_of_every_length() {
    for (password, expected) in [
        ("", "Basic dXNlcjo="),
        ("a", "Basic dXNlcjph"),
        ("ab", "Basic dXNlcjphYg=="),
        ("?>?>", "Basic dXNlcjo/Pj8+"),
    ] {
        let mut config = config(&[]);
        config.cpanel_auth = cpanel_nas_backup::config::CpanelAuth::Password(password.to_string());
        let request = CpanelClient::new(&config).uapi_get("x", &Vec::new());
        assert_eq!(request.headers[1].1, expected);
    }
}

#[test]
fn nested_result_brings_its_data() {
    let body = r#"{"module":"Backup","result":{"status":1,"data":{"pid":"4711"},"errors":null}}"#;
    let data = reply_data(200, body).unwrap();
    assert_eq!(backup_pid(&data), "4711");
}

#[test]
fn top_level_result_brings_its_data() {
    let data = reply_data(299, r#"{"data":[1,-2,1.5,true,null],"status":1}"#).unwrap();
    assert_eq!(
        data,
        Json::Array(vec![
            Json::Unsigned(1),
            Json::Negative(-2),
            Json::Float("1.5".to_string()),
            Json::Bool(true),
            Json::Null,
        ])
    );
    assert_eq!(backup_pid(&data), "unknown");
}

#[test]
fn http_failure_is_reported_with_the_body() {
    for status in [199, 300, 403, -1] {
        let error = reply_data(status, "denied").unwrap_err();
        assert_eq!(error.message(), format!("cPanel UAPI returned HTTP {status}: denied"));
        match error {
            UapiError::Http { status: s, body } => {
                assert_eq!(s, status);
                assert_eq!(body, "denied");
            }
            other => panic!("{other:?}"),
        }
    }
}

#[test]
fn body_that_is_no_json_is_reported() {
    assert!(matches!(reply_data(200, "<html>"), Err(UapiError::NotJson { .. })));
    assert!(parse_json("{\"a\":1,}").is_err());
}

#[test]
fn faults_of_a_reply_have_messages() {
    let message = |body: &str| reply_data(200, body).unwrap_err().message();
    assert_eq!(message("<html>"), "parse cPanel UAPI JSON");
    assert_eq!(message("{}"), "parse cPanel UAPI top-level result");
    assert_eq!(message(r#"{"result":{}}"#), "parse cPanel UAPI result");
    assert_eq!(message(r#"{"status":0,"data":1}"#), "cPanel UAPI failed");
}

#[test]
fn wrapped_answer_brings_the_same() {
    for body in [
        r#"{"status":1,"data":[7]}"#,
        r#"{"status":0,"data":1,"errors":["x"]}"#,
        r#"[1,"d",null,null,null]"#,
        r#"{"status":"1"}"#,
    ] {
        let wrapped = format!(r#"{{"result":{body}}}"#);
        match (reply_data(200, body), reply_data(200, &wrapped)) {
            (Ok(plain), Ok(inner)) => assert_eq!(plain, inner),
            (
                Err(UapiError::Rejected { errors: plain, .. }),
                Err(UapiError::Rejected { errors: inner, .. }),
            ) => assert_eq!(plain, inner),
            (
                Err(UapiError::NotAResult { nested: false }),
                Err(UapiError::NotAResult { nested: true }),
            ) => {}
            other => panic!("{other:?}"),
        }
    }
}

#[test]
fn documents_that_are_no_result_are_reported() {
    for body in [
        "1",
        "{}",
        r#"{"status":1}"#,
        r#"{"data":1}"#,
        r#"{"status":"1","data":1}"#,
        r#"{"status":1.0,"data":1}"#,
        r#"{"status":2147483648,"data":1}"#,
        r#"{"status":1,"data":1,"errors":"x"}"#,
        "[1,2,null,null]",
        "[1,2,null,null,null,null]",
    ] {
        assert!(
            matches!(reply_data(200, body), Err(UapiError::NotAResult { nested: false })),
            "{body}"
        );
    }
    assert!(matches!(
        reply_data(200, r#"{"result":null,"status":1,"data":1}"#),
        Err(UapiError::NotAResult { nested: true })
    ));
}

#[test]
fn rejected_request_is_answered_with_its_reasons() {
    let body = r#"{"status":0,"data":null,"errors":["no access"],"messages":null,"x":1}"#;
    match reply_data(200, body) {
        Err(UapiError::Rejected { errors, messages, warnings }) => {
            assert_eq!(errors, Some(vec![text("no access")]));
            assert_eq!(messages, None);
            assert_eq!(warnings, None);
        }
        other => panic!("{other:?}"),
    }
}

#[test]
fn results_may_be_positional() {
    let result = UapiResult::from_json(Json::Array(vec![
        Json::Negative(-7),
        text("d"),
        Json::Null,
        Json::Array(vec![text("m")]),
        Json::Null,
    ]))
    .unwrap();
    assert_eq!(result.status, -7);
    assert_eq!(result.data, text("d"));
    assert_eq!(result.errors, None);
    assert_eq!(result.messages, Some(vec![text("m")]));
    assert_eq!(result.warnings, None);
}

#[test]
fn documents_can_be_built_by_hand() {
    let answer = object(vec![("data", object(vec![("pid", text("9"))])), ("status", Json::Unsigned(1))]);
    let data = document_data(object(vec![("result", answer)])).unwrap();
    assert_eq!(data.get("pid"), Some(&text("9")));
    assert_eq!(data.get("other"), None);
    assert_eq!(backup_pid(&object(vec![("pid", Json::Unsigned(9))])), "unknown");
    assert_eq!(text("x").get("pid"), None);
}

#[test]
fn later_duplicates_of_a_key_replace_earlier_ones_when_parsed() {
    let json = parse_json(r#"{"b":1,"a":2,"b":3}"#).unwrap();
    assert_eq!(json.get("b"), Some(&Json::Unsigned(3)));
}

#[test]
fn deeply_nested_documents_are_refused() {
    let nested = |depth: usize| "[".repeat(depth) + &"]".repeat(depth);
    assert!(parse_json(&nested(127)).is_ok());
    assert!(parse_json(&nested(128)).is_err());
}
