//! Requests to the cPanel UAPI and what its replies mean.

use base64::Engine;
use vstd::prelude::*;
use vstd::utf8::encode_utf8;

use crate::config::{AuthView, Config, ConfigView, CpanelAuth};
use crate::json::{
    json_document, json_views, lemma_json_parts, lookup, member, member_index, member_views,
    opt_json, parse_json, Json, JsonView,
};
use crate::text::{
    decimal_text, decimal_value, join, joined, law_decimal_notation_reads_back,
    law_split_undoes_join, pieces, same_text, signed_decimal, signed_decimal_text, texts,
};

verus! {

/// The seconds after which a request is given up.
pub const REQUEST_TIMEOUT: u64 = 30;

/// A byte that stands for itself in a URL: an ASCII letter or digit, or one of `-._~`.
pub open spec fn is_unreserved(b: u8) -> bool {
    ||| 0x30 <= b <= 0x39
    ||| 0x41 <= b <= 0x5a
    ||| 0x61 <= b <= 0x7a
    ||| b == 0x2d
    ||| b == 0x2e
    ||| b == 0x5f
    ||| b == 0x7e
}

/// The upper-case hexadecimal digit for `d`, which is below sixteen.
pub open spec fn upper_hex_char(d: nat) -> char {
    if d < 10 {
        (0x30 + d) as char
    } else {
        (0x37 + d) as char
    }
}

/// A byte as it stands in a URL.
pub open spec fn percent_byte(b: u8) -> Seq<char> {
    if is_unreserved(b) {
        seq![b as char]
    } else {
        seq!['%', upper_hex_char((b / 16) as nat), upper_hex_char((b % 16) as nat)]
    }
}

/// Bytes as they stand in a URL.
pub open spec fn percent_encoded(bytes: Seq<u8>) -> Seq<char>
    decreases bytes.len(),
{
    if bytes.len() == 0 {
        Seq::<char>::empty()
    } else {
        percent_byte(bytes.first()) + percent_encoded(bytes.drop_first())
    }
}

/// `urlencoding::encode` percent-encodes every byte of the UTF-8 form except
/// ASCII letters and digits and `-._~`, with upper-case hexadecimal digits.
#[verifier::external_body]
fn url_encode(s: &str) -> (res: String)
    ensures
        res@ == percent_encoded(encode_utf8(s@)),
{
    urlencoding::encode(s).into_owned()
}

/// The character of the standard base64 alphabet for `v`, which is below 64.
pub open spec fn base64_char(v: nat) -> char {
    if v < 26 {
        (0x41 + v) as char
    } else if v < 52 {
        (0x47 + v) as char
    } else if v < 62 {
        (v - 4) as char
    } else if v == 62 {
        '+'
    } else {
        '/'
    }
}

/// Base64 with the standard alphabet and padding: four characters for every
/// three bytes, the last group filled up with `=`.
pub open spec fn base64_text(bytes: Seq<u8>) -> Seq<char>
    decreases bytes.len(),
{
    if bytes.len() == 0 {
        Seq::<char>::empty()
    } else {
        let a = bytes[0] as nat;
        let b = if bytes.len() > 1 { bytes[1] as nat } else { 0 };
        let c = if bytes.len() > 2 { bytes[2] as nat } else { 0 };
        let group = seq![
            base64_char(a / 4),
            base64_char(a % 4 * 16 + b / 16),
            if bytes.len() > 1 { base64_char(b % 16 * 4 + c / 64) } else { '=' },
            if bytes.len() > 2 { base64_char(c % 64) } else { '=' },
        ];
        if bytes.len() <= 3 {
            group
        } else {
            group + base64_text(bytes.skip(3))
        }
    }
}

/// `Engine::encode` of the engine `BASE64_STANDARD` writes the UTF-8 form in
/// base64 with the standard alphabet and padding.
#[verifier::external_body]
fn base64_encode(s: &str) -> (res: String)
    ensures
        res@ == base64_text(encode_utf8(s@)),
{
    base64::prelude::BASE64_STANDARD.encode(s)
}

/// An HTTP GET request: where it goes, its header lines, and the seconds after
/// which it is given up.
#[derive(Debug)]
pub struct Request {
    pub url: String,
    pub headers: Vec<(String, String)>,
    pub timeout: u64,
}

/// A request as a mathematical value.
#[verifier::ext_equal]
pub struct RequestView {
    pub url: Seq<char>,
    pub headers: Seq<(Seq<char>, Seq<char>)>,
    pub timeout: nat,
}

/// Pairs of texts as mathematical values.
pub open spec fn text_pairs(pairs: Seq<(String, String)>) -> Seq<(Seq<char>, Seq<char>)> {
    pairs.map_values(|pair: (String, String)| (pair.0@, pair.1@))
}

impl View for Request {
    type V = RequestView;

    open spec fn view(&self) -> RequestView {
        RequestView {
            url: self.url@,
            headers: text_pairs(self.headers@),
            timeout: self.timeout as nat,
        }
    }
}

/// A parameter as it stands in a query.
pub open spec fn assignment(param: (Seq<char>, Seq<char>)) -> Seq<char> {
    param.0 + "="@ + percent_encoded(encode_utf8(param.1))
}

/// The parameters as they stand in a query.
pub open spec fn assignments(params: Seq<(Seq<char>, Seq<char>)>) -> Seq<Seq<char>> {
    params.map_values(|param: (Seq<char>, Seq<char>)| assignment(param))
}

/// The query part of a URL.
pub open spec fn query_text(params: Seq<(Seq<char>, Seq<char>)>) -> Seq<char> {
    joined(assignments(params), "&"@)
}

/// The URL of a UAPI function.
pub open spec fn uapi_url(
    base: Seq<char>,
    endpoint: Seq<char>,
    params: Seq<(Seq<char>, Seq<char>)>,
) -> Seq<char> {
    if params.len() == 0 {
        base + "/execute/"@ + endpoint
    } else {
        base + "/execute/"@ + endpoint + "?"@ + query_text(params)
    }
}

/// The value of the `Authorization` header.
pub open spec fn authorization(username: Seq<char>, credentials: AuthView) -> Seq<char> {
    match credentials {
        AuthView::ApiToken(token) => "cpanel "@ + username + ":"@ + token,
        AuthView::Password(password) => "Basic "@ + base64_text(
            encode_utf8(username + ":"@ + password),
        ),
    }
}

/// The request for a UAPI function.
pub open spec fn uapi_request(
    config: ConfigView,
    endpoint: Seq<char>,
    params: Seq<(Seq<char>, Seq<char>)>,
) -> RequestView {
    RequestView {
        url: uapi_url(config.cpanel_base_url, endpoint, params),
        headers: seq![
            ("Accept"@, "application/json"@),
            ("Authorization"@, authorization(config.cpanel_username, config.cpanel_auth)),
        ],
        timeout: REQUEST_TIMEOUT as nat,
    }
}

/// The parameters with which a full backup is asked for.
pub open spec fn backup_params(config: ConfigView) -> Seq<(Seq<char>, Seq<char>)> {
    let homedir = if config.cpanel_include_home {
        "include"@
    } else {
        "skip"@
    };
    match config.cpanel_backup_email {
        Some(email) => seq![("homedir"@, homedir), ("email"@, email)],
        None => seq![("homedir"@, homedir)],
    }
}

/// The request that starts a full backup.
pub open spec fn backup_request(config: ConfigView) -> RequestView {
    uapi_request(config, "Backup/fullbackup_to_homedir"@, backup_params(config))
}

/// A client of the UAPI for one account.
pub struct CpanelClient<'a> {
    pub config: &'a Config,
}

impl<'a> CpanelClient<'a> {
    /// The client for the account of `config`.
    pub fn new(config: &'a Config) -> (res: CpanelClient<'a>)
        ensures
            res.config == config,
    {
        CpanelClient { config }
    }

    /// The value of the `Authorization` header.
    fn authorization(&self) -> (res: String)
        ensures
            res@ == authorization(self.config@.cpanel_username, self.config@.cpanel_auth),
    {
        match &self.config.cpanel_auth {
            CpanelAuth::ApiToken(token) => {
                let mut res = "cpanel ".to_owned();
                res.append(self.config.cpanel_username.as_str());
                res.append(":");
                res.append(token.as_str());
                res
            },
            CpanelAuth::Password(password) => {
                let mut credential = self.config.cpanel_username.clone();
                credential.append(":");
                credential.append(password.as_str());
                let mut res = "Basic ".to_owned();
                res.append(base64_encode(credential.as_str()).as_str());
                res
            },
        }
    }

    /// The request for the UAPI function `endpoint`.
    pub fn uapi_get(&self, endpoint: &str, params: &Vec<(String, String)>) -> (res: Request)
        ensures
            res@ == uapi_request(self.config@, endpoint@, text_pairs(params@)),
    {
        let mut url = self.config.cpanel_base_url.clone();
        url.append("/execute/");
        url.append(endpoint);
        if params.len() > 0 {
            url.append("?");
            url.append(query(params).as_str());
        }
        let mut headers: Vec<(String, String)> = Vec::new();
        headers.push(("Accept".to_owned(), "application/json".to_owned()));
        headers.push(("Authorization".to_owned(), self.authorization()));
        Request { url, headers, timeout: REQUEST_TIMEOUT }
    }

    /// The request that starts a full backup.
    pub fn start_full_backup(&self) -> (res: Request)
        ensures
            res@ == backup_request(self.config@),
    {
        let homedir = if self.config.cpanel_include_home {
            "include"
        } else {
            "skip"
        };
        let mut params: Vec<(String, String)> = Vec::new();
        params.push(("homedir".to_owned(), homedir.to_owned()));
        match &self.config.cpanel_backup_email {
            Some(email) => {
                params.push(("email".to_owned(), email.clone()));
            },
            None => {},
        }
        assert(text_pairs(params@) =~= backup_params(self.config@));
        self.uapi_get("Backup/fullbackup_to_homedir", &params)
    }
}

/// The query part of a URL.
fn query(params: &Vec<(String, String)>) -> (res: String)
    ensures
        res@ == query_text(text_pairs(params@)),
{
    let ghost wanted = assignments(text_pairs(params@));
    let mut parts: Vec<String> = Vec::new();
    let mut i: usize = 0;
    while i < params.len()
        invariant
            i <= params.len(),
            wanted == assignments(text_pairs(params@)),
            texts(parts@) == wanted.take(i as int),
        decreases params.len() - i,
    {
        let mut part = params[i].0.clone();
        part.append("=");
        part.append(url_encode(params[i].1.as_str()).as_str());
        let ghost done = parts@;
        parts.push(part);
        assert(texts(parts@) =~= texts(done).push(part@));
        assert(wanted[i as int] == part@);
        assert(texts(parts@) =~= wanted.take(i + 1));
        i += 1;
    }
    assert(wanted.take(wanted.len() as int) =~= wanted);
    join(&parts, "&")
}

/// What a UAPI function answers.
#[derive(Debug)]
pub struct UapiResult {
    pub status: i32,
    pub data: Json,
    pub errors: Option<Vec<Json>>,
    pub messages: Option<Vec<Json>>,
    pub warnings: Option<Vec<Json>>,
}

/// An answer as a mathematical value.
pub struct UapiResultView {
    pub status: i32,
    pub data: JsonView,
    pub errors: Option<Seq<JsonView>>,
    pub messages: Option<Seq<JsonView>>,
    pub warnings: Option<Seq<JsonView>>,
}

/// The values of an optional list of documents.
pub open spec fn opt_json_list(list: Option<Vec<Json>>) -> Option<Seq<JsonView>> {
    match list {
        Some(items) => Some(json_views(items@)),
        None => None,
    }
}

impl View for UapiResult {
    type V = UapiResultView;

    open spec fn view(&self) -> UapiResultView {
        UapiResultView {
            status: self.status,
            data: self.data@,
            errors: opt_json_list(self.errors),
            messages: opt_json_list(self.messages),
            warnings: opt_json_list(self.warnings),
        }
    }
}

/// The 32-bit integer that a field holds, where it holds one.
pub open spec fn integer_field(field: Option<JsonView>) -> Option<i32> {
    match field {
        Some(JsonView::Unsigned(n)) if n <= i32::MAX => Some(n as i32),
        Some(JsonView::Negative(n)) if i32::MIN <= n <= i32::MAX => Some(n as i32),
        _ => None,
    }
}

/// A field that may hold a list: nothing where it holds something else, and no
/// list where it is absent or null.
pub open spec fn list_field(field: Option<JsonView>) -> Option<Option<Seq<JsonView>>> {
    match field {
        None => Some(None),
        Some(JsonView::Null) => Some(None),
        Some(JsonView::Array(items)) => Some(Some(items)),
        _ => None,
    }
}

/// The answer that five fields make, where each holds what it should.
pub open spec fn result_of_fields(
    status: Option<JsonView>,
    data: Option<JsonView>,
    errors: Option<JsonView>,
    messages: Option<JsonView>,
    warnings: Option<JsonView>,
) -> Option<UapiResultView> {
    match (integer_field(status), data, list_field(errors), list_field(messages), list_field(warnings)) {
        (Some(status), Some(data), Some(errors), Some(messages), Some(warnings)) => Some(
            UapiResultView { status, data, errors, messages, warnings },
        ),
        _ => None,
    }
}

/// The answer that a document denotes: an object with the fields by name, or
/// an array of exactly the five fields in their order.
pub open spec fn uapi_result(json: JsonView) -> Option<UapiResultView> {
    match json {
        JsonView::Object(members) => result_of_fields(
            lookup(members, "status"@),
            lookup(members, "data"@),
            lookup(members, "errors"@),
            lookup(members, "messages"@),
            lookup(members, "warnings"@),
        ),
        JsonView::Array(items) => if items.len() == 5 {
            result_of_fields(
                Some(items[0]),
                Some(items[1]),
                Some(items[2]),
                Some(items[3]),
                Some(items[4]),
            )
        } else {
            None
        },
        _ => None,
    }
}

/// The part of a reply that holds the answer: its member `result`, or else the
/// whole document. The flag says whether it is the member.
pub open spec fn result_part(root: JsonView) -> (JsonView, bool) {
    match member(root, "result"@) {
        Some(part) => (part, true),
        None => (root, false),
    }
}

/// Why a reply brings no data.
#[derive(Debug)]
pub enum UapiError {
    /// The HTTP status is not one of success.
    Http { status: i32, body: String },
    /// The body is no JSON document, for the cause that the parser gives; no
    /// contract says which.
    NotJson { cause: serde_json::Error },
    /// The document (its member `result`, where `nested`) is no answer.
    NotAResult { nested: bool },
    /// The answer reports failure.
    Rejected {
        errors: Option<Vec<Json>>,
        messages: Option<Vec<Json>>,
        warnings: Option<Vec<Json>>,
    },
}

/// A `UapiError` as a mathematical value.
pub enum UapiFault {
    Http { status: i32, body: Seq<char> },
    NotJson,
    NotAResult { nested: bool },
    Rejected {
        errors: Option<Seq<JsonView>>,
        messages: Option<Seq<JsonView>>,
        warnings: Option<Seq<JsonView>>,
    },
}

impl View for UapiError {
    type V = UapiFault;

    open spec fn view(&self) -> UapiFault {
        match self {
            UapiError::Http { status, body } => UapiFault::Http { status: *status, body: body@ },
            UapiError::NotJson { cause: _ } => UapiFault::NotJson,
            UapiError::NotAResult { nested } => UapiFault::NotAResult { nested: *nested },
            UapiError::Rejected { errors, messages, warnings } => UapiFault::Rejected {
                errors: opt_json_list(*errors),
                messages: opt_json_list(*messages),
                warnings: opt_json_list(*warnings),
            },
        }
    }
}

impl UapiFault {
    /// The message that reports the fault. For an answer that reports failure it
    /// is what precedes the reasons that the answer gives.
    pub open spec fn message_text(self) -> Seq<char> {
        match self {
            UapiFault::Http { status, body } => "cPanel UAPI returned HTTP "@
                + signed_decimal_text(status as int) + ": "@ + body,
            UapiFault::NotJson => "parse cPanel UAPI JSON"@,
            UapiFault::NotAResult { nested } => if nested {
                "parse cPanel UAPI result"@
            } else {
                "parse cPanel UAPI top-level result"@
            },
            UapiFault::Rejected { errors: _, messages: _, warnings: _ } => "cPanel UAPI failed"@,
        }
    }
}

impl UapiError {
    /// The message that reports the fault.
    pub fn message(&self) -> (res: String)
        ensures
            res@ == self@.message_text(),
    {
        match self {
            UapiError::Http { status, body } => {
                let mut res = "cPanel UAPI returned HTTP ".to_owned();
                res.append(signed_decimal(*status).as_str());
                res.append(": ");
                res.append(body.as_str());
                res
            },
            UapiError::NotJson { cause: _ } => "parse cPanel UAPI JSON".to_owned(),
            UapiError::NotAResult { nested } => if *nested {
                "parse cPanel UAPI result".to_owned()
            } else {
                "parse cPanel UAPI top-level result".to_owned()
            },
            UapiError::Rejected { errors: _, messages: _, warnings: _ } => {
                "cPanel UAPI failed".to_owned()
            },
        }
    }
}

/// The data that a document brings: those of an answer whose status is one.
pub open spec fn document_outcome(root: JsonView) -> Result<JsonView, UapiFault> {
    let (part, nested) = result_part(root);
    match uapi_result(part) {
        None => Err(UapiFault::NotAResult { nested }),
        Some(result) => if result.status == 1 {
            Ok(result.data)
        } else {
            Err(
                UapiFault::Rejected {
                    errors: result.errors,
                    messages: result.messages,
                    warnings: result.warnings,
                },
            )
        },
    }
}

/// The HTTP status is one of success.
pub open spec fn is_success(status: i32) -> bool {
    200 <= status < 300
}

/// The data that a reply brings, given the document that its body denotes.
pub open spec fn reply_outcome(
    status: i32,
    body: Seq<char>,
    document: Option<JsonView>,
) -> Result<JsonView, UapiFault> {
    if !is_success(status) {
        Err(UapiFault::Http { status, body })
    } else {
        match document {
            None => Err(UapiFault::NotJson),
            Some(root) => document_outcome(root),
        }
    }
}

/// The 32-bit integer that a field holds.
fn read_integer(field: &Option<Json>) -> (res: Option<i32>)
    ensures
        res == integer_field(opt_json(*field)),
{
    match field {
        Some(Json::Unsigned(n)) => if *n <= i32::MAX as u64 {
            Some(*n as i32)
        } else {
            None
        },
        Some(Json::Negative(n)) => if i32::MIN as i64 <= *n && *n <= i32::MAX as i64 {
            Some(*n as i32)
        } else {
            None
        },
        _ => None,
    }
}

/// The list that a field may hold.
fn read_list(field: Option<Json>) -> (res: Option<Option<Vec<Json>>>)
    ensures
        match res {
            Some(list) => list_field(opt_json(field)) == Some(opt_json_list(list)),
            None => list_field(opt_json(field)) is None,
        },
{
    match field {
        None => Some(None),
        Some(json) => {
            proof {
                lemma_json_parts(json);
            }
            match json {
                Json::Null => Some(None),
                Json::Array(items) => Some(Some(items)),
                _ => None,
            }
        },
    }
}

/// The answer that five fields make.
fn read_fields(
    status: Option<Json>,
    data: Option<Json>,
    errors: Option<Json>,
    messages: Option<Json>,
    warnings: Option<Json>,
) -> (res: Option<UapiResult>)
    ensures
        match res {
            Some(result) => result_of_fields(
                opt_json(status),
                opt_json(data),
                opt_json(errors),
                opt_json(messages),
                opt_json(warnings),
            ) == Some(result@),
            None => result_of_fields(
                opt_json(status),
                opt_json(data),
                opt_json(errors),
                opt_json(messages),
                opt_json(warnings),
            ) is None,
        },
{
    match (read_integer(&status), data, read_list(errors), read_list(messages), read_list(warnings)) {
        (Some(status), Some(data), Some(errors), Some(messages), Some(warnings)) => Some(
            UapiResult { status, data, errors, messages, warnings },
        ),
        _ => None,
    }
}

/// The names of the fields differ from each other.
proof fn lemma_field_names()
    ensures
        "status"@ != "data"@,
        "status"@ != "errors"@,
        "status"@ != "messages"@,
        "status"@ != "warnings"@,
        "data"@ != "errors"@,
        "data"@ != "messages"@,
        "data"@ != "warnings"@,
        "errors"@ != "messages"@,
        "errors"@ != "warnings"@,
        "messages"@ != "warnings"@,
{
    reveal_strlit("status");
    reveal_strlit("data");
    reveal_strlit("errors");
    reveal_strlit("messages");
    reveal_strlit("warnings");
    assert("status"@[0] != "errors"@[0]);
    assert("messages"@[0] != "warnings"@[0]);
}

/// The answer that the members of an object make.
#[verifier::loop_isolation(false)]
fn read_members(members: Vec<(String, Json)>) -> (res: Option<UapiResult>)
    ensures
        match res {
            Some(result) => uapi_result(JsonView::Object(member_views(members@))) == Some(result@),
            None => uapi_result(JsonView::Object(member_views(members@))) is None,
        },
{
    let ghost all = member_views(members@);
    let mut rest = members;
    let mut status: Option<Json> = None;
    let mut data: Option<Json> = None;
    let mut errors: Option<Json> = None;
    let mut messages: Option<Json> = None;
    let mut warnings: Option<Json> = None;
    proof {
        lemma_field_names();
        assert(all.skip(all.len() as int).len() == 0);
    }
    while rest.len() > 0
        invariant
            rest.len() <= all.len(),
            rest@ == members@.take(rest.len() as int),
            opt_json(status) == lookup(all.skip(rest.len() as int), "status"@),
            opt_json(data) == lookup(all.skip(rest.len() as int), "data"@),
            opt_json(errors) == lookup(all.skip(rest.len() as int), "errors"@),
            opt_json(messages) == lookup(all.skip(rest.len() as int), "messages"@),
            opt_json(warnings) == lookup(all.skip(rest.len() as int), "warnings"@),
        decreases rest.len(),
    {
        let ghost n = rest.len() as int;
        match rest.pop() {
            Some((name, value)) => {
                assert(rest@ =~= members@.take(n - 1));
                assert(all.skip(n - 1).first() == (name@, value@));
                assert(all.skip(n - 1).drop_first() =~= all.skip(n));
                if same_text(name.as_str(), "status") {
                    status = Some(value);
                } else if same_text(name.as_str(), "data") {
                    data = Some(value);
                } else if same_text(name.as_str(), "errors") {
                    errors = Some(value);
                } else if same_text(name.as_str(), "messages") {
                    messages = Some(value);
                } else if same_text(name.as_str(), "warnings") {
                    warnings = Some(value);
                }
            },
            None => {},
        }
    }
    assert(all.skip(0) =~= all);
    read_fields(status, data, errors, messages, warnings)
}

impl UapiResult {
    /// The answer that a document denotes.
    pub fn from_json(json: Json) -> (res: Option<UapiResult>)
        ensures
            match res {
                Some(result) => uapi_result(json@) == Some(result@),
                None => uapi_result(json@) is None,
            },
    {
        proof {
            lemma_json_parts(json);
        }
        match json {
            Json::Object(members) => read_members(members),
            Json::Array(items) => {
                if items.len() != 5 {
                    return None;
                }
                let ghost all = items@;
                let mut rest = items;
                let warnings = rest.pop();
                let messages = rest.pop();
                let errors = rest.pop();
                let data = rest.pop();
                let status = rest.pop();
                assert(opt_json(status) == Some(json_views(all)[0]));
                assert(opt_json(data) == Some(json_views(all)[1]));
                assert(opt_json(errors) == Some(json_views(all)[2]));
                assert(opt_json(messages) == Some(json_views(all)[3]));
                assert(opt_json(warnings) == Some(json_views(all)[4]));
                read_fields(status, data, errors, messages, warnings)
            },
            _ => None,
        }
    }
}

/// The part of a reply that holds the answer, and whether it is the member `result`.
fn take_result_part(root: Json) -> (res: (Json, bool))
    ensures
        (res.0@, res.1) == result_part(root@),
{
    proof {
        lemma_json_parts(root);
    }
    match root {
        Json::Object(members) => match member_index(&members, "result") {
            Some(i) => {
                let mut rest = members;
                let (_, part) = rest.swap_remove(i);
                (part, true)
            },
            None => (Json::Object(members), false),
        },
        other => (other, false),
    }
}

/// The data that a document brings.
pub fn document_data(root: Json) -> (res: Result<Json, UapiError>)
    ensures
        match res {
            Ok(data) => document_outcome(root@) == Ok::<JsonView, UapiFault>(data@),
            Err(error) => document_outcome(root@) == Err::<JsonView, UapiFault>(error@),
        },
{
    let (part, nested) = take_result_part(root);
    match UapiResult::from_json(part) {
        None => Err(UapiError::NotAResult { nested }),
        Some(result) => if result.status != 1 {
            Err(
                UapiError::Rejected {
                    errors: result.errors,
                    messages: result.messages,
                    warnings: result.warnings,
                },
            )
        } else {
            Ok(result.data)
        },
    }
}

/// The data that a reply brings.
pub fn reply_data(status: i32, body: &str) -> (res: Result<Json, UapiError>)
    ensures
        match res {
            Ok(data) => reply_outcome(status, body@, json_document(body@)) == Ok::<
                JsonView,
                UapiFault,
            >(data@),
            Err(error) => reply_outcome(status, body@, json_document(body@)) == Err::<
                JsonView,
                UapiFault,
            >(error@),
        },
{
    if !(200 <= status && status < 300) {
        return Err(UapiError::Http { status, body: body.to_owned() });
    }
    match parse_json(body) {
        Ok(root) => document_data(root),
        Err(cause) => Err(UapiError::NotJson { cause }),
    }
}

/// The process number in the data of a started backup.
pub open spec fn pid_text(data: JsonView) -> Seq<char> {
    match member(data, "pid"@) {
        Some(JsonView::Text(pid)) => pid,
        _ => "unknown"@,
    }
}

/// The process number in the data of a started backup.
pub fn backup_pid(data: &Json) -> (pid: String)
    ensures
        pid@ == pid_text(data@),
{
    match data.get("pid") {
        Some(Json::Text(pid)) => pid.clone(),
        _ => "unknown".to_owned(),
    }
}

/// A character that has no meaning of its own in a query.
pub open spec fn is_query_safe(c: char) -> bool {
    c == '%' || (c as u32 <= 0x7f && is_unreserved(c as u8))
}

/// What a value holds cannot break out of its place in the query: its encoded
/// form has no character with a meaning of its own there.
pub proof fn law_encoded_values_are_safe(bytes: Seq<u8>)
    ensures
        forall|i: int|
            0 <= i < percent_encoded(bytes).len() ==> is_query_safe(
                #[trigger] percent_encoded(bytes)[i],
            ),
    decreases bytes.len(),
{
    if bytes.len() > 0 {
        let head = percent_byte(bytes.first());
        let tail = percent_encoded(bytes.drop_first());
        law_encoded_values_are_safe(bytes.drop_first());
        assert forall|i: int| 0 <= i < percent_encoded(bytes).len() implies is_query_safe(
            #[trigger] percent_encoded(bytes)[i],
        ) by {
            if i < head.len() {
                assert(percent_encoded(bytes)[i] == head[i]);
            } else {
                assert(percent_encoded(bytes)[i] == tail[i - head.len()]);
            }
        }
    }
}

/// The encoded form of a byte tells which byte it is, and where it ends.
proof fn lemma_percent_byte_first(x: u8, y: u8, r: Seq<char>, t: Seq<char>)
    requires
        percent_byte(x) + r == percent_byte(y) + t,
    ensures
        x == y,
        r == t,
{
    let left = percent_byte(x) + r;
    let right = percent_byte(y) + t;
    assert(left[0] == percent_byte(x)[0]);
    assert(right[0] == percent_byte(y)[0]);
    if is_unreserved(x) {
        assert(is_unreserved(y));
    } else {
        assert(!is_unreserved(y));
        assert(left[1] == percent_byte(x)[1]);
        assert(right[1] == percent_byte(y)[1]);
        assert(left[2] == percent_byte(x)[2]);
        assert(right[2] == percent_byte(y)[2]);
        assert(x / 16 == y / 16);
        assert(x % 16 == y % 16);
    }
    assert(r =~= left.skip(percent_byte(x).len() as int));
    assert(t =~= right.skip(percent_byte(y).len() as int));
}

/// No two byte sequences have the same encoded form.
pub proof fn law_percent_encoding_is_injective(a: Seq<u8>, b: Seq<u8>)
    requires
        percent_encoded(a) == percent_encoded(b),
    ensures
        a == b,
    decreases a.len(),
{
    if a.len() == 0 || b.len() == 0 {
        if a.len() > 0 {
            assert(percent_encoded(a).len() > 0);
        }
        if b.len() > 0 {
            assert(percent_encoded(b).len() > 0);
        }
        assert(a =~= b);
    } else {
        lemma_percent_byte_first(
            a.first(),
            b.first(),
            percent_encoded(a.drop_first()),
            percent_encoded(b.drop_first()),
        );
        law_percent_encoding_is_injective(a.drop_first(), b.drop_first());
        assert(a =~= seq![a.first()] + a.drop_first());
        assert(b =~= seq![b.first()] + b.drop_first());
    }
}

/// No two texts have the same UTF-8 form.
proof fn lemma_utf8_injective(a: Seq<char>, b: Seq<char>)
    requires
        encode_utf8(a) == encode_utf8(b),
    ensures
        a == b,
{
    vstd::utf8::encode_utf8_decode_utf8(a);
    vstd::utf8::encode_utf8_decode_utf8(b);
}

/// An assignment tells its parameter, where the name holds no `=`.
proof fn lemma_assignment_injective(p: (Seq<char>, Seq<char>), q: (Seq<char>, Seq<char>))
    requires
        assignment(p) == assignment(q),
        !p.0.contains('='),
        !q.0.contains('='),
    ensures
        p == q,
{
    reveal_strlit("=");
    let left = assignment(p);
    let right = assignment(q);
    assert(left[p.0.len() as int] == '=');
    assert(right[q.0.len() as int] == '=');
    if p.0.len() < q.0.len() {
        assert(right[p.0.len() as int] == q.0[p.0.len() as int]);
        assert(q.0.contains('='));
    }
    if q.0.len() < p.0.len() {
        assert(left[q.0.len() as int] == p.0[q.0.len() as int]);
        assert(p.0.contains('='));
    }
    assert(p.0 =~= left.take(p.0.len() as int));
    assert(q.0 =~= right.take(q.0.len() as int));
    assert(percent_encoded(encode_utf8(p.1)) =~= left.skip(p.0.len() + 1int));
    assert(percent_encoded(encode_utf8(q.1)) =~= right.skip(q.0.len() + 1int));
    law_percent_encoding_is_injective(encode_utf8(p.1), encode_utf8(q.1));
    lemma_utf8_injective(p.1, q.1);
}

/// The names of the parameters have no character with a meaning of its own in a query.
pub open spec fn plain_names(params: Seq<(Seq<char>, Seq<char>)>) -> bool {
    forall|i: int|
        0 <= i < params.len() ==> !(#[trigger] params[i]).0.contains('&') && !params[i].0.contains(
            '=',
        )
}

/// A query with plain names splits at `&` into its assignments.
pub proof fn law_query_splits_into_assignments(params: Seq<(Seq<char>, Seq<char>)>)
    requires
        params.len() > 0,
        plain_names(params),
    ensures
        pieces(query_text(params), '&') == assignments(params),
{
    reveal_strlit("&");
    reveal_strlit("=");
    let parts = assignments(params);
    assert("&"@ =~= seq!['&']);
    assert forall|i: int| 0 <= i < parts.len() implies !(#[trigger] parts[i]).contains('&') by {
        let value = percent_encoded(encode_utf8(params[i].1));
        law_encoded_values_are_safe(encode_utf8(params[i].1));
        assert(parts[i] == assignment(params[i]));
        assert forall|k: int| 0 <= k < parts[i].len() implies parts[i][k] != '&' by {
            if k < params[i].0.len() {
                assert(parts[i][k] == params[i].0[k]);
            } else if k > params[i].0.len() {
                assert(parts[i][k] == value[k - params[i].0.len() - 1]);
            }
        }
    }
    law_split_undoes_join(parts, '&');
}

/// A query tells its parameters: with plain names, no two lists of parameters
/// have the same one.
pub proof fn law_query_determines_parameters(
    p: Seq<(Seq<char>, Seq<char>)>,
    q: Seq<(Seq<char>, Seq<char>)>,
)
    requires
        p.len() > 0,
        q.len() > 0,
        plain_names(p),
        plain_names(q),
        query_text(p) == query_text(q),
    ensures
        p == q,
{
    law_query_splits_into_assignments(p);
    law_query_splits_into_assignments(q);
    assert(assignments(p).len() == p.len());
    assert(assignments(q).len() == q.len());
    assert forall|i: int| 0 <= i < p.len() implies p[i] == q[i] by {
        assert(assignments(p)[i] == assignment(p[i]));
        assert(assignments(q)[i] == assignment(q[i]));
        lemma_assignment_injective(p[i], q[i]);
    }
    assert(p =~= q);
}

/// The base64 alphabet has no character twice, and not the padding.
proof fn lemma_base64_char(v: nat, w: nat)
    requires
        v < 64,
        w < 64,
    ensures
        base64_char(v) == base64_char(w) ==> v == w,
        base64_char(v) != '=',
{
}

/// Three bytes in base64 tell which they are.
proof fn lemma_base64_group(a: nat, b: nat, c: nat, x: nat, y: nat, z: nat)
    requires
        a < 256,
        b < 256,
        c < 256,
        x < 256,
        y < 256,
        z < 256,
        a / 4 == x / 4,
        a % 4 * 16 + b / 16 == x % 4 * 16 + y / 16,
    ensures
        a == x,
        b / 16 == y / 16,
        b % 16 * 4 + c / 64 == y % 16 * 4 + z / 64 ==> b == y && c / 64 == z / 64,
{
}

/// No two byte sequences have the same base64 form.
pub proof fn law_base64_is_injective(s: Seq<u8>, t: Seq<u8>)
    requires
        base64_text(s) == base64_text(t),
    ensures
        s == t,
    decreases s.len(),
{
    if s.len() == 0 || t.len() == 0 {
        if s.len() > 0 {
            assert(base64_text(s).len() > 0);
        }
        if t.len() > 0 {
            assert(base64_text(t).len() > 0);
        }
        assert(s =~= t);
    } else {
        let (a, x) = (s[0] as nat, t[0] as nat);
        let b = if s.len() > 1 { s[1] as nat } else { 0 };
        let c = if s.len() > 2 { s[2] as nat } else { 0 };
        let y = if t.len() > 1 { t[1] as nat } else { 0 };
        let z = if t.len() > 2 { t[2] as nat } else { 0 };
        assert(base64_text(s)[0] == base64_char(a / 4));
        assert(base64_text(t)[0] == base64_char(x / 4));
        assert(base64_text(s)[1] == base64_char(a % 4 * 16 + b / 16));
        assert(base64_text(t)[1] == base64_char(x % 4 * 16 + y / 16));
        assert(base64_text(s)[2] == base64_text(t)[2]);
        assert(base64_text(s)[3] == base64_text(t)[3]);
        lemma_base64_char(a / 4, x / 4);
        lemma_base64_char(a % 4 * 16 + b / 16, x % 4 * 16 + y / 16);
        lemma_base64_char(b % 16 * 4 + c / 64, y % 16 * 4 + z / 64);
        lemma_base64_char(y % 16 * 4 + z / 64, b % 16 * 4 + c / 64);
        lemma_base64_char(c % 64, z % 64);
        lemma_base64_char(z % 64, c % 64);
        lemma_base64_group(a, b, c, x, y, z);
        if s.len() > 2 && t.len() > 2 {
            assert(base64_text(s)[2] == base64_char(b % 16 * 4 + c / 64));
            assert(base64_text(t)[2] == base64_char(y % 16 * 4 + z / 64));
            assert(base64_text(s)[3] == base64_char(c % 64));
            assert(base64_text(t)[3] == base64_char(z % 64));
            assert(c == z);
        }
        assert((s.len() > 1) == (t.len() > 1));
        assert((s.len() > 2) == (t.len() > 2));
        if s.len() > 3 {
            assert(base64_text(s.skip(3)) =~= base64_text(s).skip(4));
            assert(base64_text(s).len() > 4) by {
                assert(base64_text(s.skip(3)).len() > 0);
            }
        }
        if t.len() > 3 {
            assert(base64_text(t.skip(3)) =~= base64_text(t).skip(4));
            assert(base64_text(t).len() > 4) by {
                assert(base64_text(t.skip(3)).len() > 0);
            }
        }
        if s.len() > 3 {
            law_base64_is_injective(s.skip(3), t.skip(3));
            assert(s =~= seq![s[0], s[1], s[2]] + s.skip(3));
            assert(t =~= seq![t[0], t[1], t[2]] + t.skip(3));
            assert(s[0] == t[0] && s[1] == t[1] && s[2] == t[2]);
        } else {
            assert(s =~= t);
        }
    }
}

/// The `Authorization` header tells the credentials of an account: no two of
/// them have the same one.
pub proof fn law_authorization_determines_credentials(
    username: Seq<char>,
    first: AuthView,
    second: AuthView,
)
    requires
        authorization(username, first) == authorization(username, second),
    ensures
        first == second,
{
    reveal_strlit("cpanel ");
    reveal_strlit("Basic ");
    reveal_strlit(":");
    let left = authorization(username, first);
    let right = authorization(username, second);
    match (first, second) {
        (AuthView::ApiToken(a), AuthView::ApiToken(b)) => {
            assert(a =~= left.skip(username.len() + 8int));
            assert(b =~= right.skip(username.len() + 8int));
        },
        (AuthView::Password(a), AuthView::Password(b)) => {
            let u = username + ":"@ + a;
            let v = username + ":"@ + b;
            assert(base64_text(encode_utf8(u)) =~= left.skip(6));
            assert(base64_text(encode_utf8(v)) =~= right.skip(6));
            law_base64_is_injective(encode_utf8(u), encode_utf8(v));
            lemma_utf8_injective(u, v);
            assert(a =~= u.skip(username.len() + 1int));
            assert(b =~= v.skip(username.len() + 1int));
        },
        (AuthView::ApiToken(_), AuthView::Password(_)) => {
            assert(left[0] == 'c' && right[0] == 'B');
        },
        (AuthView::Password(_), AuthView::ApiToken(_)) => {
            assert(left[0] == 'B' && right[0] == 'c');
        },
    }
}

/// An answer may stand at the top level of a document or be its member
/// `result`: a document without such a member, and one whose member `result` it
/// is, bring the same data or both none. Only where neither is an answer do their
/// faults differ, in saying which of the two was read.
pub proof fn law_wrapped_answer_brings_the_same(root: JsonView, wrapped: JsonView)
    requires
        member(root, "result"@) is None,
        member(wrapped, "result"@) == Some(root),
    ensures
        member(JsonView::Object(seq![("result"@, root)]), "result"@) == Some(root),
        match document_outcome(root) {
            Ok(data) => document_outcome(wrapped) == Ok::<JsonView, UapiFault>(data),
            Err(fault) => document_outcome(wrapped) == Err::<JsonView, UapiFault>(
                if fault is NotAResult {
                    UapiFault::NotAResult { nested: true }
                } else {
                    fault
                },
            ),
        },
        document_outcome(root) matches Err(fault) ==> (fault is Rejected || fault == (
        UapiFault::NotAResult { nested: false })),
{
}

/// A reply brings data only with an HTTP status of success and an answer whose
/// own status is one.
pub proof fn law_only_success_brings_data(
    status: i32,
    body: Seq<char>,
    document: Option<JsonView>,
    data: JsonView,
)
    requires
        reply_outcome(status, body, document) == Ok::<JsonView, UapiFault>(data),
    ensures
        is_success(status),
        document matches Some(root) && uapi_result(result_part(root).0) matches Some(result)
            && result.status == 1 && result.data == data,
{
}

/// The request that starts a backup goes to one function and asks for two things
/// at most: whether the home directory is included, and, exactly if an email
/// address is configured, where completion is reported, whatever else is
/// configured.
pub proof fn law_backup_request_names_home_and_email(config: ConfigView)
    ensures
        ({
            let head = config.cpanel_base_url + "/execute/Backup/fullbackup_to_homedir?"@;
            let url = backup_request(config).url;
            let query = pieces(url.skip(head.len() as int), '&');
            &&& url.len() >= head.len() && url.take(head.len() as int) == head
            &&& config.cpanel_include_home ==> query[0] == "homedir=include"@
            &&& !config.cpanel_include_home ==> query[0] == "homedir=skip"@
            &&& match config.cpanel_backup_email {
                Some(email) => query.len() == 2 && query[1] == "email="@ + percent_encoded(
                    encode_utf8(email),
                ),
                None => query.len() == 1,
            }
        }),
{
    reveal_strlit("/execute/Backup/fullbackup_to_homedir?");
    reveal_strlit("/execute/");
    reveal_strlit("Backup/fullbackup_to_homedir");
    reveal_strlit("?");
    reveal_strlit("=");
    reveal_strlit("homedir");
    reveal_strlit("email");
    reveal_strlit("include");
    reveal_strlit("skip");
    reveal_strlit("homedir=include");
    reveal_strlit("homedir=skip");
    reveal_strlit("email=");
    let params = backup_params(config);
    let head = config.cpanel_base_url + "/execute/Backup/fullbackup_to_homedir?"@;
    let url = backup_request(config).url;
    assert(plain_names(params)) by {
        assert forall|i: int| 0 <= i < params.len() implies !(#[trigger] params[i]).0.contains('&')
            && !params[i].0.contains('=') by {
            if i == 0 {
                assert(params[i].0 =~= "homedir"@);
            } else {
                assert(params[i].0 =~= "email"@);
            }
        }
    }
    law_query_splits_into_assignments(params);
    assert(head =~= config.cpanel_base_url + "/execute/"@ + "Backup/fullbackup_to_homedir"@
        + "?"@);
    assert(url =~= head + query_text(params));
    assert(url.take(head.len() as int) =~= head);
    assert(url.skip(head.len() as int) =~= query_text(params));
    lemma_word_stands_for_itself("include"@);
    lemma_word_stands_for_itself("skip"@);
    assert(assignments(params)[0] == assignment(params[0]));
    if config.cpanel_include_home {
        assert(assignment(params[0]) =~= "homedir=include"@);
    } else {
        assert(assignment(params[0]) =~= "homedir=skip"@);
    }
    match config.cpanel_backup_email {
        Some(email) => {
            assert(assignments(params)[1] == assignment(params[1]));
            assert(assignment(params[1]) =~= "email="@ + percent_encoded(encode_utf8(email)));
        },
        None => {},
    }
}

/// A small letter is one byte, which stands for itself in a URL.
proof fn lemma_letter_stands_for_itself(c: char)
    requires
        0x61 <= (c as u32) <= 0x7a,
    ensures
        vstd::utf8::encode_scalar(c as u32) == seq![c as u8],
        percent_byte(c as u8) == seq![c],
{
    let code = c as u32;
    assert(code & 0x7f == code) by (bit_vector)
        requires
            0x61 <= code <= 0x7a,
    ;
    assert(vstd::utf8::encode_scalar(code) =~= seq![c as u8]);
    assert(percent_byte(c as u8) =~= seq![c]);
}

/// The small letters of a word stand for themselves in a URL.
proof fn lemma_word_stands_for_itself(word: Seq<char>)
    requires
        forall|i: int| 0 <= i < word.len() ==> 0x61 <= (#[trigger] word[i] as u32) <= 0x7a,
    ensures
        percent_encoded(encode_utf8(word)) == word,
    decreases word.len(),
{
    reveal_with_fuel(encode_utf8, 2);
    if word.len() > 0 {
        let rest = word.drop_first();
        assert forall|i: int| 0 <= i < rest.len() implies 0x61 <= (#[trigger] rest[i] as u32)
            <= 0x7a by {
            assert(rest[i] == word[i + 1]);
        }
        lemma_word_stands_for_itself(rest);
        let c = word[0];
        assert(0x61 <= (c as u32) <= 0x7a);
        let bytes = encode_utf8(word);
        assert(bytes =~= vstd::utf8::encode_scalar(c as u32) + encode_utf8(rest));
        lemma_letter_stands_for_itself(c);
        assert(bytes.first() == c as u8);
        assert(bytes.drop_first() =~= encode_utf8(rest));
        assert(percent_encoded(bytes) =~= seq![c] + rest);
        assert(word =~= seq![c] + rest);
    } else {
        assert(encode_utf8(word).len() == 0);
        assert(percent_encoded(encode_utf8(word)) =~= word);
    }
}

/// Every request goes to its function under `/execute/`, with a query exactly if
/// there are parameters, asks for JSON, carries the credentials of the account and
/// is given up after half a minute.
pub proof fn law_requests_are_addressed_and_signed(
    config: ConfigView,
    endpoint: Seq<char>,
    params: Seq<(Seq<char>, Seq<char>)>,
)
    ensures
        ({
            let request = uapi_request(config, endpoint, params);
            let address = config.cpanel_base_url + "/execute/"@ + endpoint;
            &&& params.len() == 0 ==> request.url == address
            &&& params.len() > 0 ==> {
                &&& request.url.len() > address.len()
                &&& request.url.take(address.len() as int) == address
                &&& request.url[address.len() as int] == '?'
                &&& request.url.skip(address.len() + 1int) == query_text(params)
            }
            &&& request.headers.len() == 2
            &&& request.headers[0] == ("Accept"@, "application/json"@)
            &&& request.headers[1].0 == "Authorization"@
            &&& match config.cpanel_auth {
                AuthView::ApiToken(token) => request.headers[1].1 == "cpanel "@
                    + config.cpanel_username + ":"@ + token,
                AuthView::Password(password) => request.headers[1].1 == "Basic "@ + base64_text(
                    encode_utf8(config.cpanel_username + ":"@ + password),
                ),
            }
            &&& request.timeout == 30
        }),
{
    reveal_strlit("?");
    let request = uapi_request(config, endpoint, params);
    let address = config.cpanel_base_url + "/execute/"@ + endpoint;
    if params.len() > 0 {
        assert(request.url.take(address.len() as int) =~= address);
        assert(request.url.skip(address.len() + 1int) =~= query_text(params));
    }
}

/// Each parameter has its piece of the query at its place: the name, an equals
/// sign, and the encoded value.
pub proof fn law_query_has_each_parameter(params: Seq<(Seq<char>, Seq<char>)>, i: int)
    requires
        plain_names(params),
        0 <= i < params.len(),
    ensures
        pieces(query_text(params), '&').len() == params.len(),
        pieces(query_text(params), '&')[i] == params[i].0 + seq!['='] + percent_encoded(
            encode_utf8(params[i].1),
        ),
{
    reveal_strlit("=");
    law_query_splits_into_assignments(params);
    assert("="@ =~= seq!['=']);
    assert(assignments(params)[i] == assignment(params[i]));
}

/// Encoding goes byte by byte: a letter, a digit or one of `-._~` stays, and every
/// other byte becomes a percent sign and two hexadecimal digits, the high one
/// first.
pub proof fn law_percent_encoding_goes_byte_by_byte(a: Seq<u8>, b: Seq<u8>, byte: u8)
    ensures
        percent_encoded(a + b) == percent_encoded(a) + percent_encoded(b),
        (0x30 <= byte <= 0x39 || 0x41 <= byte <= 0x5a || 0x61 <= byte <= 0x7a || byte == 0x2d
            || byte == 0x2e || byte == 0x5f || byte == 0x7e) ==> percent_encoded(seq![byte])
            == seq![byte as char],
        !(0x30 <= byte <= 0x39 || 0x41 <= byte <= 0x5a || 0x61 <= byte <= 0x7a || byte == 0x2d
            || byte == 0x2e || byte == 0x5f || byte == 0x7e) ==> percent_encoded(seq![byte])
            == seq![
            '%',
            "0123456789ABCDEF"@[byte as int / 16],
            "0123456789ABCDEF"@[byte as int % 16],
        ],
    decreases a.len(),
{
    reveal_strlit("0123456789ABCDEF");
    let one = seq![byte];
    assert(one.drop_first().len() == 0);
    assert(percent_encoded(one.drop_first()).len() == 0);
    assert(percent_encoded(one) =~= percent_byte(byte));
    if a.len() == 0 {
        assert(a + b =~= b);
        assert(percent_encoded(a) + percent_encoded(b) =~= percent_encoded(b));
    } else {
        law_percent_encoding_goes_byte_by_byte(a.drop_first(), b, byte);
        assert((a + b).drop_first() =~= a.drop_first() + b);
        assert(percent_encoded(a + b) =~= percent_encoded(a) + percent_encoded(b));
    }
}

/// The value of a base64 character, and its place in the alphabet.
proof fn lemma_base64_alphabet(v: nat)
    requires
        v < 64,
    ensures
        base64_char(v)
            == "ABCDEFGHIJKLMNOPQRSTUVWXYZabcdefghijklmnopqrstuvwxyz0123456789+/"@[v as int],
{
    reveal_strlit("ABCDEFGHIJKLMNOPQRSTUVWXYZabcdefghijklmnopqrstuvwxyz0123456789+/");
}

/// Where the four groups of six bits among 24 come from.
proof fn lemma_six_bits(a: u32, b: u32, c: u32)
    requires
        a < 256,
        b < 256,
        c < 256,
    ensures
        (a * 65_536 + b * 256 + c) / 262_144 == a / 4,
        (a * 65_536 + b * 256 + c) / 4096 % 64 == a % 4 * 16 + b / 16,
        (a * 65_536 + b * 256 + c) / 64 % 64 == b % 16 * 4 + c / 64,
        (a * 65_536 + b * 256 + c) % 64 == c % 64,
{
    assert((a * 65_536 + b * 256 + c) / 262_144 == a / 4 && (a * 65_536 + b * 256 + c) / 4096 % 64
        == a % 4 * 16 + b / 16 && (a * 65_536 + b * 256 + c) / 64 % 64 == b % 16 * 4 + c / 64 && (a
        * 65_536 + b * 256 + c) % 64 == c % 64) by (bit_vector)
        requires
            a < 256,
            b < 256,
            c < 256,
    ;
}

/// Base64 goes by groups of three bytes, whose 24 bits become four characters of
/// the alphabet.
pub proof fn law_base64_goes_by_groups(a: u8, b: u8, c: u8, rest: Seq<u8>)
    ensures
        ({
            let alphabet = "ABCDEFGHIJKLMNOPQRSTUVWXYZabcdefghijklmnopqrstuvwxyz0123456789+/"@;
            let bits = a as int * 65_536 + b as int * 256 + c as int;
            base64_text(seq![a, b, c] + rest) == seq![
                alphabet[bits / 262_144],
                alphabet[bits / 4096 % 64],
                alphabet[bits / 64 % 64],
                alphabet[bits % 64],
            ] + base64_text(rest)
        }),
        base64_text(Seq::empty()).len() == 0,
{
    let bytes = seq![a, b, c] + rest;
    let (x, y, z) = (a as nat, b as nat, c as nat);
    lemma_six_bits(a as u32, b as u32, c as u32);
    lemma_base64_alphabet(x / 4);
    lemma_base64_alphabet((x % 4 * 16 + y / 16) as nat);
    lemma_base64_alphabet((y % 16 * 4 + z / 64) as nat);
    lemma_base64_alphabet(z % 64);
    let group = seq![
        base64_char(x / 4),
        base64_char(x % 4 * 16 + y / 16),
        base64_char(y % 16 * 4 + z / 64),
        base64_char(z % 64),
    ];
    assert(bytes[0] == a && bytes[1] == b && bytes[2] == c);
    if rest.len() > 0 {
        assert(bytes.skip(3) =~= rest);
        assert(base64_text(bytes) == group + base64_text(rest));
    } else {
        assert(base64_text(bytes) =~= group);
        assert(base64_text(rest).len() == 0);
        assert(group + base64_text(rest) =~= group);
    }
}

/// A last group that is shorter is that of its bytes and zeros, with an equals
/// sign for every byte that it lacks.
pub proof fn law_base64_is_padded(a: u8, b: u8)
    ensures
        base64_text(seq![a, b]) == base64_text(seq![a, b, 0]).update(3, '='),
        base64_text(seq![a]) == base64_text(seq![a, 0, 0]).update(2, '=').update(3, '='),
{
    assert(base64_text(seq![a, b]) =~= base64_text(seq![a, b, 0u8]).update(3, '='));
    assert(base64_text(seq![a]) =~= base64_text(seq![a, 0u8, 0u8]).update(2, '=').update(3, '='));
}

/// The number that a field holds, where it holds an integer.
pub open spec fn field_number(field: Option<JsonView>) -> Option<int> {
    match field {
        Some(JsonView::Unsigned(n)) => Some(n as int),
        Some(JsonView::Negative(n)) => Some(n as int),
        _ => None,
    }
}

/// A field may be absent, null or a list.
pub open spec fn may_be_list(field: Option<JsonView>) -> bool {
    field is None || field == Some(JsonView::Null) || field matches Some(JsonView::Array(_))
}

/// The reasons that a field gives: the items of its list, and no list where it is
/// absent or null.
pub open spec fn gives_reasons(
    field: Option<JsonView>,
    reasons: Option<Seq<JsonView>>,
) -> bool {
    match reasons {
        Some(items) => field == Some(JsonView::Array(items)),
        None => field is None || field == Some(JsonView::Null),
    }
}

/// What an object without a member `result` brings: its data exactly if its
/// status is the number one, its reasons if the status is another number of 32
/// bits, and nothing where a field is not what it should be. No other member
/// matters.
pub proof fn law_object_brings_its_data(members: Seq<(Seq<char>, JsonView)>)
    requires
        member(JsonView::Object(members), "result"@) is None,
    ensures
        ({
            let json = JsonView::Object(members);
            let status = field_number(member(json, "status"@));
            let data = member(json, "data"@);
            let errors = member(json, "errors"@);
            let messages = member(json, "messages"@);
            let warnings = member(json, "warnings"@);
            let sound = data is Some && may_be_list(errors) && may_be_list(messages)
                && may_be_list(warnings) && (status matches Some(n) && -0x8000_0000 <= n
                <= 0x7fff_ffff);
            match document_outcome(json) {
                Ok(brought) => sound && status == Some(1int) && data == Some(brought),
                Err(UapiFault::Rejected { errors: e, messages: m, warnings: w }) => sound && status
                    != Some(1int) && gives_reasons(errors, e) && gives_reasons(messages, m)
                    && gives_reasons(warnings, w),
                Err(fault) => !sound && fault == (UapiFault::NotAResult { nested: false }),
            }
        }),
{
}

/// The fields may also stand in a list, in their order: such a document brings
/// what the object with these members does. A list of another length, and what is
/// neither a list nor an object, brings nothing.
pub proof fn law_list_brings_what_its_object_does(
    status: JsonView,
    data: JsonView,
    errors: JsonView,
    messages: JsonView,
    warnings: JsonView,
    other: JsonView,
)
    ensures
        document_outcome(JsonView::Array(seq![status, data, errors, messages, warnings]))
            == document_outcome(
            JsonView::Object(
                seq![
                    ("status"@, status),
                    ("data"@, data),
                    ("errors"@, errors),
                    ("messages"@, messages),
                    ("warnings"@, warnings),
                ],
            ),
        ),
        !(other is Object) && !(other matches JsonView::Array(items) && items.len() == 5)
            ==> document_outcome(other) == Err::<JsonView, UapiFault>(
            UapiFault::NotAResult { nested: false },
        ),
{
    lemma_field_names();
    reveal_strlit("result");
    reveal_strlit("status");
    reveal_strlit("data");
    reveal_strlit("errors");
    reveal_strlit("messages");
    reveal_strlit("warnings");
    let all = seq![
        ("status"@, status),
        ("data"@, data),
        ("errors"@, errors),
        ("messages"@, messages),
        ("warnings"@, warnings),
    ];
    assert("result"@[0] != "status"@[0]);
    assert("result"@[0] != "errors"@[0]);
    assert("result"@[0] != "messages"@[0]);
    assert("result"@[0] != "warnings"@[0]);
    assert("result"@ != "data"@) by {
        assert("result"@.len() != "data"@.len());
    }
    let b = all.drop_first();
    let c = b.drop_first();
    let d = c.drop_first();
    let e = d.drop_first();
    let f = e.drop_first();
    assert(b.first() == ("data"@, data));
    assert(c.first() == ("errors"@, errors));
    assert(d.first() == ("messages"@, messages));
    assert(e.first() == ("warnings"@, warnings));
    assert(f.len() == 0);
    reveal_with_fuel(lookup, 7);
}

/// A reply whose HTTP status is not one of the two hundreds is answered with its
/// status and body, whatever it holds; else one that is no JSON says so, and any
/// other brings what its document does.
pub proof fn law_http_status_comes_first(
    status: i32,
    body: Seq<char>,
    document: Option<JsonView>,
)
    ensures
        status as int / 100 != 2 ==> reply_outcome(status, body, document) == Err::<
            JsonView,
            UapiFault,
        >(UapiFault::Http { status, body }),
        status as int / 100 == 2 && document is None ==> reply_outcome(status, body, document)
            == Err::<JsonView, UapiFault>(UapiFault::NotJson),
        status as int / 100 == 2 ==> (document matches Some(root) ==> reply_outcome(
            status,
            body,
            document,
        ) == document_outcome(root)),
{
}

/// The process number is the text under `pid`, and unknown where there is none.
pub proof fn law_process_number_is_the_text_under_pid(data: JsonView, pid: Seq<char>)
    ensures
        member(data, "pid"@) == Some(JsonView::Text(pid)) ==> pid_text(data) == pid,
        !(member(data, "pid"@) matches Some(JsonView::Text(_))) ==> pid_text(data) == "unknown"@,
{
}

/// The message of a fault tells what a reader needs to find it: of an HTTP failure
/// the status and the body.
pub proof fn law_fault_messages(status: i32, body: Seq<char>, rejected: UapiFault)
    ensures
        exists|digits: Seq<char>| #[trigger]
            decimal_value(digits) == Some(
                (if status < 0 {
                    -(status as int)
                } else {
                    status as int
                }) as nat,
            ) && (UapiFault::Http { status, body }).message_text() == "cPanel UAPI returned HTTP "@
                + (if status < 0 {
                seq!['-'] + digits
            } else {
                digits
            }) + ": "@ + body,
        UapiFault::NotJson.message_text() == "parse cPanel UAPI JSON"@,
        (UapiFault::NotAResult { nested: true }).message_text() == "parse cPanel UAPI result"@,
        (UapiFault::NotAResult { nested: false }).message_text()
            == "parse cPanel UAPI top-level result"@,
        rejected is Rejected ==> rejected.message_text() == "cPanel UAPI failed"@,
{
    reveal_strlit("-");
    assert("-"@ =~= seq!['-']);
    let n = (if status < 0 { -(status as int) } else { status as int }) as nat;
    law_decimal_notation_reads_back(n);
    assert(decimal_value(decimal_text(n)) == Some(n));
}

/// A request and an answer stand for what they hold.
pub proof fn law_requests_stand_for_themselves(request: Request, result: UapiResult, i: int)
    ensures
        request@.url == request.url@,
        request@.timeout == request.timeout,
        request@.headers.len() == request.headers@.len(),
        0 <= i < request.headers@.len() ==> request@.headers[i] == (
            request.headers@[i].0@,
            request.headers@[i].1@,
        ),
        result@.status == result.status,
        result@.data == result.data@,
        result.errors matches Some(errors) ==> result@.errors == Some(json_views(errors@)),
        result.errors is None ==> result@.errors is None,
        result.messages matches Some(messages) ==> result@.messages == Some(json_views(messages@)),
        result.messages is None ==> result@.messages is None,
        result.warnings matches Some(warnings) ==> result@.warnings == Some(json_views(warnings@)),
        result.warnings is None ==> result@.warnings is None,
{
}

/// The answer of an object is told by five members, whatever others it has, the
/// member `result` among them: there is one exactly if the status is a number of
/// 32 bits, there are data, and each of the three others is absent, null or a list.
pub proof fn law_answer_has_five_members(members: Seq<(Seq<char>, JsonView)>)
    ensures
        ({
            let json = JsonView::Object(members);
            let status = field_number(member(json, "status"@));
            let data = member(json, "data"@);
            let errors = member(json, "errors"@);
            let messages = member(json, "messages"@);
            let warnings = member(json, "warnings"@);
            match uapi_result(json) {
                Some(result) => status == Some(result.status as int) && data == Some(result.data)
                    && gives_reasons(errors, result.errors) && gives_reasons(
                    messages,
                    result.messages,
                ) && gives_reasons(warnings, result.warnings),
                None => !(data is Some && may_be_list(errors) && may_be_list(messages)
                    && may_be_list(warnings) && (status matches Some(n) && -0x8000_0000 <= n
                    <= 0x7fff_ffff)),
            }
        }),
{
}

/// Where a document has a member `result`, that member alone tells what it brings.
pub proof fn law_member_result_tells_the_answer(root: JsonView, part: JsonView)
    requires
        member(root, "result"@) == Some(part),
    ensures
        match (uapi_result(part), document_outcome(root)) {
            (None, outcome) => outcome == Err::<JsonView, UapiFault>(
                UapiFault::NotAResult { nested: true },
            ),
            (Some(result), Ok(data)) => result.status == 1 && data == result.data,
            (Some(result), Err(fault)) => result.status != 1 && fault == (UapiFault::Rejected {
                errors: result.errors,
                messages: result.messages,
                warnings: result.warnings,
            }),
        },
{
}

/// A list is an answer exactly if it has five items that are what the members of
/// an object would have to be, with null for an absent list.
pub proof fn law_listed_answer_has_five_items(items: Seq<JsonView>)
    ensures
        match uapi_result(JsonView::Array(items)) {
            Some(result) => items.len() == 5 && field_number(Some(items[0])) == Some(
                result.status as int,
            ) && items[1] == result.data && gives_reasons(Some(items[2]), result.errors)
                && gives_reasons(Some(items[3]), result.messages) && gives_reasons(
                Some(items[4]),
                result.warnings,
            ),
            None => !(items.len() == 5 && may_be_list(Some(items[2])) && may_be_list(
                Some(items[3]),
            ) && may_be_list(Some(items[4])) && (field_number(Some(items[0])) matches Some(n)
                && -0x8000_0000 <= n <= 0x7fff_ffff)),
        },
{
}

/// A fault of a reply stands for what it tells.
pub proof fn law_uapi_faults_stand_for_themselves(error: UapiError)
    ensures
        match error {
            UapiError::Http { status, body } => error@ == (UapiFault::Http {
                status,
                body: body@,
            }),
            UapiError::NotJson { cause: _ } => error@ == UapiFault::NotJson,
            UapiError::NotAResult { nested } => error@ == (UapiFault::NotAResult { nested }),
            UapiError::Rejected { errors, messages, warnings } => error@ matches
                UapiFault::Rejected { errors: e, messages: m, warnings: w } && (errors
                matches Some(items) ==> e == Some(json_views(items@))) && (errors is None ==> e
                is None) && (messages matches Some(items) ==> m == Some(json_views(items@))) && (
            messages is None ==> m is None) && (warnings matches Some(items) ==> w == Some(
                json_views(items@),
            )) && (warnings is None ==> w is None),
        },
{
}

} // verus!
