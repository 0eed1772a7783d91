//! The remote repository client: the requests that a run sends to the remote
//! store, as plain values. Sending them is up to the caller.

use vstd::prelude::*;
use vstd::string::StringExecFns;
use crate::decimal::{decimal, i64_to_string};

verus! {

/// The HTTP method of a request.
#[derive(Clone, Copy, Debug, PartialEq, Eq, Structural)]
pub enum Method {
    Get,
    Post,
}

/// One header of a request.
#[derive(Debug, PartialEq, Eq)]
pub struct Header {
    pub name: String,
    pub value: String,
}

impl View for Header {
    type V = (Seq<char>, Seq<char>);

    open spec fn view(&self) -> (Seq<char>, Seq<char>) {
        (self.name@, self.value@)
    }
}

impl DeepView for Header {
    type V = (Seq<char>, Seq<char>);

    open spec fn deep_view(&self) -> (Seq<char>, Seq<char>) {
        self@
    }
}

/// A request to the remote store, ready to be sent.
#[derive(Debug, PartialEq, Eq)]
pub struct Request {
    pub method: Method,
    pub url: String,
    pub headers: Vec<Header>,
    pub body: Option<String>,
}

/// The mathematical value of a [`Request`].
#[verifier::ext_equal]
pub struct RequestView {
    pub method: Method,
    pub url: Seq<char>,
    pub headers: Seq<(Seq<char>, Seq<char>)>,
    pub body: Option<Seq<char>>,
}

impl View for Request {
    type V = RequestView;

    open spec fn view(&self) -> RequestView {
        RequestView {
            method: self.method,
            url: self.url@,
            headers: self.headers.deep_view(),
            body: self.body.deep_view(),
        }
    }
}

/// Why a request could not be built.
#[derive(Clone, Copy, Debug, PartialEq, Eq, Structural)]
pub enum ClientError {
    /// The credential holds a character that no header value may hold.
    InvalidToken,
}

/// Whether a header value may hold `c`: anything but the control characters,
/// the tab excepted.
pub open spec fn is_header_char(c: char) -> bool {
    c == '\t' || (' ' <= c && c != '\u{7f}')
}

/// Whether `text` can be the value of a header.
pub open spec fn is_header_text(text: Seq<char>) -> bool {
    forall|i: int| 0 <= i < text.len() ==> is_header_char(#[trigger] text[i])
}

/// The scheme word in front of the credential.
pub open spec fn token_prefix() -> Seq<char> {
    "Token "@
}

/// The header that carries the credential `token`.
pub open spec fn authorization_header(token: Seq<char>) -> (Seq<char>, Seq<char>) {
    ("authorization"@, token_prefix() + token)
}

/// The header that announces a JSON body.
pub open spec fn json_content_type() -> (Seq<char>, Seq<char>) {
    ("content-type"@, "application/json"@)
}

/// A request without a body, authorized by `token`.
pub open spec fn authorized(method: Method, url: Seq<char>, token: Seq<char>) -> RequestView {
    RequestView { method, url, headers: seq![authorization_header(token)], body: None }
}

/// A POST request with the JSON text `body`, authorized by `token`.
pub open spec fn authorized_json_post(
    url: Seq<char>,
    token: Seq<char>,
    body: Seq<char>,
) -> RequestView {
    RequestView {
        method: Method::Post,
        url,
        headers: seq![authorization_header(token), json_content_type()],
        body: Some(body),
    }
}

/// The address at which the remote store lists the folder `parent_id`.
pub open spec fn files_list_address(parent_id: i64) -> Seq<char> {
    "https://api.put.io/v2/files/list?parent_id="@ + decimal(parent_id as int)
}

/// The address at which the remote store resolves the download link of the
/// file `file_id`.
pub open spec fn file_url_address(file_id: i64) -> Seq<char> {
    "https://api.put.io/v2/files/"@ + decimal(file_id as int) + "/url"@
}

/// The address at which the remote store deletes entries.
pub open spec fn delete_address() -> Seq<char> {
    "https://api.put.io/v2/files/delete"@
}

/// Whether `key` can stand between quotes in JSON as it is: no control
/// character, no quote and no backslash is in it.
pub open spec fn is_plain_json_key(key: Seq<char>) -> bool {
    forall|i: int|
        0 <= i < key.len() ==> ' ' <= #[trigger] key[i] && key[i] != '"' && key[i] != '\\'
}

/// The compact JSON text of the object with the one member `key`, whose
/// value is the number `value`: `{"key":value}`, the number in decimal.
pub open spec fn json_number_object(key: Seq<char>, value: i64) -> Seq<char> {
    seq!['{', '"'] + key + seq!['"', ':'] + decimal(value as int) + seq!['}']
}

/// Asks `reqwest::header::HeaderValue::from_str` whether it takes `text` for
/// a header value.
///
/// The contract is not proved; it is read off that function, which refuses a
/// text exactly if one of its bytes is a control character other than the
/// tab (a byte below 32, or 127). The bytes of a character beyond ASCII are
/// all above 127, so this is a matter of the characters alone.
#[verifier::external_body]
fn header_value_accepts(text: &str) -> (accepted: bool)
    ensures
        accepted == is_header_text(text@),
{
    match reqwest::header::HeaderValue::from_str(text) {
        Ok(_) => true,
        Err(_) => false,
    }
}

/// Has `serde_json` write the object with the one member `key`: builds the
/// `serde_json::Value` and calls its `to_string`, which gives the compact
/// form.
///
/// The contract is not proved; it is read off the source of `serde_json`
/// and of `itoa`. The compact form of an object with one member is `{`, the
/// key between quotes, `:`, the value, `}`. A key is written as it is but
/// for control characters, quotes and backslashes, which the `requires`
/// leaves out. An integer is written in decimal, without leading zeros, a
/// negative one with `-` in front.
#[verifier::external_body]
fn json_number_member(key: &str, value: i64) -> (text: String)
    requires
        is_plain_json_key(key@),
    ensures
        text@ == json_number_object(key@, value),
{
    let mut object = serde_json::Map::new();
    object.insert(key.to_string(), serde_json::Value::from(value));
    serde_json::Value::Object(object).to_string()
}

/// The value of the authorization header for the credential `access_token`.
pub fn get_access_token_header(access_token: &String) -> (value: String)
    ensures
        value@ == token_prefix() + access_token@,
{
    String::from_str("Token ").concat(access_token.as_str())
}

/// With the scheme word in front, a credential is as fit for a header as
/// without it.
pub proof fn lemma_prefix_is_header_text(token: Seq<char>)
    ensures
        is_header_text(token_prefix() + token) == is_header_text(token),
{
    reveal_strlit("Token ");
    let whole = token_prefix() + token;
    if is_header_text(whole) {
        assert forall|i: int| 0 <= i < token.len() implies is_header_char(#[trigger] token[i]) by {
            assert(whole[i + 6] == token[i]);
        }
    }
    if is_header_text(token) {
        assert forall|i: int| 0 <= i < whole.len() implies is_header_char(#[trigger] whole[i]) by {
            if i >= 6 {
                assert(whole[i] == token[i - 6]);
            }
        }
    }
}

/// The header that authorizes a request with the credential `oauth_token`.
/// A credential that cannot stand in a header is refused.
pub fn get_authorization_header(oauth_token: &String) -> (result: Result<Header, ClientError>)
    ensures
        match result {
            Ok(header) => is_header_text(oauth_token@) && header@ == authorization_header(
                oauth_token@,
            ),
            Err(error) => !is_header_text(oauth_token@) && error == ClientError::InvalidToken,
        },
{
    let value = get_access_token_header(oauth_token);
    proof {
        lemma_prefix_is_header_text(oauth_token@);
    }
    if header_value_accepts(value.as_str()) {
        Ok(Header { name: String::from_str("authorization"), value })
    } else {
        Err(ClientError::InvalidToken)
    }
}

/// The holder of the credential, from which every request is made.
pub struct Client {
    oauth_token: String,
}

impl Client {
    /// The credential that this client puts into its requests.
    pub closed spec fn token(&self) -> Seq<char> {
        self.oauth_token@
    }

    pub fn new(oauth_token: &String) -> (client: Client)
        ensures
            client.token() == oauth_token@,
    {
        let oauth_token = oauth_token.clone();
        Client { oauth_token }
    }

    /// The credential.
    pub fn oauth_token(&self) -> (token: &String)
        ensures
            token@ == self.token(),
    {
        &self.oauth_token
    }

    fn request(&self, method: Method, url: &String) -> (result: Result<Request, ClientError>)
        ensures
            match result {
                Ok(request) => is_header_text(self.token()) && request@ == authorized(
                    method,
                    url@,
                    self.token(),
                ),
                Err(error) => !is_header_text(self.token()) && error == ClientError::InvalidToken,
            },
    {
        match get_authorization_header(&self.oauth_token) {
            Ok(header) => {
                let mut headers: Vec<Header> = Vec::new();
                headers.push(header);
                let request = Request { method, url: url.clone(), headers, body: None };
                assert(request@.headers == seq![authorization_header(self.token())]);
                Ok(request)
            },
            Err(error) => Err(error),
        }
    }

    /// An authorized GET request to `url`.
    pub fn get(&self, url: &String) -> (result: Result<Request, ClientError>)
        ensures
            match result {
                Ok(request) => is_header_text(self.token()) && request@ == authorized(
                    Method::Get,
                    url@,
                    self.token(),
                ),
                Err(error) => !is_header_text(self.token()) && error == ClientError::InvalidToken,
            },
    {
        self.request(Method::Get, url)
    }

    /// An authorized POST request to `url`.
    pub fn post(&self, url: &String) -> (result: Result<Request, ClientError>)
        ensures
            match result {
                Ok(request) => is_header_text(self.token()) && request@ == authorized(
                    Method::Post,
                    url@,
                    self.token(),
                ),
                Err(error) => !is_header_text(self.token()) && error == ClientError::InvalidToken,
            },
    {
        self.request(Method::Post, url)
    }

    /// An authorized POST request to `url` that carries the JSON text `body`.
    pub fn post_json(&self, url: &String, body: String) -> (result: Result<Request, ClientError>)
        ensures
            match result {
                Ok(request) => is_header_text(self.token()) && request@ == authorized_json_post(
                    url@,
                    self.token(),
                    body@,
                ),
                Err(error) => !is_header_text(self.token()) && error == ClientError::InvalidToken,
            },
    {
        match self.post(url) {
            Ok(request) => {
                let Request { method, url, mut headers, body: _ } = request;
                let ghost before = headers.deep_view();
                headers.push(
                    Header {
                        name: String::from_str("content-type"),
                        value: String::from_str("application/json"),
                    },
                );
                assert(headers.deep_view() == before.push(json_content_type()));
                let request = Request { method, url, headers, body: Some(body) };
                assert(request@.headers == seq![
                    authorization_header(self.token()),
                    json_content_type(),
                ]);
                Ok(request)
            },
            Err(error) => Err(error),
        }
    }
}

/// Where to ask for the listing of the folder `parent_id`.
pub fn files_list_endpoint(parent_id: i64) -> (url: String)
    ensures
        url@ == files_list_address(parent_id),
{
    let id = i64_to_string(parent_id);
    String::from_str("https://api.put.io/v2/files/list?parent_id=").concat(id.as_str())
}

/// Where to ask for the download link of the file `file_id`.
pub fn file_url_endpoint(file_id: i64) -> (url: String)
    ensures
        url@ == file_url_address(file_id),
{
    let id = i64_to_string(file_id);
    String::from_str("https://api.put.io/v2/files/").concat(id.as_str()).concat("/url")
}

/// The request that lists the folder `parent_id`.
pub fn files_list(client: &Client, parent_id: i64) -> (result: Result<Request, ClientError>)
    ensures
        match result {
            Ok(request) => is_header_text(client.token()) && request@ == authorized(
                Method::Get,
                files_list_address(parent_id),
                client.token(),
            ),
            Err(error) => !is_header_text(client.token()) && error == ClientError::InvalidToken,
        },
{
    let url = files_list_endpoint(parent_id);
    client.get(&url)
}

/// The request that resolves the download link of the file `file_id`.
pub fn file_url(client: &Client, file_id: i64) -> (result: Result<Request, ClientError>)
    ensures
        match result {
            Ok(request) => is_header_text(client.token()) && request@ == authorized(
                Method::Get,
                file_url_address(file_id),
                client.token(),
            ),
            Err(error) => !is_header_text(client.token()) && error == ClientError::InvalidToken,
        },
{
    let url = file_url_endpoint(file_id);
    client.get(&url)
}

/// The request that deletes the entry `file_id`, a file or a folder with all
/// that is in it.
pub fn delete_file(client: &Client, file_id: i64) -> (result: Result<Request, ClientError>)
    ensures
        match result {
            Ok(request) => is_header_text(client.token()) && request@ == authorized_json_post(
                delete_address(),
                client.token(),
                json_number_object("file_ids"@, file_id),
            ),
            Err(error) => !is_header_text(client.token()) && error == ClientError::InvalidToken,
        },
{
    let url = String::from_str("https://api.put.io/v2/files/delete");
    proof {
        reveal_strlit("file_ids");
    }
    let body = json_number_member("file_ids", file_id);
    client.post_json(&url, body)
}

} // verus!
