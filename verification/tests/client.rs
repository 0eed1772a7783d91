use putio::{
    delete_file, file_url, file_url_endpoint, files_list, files_list_endpoint,
    get_access_token_header, get_authorization_header, Client, ClientError, Header, Method,
    Request,
};

fn authorization(token: &str) -> Header {
    Header { name: String::from("authorization"), value: format!("Token {}", token) }
}

#[test]
fn the_token_header_value_has_the_scheme_word_in_front() {
    assert_eq!(get_access_token_header(&String::from("abc")), "Token abc");
    assert_eq!(get_access_token_header(&String::from("")), "Token ");
}

#[test]
fn the_authorization_header_carries_the_token() {
    assert_eq!(get_authorization_header(&String::from("abc123")), Ok(authorization("abc123")));
}

#[test]
fn the_authorization_header_is_one_that_the_transport_takes() {
    let header = get_authorization_header(&String::from("abc")).unwrap();
    let name = reqwest::header::HeaderName::from_bytes(header.name.as_bytes()).unwrap();
    assert_eq!(name, reqwest::header::AUTHORIZATION);
    let value = reqwest::header::HeaderValue::from_str(&header.value).unwrap();
    assert_eq!(value.as_bytes(), b"Token abc");
}

#[test]
fn a_token_with_a_control_character_is_refused() {
    for token in ["a\nb", "\r", "a\u{0}", "a\u{7f}", "\u{1b}[0m"] {
        assert_eq!(
            get_authorization_header(&String::from(token)),
            Err(ClientError::InvalidToken),
            "for {:?}",
            token
        );
    }
}

#[test]
fn a_token_with_blanks_tabs_or_letters_beyond_ascii_is_taken() {
    for token in ["", "a b", "a\tb", "~", "tökén", "日本語"] {
        assert_eq!(
            get_authorization_header(&String::from(token)),
            Ok(authorization(token)),
            "for {:?}",
            token
        );
    }
}

#[test]
fn the_client_keeps_the_token() {
    let client = Client::new(&String::from("abc"));
    assert_eq!(client.oauth_token(), "abc");
}

#[test]
fn get_builds_an_authorized_request() {
    let client = Client::new(&String::from("abc"));
    let request = client.get(&String::from("https://example.org/x")).unwrap();
    assert_eq!(
        request,
        Request {
            method: Method::Get,
            url: String::from("https://example.org/x"),
            headers: vec![authorization("abc")],
            body: None,
        }
    );
}

#[test]
fn post_builds_an_authorized_request() {
    let client = Client::new(&String::from("abc"));
    let request = client.post(&String::from("https://example.org/x")).unwrap();
    assert_eq!(
        request,
        Request {
            method: Method::Post,
            url: String::from("https://example.org/x"),
            headers: vec![authorization("abc")],
            body: None,
        }
    );
}

#[test]
fn post_json_adds_the_content_type_and_the_body() {
    let client = Client::new(&String::from("abc"));
    let request =
        client.post_json(&String::from("https://example.org/x"), String::from("{}")).unwrap();
    assert_eq!(
        request,
        Request {
            method: Method::Post,
            url: String::from("https://example.org/x"),
            headers: vec![
                authorization("abc"),
                Header {
                    name: String::from("content-type"),
                    value: String::from("application/json"),
                },
            ],
            body: Some(String::from("{}")),
        }
    );
}

#[test]
fn a_client_with_an_unfit_token_builds_no_request() {
    let client = Client::new(&String::from("a\nb"));
    assert_eq!(client.get(&String::from("https://example.org")), Err(ClientError::InvalidToken));
    assert_eq!(client.post(&String::from("https://example.org")), Err(ClientError::InvalidToken));
    assert_eq!(
        client.post_json(&String::from("https://example.org"), String::from("{}")),
        Err(ClientError::InvalidToken)
    );
    assert_eq!(files_list(&client, 1), Err(ClientError::InvalidToken));
    assert_eq!(file_url(&client, 1), Err(ClientError::InvalidToken));
    assert_eq!(delete_file(&client, 1), Err(ClientError::InvalidToken));
}

#[test]
fn the_listing_address_names_the_folder() {
    assert_eq!(files_list_endpoint(0), "https://api.put.io/v2/files/list?parent_id=0");
    assert_eq!(files_list_endpoint(921234), "https://api.put.io/v2/files/list?parent_id=921234");
    assert_eq!(files_list_endpoint(-1), "https://api.put.io/v2/files/list?parent_id=-1");
}

#[test]
fn the_link_address_names_the_file() {
    assert_eq!(file_url_endpoint(10), "https://api.put.io/v2/files/10/url");
    assert_eq!(
        file_url_endpoint(i64::MIN),
        "https://api.put.io/v2/files/-9223372036854775808/url"
    );
}

#[test]
fn files_list_asks_for_the_folder() {
    let client = Client::new(&String::from("abc"));
    let request = files_list(&client, 20).unwrap();
    assert_eq!(request.method, Method::Get);
    assert_eq!(request.url, "https://api.put.io/v2/files/list?parent_id=20");
    assert_eq!(request.headers, vec![authorization("abc")]);
    assert_eq!(request.body, None);
}

#[test]
fn file_url_asks_for_the_link() {
    let client = Client::new(&String::from("abc"));
    let request = file_url(&client, 10).unwrap();
    assert_eq!(request.method, Method::Get);
    assert_eq!(request.url, "https://api.put.io/v2/files/10/url");
    assert_eq!(request.headers, vec![authorization("abc")]);
    assert_eq!(request.body, None);
}

#[test]
fn delete_file_posts_the_identifier_as_json() {
    let client = Client::new(&String::from("abc"));
    let request = delete_file(&client, 42).unwrap();
    assert_eq!(request.method, Method::Post);
    assert_eq!(request.url, "https://api.put.io/v2/files/delete");
    assert_eq!(request.headers.len(), 2);
    assert_eq!(request.headers[0], authorization("abc"));
    assert_eq!(request.headers[1].name, "content-type");
    assert_eq!(request.headers[1].value, "application/json");
    assert_eq!(request.body, Some(String::from("{\"file_ids\":42}")));
}

#[test]
fn delete_file_writes_negative_and_large_identifiers() {
    let client = Client::new(&String::from("abc"));
    assert_eq!(
        delete_file(&client, -7).unwrap().body,
        Some(String::from("{\"file_ids\":-7}"))
    );
    assert_eq!(
        delete_file(&client, i64::MAX).unwrap().body,
        Some(String::from("{\"file_ids\":9223372036854775807}"))
    );
}

#[test]
fn the_delete_body_is_json_that_reads_back() {
    let client = Client::new(&String::from("abc"));
    let body = delete_file(&client, 42).unwrap().body.unwrap();
    let value: serde_json::Value = serde_json::from_str(&body).unwrap();
    assert_eq!(value.get("file_ids").and_then(|number| number.as_i64()), Some(42));
}
