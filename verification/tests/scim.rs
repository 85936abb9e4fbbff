use sssd_oidc::scim::{
    encode_path_segment, escape_filter_value, first_resource, is_online, resource_by_id,
    FetchFailure, ListResponse, ScimClient, ScimError, ScimGroup, ScimRequest,
    MAX_PAGINATION_PAGES,
};

fn query(request: &ScimRequest) -> Vec<(&str, &str)> {
    request.query.iter().map(|(k, v)| (k.as_str(), v.as_str())).collect()
}

#[test]
fn escape_filter_value_handles_plain_string() {
    assert_eq!(escape_filter_value("alice"), "alice");
}

#[test]
fn escape_filter_value_escapes_quotes() {
    assert_eq!(escape_filter_value(r#"al"ice"#), r#"al\"ice"#);
}

#[test]
fn escape_filter_value_escapes_backslashes() {
    assert_eq!(escape_filter_value(r"al\ice"), r"al\\ice");
}

#[test]
fn escape_filter_value_escapes_both() {
    assert_eq!(escape_filter_value(r#"a\"b"#), r#"a\\\"b"#);
}

#[test]
fn path_segments_keep_only_what_is_safe() {
    assert_eq!(encode_path_segment("user-uuid_1.~"), "user-uuid_1.~");
    assert_eq!(encode_path_segment("a/b?c#d%e"), "a%2Fb%3Fc%23d%25e");
    assert_eq!(encode_path_segment(" \"<>[]^`{|}"), "%20%22%3C%3E%5B%5D%5E%60%7B%7C%7D");
    assert_eq!(encode_path_segment("\u{0}\u{1f}\u{7f}é"), "%00%1F%7F%C3%A9");
    assert_eq!(encode_path_segment("!$&'()*+,;=:@\\"), "!$&'()*+,;=:@\\");
    assert_eq!(encode_path_segment(""), "");
}

#[test]
fn path_segments_are_encoded_as_the_crate_does_it() {
    const SET: &percent_encoding::AsciiSet = &percent_encoding::CONTROLS
        .add(b' ')
        .add(b'"')
        .add(b'#')
        .add(b'%')
        .add(b'/')
        .add(b'?')
        .add(b'[')
        .add(b']')
        .add(b'<')
        .add(b'>')
        .add(b'^')
        .add(b'`')
        .add(b'{')
        .add(b'|')
        .add(b'}');
    let all: String = (0u32..0x300).filter_map(char::from_u32).collect();
    assert_eq!(
        encode_path_segment(&all),
        percent_encoding::utf8_percent_encode(&all, SET).to_string()
    );
}

#[test]
fn requests_name_the_resource_and_carry_the_token() {
    let client = ScimClient::new("https://example.com/scim/v2//", "secret");
    let request = client.get_user_by_name(r#"al"ice"#);
    assert_eq!(request.url, "https://example.com/scim/v2/Users");
    assert_eq!(request.authorization, "Bearer secret");
    assert_eq!(query(&request), vec![("filter", r#"userName eq "al\"ice""#)]);

    let request = client.get_group_by_name("eng");
    assert_eq!(request.url, "https://example.com/scim/v2/Groups");
    assert_eq!(query(&request), vec![("filter", r#"displayName eq "eng""#)]);

    let request = client.get_user_by_id("../x");
    assert_eq!(request.url, "https://example.com/scim/v2/Users/..%2Fx");
    assert!(request.query.is_empty());

    let request = client.get_group_by_id("g 1");
    assert_eq!(request.url, "https://example.com/scim/v2/Groups/g%201");

    let request = client.is_online();
    assert_eq!(request.url, "https://example.com/scim/v2/Users");
    assert_eq!(query(&request), vec![("count", "0")]);
}

#[test]
fn the_first_of_a_list_is_taken() {
    let list = |resources| Ok(ListResponse { total_results: 2, resources });
    assert_eq!(first_resource(list(vec![1, 2])).unwrap(), Some(1));
    assert_eq!(first_resource(list(vec![])).unwrap(), None);
    let failed: Result<ListResponse<i32>, _> =
        Err(FetchFailure::Status(404, "http status: 404".into()));
    let err = first_resource(failed).unwrap_err();
    assert_eq!(err.message(), "HTTP request failed: http status: 404");
}

#[test]
fn an_unknown_id_is_no_error() {
    assert_eq!(resource_by_id(Ok(1)).unwrap(), Some(1));
    let missing: Result<i32, _> = Err(FetchFailure::Status(404, "http status: 404".into()));
    assert_eq!(resource_by_id(missing).unwrap(), None);
    let failed: Result<i32, _> = Err(FetchFailure::Status(500, "http status: 500".into()));
    assert!(matches!(resource_by_id(failed), Err(ScimError::Http(_))));
    let failed: Result<i32, _> = Err(FetchFailure::Transport("refused".into()));
    assert!(matches!(resource_by_id(failed), Err(ScimError::Http(_))));
    assert_eq!(ScimError::Json("eof".into()).message(), "JSON deserialization failed: eof");
    assert_eq!(ScimError::UserNotFound("u".into()).message(), "user not found: u");
    assert_eq!(ScimError::GroupNotFound("g".into()).message(), "group not found: g");
}

#[test]
fn the_server_is_online_when_it_answers() {
    assert!(is_online(&Ok(())));
    assert!(!is_online(&Err(FetchFailure::Transport("refused".into()))));
    assert!(!is_online(&Err(FetchFailure::Status(500, "http status: 500".into()))));
}

#[test]
fn pages_are_fetched_until_all_are_there() {
    let client = ScimClient::new("http://idp", "t");
    let mut pages = client.list_users();
    assert!(!pages.finished());
    let request = pages.next_request(&client);
    assert_eq!(request.url, "http://idp/Users");
    assert_eq!(query(&request), vec![("startIndex", "1"), ("count", "100")]);
    pages.accept(ListResponse { total_results: 0, resources: vec![] });
    assert!(pages.finished() && pages.complete());
    assert!(pages.into_items().is_empty());
}

#[test]
fn pages_go_on_behind_what_was_fetched() {
    let client = ScimClient::new("http://idp", "t");
    let mut pages = client.list_groups();
    let group = |id: &str| ScimGroup {
        id: id.into(),
        display_name: id.into(),
        members: vec![],
    };
    pages.accept(ListResponse { total_results: 3, resources: vec![group("a"), group("b")] });
    assert!(!pages.finished());
    let request = pages.next_request(&client);
    assert_eq!(request.url, "http://idp/Groups");
    assert_eq!(query(&request), vec![("startIndex", "3"), ("count", "100")]);
    pages.accept(ListResponse { total_results: 3, resources: vec![group("c")] });
    assert!(pages.finished() && pages.complete());
    let ids: Vec<String> = pages.into_items().into_iter().map(|g| g.id).collect();
    assert_eq!(ids, vec!["a", "b", "c"]);
}

#[test]
fn pages_end_at_the_limit() {
    let client = ScimClient::new("http://idp", "t");
    let mut pages = client.list_groups();
    let mut asked = 0;
    while !pages.finished() {
        asked += 1;
        let same = ScimGroup { id: "a".into(), display_name: "a".into(), members: vec![] };
        pages.accept(ListResponse { total_results: usize::MAX, resources: vec![same] });
    }
    assert_eq!(asked, MAX_PAGINATION_PAGES);
    assert_eq!(asked, 1_000);
    assert!(!pages.complete());
    assert_eq!(pages.into_items().len(), 1_000);
}
