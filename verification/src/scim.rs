//! The SCIM 2.0 client: what it asks the server for, and what it makes of the
//! replies.
use crate::text::{
    decimal, decimal_text, digit, join3, trim_trailing_slashes, without_trailing_slashes,
};
use percent_encoding::percent_encode_byte;
use vstd::prelude::*;
use vstd::utf8::encode_utf8;

verus! {

/// Why a SCIM request was not answered.
#[derive(Debug, Clone)]
pub enum ScimError {
    /// The request failed; the field holds the HTTP client's message.
    Http(String),
    /// The reply could not be read; the field holds the message.
    Json(String),
    /// There is no such user.
    UserNotFound(String),
    /// There is no such group.
    GroupNotFound(String),
}

impl ScimError {
    /// The text of the message.
    pub open spec fn text(self) -> Seq<char> {
        match self {
            ScimError::Http(reason) => "HTTP request failed: "@ + reason@,
            ScimError::Json(reason) => "JSON deserialization failed: "@ + reason@,
            ScimError::UserNotFound(name) => "user not found: "@ + name@,
            ScimError::GroupNotFound(name) => "group not found: "@ + name@,
        }
    }

    /// The message for the log.
    pub fn message(&self) -> (message: String)
        ensures
            message@ == self.text(),
    {
        match self {
            ScimError::Http(reason) => {
                let mut m = "HTTP request failed: ".to_owned();
                m.append(reason);
                m
            },
            ScimError::Json(reason) => {
                let mut m = "JSON deserialization failed: ".to_owned();
                m.append(reason);
                m
            },
            ScimError::UserNotFound(name) => {
                let mut m = "user not found: ".to_owned();
                m.append(name);
                m
            },
            ScimError::GroupNotFound(name) => {
                let mut m = "group not found: ".to_owned();
                m.append(name);
                m
            },
        }
    }
}

/// Raw SCIM 2.0 user resource (RFC 7643).
#[derive(Debug, Clone)]
pub struct ScimUser {
    pub id: String,
    pub user_name: String,
    pub display_name: Option<String>,
    pub active: Option<bool>,
    pub groups: Vec<ScimGroupRef>,
}

/// A group reference embedded in a SCIM user resource.
#[derive(Debug, Clone)]
pub struct ScimGroupRef {
    pub value: String,
    pub display: Option<String>,
}

/// Raw SCIM 2.0 group resource.
#[derive(Debug, Clone)]
pub struct ScimGroup {
    pub id: String,
    pub display_name: String,
    pub members: Vec<ScimMemberRef>,
}

/// A member reference embedded in a SCIM group resource.
#[derive(Debug, Clone)]
pub struct ScimMemberRef {
    pub value: String,
    pub display: Option<String>,
}

/// SCIM list response wrapper.
#[derive(Debug, Clone)]
pub struct ListResponse<T> {
    pub total_results: usize,
    pub resources: Vec<T>,
}

/// Why a request brought no resource.
#[derive(Debug, Clone)]
pub enum FetchFailure {
    /// The server answered with this status, which is none of success; the text
    /// is the HTTP client's message.
    Status(u16, String),
    /// The request could not be sent, was not answered, or the body of the reply is not
    /// the JSON that was asked for; the text is the HTTP client's message.
    Transport(String),
}

impl FetchFailure {
    /// The error that a failure is reported as.
    pub open spec fn reported(self) -> Seq<char> {
        match self {
            FetchFailure::Status(_, reason) => "HTTP request failed: "@ + reason@,
            FetchFailure::Transport(reason) => "HTTP request failed: "@ + reason@,
        }
    }

    /// The error to report.
    pub fn into_error(self) -> (err: ScimError)
        ensures
            err is Http,
            err.text() == self.reported(),
    {
        match self {
            FetchFailure::Status(_, reason) => ScimError::Http(reason),
            FetchFailure::Transport(reason) => ScimError::Http(reason),
        }
    }
}

/// What stands for `c` between the quotes of a SCIM filter.
pub open spec fn escaped_char(c: char) -> Seq<char> {
    if c == '\\' || c == '"' {
        seq!['\\', c]
    } else {
        seq![c]
    }
}

/// `value` with a backslash before each backslash and each quote.
pub open spec fn escaped(value: Seq<char>) -> Seq<char>
    decreases value.len(),
{
    if value.len() == 0 {
        Seq::empty()
    } else {
        escaped(value.drop_last()) + escaped_char(value.last())
    }
}

/// Escape a value for use in a SCIM 2.0 filter expression (RFC 7644 §3.4.2.2).
/// Backslash-escapes `\` and `"` characters within the quoted string.
pub fn escape_filter_value(value: &str) -> (result: String)
    ensures
        result@ == escaped(value@),
{
    let mut result = String::new();
    for c in it: value.chars()
        invariant
            it.seq() == value@,
            result@ == escaped(value@.take(it.index())),
    {
        proof {
            assert(value@.take(it.index() + 1).drop_last() == value@.take(it.index()));
        }
        if c == '\\' || c == '"' {
            result.push('\\');
        }
        result.push(c);
        assert(result@ == escaped(value@.take(it.index() + 1)));
    }
    assert(value@.take(value@.len() as int) == value@);
    result
}

/// What a reader of a filter makes of `s`, which starts behind an opening
/// quote: the value up to the closing quote, and what follows that; a backslash
/// takes the character behind it as it is.
pub open spec fn read_quoted(s: Seq<char>) -> Option<(Seq<char>, Seq<char>)>
    decreases s.len(),
{
    if s.len() == 0 {
        None
    } else if s[0] == '"' {
        Some((Seq::empty(), s.skip(1)))
    } else if s[0] == '\\' {
        if s.len() < 2 {
            None
        } else {
            match read_quoted(s.skip(2)) {
                Some((value, rest)) => Some((seq![s[1]] + value, rest)),
                None => None,
            }
        }
    } else {
        match read_quoted(s.skip(1)) {
            Some((value, rest)) => Some((seq![s[0]] + value, rest)),
            None => None,
        }
    }
}

/// A value that was escaped and put in quotes is read back as it was: whatever
/// it holds, it cannot end the quoted string before its own end.
pub proof fn lemma_escaped_value_read_back(value: Seq<char>, rest: Seq<char>)
    ensures
        read_quoted(escaped(value) + seq!['"'] + rest) == Some((value, rest)),
    decreases value.len(),
{
    let whole = escaped(value) + seq!['"'] + rest;
    if value.len() == 0 {
        assert(whole[0] == '"');
        assert(whole.skip(1) =~= rest);
        assert(value =~= Seq::empty());
    } else {
        lemma_escaped_front(value);
        let tail = value.skip(1);
        lemma_escaped_value_read_back(tail, rest);
        let inner = escaped(tail) + seq!['"'] + rest;
        let first = escaped_char(value[0]);
        assert(whole =~= first + inner);
        assert(whole.skip(first.len() as int) =~= inner);
        assert(whole[0] == first[0]);
        if first.len() == 2 {
            assert(whole[1] == first[1]);
        }
        assert(seq![value[0]] + tail =~= value);
    }
}

/// Escaping goes character by character from the front, too.
proof fn lemma_escaped_front(value: Seq<char>)
    requires
        value.len() > 0,
    ensures
        escaped(value) == escaped_char(value[0]) + escaped(value.skip(1)),
    decreases value.len(),
{
    if value.len() == 1 {
        assert(value.drop_last() =~= Seq::empty());
        assert(value.skip(1) =~= Seq::empty());
        assert(escaped(value) =~= escaped_char(value[0]) + escaped(value.skip(1)));
    } else {
        lemma_escaped_front(value.drop_last());
        assert(value.drop_last().skip(1) =~= value.skip(1).drop_last());
        assert(escaped(value) =~= escaped_char(value[0]) + escaped(value.skip(1)));
    }
}

/// The hexadecimal digit for `d`, up to fifteen, in upper case.
pub open spec fn hex_digit(d: int) -> char {
    if d < 10 {
        digit(d)
    } else if d == 10 {
        'A'
    } else if d == 11 {
        'B'
    } else if d == 12 {
        'C'
    } else if d == 13 {
        'D'
    } else if d == 14 {
        'E'
    } else {
        'F'
    }
}

/// `percent_encoding::percent_encode_byte`: a percent sign and the two
/// hexadecimal digits of the byte, in upper case.
pub assume_specification[ percent_encode_byte ](byte: u8) -> (res: &'static str)
    ensures
        res@ == seq!['%', hex_digit(byte as int / 16), hex_digit(byte as int % 16)],
;

/// Bytes that must be percent-encoded when used in a URL path segment: the
/// controls, everything beyond ASCII, and the reserved delimiters that are not
/// valid unencoded in a single path segment.
pub open spec fn reserved(byte: u8) -> bool {
    ||| byte < 0x20
    ||| byte >= 0x7f
    ||| byte == 0x20  // space
    ||| byte == 0x22  // "
    ||| byte == 0x23  // #
    ||| byte == 0x25  // %
    ||| byte == 0x2f  // /
    ||| byte == 0x3c  // <
    ||| byte == 0x3e  // >
    ||| byte == 0x3f  // ?
    ||| byte == 0x5b  // [
    ||| byte == 0x5d  // ]
    ||| byte == 0x5e  // ^
    ||| byte == 0x60  // `
    ||| byte == 0x7b  // {
    ||| byte == 0x7c  // |
    ||| byte == 0x7d  // }

}

fn is_reserved(byte: u8) -> (res: bool)
    ensures
        res == reserved(byte),
{
    byte <= 0x20 || byte >= 0x7f || byte == 0x22 || byte == 0x23 || byte == 0x25 || byte == 0x2f
        || byte == 0x3c || byte == 0x3e || byte == 0x3f || byte == 0x5b || byte == 0x5d || byte
        == 0x5e || byte == 0x60 || byte == 0x7b || byte == 0x7c || byte == 0x7d
}

/// What stands for `byte` in a URL path segment.
pub open spec fn segment_byte(byte: u8) -> Seq<char> {
    if reserved(byte) {
        seq!['%', hex_digit(byte as int / 16), hex_digit(byte as int % 16)]
    } else {
        seq![byte as char]
    }
}

/// What stands for `bytes` in a URL path segment.
pub open spec fn segment_bytes(bytes: Seq<u8>) -> Seq<char>
    decreases bytes.len(),
{
    if bytes.len() == 0 {
        Seq::empty()
    } else {
        segment_bytes(bytes.drop_last()) + segment_byte(bytes.last())
    }
}

/// Percent-encodes `text` for use as one segment of a URL path.
pub fn encode_path_segment(text: &str) -> (res: String)
    ensures
        res@ == segment_bytes(encode_utf8(text@)),
{
    let bytes = text.as_bytes();
    let mut res = String::new();
    for i in 0..bytes.len()
        invariant
            bytes@ == encode_utf8(text@),
            res@ == segment_bytes(bytes@.take(i as int)),
    {
        proof {
            assert(bytes@.take(i + 1).drop_last() =~= bytes@.take(i as int));
        }
        let byte: u8 = bytes[i];
        if is_reserved(byte) {
            res.append(percent_encode_byte(byte));
        } else {
            res.push(byte as char);
        }
        assert(res@ =~= segment_bytes(bytes@.take(i + 1)));
    }
    assert(bytes@.take(bytes@.len() as int) =~= bytes@);
    res
}

/// The value of a hexadecimal digit.
pub open spec fn hex_value(c: char) -> int {
    if c <= '9' {
        c as int - '0' as int
    } else {
        c as int - 'A' as int + 10
    }
}

/// What a server makes of a percent-encoded path segment.
pub open spec fn segment_decoded(s: Seq<char>) -> Seq<u8>
    decreases s.len(),
{
    if s.len() == 0 {
        Seq::empty()
    } else if s[0] == '%' && s.len() >= 3 {
        seq![(16 * hex_value(s[1]) + hex_value(s[2])) as u8] + segment_decoded(s.skip(3))
    } else {
        seq![s[0] as u8] + segment_decoded(s.skip(1))
    }
}

/// A text that was encoded as a path segment is decoded as it was.
pub proof fn lemma_segment_read_back(bytes: Seq<u8>)
    ensures
        segment_decoded(segment_bytes(bytes)) == bytes,
    decreases bytes.len(),
{
    if bytes.len() == 0 {
        assert(bytes =~= Seq::empty());
    } else {
        lemma_segment_front(bytes);
        lemma_segment_read_back(bytes.skip(1));
        let byte = bytes[0];
        let first = segment_byte(byte);
        let rest = segment_bytes(bytes.skip(1));
        let whole = first + rest;
        assert(whole.skip(first.len() as int) =~= rest);
        assert(whole[0] == first[0]);
        if reserved(byte) {
            assert(whole[1] == first[1] && whole[2] == first[2]);
            lemma_hex_value(byte as int / 16);
            lemma_hex_value(byte as int % 16);
        } else {
            assert(byte as char != '%');
            assert((byte as char) as u8 == byte);
        }
        assert(seq![byte] + bytes.skip(1) =~= bytes);
    }
}

proof fn lemma_hex_value(d: int)
    requires
        0 <= d < 16,
    ensures
        hex_value(hex_digit(d)) == d,
{
}

/// A path segment holds no character that ends or splits it: nothing that is
/// reserved, but for the percent sign of an encoded byte.
pub proof fn lemma_segment_is_one_segment(bytes: Seq<u8>, i: int)
    requires
        0 <= i < segment_bytes(bytes).len(),
    ensures
        segment_bytes(bytes)[i] == '%' || (segment_bytes(bytes)[i] < '\u{7f}' && !reserved(
            segment_bytes(bytes)[i] as u8,
        )),
    decreases bytes.len(),
{
    if bytes.len() > 0 {
        let front = segment_bytes(bytes.drop_last());
        let last = segment_byte(bytes.last());
        if i < front.len() {
            lemma_segment_is_one_segment(bytes.drop_last(), i);
        } else {
            assert(segment_bytes(bytes)[i] == last[i - front.len()]);
        }
    }
}

/// Encoding goes byte by byte from the front, too.
proof fn lemma_segment_front(bytes: Seq<u8>)
    requires
        bytes.len() > 0,
    ensures
        segment_bytes(bytes) == segment_byte(bytes[0]) + segment_bytes(bytes.skip(1)),
    decreases bytes.len(),
{
    if bytes.len() == 1 {
        assert(bytes.drop_last() =~= Seq::empty());
        assert(bytes.skip(1) =~= Seq::empty());
        assert(segment_bytes(bytes) =~= segment_byte(bytes[0]) + segment_bytes(bytes.skip(1)));
    } else {
        lemma_segment_front(bytes.drop_last());
        assert(bytes.drop_last().skip(1) =~= bytes.skip(1).drop_last());
        assert(segment_bytes(bytes) =~= segment_byte(bytes[0]) + segment_bytes(bytes.skip(1)));
    }
}

/// A GET request for the HTTP client to send. The client encodes the query.
#[derive(Debug, Clone)]
pub struct ScimRequest {
    pub url: String,
    /// Names and values of the query parameters, in order.
    pub query: Vec<(String, String)>,
    /// The value of the `Authorization` header.
    pub authorization: String,
}

/// What a [`ScimRequest`] holds, as mathematical values.
pub struct ScimRequestView {
    pub url: Seq<char>,
    pub query: Seq<(Seq<char>, Seq<char>)>,
    pub authorization: Seq<char>,
}

impl View for ScimRequest {
    type V = ScimRequestView;

    open spec fn view(&self) -> ScimRequestView {
        ScimRequestView {
            url: self.url@,
            query: self.query@.map_values(|p: (String, String)| (p.0@, p.1@)),
            authorization: self.authorization@,
        }
    }
}

/// SCIM 2.0 client: where the server is and how to ask it.
pub struct ScimClient {
    base_url: String,
    bearer_token: String,
}

impl ScimClient {
    /// The base URL, which ends in no slash.
    pub closed spec fn base(&self) -> Seq<char> {
        self.base_url@
    }

    /// The bearer token.
    pub closed spec fn token(&self) -> Seq<char> {
        self.bearer_token@
    }

    /// The value of the `Authorization` header.
    pub open spec fn authorization(&self) -> Seq<char> {
        "Bearer "@ + self.token()
    }

    /// The request for `path` below the base URL with this query.
    pub open spec fn request(&self, path: Seq<char>, query: Seq<(Seq<char>, Seq<char>)>) ->
        ScimRequestView {
        ScimRequestView {
            url: self.base() + path,
            query,
            authorization: self.authorization(),
        }
    }

    /// A client for the server at `base_url`, whose trailing slashes are dropped.
    pub fn new(base_url: &str, bearer_token: &str) -> (client: ScimClient)
        ensures
            client.base() == without_trailing_slashes(base_url@),
            client.token() == bearer_token@,
    {
        ScimClient {
            base_url: trim_trailing_slashes(base_url),
            bearer_token: bearer_token.to_owned(),
        }
    }

    fn auth_header_value(&self) -> (value: String)
        ensures
            value@ == self.authorization(),
    {
        let mut value = "Bearer ".to_owned();
        value.append(self.bearer_token.as_str());
        value
    }

    /// The request for `path` below the base URL without a query.
    fn get(&self, path: &str) -> (request: ScimRequest)
        ensures
            request@ == self.request(path@, Seq::empty()),
    {
        let mut url = self.base_url.clone();
        url.append(path);
        let request = ScimRequest { url, query: Vec::new(), authorization: self.auth_header_value() };
        assert(request@.query =~= Seq::empty());
        request
    }

    /// The request for the resources below `path` of which `attribute` is `name`.
    fn get_by_name(&self, path: &str, attribute: &str, name: &str) -> (request: ScimRequest)
        ensures
            request@ == self.request(
                path@,
                seq![("filter"@, attribute@ + " eq \""@ + escaped(name@) + "\""@)],
            ),
    {
        let value = escape_filter_value(name);
        let mut filter = join3(attribute, " eq \"", value.as_str());
        filter.append("\"");
        let mut request = self.get(path);
        request.query.push(("filter".to_owned(), filter));
        assert(request@.query =~= seq![
            ("filter"@, attribute@ + " eq \""@ + escaped(name@) + "\""@),
        ]);
        request
    }

    /// Look up a user by `userName`: the request to send. The reply is read by
    /// [`first_resource`].
    pub fn get_user_by_name(&self, name: &str) -> (request: ScimRequest)
        ensures
            request@ == self.request(
                "/Users"@,
                seq![("filter"@, "userName"@ + " eq \""@ + escaped(name@) + "\""@)],
            ),
    {
        self.get_by_name("/Users", "userName", name)
    }

    /// Look up a user by SCIM `id`: the request to send. The reply is read by
    /// [`resource_by_id`].
    pub fn get_user_by_id(&self, id: &str) -> (request: ScimRequest)
        ensures
            request@ == self.request(
                "/Users/"@ + segment_bytes(encode_utf8(id@)),
                Seq::empty(),
            ),
    {
        let mut path = "/Users/".to_owned();
        let segment = encode_path_segment(id);
        path.append(segment.as_str());
        self.get(path.as_str())
    }

    /// Look up a group by `displayName`: the request to send. The reply is read
    /// by [`first_resource`].
    pub fn get_group_by_name(&self, name: &str) -> (request: ScimRequest)
        ensures
            request@ == self.request(
                "/Groups"@,
                seq![("filter"@, "displayName"@ + " eq \""@ + escaped(name@) + "\""@)],
            ),
    {
        self.get_by_name("/Groups", "displayName", name)
    }

    /// Look up a group by SCIM `id`: the request to send. The reply is read by
    /// [`resource_by_id`].
    pub fn get_group_by_id(&self, id: &str) -> (request: ScimRequest)
        ensures
            request@ == self.request(
                "/Groups/"@ + segment_bytes(encode_utf8(id@)),
                Seq::empty(),
            ),
    {
        let mut path = "/Groups/".to_owned();
        let segment = encode_path_segment(id);
        path.append(segment.as_str());
        self.get(path.as_str())
    }

    /// Check if the SCIM endpoint is reachable (health check): the request to
    /// send, a lightweight one to the Users endpoint with count=0. The reply is
    /// read by [`is_online`].
    pub fn is_online(&self) -> (request: ScimRequest)
        ensures
            request@ == self.request("/Users"@, seq![("count"@, "0"@)]),
    {
        let mut request = self.get("/Users");
        request.query.push(("count".to_owned(), "0".to_owned()));
        assert(request@.query =~= seq![("count"@, "0"@)]);
        request
    }

    /// List all users, paginating via SCIM `startIndex` + `count`.
    pub fn list_users(&self) -> (pages: Pages<ScimUser>)
        ensures
            pages.wf(),
            pages.resource() == "Users"@,
            pages@ == PagesView::<ScimUser>::nothing(),
            pages@.items.len() == 0,
            pages@.count == 0,
            !pages@.complete,
    {
        Pages::new("Users")
    }

    /// List all groups, paginating via SCIM `startIndex` + `count`.
    pub fn list_groups(&self) -> (pages: Pages<ScimGroup>)
        ensures
            pages.wf(),
            pages.resource() == "Groups"@,
            pages@ == PagesView::<ScimGroup>::nothing(),
            pages@.items.len() == 0,
            pages@.count == 0,
            !pages@.complete,
    {
        Pages::new("Groups")
    }
}

/// The first resource of a list, if the list was fetched.
pub fn first_resource<T>(reply: Result<ListResponse<T>, FetchFailure>) -> (res: Result<
    Option<T>,
    ScimError,
>)
    ensures
        match reply {
            Ok(list) => res == Ok::<Option<T>, ScimError>(
                if list.resources@.len() == 0 {
                    None
                } else {
                    Some(list.resources@[0])
                },
            ),
            Err(failure) => res matches Err(e) && e is Http && e.text() == failure.reported(),
        },
{
    match reply {
        Ok(list) => {
            let mut resources = list.resources;
            if resources.len() == 0 {
                Ok(None)
            } else {
                Ok(Some(resources.swap_remove(0)))
            }
        },
        Err(failure) => Err(failure.into_error()),
    }
}

/// The resource that was asked for by its id. That the server knows none is no
/// error.
pub fn resource_by_id<T>(reply: Result<T, FetchFailure>) -> (res: Result<Option<T>, ScimError>)
    ensures
        match reply {
            Ok(resource) => res == Ok::<Option<T>, ScimError>(Some(resource)),
            Err(FetchFailure::Status(404, _)) => res == Ok::<Option<T>, ScimError>(None),
            Err(failure) => res matches Err(e) && e is Http && e.text() == failure.reported(),
        },
{
    match reply {
        Ok(resource) => Ok(Some(resource)),
        Err(FetchFailure::Status(404, _)) => Ok(None),
        Err(failure) => Err(failure.into_error()),
    }
}

/// Whether the server is reachable: it answered the health check with success.
pub fn is_online(reply: &Result<(), FetchFailure>) -> (online: bool)
    ensures
        online == reply is Ok,
{
    match reply {
        Ok(_) => true,
        Err(_) => false,
    }
}

/// How many resources are asked for at once.
pub const PAGE_SIZE: usize = 100;

/// How many pages are asked for at most, to guard against servers that return
/// inconsistent `totalResults` or ignore `startIndex`.
pub const MAX_PAGINATION_PAGES: usize = 1_000;

/// A paginated list while it is being fetched.
///
/// As long as it is not [`Pages::finished`], the next request is sent and its
/// reply handed to [`Pages::accept`]; a request that fails ends the list with
/// that failure.
pub struct Pages<T> {
    resource: String,
    start_index: usize,
    fetched_pages: usize,
    all: Vec<T>,
    complete: bool,
}

/// How far a paginated list is.
#[verifier::ext_equal]
pub struct PagesView<T> {
    /// What has been fetched so far.
    pub items: Seq<T>,
    /// How many pages have been fetched so far.
    pub count: nat,
    /// Whether the server has nothing more.
    pub complete: bool,
}

impl<T> PagesView<T> {
    /// Before the first page.
    pub open spec fn nothing() -> Self {
        PagesView { items: Seq::empty(), count: 0, complete: false }
    }

    /// Whether there is nothing more to ask for.
    pub open spec fn done(self) -> bool {
        self.complete || self.count >= MAX_PAGINATION_PAGES
    }

    /// After one more page. The list is complete when it holds as many resources
    /// as the server says there are, or when a page is empty.
    pub open spec fn with_page(self, page: ListResponse<T>) -> Self {
        PagesView {
            items: self.items + page.resources@,
            count: self.count + 1,
            complete: self.items.len() + page.resources@.len() >= page.total_results
                || page.resources@.len() == 0,
        }
    }
}

impl<T> View for Pages<T> {
    type V = PagesView<T>;

    closed spec fn view(&self) -> PagesView<T> {
        PagesView {
            items: self.all@,
            count: self.fetched_pages as nat,
            complete: self.complete,
        }
    }
}

impl<T> Pages<T> {
    /// The kind of resource that is listed.
    pub closed spec fn resource(&self) -> Seq<char> {
        self.resource@
    }

    /// The index to ask for is the one behind what has been fetched.
    pub closed spec fn wf(&self) -> bool {
        &&& self.fetched_pages <= MAX_PAGINATION_PAGES
        &&& !self.complete ==> self.start_index == self.all@.len() + 1
    }

    fn new(resource: &str) -> (pages: Self)
        ensures
            pages.wf(),
            pages.resource() == resource@,
            pages@ == PagesView::<T>::nothing(),
    {
        Pages {
            resource: resource.to_owned(),
            start_index: 1,
            fetched_pages: 0,
            all: Vec::new(),
            complete: false,
        }
    }

    /// Tests whether there is nothing more to ask for.
    pub fn finished(&self) -> (finished: bool)
        ensures
            finished == self@.done(),
            finished == (self@.complete || self@.count >= 1_000),
    {
        self.complete || self.fetched_pages >= MAX_PAGINATION_PAGES
    }

    /// Tests whether the list ended because the server has nothing more, and not
    /// because of the page limit.
    pub fn complete(&self) -> (complete: bool)
        ensures
            complete == self@.complete,
    {
        self.complete
    }

    /// The request for the next page.
    pub fn next_request(&self, client: &ScimClient) -> (request: ScimRequest)
        requires
            self.wf(),
            !self@.done(),
        ensures
            request@ == client.request(
                "/"@ + self.resource(),
                seq![
                    ("startIndex"@, decimal(self@.items.len() + 1)),
                    ("count"@, decimal(PAGE_SIZE as nat)),
                ],
            ),
            request@.url == client.base() + "/"@ + self.resource(),
            request@.authorization == "Bearer "@ + client.token(),
            request@.query =~= seq![
                ("startIndex"@, decimal(self@.items.len() + 1)),
                ("count"@, decimal(100)),
            ],
    {
        let mut path = "/".to_owned();
        path.append(self.resource.as_str());
        let mut request = client.get(path.as_str());
        request.query.push(("startIndex".to_owned(), decimal_text(self.start_index as u64)));
        assert(request@.query =~= seq![("startIndex"@, decimal(self@.items.len() + 1))]);
        request.query.push(("count".to_owned(), decimal_text(PAGE_SIZE as u64)));
        assert(request@.query =~= seq![
            ("startIndex"@, decimal(self@.items.len() + 1)),
            ("count"@, decimal(PAGE_SIZE as nat)),
        ]);
        assert(client.base() + ("/"@ + self.resource()) =~= client.base() + "/"@ + self.resource());
        request
    }

    /// Takes the reply to the last request. The list is complete when it holds as
    /// many resources as the server says there are, or when a page is empty.
    pub fn accept(&mut self, page: ListResponse<T>)
        requires
            old(self).wf(),
            !old(self)@.done(),
        ensures
            final(self).wf(),
            final(self).resource() == old(self).resource(),
            final(self)@ == old(self)@.with_page(page),
            final(self)@.items == old(self)@.items + page.resources@,
            final(self)@.count == old(self)@.count + 1,
            final(self)@.complete <==> page.resources@.len() == 0 || old(self)@.items.len()
                + page.resources@.len() >= page.total_results,
    {
        let fetched: usize = page.resources.len();
        let total: usize = page.total_results;
        let mut resources = page.resources;
        self.all.append(&mut resources);
        self.fetched_pages = self.fetched_pages + 1;
        if self.all.len() >= total || fetched == 0 {
            self.complete = true;
        } else {
            self.start_index = self.start_index + fetched;
        }
    }

    /// The resources that were fetched.
    pub fn into_items(self) -> (items: Vec<T>)
        ensures
            items@ == self@.items,
    {
        self.all
    }
}

/// The resources of all pages, one after the other.
pub open spec fn all_resources<T>(pages: Seq<ListResponse<T>>) -> Seq<T>
    decreases pages.len(),
{
    if pages.len() == 0 {
        Seq::empty()
    } else {
        all_resources(pages.drop_last()) + pages.last().resources@
    }
}

/// What comes of a list that starts with nothing when the server replies with
/// `pages`.
pub open spec fn after_pages<T>(pages: Seq<ListResponse<T>>) -> PagesView<T>
    decreases pages.len(),
{
    if pages.len() == 0 {
        PagesView::nothing()
    } else {
        after_pages(pages.drop_last()).with_page(pages.last())
    }
}

/// Whatever the server replies, a list holds the resources of the pages in the
/// order in which they came, and it never asks for more than the limit of pages:
/// no reply is asked for once there is nothing more to ask for.
pub proof fn lemma_pagination_is_bounded<T>(pages: Seq<ListResponse<T>>)
    requires
        forall|k: int| 0 <= k < pages.len() ==> !after_pages(#[trigger] pages.take(k)).done(),
    ensures
        after_pages(pages).items == all_resources(pages),
        after_pages(pages).count == pages.len(),
        pages.len() <= MAX_PAGINATION_PAGES,
    decreases pages.len(),
{
    if pages.len() > 0 {
        let front = pages.drop_last();
        assert forall|k: int| 0 <= k < front.len() implies !after_pages(
            #[trigger] front.take(k),
        ).done() by {
            assert(front.take(k) =~= pages.take(k));
        }
        lemma_pagination_is_bounded(front);
        assert(pages.take(pages.len() - 1) =~= front);
    }
}

/// A list that is complete holds everything: its last page was empty, or the pages hold as
/// many resources as the last of them says there are; and as long as that is not so, there
/// is more to ask for, up to a thousand pages.
pub proof fn lemma_complete_list_holds_all<T>(pages: Seq<ListResponse<T>>)
    requires
        pages.len() > 0,
    ensures
        after_pages(pages).items.len() == resource_count(pages),
        after_pages(pages).complete <==> pages.last().resources@.len() == 0 || resource_count(pages)
            >= pages.last().total_results,
        after_pages(pages).done() <==> pages.last().resources@.len() == 0 || resource_count(pages)
            >= pages.last().total_results || pages.len() >= 1_000,
{
    lemma_items_are_all(pages);
    lemma_items_are_all(pages.drop_last());
}

/// How many resources the pages hold, one page after the other.
pub open spec fn resource_count<T>(pages: Seq<ListResponse<T>>) -> nat
    decreases pages.len(),
{
    if pages.len() == 0 {
        0
    } else {
        resource_count(pages.drop_last()) + pages.last().resources@.len()
    }
}

/// A list holds what its pages hold, one page after the other, and nothing else: one more
/// page adds its resources behind those that are there.
pub proof fn lemma_items_are_all<T>(pages: Seq<ListResponse<T>>)
    ensures
        pages.len() == 0 ==> after_pages(pages).items.len() == 0 && resource_count(pages) == 0
            && all_resources(pages).len() == 0,
        pages.len() > 0 ==> after_pages(pages).items == after_pages(pages.drop_last()).items
            + pages.last().resources@,
        pages.len() > 0 ==> all_resources(pages) == all_resources(pages.drop_last())
            + pages.last().resources@,
        pages.len() > 0 ==> resource_count(pages) == resource_count(pages.drop_last())
            + pages.last().resources@.len(),
        after_pages(pages).items.len() == resource_count(pages),
        after_pages(pages).count == pages.len(),
        forall|p: int, i: int|
            0 <= p < pages.len() && 0 <= i < pages[p].resources@.len() ==> after_pages(
                pages,
            ).items.contains(#[trigger] pages[p].resources@[i]),
    decreases pages.len(),
{
    if pages.len() > 0 {
        let front = pages.drop_last();
        lemma_items_are_all(front);
        let items = after_pages(pages).items;
        let before = after_pages(front).items;
        assert forall|p: int, i: int|
            0 <= p < pages.len() && 0 <= i < pages[p].resources@.len() implies items.contains(
            #[trigger] pages[p].resources@[i],
        ) by {
            let r = pages[p].resources@[i];
            if p < front.len() {
                assert(front[p].resources@[i] == r);
                let k = choose|k: int| 0 <= k < before.len() && before[k] == r;
                assert(items[k] == r);
            } else {
                assert(items[before.len() + i] == r);
            }
        }
    }
}

/// Escaping goes character by character: a backslash before a backslash and before a quote,
/// and every other character as it is.
pub proof fn lemma_escaped_by_character(a: Seq<char>, b: Seq<char>, c: char)
    ensures
        escaped(a + b) == escaped(a) + escaped(b),
        escaped(Seq::<char>::empty()).len() == 0,
        escaped(seq!['\\']) == seq!['\\', '\\'],
        escaped(seq!['"']) == seq!['\\', '"'],
        c != '\\' && c != '"' ==> escaped(seq![c]) == seq![c],
    decreases b.len(),
{
    let none = Seq::<char>::empty();
    assert(escaped(none) =~= none);
    assert(seq!['\\'].drop_last() =~= none);
    assert(seq!['"'].drop_last() =~= none);
    assert(seq![c].drop_last() =~= none);
    assert(escaped(seq!['\\']) =~= seq!['\\', '\\']);
    assert(escaped(seq!['"']) =~= seq!['\\', '"']);
    assert(c != '\\' && c != '"' ==> escaped(seq![c]) =~= seq![c]);
    if b.len() == 0 {
        assert(a + b =~= a);
        assert(escaped(a) + escaped(b) =~= escaped(a));
    } else {
        lemma_escaped_by_character(a, b.drop_last(), c);
        assert((a + b).drop_last() =~= a + b.drop_last());
        assert(escaped(a + b) =~= escaped(a) + escaped(b));
    }
}

/// A path segment is encoded byte by byte: a control, a byte beyond ASCII or one of
/// `` "#%/<>?[]^`{|} `` and the space as a percent sign and two hexadecimal digits in upper
/// case, and every other byte as it is.
pub proof fn lemma_segment_by_byte(a: Seq<u8>, b: Seq<u8>, byte: u8)
    ensures
        segment_bytes(a + b) == segment_bytes(a) + segment_bytes(b),
        segment_bytes(Seq::<u8>::empty()).len() == 0,
        ({
            let c = byte as char;
            let coded = segment_bytes(seq![byte]);
            if byte < 0x20 || byte >= 0x7f || c == ' ' || c == '"' || c == '#' || c == '%' || c == '/'
                || c == '<' || c == '>' || c == '?' || c == '[' || c == ']' || c == '^' || c == '`'
                || c == '{' || c == '|' || c == '}' {
                &&& coded.len() == 3
                &&& coded[0] == '%'
                &&& coded[1] as int == if byte / 16 < 10 {
                    '0' as int + byte / 16
                } else {
                    'A' as int + byte / 16 - 10
                }
                &&& coded[2] as int == if byte % 16 < 10 {
                    '0' as int + byte % 16
                } else {
                    'A' as int + byte % 16 - 10
                }
            } else {
                coded == seq![c]
            }
        }),
    decreases b.len(),
{
    let none = Seq::<u8>::empty();
    assert(segment_bytes(none).len() == 0);
    assert(seq![byte].drop_last() =~= none);
    assert(segment_bytes(seq![byte]) =~= segment_byte(byte));
    if b.len() == 0 {
        assert(a + b =~= a);
        assert(segment_bytes(a) + segment_bytes(b) =~= segment_bytes(a));
    } else {
        lemma_segment_by_byte(a, b.drop_last(), byte);
        assert((a + b).drop_last() =~= a + b.drop_last());
        assert(segment_bytes(a + b) =~= segment_bytes(a) + segment_bytes(b));
    }
}

/// A request goes to the path below the base URL, with the query as it is, and with the
/// bearer token in its header; its view loses nothing of it.
pub proof fn lemma_request(
    client: &ScimClient,
    path: Seq<char>,
    query: Seq<(Seq<char>, Seq<char>)>,
    sent: ScimRequest,
)
    requires
        sent@ == client.request(path, query),
    ensures
        sent.url@ == client.base() + path,
        sent.authorization@ == "Bearer "@ + client.token(),
        sent.query@.len() == query.len(),
        forall|i: int|
            0 <= i < query.len() ==> (#[trigger] sent.query@[i]).0@ == query[i].0
                && sent.query@[i].1@ == query[i].1,
{
    assert forall|i: int| 0 <= i < query.len() implies (#[trigger] sent.query@[i]).0@ == query[i].0
        && sent.query@[i].1@ == query[i].1 by {
        assert(sent@.query[i] == query[i]);
    }
}

/// How failures and errors are worded.
pub proof fn lemma_scim_wording(e: ScimError, failure: FetchFailure)
    ensures
        e matches ScimError::Http(reason) ==> e.text() == "HTTP request failed: "@ + reason@,
        e matches ScimError::Json(reason) ==> e.text() == "JSON deserialization failed: "@ + reason@,
        e matches ScimError::UserNotFound(name) ==> e.text() == "user not found: "@ + name@,
        e matches ScimError::GroupNotFound(name) ==> e.text() == "group not found: "@ + name@,
        failure matches FetchFailure::Status(_, reason) ==> failure.reported()
            == "HTTP request failed: "@ + reason@,
        failure matches FetchFailure::Transport(reason) ==> failure.reported()
            == "HTTP request failed: "@ + reason@,
{
}

} // verus!
