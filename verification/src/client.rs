//! The requests that a Vtiger client sends.
//!
//! A [`Vtiger`] holds the instance URL and the credentials; each API method
//! gives the HTTP request that performs it: its method, its URL (the REST
//! endpoint path and the operation's path under the instance URL, with a
//! slash between them when the instance URL does not end in one), its
//! query parameters, the basic-auth credentials and the JSON headers.

use crate::json::{fields_json, fields_object};
use crate::text::push_char;
use vstd::prelude::*;

verus! {

/// The HTTP method of a request.
#[derive(Debug, PartialEq, Eq, Structural, Clone, Copy)]
pub enum HttpMethod {
    /// `GET`
    Get,
    /// `POST`
    Post,
}

/// One request to the Vtiger REST API.
#[derive(Debug)]
pub struct ApiRequest {
    /// The HTTP method
    pub method: HttpMethod,
    /// The full URL, without query parameters
    pub url: String,
    /// The query parameters, in order; none are sent when it is empty
    pub query: Vec<(String, String)>,
    /// The basic-auth user name
    pub username: String,
    /// The basic-auth password: the user's access key
    pub access_key: String,
    /// The request headers, in order
    pub headers: Vec<(String, String)>,
}

/// The base endpoint path of the Vtiger REST API, appended to the instance URL.
pub open spec fn link_endpoint() -> Seq<char> {
    "restapi/v1/vtiger/default"@
}

/// The instance URL ending in a slash: as given when it ends in one, else
/// with one added.
pub open spec fn with_trailing_slash(base: Seq<char>) -> Seq<char> {
    if base.len() > 0 && base.last() == '/' {
        base
    } else {
        base.push('/')
    }
}

/// The URL of an operation: the REST endpoint path and the operation path,
/// as a path under the instance URL.
pub open spec fn endpoint_url(base: Seq<char>, endpoint: Seq<char>) -> Seq<char> {
    with_trailing_slash(base) + link_endpoint() + endpoint
}

/// The headers that every request carries.
pub open spec fn json_headers() -> Seq<(Seq<char>, Seq<char>)> {
    seq![("Content-Type"@, "application/json"@), ("Accept"@, "application/json"@)]
}

/// The characters of each name and value of a list of string pairs.
pub open spec fn string_pairs(s: Seq<(String, String)>) -> Seq<(Seq<char>, Seq<char>)> {
    s.map_values(|p: (String, String)| (p.0@, p.1@))
}

/// The characters of each name and value of a list of slice pairs.
pub open spec fn str_pairs(s: Seq<(&str, &str)>) -> Seq<(Seq<char>, Seq<char>)> {
    s.map_values(|p: (&str, &str)| (p.0@, p.1@))
}

impl ApiRequest {
    /// This request is the `method` request on `endpoint` of the instance
    /// that `client` names, with query parameters `query`.
    pub open spec fn is_call(
        self,
        client: Vtiger,
        method: HttpMethod,
        endpoint: Seq<char>,
        query: Seq<(Seq<char>, Seq<char>)>,
    ) -> bool {
        &&& self.method == method
        &&& self.url@ == endpoint_url(client.url_view(), endpoint)
        &&& string_pairs(self.query@) == query
        &&& self.username@ == client.username_view()
        &&& self.access_key@ == client.access_key_view()
        &&& string_pairs(self.headers@) == json_headers()
    }
}

/// Client configuration for a Vtiger instance: its URL and the credentials
/// that authenticate each request (user name and access key, found in
/// My Preferences > Security).
#[derive(Debug)]
pub struct Vtiger {
    url: String,
    username: String,
    access_key: String,
}

fn owned_pairs(pairs: &[(&str, &str)]) -> (out: Vec<(String, String)>)
    ensures
        string_pairs(out@) == str_pairs(pairs@),
{
    let mut out: Vec<(String, String)> = Vec::new();
    let mut i: usize = 0;
    while i < pairs.len()
        invariant
            i <= pairs@.len(),
            string_pairs(out@) == str_pairs(pairs@).take(i as int),
        decreases pairs@.len() - i,
    {
        let (k, v) = pairs[i];
        let ghost before = out@;
        let key = k.to_owned();
        let value = v.to_owned();
        assert((key@, value@) == str_pairs(pairs@)[i as int]);
        out.push((key, value));
        assert(string_pairs(out@) =~= string_pairs(before).push(str_pairs(pairs@)[i as int]));
        assert(string_pairs(out@) =~= str_pairs(pairs@).take(i + 1));
        i = i + 1;
    }
    assert(str_pairs(pairs@).take(pairs@.len() as int) =~= str_pairs(pairs@));
    out
}

fn ends_with_slash(s: &str) -> (b: bool)
    ensures
        b == (s@.len() > 0 && s@.last() == '/'),
{
    let ghost whole = s@;
    let mut last_slash = false;
    for c in it: s.chars()
        invariant
            it.seq() == whole,
            last_slash == (it.index() > 0 && whole[it.index() - 1] == '/'),
    {
        last_slash = c == '/';
    }
    last_slash
}

fn json_header_list() -> (h: Vec<(String, String)>)
    ensures
        string_pairs(h@) == json_headers(),
{
    let mut h: Vec<(String, String)> = Vec::new();
    h.push(("Content-Type".to_owned(), "application/json".to_owned()));
    h.push(("Accept".to_owned(), "application/json".to_owned()));
    assert(string_pairs(h@) =~= json_headers());
    h
}

impl Vtiger {
    /// The instance URL.
    pub closed spec fn url_view(self) -> Seq<char> {
        self.url@
    }

    /// The user name.
    pub closed spec fn username_view(self) -> Seq<char> {
        self.username@
    }

    /// The access key.
    pub closed spec fn access_key_view(self) -> Seq<char> {
        self.access_key@
    }

    /// Creates a client for the instance at `url` (for example
    /// `https://your-instance.vtiger.com/`), authenticating as `username`
    /// with `access_key`.
    pub fn new(url: &str, username: &str, access_key: &str) -> (v: Vtiger)
        ensures
            v.url_view() == url@,
            v.username_view() == username@,
            v.access_key_view() == access_key@,
    {
        Vtiger { url: url.to_owned(), username: username.to_owned(), access_key: access_key.to_owned() }
    }

    fn url_for(&self, endpoint: &str) -> (u: String)
        ensures
            u@ == endpoint_url(self.url_view(), endpoint@),
    {
        let mut u = self.url.clone();
        if !ends_with_slash(self.url.as_str()) {
            push_char(&mut u, '/');
        }
        u.append("restapi/v1/vtiger/default");
        u.append(endpoint);
        u
    }

    fn request(&self, method: HttpMethod, endpoint: &str, query: Vec<(String, String)>) -> (r:
        ApiRequest)
        ensures
            r.is_call(*self, method, endpoint@, string_pairs(query@)),
    {
        ApiRequest {
            method,
            url: self.url_for(endpoint),
            query,
            username: self.username.clone(),
            access_key: self.access_key.clone(),
            headers: json_header_list(),
        }
    }

    /// The authenticated GET request on `endpoint` with query parameters `query`.
    fn get(&self, endpoint: &str, query: &[(&str, &str)]) -> (r: ApiRequest)
        ensures
            r.is_call(*self, HttpMethod::Get, endpoint@, str_pairs(query@)),
    {
        self.request(HttpMethod::Get, endpoint, owned_pairs(query))
    }

    /// The authenticated POST request on `endpoint` with query parameters `query`.
    fn post(&self, endpoint: &str, query: &[(&str, &str)]) -> (r: ApiRequest)
        ensures
            r.is_call(*self, HttpMethod::Post, endpoint@, str_pairs(query@)),
    {
        self.request(HttpMethod::Post, endpoint, owned_pairs(query))
    }

    /// The request for information about the authenticated user (`/me`).
    pub fn me(&self) -> (r: ApiRequest)
        ensures
            r.is_call(*self, HttpMethod::Get, "/me"@, seq![]),
    {
        let q: [(&str, &str); 0] = [];
        let r = self.get("/me", &q);
        assert(str_pairs(q@) =~= seq![]);
        r
    }

    /// The request that lists the available modules (`/listtypes`), with
    /// optional filter parameters such as `("fieldTypeList", "picklist")`.
    pub fn list_types(&self, query: &[(&str, &str)]) -> (r: ApiRequest)
        ensures
            r.is_call(*self, HttpMethod::Get, "/listtypes"@, str_pairs(query@)),
    {
        self.get("/listtypes", query)
    }

    /// The request that lists the fields of a module (`/describe`).
    pub fn describe(&self, module_name: &str) -> (r: ApiRequest)
        ensures
            r.is_call(*self, HttpMethod::Get, "/describe"@, seq![("elementType"@, module_name@)]),
    {
        let q = [("elementType", module_name)];
        let r = self.get("/describe", &q);
        assert(str_pairs(q@) =~= seq![("elementType"@, module_name@)]);
        r
    }

    /// The request that retrieves one record by its id, such as `12x34`
    /// (`/retrieve`).
    pub fn retrieve(&self, record_id: &str) -> (r: ApiRequest)
        ensures
            r.is_call(*self, HttpMethod::Get, "/retrieve"@, seq![("id"@, record_id@)]),
    {
        let q = [("id", record_id)];
        let r = self.get("/retrieve", &q);
        assert(str_pairs(q@) =~= seq![("id"@, record_id@)]);
        r
    }

    /// The request that runs a query in Vtiger's SQL-like syntax (`/query`).
    pub fn query(&self, query: &str) -> (r: ApiRequest)
        ensures
            r.is_call(*self, HttpMethod::Get, "/query"@, seq![("query"@, query@)]),
    {
        let q = [("query", query)];
        let r = self.get("/query", &q);
        assert(str_pairs(q@) =~= seq![("query"@, query@)]);
        r
    }

    /// The request that creates a record of `module_name` with the given
    /// fields (`/create`); the fields travel as one JSON object.
    pub fn create(&self, module_name: &str, fields: &[(&str, &str)]) -> (r: ApiRequest)
        ensures
            r.is_call(
                *self,
                HttpMethod::Post,
                "/create"@,
                seq![("elementType"@, module_name@), ("element"@, fields_object(fields@))],
            ),
    {
        let element = fields_json(fields);
        let q = [("elementType", module_name), ("element", element.as_str())];
        let r = self.post("/create", &q);
        assert(str_pairs(q@) =~= seq![("elementType"@, module_name@), ("element"@, fields_object(fields@))]);
        r
    }

    /// The request that updates a record (`/update`): the fields carry the
    /// record's `id` and every field that the module requires.
    pub fn update(&self, fields: &Vec<(&str, &str)>) -> (r: ApiRequest)
        ensures
            r.is_call(*self, HttpMethod::Post, "/update"@, seq![("element"@, fields_object(fields@))]),
    {
        let element = fields_json(fields.as_slice());
        let q = [("element", element.as_str())];
        let r = self.post("/update", &q);
        assert(str_pairs(q@) =~= seq![("element"@, fields_object(fields@))]);
        r
    }

    /// The request that revises a record (`/revise`): the fields carry the
    /// record's `id` and the fields to change.
    pub fn revise(&self, fields: &Vec<(&str, &str)>) -> (r: ApiRequest)
        ensures
            r.is_call(*self, HttpMethod::Post, "/revise"@, seq![("element"@, fields_object(fields@))]),
    {
        let element = fields_json(fields.as_slice());
        let q = [("element", element.as_str())];
        let r = self.post("/revise", &q);
        assert(str_pairs(q@) =~= seq![("element"@, fields_object(fields@))]);
        r
    }
}

} // verus!
