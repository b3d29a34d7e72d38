use repo_racoon::github_repo::{GithubRepo, Response};
use repo_racoon::github_repos::{next_page_path, OrgListing};
use repo_racoon::json::JsonValue;
use repo_racoon::repo_path::RepoPath;
use repo_racoon::text::{decimal_string, remove_char, trim_text};

fn s(x: &str) -> JsonValue {
    JsonValue::Str(x.to_string())
}

fn obj(fields: Vec<(&str, JsonValue)>) -> JsonValue {
    JsonValue::Object(fields.into_iter().map(|(k, v)| (k.to_string(), v)).collect())
}

fn ok(body: JsonValue) -> Response {
    Response { status: 200, body: Some(body) }
}

fn repo() -> GithubRepo {
    GithubRepo::from_repo_path(RepoPath::parse("foo/bar").unwrap(), &ok(obj(vec![]))).unwrap()
}

#[test]
fn probe_failure_refuses_repository() {
    let r = GithubRepo::from_repo_path(
        RepoPath::parse("foo/bar").unwrap(),
        &Response { status: 404, body: None },
    );
    assert_eq!(r.err().unwrap().description(), "Non-ok response: 404");
}

#[test]
fn files_lists_string_paths_only() {
    let listing = ok(JsonValue::Array(vec![
        obj(vec![("path", s("lib/a.rb"))]),
        obj(vec![("path", JsonValue::Number(Some(3)))]),
        obj(vec![("name", s("x"))]),
        obj(vec![("path", s("README.md"))]),
    ]));
    assert_eq!(repo().files(&listing).unwrap(), vec!["lib/a.rb", "README.md"]);
}

#[test]
fn files_refuses_non_object_entries() {
    let listing = ok(JsonValue::Array(vec![s("lib/a.rb")]));
    assert_eq!(repo().files(&listing).err().unwrap().description(), "Empty or incorrect json");
}

#[test]
fn search_without_items_is_an_error() {
    let results = ok(obj(vec![("total_count", JsonValue::Number(Some(0)))]));
    assert_eq!(
        repo().search_file(&results).err().unwrap().description(),
        "No search result field `items`"
    );
}

#[test]
fn search_skips_items_without_path() {
    let results = ok(obj(vec![(
        "items",
        JsonValue::Array(vec![obj(vec![("name", s("Gemfile"))]), obj(vec![("path", s("Gemfile"))])]),
    )]));
    assert_eq!(repo().search_file(&results).unwrap(), vec!["Gemfile"]);
}

#[test]
fn non_ok_status_names_the_status() {
    let r = repo().search_file(&Response { status: 403, body: Some(obj(vec![])) });
    assert_eq!(r.err().unwrap().description(), "Non-ok response: 403");
}

#[test]
fn missing_body_is_incorrect_json() {
    let r = repo().search_file(&Response { status: 200, body: None });
    assert_eq!(r.err().unwrap().description(), "Empty or incorrect json");
}

#[test]
fn languages_reads_counts_in_order() {
    let breakdown = ok(obj(vec![
        ("Ruby", JsonValue::Number(Some(1200))),
        ("Shell", JsonValue::Number(Some(30))),
    ]));
    assert_eq!(
        repo().languages(&breakdown).unwrap(),
        vec![("Ruby".to_string(), 1200), ("Shell".to_string(), 30)]
    );
    let bad = ok(obj(vec![("Ruby", s("many"))]));
    assert_eq!(repo().languages(&bad).err().unwrap().description(), "Empty or incorrect json");
}

#[test]
fn file_contents_decodes_base64_with_line_breaks() {
    let file = ok(obj(vec![("content", s("Mi42\nLjEK\n"))]));
    assert_eq!(repo().file_contents(&file).unwrap(), "2.6.1\n");
}

#[test]
fn file_contents_errors() {
    let missing = ok(obj(vec![("path", s("x"))]));
    assert_eq!(
        repo().file_contents(&missing).err().unwrap().description(),
        "File contents call response is missing the `content` field"
    );
    let wrong = ok(obj(vec![("content", JsonValue::Bool(true))]));
    assert_eq!(
        repo().file_contents(&wrong).err().unwrap().description(),
        "Unsupported `content` field type"
    );
    let undecodable = ok(obj(vec![("content", s("!!!!"))]));
    assert!(repo().file_contents(&undecodable).is_err());
    // "/w==" decodes to the single byte 0xFF, which is no UTF-8.
    let not_utf8 = ok(obj(vec![("content", s("/w=="))]));
    assert!(repo().file_contents(&not_utf8).is_err());
}

#[test]
fn next_page_path_reads_link_header() {
    let link = "<https://api.github.com/organizations/1/repos?page=2>; rel=\"next\", <https://api.github.com/organizations/1/repos?page=5>; rel=\"last\"";
    assert_eq!(next_page_path(link).unwrap(), "organizations/1/repos?page=2");
    let last = "<https://api.github.com/organizations/1/repos?page=1>; rel=\"prev\", <https://api.github.com/organizations/1/repos?page=1>; rel=\"first\"";
    assert_eq!(next_page_path(last), None);
    let second = "<https://api.github.com/x?page=1>; rel=\"prev\", <https://api.github.com/x?page=3>; rel=\"next\"";
    assert_eq!(next_page_path(second).unwrap(), "x?page=3");
}

fn page(names: &[&str]) -> Response {
    ok(JsonValue::Array(names.iter().map(|n| obj(vec![("full_name", s(n))])).collect()))
}

#[test]
fn pagination_stops_after_last_page() {
    let pages = vec![page(&["o/a", "o/b"]), page(&["o/c"]), page(&["o/d", "o/e"])];
    let links = vec![
        Some("<https://api.github.com/orgs/o/repos?page=2>; rel=\"next\"".to_string()),
        Some("<https://api.github.com/orgs/o/repos?page=3>; rel=\"next\"".to_string()),
        None,
    ];
    let mut listing = OrgListing::new("o");
    let mut endpoints = Vec::new();
    let mut fetches = 0;
    while let Some(endpoint) = listing.next_endpoint() {
        endpoints.push(endpoint);
        let link = links[fetches].as_deref();
        listing.receive(&pages[fetches], link).unwrap();
        fetches += 1;
    }
    assert_eq!(fetches, 3);
    assert_eq!(endpoints, vec!["orgs/o/repos", "orgs/o/repos?page=2", "orgs/o/repos?page=3"]);
    assert_eq!(listing.repos, vec!["o/a", "o/b", "o/c", "o/d", "o/e"]);
}

#[test]
fn pagination_failure_ends_listing() {
    let mut listing = OrgListing::new("o");
    let r = listing.receive(&Response { status: 401, body: None }, None);
    assert_eq!(r.err().unwrap().description(), "Non-ok response: 401");
    assert_eq!(listing.next_endpoint(), None);
    let mut other = OrgListing::new("o");
    let r = other.receive(&ok(obj(vec![])), None);
    assert_eq!(r.err().unwrap().description(), "Response body issue: None");
}

#[test]
fn text_helpers() {
    assert_eq!(decimal_string(0), "0");
    assert_eq!(decimal_string(404), "404");
    assert_eq!(remove_char("a\nb\n", '\n'), "ab");
    assert_eq!(trim_text("  x y \t"), "x y");
}

#[test]
fn endpoints_are_percent_encoded() {
    let r = repo();
    assert_eq!(r.metadata_endpoint(), "repos/foo/bar");
    assert_eq!(r.languages_endpoint(), "repos/foo/bar/languages");
    assert_eq!(r.contents_endpoint("lib/a b.rb"), "repos/foo/bar/contents/lib/a%20b.rb");
    assert_eq!(
        r.search_endpoint("*.gemspec"),
        "search/code?q=%2A.gemspec+in:path+repo:foo%2Fbar"
    );
    assert_eq!(r.search_endpoint(".ruby-version"), "search/code?q=.ruby-version+in:path+repo:foo%2Fbar");
}

#[test]
fn percent_encoding_of_utf8() {
    assert_eq!(repo_racoon::text::percent_encode("ż/x", false), "%C5%BC%2Fx");
    assert_eq!(repo_racoon::text::percent_encode("ż/x", true), "%C5%BC/x");
}
