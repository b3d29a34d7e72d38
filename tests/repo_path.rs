use repo_racoon::repo_path::RepoPath;

#[test]
fn test_correct_repo_path() {
    let rp = RepoPath {
        organization: String::from("foo"),
        repository: String::from("bar"),
        path: String::from("foo/bar"),
    };
    assert_eq!(RepoPath::parse("foo/bar").unwrap(), rp);
}

#[test]
fn test_incorrect_repo_path() {
    assert_eq!(
        RepoPath::parse("foo"),
        Err(String::from("Unknown repo path format: foo"))
    );
    assert_eq!(
        RepoPath::parse(""),
        Err(String::from("Unknown repo path format: "))
    );
}

#[test]
fn test_many_slash_repo_path() {
    assert_eq!(
        RepoPath::parse("foo/bar/baz"),
        Err(String::from("Unknown repo path format: foo/bar/baz"))
    );
}

#[test]
fn test_short_repo_paths() {
    assert_eq!(RepoPath::parse("/"), Err(String::from("Incorrect repo: /")));
    assert_eq!(
        RepoPath::parse("foo/"),
        Err(String::from("Incorrect repo: foo/"))
    );
    assert_eq!(
        RepoPath::parse("/bar"),
        Err(String::from("Incorrect repo: /bar"))
    );
}

#[test]
fn parse_keeps_non_ascii_segments() {
    let rp = RepoPath::parse("żółw/ruby-ąę").unwrap();
    assert_eq!(rp.organization, "żółw");
    assert_eq!(rp.repository, "ruby-ąę");
    assert_eq!(rp.path, "żółw/ruby-ąę");
}

#[test]
fn parse_refuses_two_slashes_with_empty_segments() {
    assert_eq!(
        RepoPath::parse("//"),
        Err(String::from("Unknown repo path format: //"))
    );
}

#[test]
fn repo_paths_keeps_valid_and_reports_others() {
    let input = vec![
        "a/b".to_string(),
        "nope".to_string(),
        "c/".to_string(),
        "d/e".to_string(),
    ];
    let (valid, refused) = repo_racoon::repo_path::repo_paths(&input);
    let names: Vec<&str> = valid.iter().map(|p| p.path.as_str()).collect();
    assert_eq!(names, vec!["a/b", "d/e"]);
    assert_eq!(
        refused,
        vec!["Unknown repo path format: nope".to_string(), "Incorrect repo: c/".to_string()]
    );
}
