use repo_racoon::app_error::AppError;
use repo_racoon::github_repo::{GithubRepo, Response};
use repo_racoon::json::JsonValue;
use repo_racoon::repo_path::RepoPath;
use repo_racoon::recognizer::ruby::{gem_name, gemfile_ruby_version, recognize as ruby_recognize, RubyScan};
use repo_racoon::recognizer::{recognize, Property, RepoProperties, Request};
use repo_racoon::repos_info::ReposInfo;

/// A repository held in memory: its files and their texts.
struct FakeRepo {
    files: Vec<(&'static str, &'static str)>,
    failing: bool,
}

impl FakeRepo {
    fn search(&self, pattern: &str) -> Result<Vec<String>, AppError> {
        if self.failing {
            return Err(AppError::new("Non-ok response: 500"));
        }
        let found = self
            .files
            .iter()
            .map(|(p, _)| p.to_string())
            .filter(|p| {
                let name = p.rsplit('/').next().unwrap();
                match pattern.strip_prefix('*') {
                    Some(ext) => name.ends_with(ext),
                    None => name.starts_with(pattern),
                }
            })
            .collect();
        Ok(found)
    }

    fn contents(&self, path: &str) -> Result<String, AppError> {
        if self.failing {
            return Err(AppError::new("Non-ok response: 500"));
        }
        match self.files.iter().find(|(p, _)| *p == path) {
            Some((_, t)) => Ok(t.to_string()),
            None => Err(AppError::new("Non-ok response: 404")),
        }
    }

    fn run(&self, mut scan: RubyScan, read: &mut Vec<String>) -> RubyScan {
        loop {
            match scan.request() {
                Request::Search(p) => scan.on_search(self.search(&p)),
                Request::Contents(f) => {
                    read.push(f.clone());
                    scan.on_contents(self.contents(&f))
                }
                Request::Done => return scan,
            }
        }
    }
}

fn fields(p: &Property) -> (String, String, Option<String>, Option<String>) {
    (p.name.clone(), p.source.clone(), p.version.clone(), p.kind.clone())
}

#[test]
fn ruby_version_file_gives_one_version() {
    let repo = FakeRepo { files: vec![(".ruby-version", "2.6.1\n")], failing: false };
    let mut read = Vec::new();
    let scan = repo.run(ruby_recognize(10), &mut read);
    assert_eq!(scan.languages.len(), 1);
    assert_eq!(
        fields(&scan.languages[0]),
        ("Ruby".to_string(), ".ruby-version".to_string(), Some("2.6.1".to_string()), None)
    );
    assert!(scan.tools.is_empty());
}

#[test]
fn gemfile_fallback_skips_lock_file() {
    let repo = FakeRepo {
        files: vec![
            ("Gemfile", "source \"https://rubygems.org\"\nruby \"2.3.0.preview-2\"\ngem \"rails\"\n"),
            ("Gemfile.lock", "ruby 9.9.9\n"),
        ],
        failing: false,
    };
    let mut read = Vec::new();
    let scan = repo.run(ruby_recognize(10), &mut read);
    assert_eq!(read, vec!["Gemfile"]);
    assert_eq!(scan.languages.len(), 1);
    assert_eq!(
        fields(&scan.languages[0]),
        ("Ruby".to_string(), "Gemfile".to_string(), Some("2.3.0.preview-2".to_string()), None)
    );
}

#[test]
fn gemfile_first_ruby_line_wins() {
    let text = "gem \"x\", \"1.2.3\"\r\nruby '2.6.1'\r\nruby '2.7.0'\n";
    assert_eq!(gemfile_ruby_version(text).unwrap(), Some("2.6.1".to_string()));
    assert_eq!(gemfile_ruby_version("ruby File.read('.ruby-version')\n").unwrap(), None);
    assert_eq!(gemfile_ruby_version("").unwrap(), None);
}

#[test]
fn gemspec_gives_gem() {
    let repo = FakeRepo { files: vec![("lib/foo.gemspec", "")], failing: false };
    let mut read = Vec::new();
    let scan = repo.run(ruby_recognize(10), &mut read);
    assert!(scan.languages.is_empty());
    assert_eq!(scan.tools.len(), 1);
    assert_eq!(
        fields(&scan.tools[0]),
        ("foo".to_string(), "lib/foo.gemspec".to_string(), None, Some("Ruby Gem".to_string()))
    );
}

#[test]
fn gem_names() {
    assert_eq!(gem_name("lib/foo.gemspec"), "foo");
    assert_eq!(gem_name("a/b/bar.baz.gemspec"), "bar");
    assert_eq!(gem_name("plain"), "plain");
}

#[test]
fn failing_version_read_leaves_languages_empty() {
    let repo = FakeRepo { files: vec![], failing: true };
    let mut read = Vec::new();
    let scan = repo.run(ruby_recognize(10), &mut read);
    assert!(scan.languages.is_empty());
    assert!(scan.tools.is_empty());
}

#[test]
fn registry_starts_ruby_only() {
    let langs = vec![("JavaScript".to_string(), 5), ("Ruby".to_string(), 70), ("Shell".to_string(), 1)];
    let scans = recognize(&langs);
    assert_eq!(scans.len(), 1);
    assert_eq!(scans[0].bytes, 70);
}

fn scan_repo(repo: &FakeRepo) -> RepoProperties {
    let mut props = RepoProperties::new();
    for scan in recognize(&vec![("Ruby".to_string(), 1)]) {
        let mut read = Vec::new();
        props.add(repo.run(scan, &mut read));
    }
    props
}

#[test]
fn aggregate_keeps_one_entry_per_repository() {
    let repo = FakeRepo { files: vec![(".ruby-version", "3.1.0")], failing: false };
    let mut info = ReposInfo::new();
    for i in 0..20 {
        info.insert(format!("org/r{}", i), scan_repo(&repo));
    }
    info.insert("org/r3".to_string(), scan_repo(&repo));
    assert_eq!(info.len(), 20);
    assert_eq!(info.get("org/r7").unwrap().languages[0].version, Some("3.1.0".to_string()));
}

#[test]
fn failed_repository_is_absent() {
    let good = FakeRepo { files: vec![(".ruby-version", "2.6.1\n")], failing: false };
    let mut info = ReposInfo::new();
    for (path, status) in [("o/a", 200), ("o/b", 500), ("o/c", 200)] {
        let probe = Response { status, body: Some(JsonValue::Object(vec![])) };
        if let Ok(repo) = GithubRepo::from_repo_path(RepoPath::parse(path).unwrap(), &probe) {
            info.insert(repo.path.path.clone(), scan_repo(&good));
        }
    }
    assert_eq!(info.len(), 2);
    assert!(info.get("o/b").is_none());
    assert_eq!(info.get("o/a").unwrap().languages.len(), 1);
    assert_eq!(info.get("o/c").unwrap().languages.len(), 1);
}

#[test]
fn insertion_order_does_not_change_report() {
    let good = FakeRepo { files: vec![(".ruby-version", "2.6.1\n")], failing: false };
    let mut one = ReposInfo::new();
    let mut two = ReposInfo::new();
    for p in ["o/a", "o/b", "o/c"] {
        one.insert(p.to_string(), scan_repo(&good));
    }
    for p in ["o/c", "o/a", "o/b"] {
        two.insert(p.to_string(), scan_repo(&good));
    }
    for p in ["o/a", "o/b", "o/c"] {
        assert_eq!(
            one.get(p).unwrap().languages[0].version,
            two.get(p).unwrap().languages[0].version
        );
    }
    assert_eq!(one.len(), two.len());
}

#[test]
fn gemfile_version_suffixes() {
    assert_eq!(gemfile_ruby_version("ruby \"2.7.0-p1\"").unwrap(), Some("2.7.0-p1".to_string()));
    assert_eq!(gemfile_ruby_version("ruby '3.0.1'.").unwrap(), Some("3.0.1".to_string()));
}
