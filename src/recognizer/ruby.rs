//! Detection of Ruby versions and gems.

use vstd::prelude::*;
use crate::app_error::AppError;
use crate::json::texts;
use crate::recognizer::{Property, Request};
use crate::text::{
    ends_with, find_char_from, lemma_next_index_of, next_index_of, occurs_at, starts_with,
    trim_end_len, trimmed_end,
};

verus! {

/// Ruby versions as they stand in a Gemfile: three numbers joined by dots, then
/// a suffix of lowercase letters, digits and hyphens, whose parts may be
/// dot-separated: `2.6.1`, `2.3.0.preview-2`.
pub const VERSION_PATTERN: &'static str = "\\d+\\.\\d+\\.\\d+(?:\\.?[a-z0-9\\-])*";

/// Whether a pattern compiles as a regular expression.
pub uninterp spec fn regex_compiles(pattern: Seq<char>) -> bool;

/// The text of the leftmost match of a regular expression, where it compiles and matches.
pub uninterp spec fn regex_first_match(pattern: Seq<char>, haystack: Seq<char>) -> Option<Seq<char>>;

/// Relies on `regex::Regex::new`, whose success depends on the pattern alone,
/// and on `regex::Regex::find`: the leftmost-first match depends on the pattern
/// and the haystack alone, and is a piece of the haystack.
#[verifier::external_body]
fn first_match(pattern: &str, haystack: &str) -> (r: Result<Option<String>, String>)
    ensures
        r is Ok <==> regex_compiles(pattern@),
        r matches Ok(Some(m)) ==> regex_first_match(pattern@, haystack@) == Some(m@) && exists|
            i: int,
        | occurs_at(haystack@, m@, i),
        r matches Ok(None) ==> regex_first_match(pattern@, haystack@) is None,
{
    match regex::Regex::new(pattern) {
        Ok(re) => Ok(re.find(haystack).map(|m| m.as_str().to_string())),
        Err(e) => Err(e.to_string()),
    }
}

/// The line of `s` from `start` to the line break at `end`, without the break;
/// a carriage return before a line feed belongs to the break.
pub open spec fn line_at(s: Seq<char>, start: int, end: int) -> Seq<char> {
    if end < s.len() && end > start && s[end - 1] == '\r' {
        s.subrange(start, end - 1)
    } else {
        s.subrange(start, end)
    }
}

/// The Ruby version that the first `ruby` line of `s` from `start` on names, if one does.
pub open spec fn ruby_version_from(s: Seq<char>, start: int) -> Option<Seq<char>>
    decreases s.len() + 1 - start,
    via ruby_version_from_decreases
{
    if start < 0 || start >= s.len() {
        None
    } else {
        let e = next_index_of(s, '\n', start);
        let line = line_at(s, start, e);
        let found = if line.len() >= 4 && line.take(4) == "ruby"@ {
            regex_first_match(VERSION_PATTERN@, line)
        } else {
            None
        };
        if found is Some {
            found
        } else {
            ruby_version_from(s, e + 1)
        }
    }
}

#[via_fn]
proof fn ruby_version_from_decreases(s: Seq<char>, start: int) {
    if 0 <= start < s.len() {
        lemma_next_index_of(s, '\n', start);
    }
}

pub open spec fn opt_text(o: Option<String>) -> Option<Seq<char>> {
    match o {
        Some(s) => Some(s@),
        None => None,
    }
}

/// The Ruby version that a Gemfile declares: the version in its first line that
/// begins with `ruby` and holds one.
pub fn gemfile_ruby_version(contents: &str) -> (r: Result<Option<String>, AppError>)
    ensures
        regex_compiles(VERSION_PATTERN@) ==> r is Ok,
        r matches Ok(v) ==> opt_text(v) == ruby_version_from(contents@, 0),
{
    let n = contents.unicode_len();
    let mut start: usize = 0;
    while start < n
        invariant
            n == contents@.len(),
            start <= n,
            ruby_version_from(contents@, 0) == ruby_version_from(contents@, start as int),
        decreases n - start,
    {
        let e = find_char_from(contents, '\n', start);
        proof {
            lemma_next_index_of(contents@, '\n', start as int);
        }
        let end = if e < n && e > start && contents.get_char(e - 1) == '\r' {
            e - 1
        } else {
            e
        };
        let line = contents.substring_char(start, end);
        assert(line@ == line_at(contents@, start as int, e as int));
        proof {
            reveal_strlit("ruby");
        }
        if starts_with(line, "ruby") {
            match first_match(VERSION_PATTERN, line) {
                Err(msg) => return Err(AppError::new(msg.as_str())),
                Ok(Some(m)) => {
                    assert(line@.take(4) == "ruby"@);
                    assert(ruby_version_from(contents@, start as int) == Some(m@));
                    return Ok(Some(m));
                },
                Ok(None) => {},
            }
        }
        assert(ruby_version_from(contents@, start as int) == ruby_version_from(contents@, e + 1));
        if e >= n {
            return Ok(None);
        }
        start = e + 1;
    }
    Ok(None)
}

/// The Ruby version fact that a `.ruby-version` file at `file` with `contents` gives.
pub fn version_property(file: String, contents: &str) -> (r: Property)
    ensures
        r.name@ == "Ruby"@,
        r.version == Some(r.version->0) && r.version->0@ == trimmed_end(contents@),
        r.source@ == file@,
        r.kind is None,
{
    let e = trim_end_len(contents);
    let version = String::from_str(contents.substring_char(0, e));
    Property { name: String::from_str("Ruby"), source: file, version: Some(version), kind: None }
}

/// The last slash-separated segment of `s`.
pub open spec fn last_segment(s: Seq<char>) -> Seq<char>
    decreases s.len(),
{
    if s.len() == 0 {
        s
    } else if s.last() == '/' {
        seq![]
    } else {
        last_segment(s.drop_last()).push(s.last())
    }
}

/// The name of the gem that a gemspec at `path` describes: its file name up to
/// the first dot.
pub open spec fn gem_name_of(path: Seq<char>) -> Seq<char> {
    let file = last_segment(path);
    file.take(next_index_of(file, '.', 0))
}

/// The gem name that a gemspec path gives.
pub fn gem_name(path: &str) -> (r: String)
    ensures
        r@ == gem_name_of(path@),
{
    let n = path.unicode_len();
    let mut b: usize = n;
    assert(path@.take(n as int) =~= path@);
    assert(path@.subrange(n as int, n as int) =~= seq![]);
    while b > 0 && path.get_char(b - 1) != '/'
        invariant
            n == path@.len(),
            b <= n,
            last_segment(path@) == last_segment(path@.take(b as int)) + path@.subrange(
                b as int,
                n as int,
            ),
        decreases b,
    {
        let ghost t = path@.take(b as int);
        assert(t.drop_last() =~= path@.take(b - 1));
        assert(path@.subrange(b - 1, n as int) =~= seq![t.last()] + path@.subrange(
            b as int,
            n as int,
        ));
        assert(last_segment(t) == last_segment(t.drop_last()).push(t.last()));
        assert(last_segment(path@.take(b - 1)).push(t.last()) + path@.subrange(b as int, n as int)
            =~= last_segment(path@.take(b - 1)) + path@.subrange(b - 1, n as int));
        b = b - 1;
    }
    let file = path.substring_char(b, n);
    assert(file@ =~= last_segment(path@)) by {
        if b > 0 {
            assert(path@.take(b as int).last() == '/');
        } else {
            assert(path@.take(0) =~= seq![]);
        }
    }
    proof {
        lemma_next_index_of(file@, '.', 0);
    }
    let dot = find_char_from(file, '.', 0);
    String::from_str(file.substring_char(0, dot))
}

/// The gem fact that a gemspec at `path` gives.
pub fn gem_property(path: String) -> (r: Property)
    ensures
        r.kind == Some(r.kind->0) && r.kind->0@ == "Ruby Gem"@,
        r.source@ == path@,
        r.name@ == gem_name_of(path@),
        r.version is None,
{
    let name = gem_name(path.as_str());
    Property { name, source: path, version: None, kind: Some(String::from_str("Ruby Gem")) }
}

/// A Ruby version fact read from `file`.
pub open spec fn is_version_fact(p: Property, file: Seq<char>, version: Seq<char>) -> bool {
    &&& p.name@ == "Ruby"@
    &&& p.source@ == file
    &&& p.version matches Some(v) && v@ == version
    &&& p.kind is None
}

/// `after` is `before` with one more Ruby version fact, read from `file`.
pub open spec fn appends_version_fact(
    before: Seq<Property>,
    after: Seq<Property>,
    file: Seq<char>,
    version: Seq<char>,
) -> bool {
    &&& after.len() == before.len() + 1
    &&& after.drop_last() == before
    &&& is_version_fact(after.last(), file, version)
}

/// A gem fact read from the gemspec at `path`.
pub open spec fn is_gem_fact(p: Property, path: Seq<char>) -> bool {
    &&& p.kind matches Some(k) && k@ == "Ruby Gem"@
    &&& p.source@ == path
    &&& p.name@ == gem_name_of(path)
    &&& p.version is None
}

/// Whether a path names a lock file.
pub open spec fn is_lock_file(path: Seq<char>) -> bool {
    path.len() >= 4 && path.skip(path.len() - 4) == "lock"@
}

/// The paths that name no lock file, in order.
pub open spec fn without_lock_files(paths: Seq<Seq<char>>) -> Seq<Seq<char>>
    decreases paths.len(),
{
    if paths.len() == 0 {
        paths
    } else if is_lock_file(paths.last()) {
        without_lock_files(paths.drop_last())
    } else {
        without_lock_files(paths.drop_last()).push(paths.last())
    }
}

/// Where a Ruby scan stands.
pub enum RubyStage {
    /// Searching for `.ruby-version` files.
    VersionFiles,
    /// Reading the `.ruby-version` files found.
    ReadVersions,
    /// Searching for Gemfiles, as no `.ruby-version` file was found.
    Gemfiles,
    /// Reading the Gemfiles found.
    ReadGemfiles,
    /// Searching for gemspecs.
    Gemspecs,
    /// Done.
    Finished,
}

/// The detection of Ruby in one repository: its versions, then its gems.
///
/// Each step that fails leaves its category empty and the scan goes on.
pub struct RubyScan {
    pub stage: RubyStage,
    /// The files that the current reading stage reads, in order.
    pub files: Vec<String>,
    /// The index of the next file to read.
    pub next: usize,
    pub languages: Vec<Property>,
    pub tools: Vec<Property>,
    /// The byte count of Ruby code that the repository reports.
    pub bytes: u64,
}

impl RubyScan {
    pub open spec fn wf(&self) -> bool {
        (self.stage is ReadVersions || self.stage is ReadGemfiles) ==> self.next
            < self.files@.len()
    }

    /// Whether the scan waits for the result of a search.
    pub open spec fn awaits_search(&self) -> bool {
        self.stage is VersionFiles || self.stage is Gemfiles || self.stage is Gemspecs
    }

    /// Whether the scan waits for the text of a file.
    pub open spec fn awaits_contents(&self) -> bool {
        self.stage is ReadVersions || self.stage is ReadGemfiles
    }

    /// What the scan needs next from the repository.
    pub fn request(&self) -> (r: Request)
        requires
            self.wf(),
        ensures
            self.stage is VersionFiles ==> (r matches Request::Search(p) && p@ == ".ruby-version"@),
            self.stage is Gemfiles ==> (r matches Request::Search(p) && p@ == "Gemfile"@),
            self.stage is Gemspecs ==> (r matches Request::Search(p) && p@ == "*.gemspec"@),
            self.awaits_contents() ==> (r matches Request::Contents(f) && f@
                == self.files@[self.next as int]@),
            self.stage is Finished ==> r is Done,
    {
        match self.stage {
            RubyStage::VersionFiles => Request::Search(String::from_str(".ruby-version")),
            RubyStage::Gemfiles => Request::Search(String::from_str("Gemfile")),
            RubyStage::Gemspecs => Request::Search(String::from_str("*.gemspec")),
            RubyStage::ReadVersions | RubyStage::ReadGemfiles => Request::Contents(
                self.files[self.next].clone(),
            ),
            RubyStage::Finished => Request::Done,
        }
    }

    /// Takes in the result of the search that the scan asked for.
    pub fn on_search(&mut self, found: Result<Vec<String>, AppError>)
        requires
            old(self).wf(),
            old(self).awaits_search(),
        ensures
            final(self).wf(),
            final(self).bytes == old(self).bytes,
            ({
                let pre = *old(self);
                let post = *final(self);
                let kept = post.languages@ == pre.languages@ && post.tools@ == pre.tools@;
                pre.stage is VersionFiles ==> match found {
                    Err(_) => (post.stage is Gemspecs) && post.languages@.len() == 0 && post.tools@
                        == pre.tools@,
                    Ok(v) => kept && if v@.len() == 0 {
                        post.stage is Gemfiles
                    } else {
                        (post.stage is ReadVersions) && post.files@ == v@ && post.next == 0
                    },
                }
            }),
            ({
                let pre = *old(self);
                let post = *final(self);
                let kept = post.languages@ == pre.languages@ && post.tools@ == pre.tools@;
                pre.stage is Gemfiles ==> match found {
                    Err(_) => (post.stage is Gemspecs) && post.languages@.len() == 0 && post.tools@
                        == pre.tools@,
                    Ok(v) => kept && texts(post.files@) == without_lock_files(texts(v@)) && if post.files@.len()
                        == 0 {
                        post.stage is Gemspecs
                    } else {
                        (post.stage is ReadGemfiles) && post.next == 0
                    },
                }
            }),
            ({
                let pre = *old(self);
                let post = *final(self);
                pre.stage is Gemspecs ==> {
                    &&& post.stage is Finished
                    &&& post.languages@ == pre.languages@
                    &&& match found {
                        Err(_) => post.tools@.len() == 0,
                        Ok(v) => post.tools@.len() == v@.len() && forall|i: int|
                            0 <= i < v@.len() ==> is_gem_fact(#[trigger] post.tools@[i], v@[i]@),
                    }
                }
            }),
    {
        match self.stage {
            RubyStage::VersionFiles => match found {
                Err(_) => {
                    self.languages = Vec::new();
                    self.stage = RubyStage::Gemspecs;
                },
                Ok(v) => {
                    if v.len() == 0 {
                        self.stage = RubyStage::Gemfiles;
                    } else {
                        self.files = v;
                        self.next = 0;
                        self.stage = RubyStage::ReadVersions;
                    }
                },
            },
            RubyStage::Gemfiles => match found {
                Err(_) => {
                    self.languages = Vec::new();
                    self.stage = RubyStage::Gemspecs;
                },
                Ok(v) => {
                    let files = gemfiles_to_read(&v);
                    let empty = files.len() == 0;
                    self.files = files;
                    self.next = 0;
                    if empty {
                        self.stage = RubyStage::Gemspecs;
                    } else {
                        self.stage = RubyStage::ReadGemfiles;
                    }
                },
            },
            _ => {
                match found {
                    Err(_) => {
                        self.tools = Vec::new();
                    },
                    Ok(v) => {
                        self.tools = gem_properties(v);
                    },
                }
                self.stage = RubyStage::Finished;
            },
        }
    }

    /// Takes in the text of the file that the scan asked for.
    pub fn on_contents(&mut self, text: Result<String, AppError>)
        requires
            old(self).wf(),
            old(self).awaits_contents(),
        ensures
            final(self).wf(),
            final(self).bytes == old(self).bytes,
            final(self).tools@ == old(self).tools@,
            ({
                let pre = *old(self);
                let post = *final(self);
                let file = pre.files@[pre.next as int]@;
                let last = pre.next + 1 == pre.files@.len();
                let going_on = post.files@ == pre.files@ && post.next == pre.next + 1 && if last {
                    post.stage is Gemspecs
                } else {
                    post.stage == pre.stage
                };
                let failed = (post.stage is Gemspecs) && post.languages@.len() == 0;
                match text {
                    Err(_) => failed,
                    Ok(t) => if pre.stage is ReadVersions {
                        going_on && appends_version_fact(pre.languages@, post.languages@, file, trimmed_end(t@))
                    } else {
                        let read = going_on && match ruby_version_from(t@, 0) {
                            Some(v) => appends_version_fact(pre.languages@, post.languages@, file, v),
                            None => post.languages@ == pre.languages@,
                        };
                        if regex_compiles(VERSION_PATTERN@) {
                            read
                        } else {
                            failed || read
                        }
                    },
                }
            }),
    {
        let t = match text {
            Err(_) => {
                self.languages = Vec::new();
                self.stage = RubyStage::Gemspecs;
                return ;
            },
            Ok(t) => t,
        };
        let len = self.files.len();
        let file = self.files[self.next].clone();
        let ghost before = self.languages@;
        if matches!(self.stage, RubyStage::ReadVersions) {
            self.languages.push(version_property(file, t.as_str()));
            assert(self.languages@.drop_last() =~= before);
        } else {
            match gemfile_ruby_version(t.as_str()) {
                Err(_) => {
                    self.languages = Vec::new();
                    self.stage = RubyStage::Gemspecs;
                    return ;
                },
                Ok(Some(v)) => {
                    let p = Property {
                        name: String::from_str("Ruby"),
                        source: file,
                        version: Some(v),
                        kind: None,
                    };
                    self.languages.push(p);
                    assert(self.languages@.drop_last() =~= before);
                },
                Ok(None) => {},
            }
        }
        self.next = self.next + 1;
        if self.next == len {
            self.stage = RubyStage::Gemspecs;
        }
    }
}

/// The found Gemfiles that are no lock files.
fn gemfiles_to_read(found: &Vec<String>) -> (r: Vec<String>)
    ensures
        texts(r@) == without_lock_files(texts(found@)),
{
    proof {
        reveal_strlit("lock");
    }
    let mut out: Vec<String> = Vec::new();
    let mut i: usize = 0;
    while i < found.len()
        invariant
            i <= found@.len(),
            "lock"@.len() == 4,
            texts(out@) == without_lock_files(texts(found@.take(i as int))),
        decreases found@.len() - i,
    {
        assert(texts(found@.take(i + 1)).drop_last() =~= texts(found@.take(i as int)));
        assert(texts(found@.take(i + 1)).last() == found@[i as int]@);
        if !ends_with(found[i].as_str(), "lock") {
            let ghost prev = out@;
            out.push(found[i].clone());
            assert(texts(out@) =~= texts(prev).push(found@[i as int]@));
        }
        i = i + 1;
    }
    assert(found@.take(found@.len() as int) =~= found@);
    out
}

/// One gem fact for each gemspec path, in order.
fn gem_properties(paths: Vec<String>) -> (r: Vec<Property>)
    ensures
        r@.len() == paths@.len(),
        forall|i: int| 0 <= i < paths@.len() ==> is_gem_fact(#[trigger] r@[i], paths@[i]@),
{
    let mut out: Vec<Property> = Vec::new();
    let mut i: usize = 0;
    while i < paths.len()
        invariant
            i <= paths@.len(),
            out@.len() == i,
            forall|j: int| 0 <= j < i ==> is_gem_fact(#[trigger] out@[j], paths@[j]@),
        decreases paths@.len() - i,
    {
        out.push(gem_property(paths[i].clone()));
        i = i + 1;
    }
    out
}

/// Starts the Ruby scan of a repository that reports `bytes` bytes of Ruby.
pub fn recognize(bytes: u64) -> (r: RubyScan)
    ensures
        r.wf(),
        r.stage is VersionFiles,
        r.languages@.len() == 0,
        r.tools@.len() == 0,
        r.bytes == bytes,
{
    RubyScan {
        stage: RubyStage::VersionFiles,
        files: Vec::new(),
        next: 0,
        languages: Vec::new(),
        tools: Vec::new(),
        bytes,
    }
}

} // verus!
