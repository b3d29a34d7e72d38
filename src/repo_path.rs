//! Repository paths of the form `org/repo`.

use vstd::prelude::*;
use crate::json::texts;
use crate::text::{find_char_from, lacks_char, lemma_next_index_of, next_index_of};

verus! {

/// One segment of a repository path: non-empty and without a slash.
pub open spec fn is_segment(s: Seq<char>) -> bool {
    s.len() > 0 && lacks_char(s, '/')
}

/// `s` has exactly one slash, at index `i`.
pub open spec fn sole_slash_at(s: Seq<char>, i: int) -> bool {
    0 <= i < s.len() && s[i] == '/' && lacks_char(s.take(i), '/') && lacks_char(s.skip(i + 1), '/')
}

/// `s` is `org/repo` with both segments valid.
pub open spec fn is_repo_path(s: Seq<char>) -> bool {
    exists|o: Seq<char>, r: Seq<char>| is_segment(o) && is_segment(r) && s == o + seq!['/'] + r
}

pub open spec fn unknown_format_message(path: Seq<char>) -> Seq<char> {
    "Unknown repo path format: "@ + path
}

pub open spec fn incorrect_repo_message(path: Seq<char>) -> Seq<char> {
    "Incorrect repo: "@ + path
}

/// A repository named by organization and repository.
#[derive(Debug, PartialEq)]
pub struct RepoPath {
    pub organization: String,
    pub repository: String,
    pub path: String,
}

impl RepoPath {
    /// The path is the two segments joined by a slash.
    pub open spec fn wf(&self) -> bool {
        &&& is_segment(self.organization@)
        &&& is_segment(self.repository@)
        &&& self.path@ == self.organization@ + seq!['/'] + self.repository@
    }

    /// Splits `org/repo` into its two segments.
    ///
    /// A path with no slash or with more than one is refused as of unknown format;
    /// one with a single slash but an empty segment is refused as incorrect.
    pub fn parse(path: &str) -> (r: Result<Self, String>)
        ensures
            r is Ok <==> is_repo_path(path@),
            r matches Ok(rp) ==> rp.wf() && rp.path@ == path@,
            r matches Err(e) ==> (if exists|i: int| sole_slash_at(path@, i) {
                e@ == incorrect_repo_message(path@)
            } else {
                e@ == unknown_format_message(path@)
            }),
    {
        let n = path.unicode_len();
        let first = find_char_from(path, '/', 0);
        proof {
            lemma_next_index_of(path@, '/', 0);
        }
        if first == n {
            proof {
                assert(path@.take(0) =~= seq![]);
                lemma_no_slash_not_path(path@);
                assert forall|i: int| !sole_slash_at(path@, i) by {
                    if sole_slash_at(path@, i) {
                        assert(path@[i] == '/');
                    }
                }
            }
            let mut msg = String::from_str("Unknown repo path format: ");
            msg.append(path);
            return Err(msg);
        }
        let second = find_char_from(path, '/', first + 1);
        proof {
            lemma_next_index_of(path@, '/', first + 1);
        }
        if second < n {
            proof {
                lemma_two_slashes_not_path(path@, first as int, second as int);
                assert forall|i: int| !sole_slash_at(path@, i) by {
                    if sole_slash_at(path@, i) {
                        if i < second {
                            assert(path@.skip(i + 1)[second - i - 1] == '/');
                        } else {
                            assert(path@.take(i)[first as int] == '/');
                        }
                    }
                }
            }
            let mut msg = String::from_str("Unknown repo path format: ");
            msg.append(path);
            return Err(msg);
        }
        let ghost s = path@;
        proof {
            assert(sole_slash_at(s, first as int)) by {
                assert forall|j: int| 0 <= j < s.take(first as int).len() implies s.take(
                    first as int,
                )[j] != '/' by {}
                assert forall|j: int| 0 <= j < s.skip(first + 1).len() implies #[trigger] s.skip(
                    first + 1,
                )[j] != '/' by {
                    assert(s.skip(first + 1)[j] == s[first + 1 + j]);
                }
            }
            assert(s =~= s.take(first as int) + seq!['/'] + s.skip(first + 1));
        }
        let organization = String::from_str(path.substring_char(0, first));
        let repository = String::from_str(path.substring_char(first + 1, n));
        if first == 0 || first + 1 == n {
            proof {
                lemma_sole_slash_unique(s, first as int);
            }
            let mut msg = String::from_str("Incorrect repo: ");
            msg.append(path);
            return Err(msg);
        }
        proof {
            assert(organization@ =~= s.take(first as int));
            assert(repository@ =~= s.skip(first + 1));
        }
        let rp = RepoPath { organization, repository, path: String::from_str(path) };
        Ok(rp)
    }
}

/// The message with which a path that is no repository path is refused.
pub open spec fn refusal_message(path: Seq<char>) -> Seq<char> {
    if exists|i: int| sole_slash_at(path, i) {
        incorrect_repo_message(path)
    } else {
        unknown_format_message(path)
    }
}

/// The valid paths among `paths`, in order.
pub open spec fn valid_paths(paths: Seq<Seq<char>>) -> Seq<Seq<char>>
    decreases paths.len(),
{
    if paths.len() == 0 {
        seq![]
    } else if is_repo_path(paths.last()) {
        valid_paths(paths.drop_last()).push(paths.last())
    } else {
        valid_paths(paths.drop_last())
    }
}

/// The refusal messages of the invalid paths among `paths`, in order.
pub open spec fn refusals(paths: Seq<Seq<char>>) -> Seq<Seq<char>>
    decreases paths.len(),
{
    if paths.len() == 0 {
        seq![]
    } else if is_repo_path(paths.last()) {
        refusals(paths.drop_last())
    } else {
        refusals(paths.drop_last()).push(refusal_message(paths.last()))
    }
}

pub open spec fn path_texts(v: Seq<RepoPath>) -> Seq<Seq<char>> {
    v.map_values(|p: RepoPath| p.path@)
}

/// Parses each of `repos`: the repository paths of the valid ones, and the
/// refusal message of each other one, both in order.
pub fn repo_paths(repos: &Vec<String>) -> (r: (Vec<RepoPath>, Vec<String>))
    ensures
        path_texts(r.0@) == valid_paths(texts(repos@)),
        forall|i: int| 0 <= i < r.0@.len() ==> (#[trigger] r.0@[i]).wf(),
        texts(r.1@) == refusals(texts(repos@)),
{
    let ghost all = texts(repos@);
    let mut valid: Vec<RepoPath> = Vec::new();
    let mut refused: Vec<String> = Vec::new();
    let mut i: usize = 0;
    while i < repos.len()
        invariant
            i <= repos@.len(),
            all == texts(repos@),
            path_texts(valid@) == valid_paths(all.take(i as int)),
            forall|j: int| 0 <= j < valid@.len() ==> (#[trigger] valid@[j]).wf(),
            texts(refused@) == refusals(all.take(i as int)),
        decreases repos@.len() - i,
    {
        assert(all.take(i + 1).drop_last() =~= all.take(i as int));
        assert(all.take(i + 1).last() == repos@[i as int]@);
        let ghost before_valid = valid@;
        let ghost before_refused = refused@;
        match RepoPath::parse(repos[i].as_str()) {
            Ok(rp) => {
                valid.push(rp);
                assert(path_texts(valid@) =~= path_texts(before_valid).push(repos@[i as int]@));
            },
            Err(msg) => {
                refused.push(msg);
                assert(texts(refused@) =~= texts(before_refused).push(
                    refusal_message(repos@[i as int]@),
                ));
            },
        }
        i = i + 1;
    }
    assert(all.take(repos@.len() as int) =~= all);
    (valid, refused)
}

proof fn lemma_no_slash_not_path(s: Seq<char>)
    requires
        lacks_char(s, '/'),
    ensures
        !is_repo_path(s),
{
    if is_repo_path(s) {
        let (o, r) = choose|o: Seq<char>, r: Seq<char>|
            is_segment(o) && is_segment(r) && s == o + seq!['/'] + r;
        assert(s[o.len() as int] == '/');
    }
}

proof fn lemma_two_slashes_not_path(s: Seq<char>, a: int, b: int)
    requires
        0 <= a < b < s.len(),
        s[a] == '/',
        s[b] == '/',
    ensures
        !is_repo_path(s),
{
    if is_repo_path(s) {
        let (o, r) = choose|o: Seq<char>, r: Seq<char>|
            is_segment(o) && is_segment(r) && s == o + seq!['/'] + r;
        let k = o.len() as int;
        if a < k {
            assert(o[a] == s[a]);
        } else if a > k {
            assert(r[a - k - 1] == s[a]);
        } else {
            assert(r[b - k - 1] == s[b]);
        }
    }
}

/// With its sole slash at an end, `s` is no repository path.
proof fn lemma_sole_slash_unique(s: Seq<char>, i: int)
    requires
        sole_slash_at(s, i),
        i == 0 || i == s.len() - 1,
    ensures
        !is_repo_path(s),
{
    if is_repo_path(s) {
        let (o, r) = choose|o: Seq<char>, r: Seq<char>|
            is_segment(o) && is_segment(r) && s == o + seq!['/'] + r;
        let k = o.len() as int;
        assert(s[k] == '/');
        if k < i {
            assert(s.take(i)[k] == '/');
        } else if k > i {
            assert(s.skip(i + 1)[k - i - 1] == '/');
        }
    }
}

/// A well-formed path splits back into exactly its two segments.
pub proof fn lemma_repo_path_split_unique(o: Seq<char>, r: Seq<char>, o2: Seq<char>, r2: Seq<char>)
    requires
        is_segment(o),
        is_segment(r),
        is_segment(o2),
        is_segment(r2),
        o + seq!['/'] + r == o2 + seq!['/'] + r2,
    ensures
        o == o2,
        r == r2,
{
    let s = o + seq!['/'] + r;
    if o.len() < o2.len() {
        assert(o2[o.len() as int] == s[o.len() as int]);
    } else if o.len() > o2.len() {
        assert(o[o2.len() as int] == s[o2.len() as int]);
    }
    assert(o =~= s.take(o.len() as int));
    assert(o2 =~= s.take(o2.len() as int));
    assert(r =~= s.skip(o.len() as int + 1));
    assert(r2 =~= s.skip(o2.len() as int + 1));
}

} // verus!
