//! Detected facts, and the choice of recognizers by language.

use vstd::prelude::*;
use crate::recognizer::ruby::RubyScan;
use crate::text::same_text;

pub mod ruby;

verus! {

/// One detected fact about a repository: a language version or a tool.
///
/// `kind` is the fact's `type`, where it has one.
pub struct Property {
    pub name: String,
    pub source: String,
    pub version: Option<String>,
    pub kind: Option<String>,
}

/// What a recognizer needs next from the repository.
pub enum Request {
    /// The paths of the files whose name matches the pattern.
    Search(String),
    /// The text of the file at the path.
    Contents(String),
    /// Nothing: the recognizer is done.
    Done,
}

/// The languages and tools detected in one repository, in detection order.
pub struct RepoProperties {
    pub languages: Vec<Property>,
    pub tools: Vec<Property>,
}

impl RepoProperties {
    /// Nothing detected yet.
    pub fn new() -> (r: Self)
        ensures
            r.languages@.len() == 0,
            r.tools@.len() == 0,
    {
        RepoProperties { languages: Vec::new(), tools: Vec::new() }
    }

    /// Adds what a finished Ruby scan detected after what is there.
    pub fn add(&mut self, scan: RubyScan)
        ensures
            final(self).languages@ == old(self).languages@ + scan.languages@,
            final(self).tools@ == old(self).tools@ + scan.tools@,
    {
        let mut languages = scan.languages;
        let mut tools = scan.tools;
        self.languages.append(&mut languages);
        self.tools.append(&mut tools);
    }
}

/// The byte counts of the languages that have a recognizer, in order.
pub open spec fn recognized(languages: Seq<(Seq<char>, u64)>) -> Seq<u64>
    decreases languages.len(),
{
    if languages.len() == 0 {
        seq![]
    } else if languages.last().0 == "Ruby"@ {
        recognized(languages.drop_last()).push(languages.last().1)
    } else {
        recognized(languages.drop_last())
    }
}

/// Starts one scan for each language of the repository that has a recognizer,
/// in order; the others are passed over.
pub fn recognize(languages: &Vec<(String, u64)>) -> (r: Vec<RubyScan>)
    ensures
        r@.len() == recognized(languages@.map_values(|p: (String, u64)| (p.0@, p.1))).len(),
        forall|i: int|
            0 <= i < r@.len() ==> {
                &&& (#[trigger] r@[i]).wf()
                &&& r@[i].stage is VersionFiles
                &&& r@[i].languages@.len() == 0
                &&& r@[i].tools@.len() == 0
                &&& r@[i].bytes == recognized(
                    languages@.map_values(|p: (String, u64)| (p.0@, p.1)),
                )[i]
            },
{
    let ghost views = languages@.map_values(|p: (String, u64)| (p.0@, p.1));
    let mut out: Vec<RubyScan> = Vec::new();
    let mut i: usize = 0;
    while i < languages.len()
        invariant
            i <= languages@.len(),
            views == languages@.map_values(|p: (String, u64)| (p.0@, p.1)),
            out@.len() == recognized(views.take(i as int)).len(),
            forall|j: int|
                0 <= j < out@.len() ==> {
                    &&& (#[trigger] out@[j]).wf()
                    &&& out@[j].stage is VersionFiles
                    &&& out@[j].languages@.len() == 0
                    &&& out@[j].tools@.len() == 0
                    &&& out@[j].bytes == recognized(views.take(i as int))[j]
                },
        decreases languages@.len() - i,
    {
        assert(views.take(i + 1).drop_last() =~= views.take(i as int));
        assert(views.take(i + 1).last() == views[i as int]);
        if same_text(languages[i].0.as_str(), "Ruby") {
            out.push(ruby::recognize(languages[i].1));
        }
        i = i + 1;
    }
    assert(views.take(languages@.len() as int) =~= views);
    out
}

} // verus!
