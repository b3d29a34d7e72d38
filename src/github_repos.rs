//! Walking the pages of an organization's repository listing.

use vstd::prelude::*;
use crate::app_error::AppError;
use crate::github_repo::Response;
use crate::json::{all_objects, check_all_objects, collect_string_members, string_members, texts, JsonValue};
use crate::text::{
    contains, contains_seq, decimal, decimal_string, find_char_from, find_text, first_occurrence,
    lemma_next_index_of, next_index_of, remove_all, removed_all, trim_text, trimmed_end,
    trimmed_start,
};

verus! {

/// The relation marker of the entry that links the next page.
pub const NEXT_RELATION: &'static str = "rel=\"next\"";

/// What comes before an endpoint path in a link of the remote service.
pub const API_ORIGIN: &'static str = "<https://api.github.com/";

/// The most pages that one listing fetches.
pub const MAX_PAGES: u64 = 1000;

/// The first comma-separated entry of `s` that holds the next-page relation.
pub open spec fn next_entry(s: Seq<char>) -> Option<Seq<char>>
    decreases s.len(),
    via next_entry_decreases
{
    let e = next_index_of(s, ',', 0);
    let entry = s.take(e);
    if contains_seq(entry, NEXT_RELATION@) {
        Some(entry)
    } else if e >= s.len() {
        None
    } else {
        next_entry(s.skip(e + 1))
    }
}

#[via_fn]
proof fn next_entry_decreases(s: Seq<char>) {
    lemma_next_index_of(s, ',', 0);
}

/// The endpoint path of the next page that a `Link` header names, if it names one.
pub open spec fn next_page_path_of(link: Seq<char>) -> Option<Seq<char>> {
    match next_entry(link) {
        None => None,
        Some(entry) => {
            let url = entry.take(first_occurrence(entry, ">;"@, 0));
            Some(removed_all(trimmed_end(trimmed_start(url)), API_ORIGIN@))
        },
    }
}

/// Reads the endpoint path of the next page from a `Link` header.
pub fn next_page_path(link: &str) -> (r: Option<String>)
    ensures
        r matches Some(p) ==> next_page_path_of(link@) == Some(p@),
        r is None ==> next_page_path_of(link@) is None,
{
    let mut rest: &str = link;
    loop
        invariant
            next_entry(link@) == next_entry(rest@),
        decreases rest@.len(),
    {
        let n = rest.unicode_len();
        let e = find_char_from(rest, ',', 0);
        proof {
            lemma_next_index_of(rest@, ',', 0);
        }
        let entry = rest.substring_char(0, e);
        assert(entry@ =~= rest@.take(e as int));
        if contains(entry, NEXT_RELATION) {
            let cut = find_text(entry, ">;");
            let url = entry.substring_char(0, cut);
            assert(url@ =~= entry@.take(cut as int));
            let trimmed = trim_text(url);
            return Some(remove_all(trimmed.as_str(), API_ORIGIN));
        }
        if e >= n {
            return None;
        }
        let ghost prev = rest@;
        rest = rest.substring_char(e + 1, n);
        assert(rest@ =~= prev.skip(e + 1));
    }
}

/// The names of the repositories that one page of an organization listing holds,
/// where the page is a successful array of objects.
pub open spec fn page_names(page: Response) -> Option<Seq<Seq<char>>> {
    match page.body {
        Some(JsonValue::Array(items)) => if page.status == 200 && all_objects(items@) {
            Some(string_members(items@, "full_name"@))
        } else {
            None
        },
        _ => None,
    }
}

/// The walk through the pages of an organization's repository listing.
pub struct OrgListing {
    /// The endpoint path of the page to fetch next.
    pub endpoint: String,
    /// The full names gathered so far, in page order.
    pub repos: Vec<String>,
    /// How many pages were received.
    pub fetched: u64,
    /// Whether no page is left to fetch.
    pub finished: bool,
}

impl OrgListing {
    pub open spec fn wf(&self) -> bool {
        &&& self.fetched <= MAX_PAGES
        &&& self.fetched == MAX_PAGES ==> self.finished
    }

    /// Starts at the first page of `organization`'s listing.
    pub fn new(organization: &str) -> (r: Self)
        ensures
            r.wf(),
            r.endpoint@ == "orgs/"@ + organization@ + "/repos"@,
            r.repos@.len() == 0,
            r.fetched == 0,
            !r.finished,
    {
        let mut endpoint = String::from_str("orgs/");
        endpoint.append(organization);
        endpoint.append("/repos");
        OrgListing { endpoint, repos: Vec::new(), fetched: 0, finished: false }
    }

    /// The endpoint to fetch next, while pages are left.
    pub fn next_endpoint(&self) -> (r: Option<String>)
        ensures
            r is None <==> self.finished,
            r matches Some(e) ==> e@ == self.endpoint@,
    {
        if self.finished {
            None
        } else {
            Some(self.endpoint.clone())
        }
    }

    /// Takes in one fetched page and the `Link` header that came with it.
    ///
    /// A failed page ends the walk with an error. Otherwise its names are added
    /// and the walk goes on to the next page that the header names, if any,
    /// until `MAX_PAGES` pages were received.
    pub fn receive(&mut self, page: &Response, link: Option<&str>) -> (r: Result<(), AppError>)
        requires
            old(self).wf(),
            !old(self).finished,
        ensures
            final(self).wf(),
            page.status != 200 ==> (r matches Err(e) && e@ == "Non-ok response: "@ + decimal(
                page.status as nat,
            )),
            page.status == 200 && page_names(*page) is None ==> (r matches Err(e) && e@
                == "Response body issue: None"@),
            r is Err ==> final(self).finished && final(self).repos@ == old(self).repos@,
            r is Ok <==> page_names(*page) is Some,
            page_names(*page) matches Some(names) ==> {
                let next = match link {
                    Some(l) => next_page_path_of(l@),
                    None => None,
                };
                &&& texts(final(self).repos@) == texts(old(self).repos@) + names
                &&& final(self).fetched == old(self).fetched + 1
                &&& final(self).finished == (next is None || final(self).fetched == MAX_PAGES)
                &&& next matches Some(p) ==> final(self).endpoint@ == p
            },
    {
        if page.status != 200 {
            self.finished = true;
            let mut msg = String::from_str("Non-ok response: ");
            let code = decimal_string(page.status as u64);
            msg.append(code.as_str());
            return Err(AppError::new(msg.as_str()));
        }
        let items = match &page.body {
            Some(JsonValue::Array(items)) => items,
            _ => {
                self.finished = true;
                return Err(AppError::new("Response body issue: None"));
            },
        };
        if !check_all_objects(items) {
            self.finished = true;
            return Err(AppError::new("Response body issue: None"));
        }
        let names = collect_string_members(items, "full_name");
        let ghost before = self.repos@;
        let mut k: usize = 0;
        while k < names.len()
            invariant
                k <= names@.len(),
                self.fetched == old(self).fetched,
                self.fetched < MAX_PAGES,
                texts(self.repos@) == texts(before) + texts(names@.take(k as int)),
            decreases names@.len() - k,
        {
            let ghost prev = self.repos@;
            self.repos.push(names[k].clone());
            assert(self.repos@.drop_last() == prev);
            assert(texts(names@.take(k + 1)) =~= texts(names@.take(k as int)).push(names@[k as int]@));
            assert(texts(self.repos@) =~= texts(self.repos@.drop_last()).push(names@[k as int]@));
            k = k + 1;
        }
        assert(names@.take(names@.len() as int) =~= names@);
        self.fetched = self.fetched + 1;
        let next = match link {
            Some(l) => next_page_path(l),
            None => None,
        };
        match next {
            Some(p) => {
                self.endpoint = p;
                self.finished = self.fetched == MAX_PAGES;
            },
            None => {
                self.finished = true;
            },
        }
        Ok(())
    }
}

} // verus!
