//! Reading the remote service's answers for one repository, and the
//! endpoints that one asks.

use vstd::prelude::*;
use vstd::utf8::{decode_utf8, valid_utf8};
use crate::app_error::AppError;
use crate::json::{
    all_objects, check_all_objects, collect_string_members, get_member, member, string_members,
    texts, JsonValue,
};
use crate::repo_path::RepoPath;
use crate::text::{
    decimal, decimal_string, percent_encode, remove_char, url_encoded, without_char,
};

verus! {

/// What the remote service answered to one call: its status and, where the
/// body was JSON, the body.
pub struct Response {
    pub status: u16,
    pub body: Option<JsonValue>,
}

pub open spec fn incorrect_json_message() -> Seq<char> {
    "Empty or incorrect json"@
}

/// The body of a successful response, or the message of the error it gives.
pub open spec fn response_body(resp: Response) -> Result<JsonValue, Seq<char>> {
    if resp.status != 200 {
        Err("Non-ok response: "@ + decimal(resp.status as nat))
    } else {
        match resp.body {
            Some(b) => Ok(b),
            None => Err(incorrect_json_message()),
        }
    }
}

/// The paths that a directory listing names, or the message of its error.
pub open spec fn listed_files(resp: Response) -> Result<Seq<Seq<char>>, Seq<char>> {
    match response_body(resp) {
        Err(m) => Err(m),
        Ok(JsonValue::Array(items)) => if all_objects(items@) {
            Ok(string_members(items@, "path"@))
        } else {
            Err(incorrect_json_message())
        },
        Ok(_) => Err(incorrect_json_message()),
    }
}

/// The paths that a code search found, or the message of its error.
pub open spec fn found_files(resp: Response) -> Result<Seq<Seq<char>>, Seq<char>> {
    match response_body(resp) {
        Err(m) => Err(m),
        Ok(JsonValue::Object(fields)) => match member(fields@, "items"@) {
            None => Err("No search result field `items`"@),
            Some(JsonValue::Array(items)) => Ok(string_members(items@, "path"@)),
            Some(_) => Ok(seq![]),
        },
        Ok(_) => Err(incorrect_json_message()),
    }
}

/// Each language with its byte count, where every member of the object is a count.
pub open spec fn language_counts(fields: Seq<(String, JsonValue)>) -> Option<Seq<(Seq<char>, u64)>>
    decreases fields.len(),
{
    if fields.len() == 0 {
        Some(seq![])
    } else {
        match (language_counts(fields.drop_last()), fields.last().1) {
            (Some(rest), JsonValue::Number(Some(n))) => Some(rest.push((fields.last().0@, n))),
            _ => None,
        }
    }
}

/// The language breakdown of a repository, or the message of its error.
pub open spec fn languages_outcome(resp: Response) -> Result<Seq<(Seq<char>, u64)>, Seq<char>> {
    match response_body(resp) {
        Err(m) => Err(m),
        Ok(JsonValue::Object(fields)) => match language_counts(fields@) {
            Some(c) => Ok(c),
            None => Err(incorrect_json_message()),
        },
        Ok(_) => Err(incorrect_json_message()),
    }
}

/// The base64 text of a file's content with its line breaks taken out, or the
/// message of the error that comes before decoding.
pub open spec fn encoded_content(resp: Response) -> Result<Seq<char>, Seq<char>> {
    match response_body(resp) {
        Err(m) => Err(m),
        Ok(JsonValue::Object(fields)) => match member(fields@, "content"@) {
            None => Err("File contents call response is missing the `content` field"@),
            Some(JsonValue::Str(c)) => Ok(without_char(c@, '\n')),
            Some(_) => Err("Unsupported `content` field type"@),
        },
        Ok(_) => Err(incorrect_json_message()),
    }
}

pub open spec fn language_views(v: Seq<(String, u64)>) -> Seq<(Seq<char>, u64)> {
    v.map_values(|p: (String, u64)| (p.0@, p.1))
}

/// The bytes that base64 decoding gives for a text, where it is valid base64.
pub uninterp spec fn base64_decoded(text: Seq<char>) -> Option<Seq<u8>>;

/// Relies on `base64::decode` (standard alphabet): the bytes, or the refusal,
/// depend on the text alone.
#[verifier::external_body]
fn decode_base64(text: &str) -> (r: Result<Vec<u8>, String>)
    ensures
        r matches Ok(b) ==> base64_decoded(text@) == Some(b@),
        r is Err ==> base64_decoded(text@) is None,
{
    match base64::decode(text) {
        Ok(b) => Ok(b),
        Err(e) => Err(e.to_string()),
    }
}

/// Relies on `std::str::from_utf8`: it accepts exactly the valid UTF-8 byte
/// strings, and the text is what they encode.
#[verifier::external_body]
fn utf8_text(bytes: &Vec<u8>) -> (r: Result<String, String>)
    ensures
        r is Ok <==> valid_utf8(bytes@),
        r matches Ok(s) ==> s@ == decode_utf8(bytes@),
{
    match std::str::from_utf8(bytes) {
        Ok(s) => Ok(s.to_string()),
        Err(e) => Err(e.to_string()),
    }
}

fn incorrect_json() -> (r: AppError)
    ensures
        r@ == incorrect_json_message(),
{
    AppError::new("Empty or incorrect json")
}

/// The body of a successful response.
fn unwrap_result(resp: &Response) -> (r: Result<&JsonValue, AppError>)
    ensures
        match r {
            Ok(b) => response_body(*resp) == Ok::<JsonValue, Seq<char>>(*b),
            Err(e) => response_body(*resp) == Err::<JsonValue, Seq<char>>(e@),
        },
{
    if resp.status != 200 {
        let mut msg = String::from_str("Non-ok response: ");
        let code = decimal_string(resp.status as u64);
        msg.append(code.as_str());
        return Err(AppError::new(msg.as_str()));
    }
    match &resp.body {
        Some(b) => Ok(b),
        None => Err(incorrect_json()),
    }
}

/// A repository on the remote service, bound to its path once access to it was
/// confirmed.
pub struct GithubRepo {
    pub path: RepoPath,
}

impl GithubRepo {
    /// `repos/{org}/{repo}`: the repository's metadata.
    pub fn metadata_endpoint(&self) -> (r: String)
        ensures
            r@ == "repos/"@ + url_encoded(self.path.organization@, false) + "/"@ + url_encoded(
                self.path.repository@,
                false,
            ),
    {
        let mut r = String::from_str("repos/");
        r.append(percent_encode(self.path.organization.as_str(), false).as_str());
        r.append("/");
        r.append(percent_encode(self.path.repository.as_str(), false).as_str());
        r
    }

    /// `repos/{org}/{repo}/languages`: the language breakdown.
    pub fn languages_endpoint(&self) -> (r: String)
        ensures
            r@ == "repos/"@ + url_encoded(self.path.organization@, false) + "/"@ + url_encoded(
                self.path.repository@,
                false,
            ) + "/languages"@,
    {
        let mut r = self.metadata_endpoint();
        r.append("/languages");
        r
    }

    /// `repos/{org}/{repo}/contents/{path}`: a directory listing or one file;
    /// the slashes of `path` separate its segments.
    pub fn contents_endpoint(&self, path: &str) -> (r: String)
        ensures
            r@ == "repos/"@ + url_encoded(self.path.organization@, false) + "/"@ + url_encoded(
                self.path.repository@,
                false,
            ) + "/contents/"@ + url_encoded(path@, true),
    {
        let mut r = self.metadata_endpoint();
        r.append("/contents/");
        r.append(percent_encode(path, true).as_str());
        r
    }

    /// The code search for files named `file_name` in this repository.
    pub fn search_endpoint(&self, file_name: &str) -> (r: String)
        ensures
            r@ == "search/code?q="@ + url_encoded(file_name@, false) + "+in:path+repo:"@
                + url_encoded(self.path.organization@, false) + "%2F"@ + url_encoded(
                self.path.repository@,
                false,
            ),
    {
        let mut r = String::from_str("search/code?q=");
        r.append(percent_encode(file_name, false).as_str());
        r.append("+in:path+repo:");
        r.append(percent_encode(self.path.organization.as_str(), false).as_str());
        r.append("%2F");
        r.append(percent_encode(self.path.repository.as_str(), false).as_str());
        r
    }

    /// Binds `repo_path` where the probe of its metadata succeeded.
    pub fn from_repo_path(repo_path: RepoPath, probe: &Response) -> (r: Result<Self, AppError>)
        ensures
            match r {
                Ok(repo) => response_body(*probe) is Ok && repo.path == repo_path,
                Err(e) => response_body(*probe) == Err::<JsonValue, Seq<char>>(e@),
            },
    {
        match unwrap_result(probe) {
            Ok(_) => Ok(GithubRepo { path: repo_path }),
            Err(e) => Err(e),
        }
    }

    /// The paths that a directory listing names; entries without a string
    /// `path` are left out.
    pub fn files(&self, listing: &Response) -> (r: Result<Vec<String>, AppError>)
        ensures
            match r {
                Ok(v) => listed_files(*listing) == Ok::<Seq<Seq<char>>, Seq<char>>(texts(v@)),
                Err(e) => listed_files(*listing) == Err::<Seq<Seq<char>>, Seq<char>>(e@),
            },
    {
        let body = unwrap_result(listing)?;
        match body {
            JsonValue::Array(items) => {
                if !check_all_objects(items) {
                    return Err(incorrect_json());
                }
                Ok(collect_string_members(items, "path"))
            },
            _ => Err(incorrect_json()),
        }
    }

    /// The paths that a code search found; items without a string `path` are
    /// left out.
    pub fn search_file(&self, results: &Response) -> (r: Result<Vec<String>, AppError>)
        ensures
            match r {
                Ok(v) => found_files(*results) == Ok::<Seq<Seq<char>>, Seq<char>>(texts(v@)),
                Err(e) => found_files(*results) == Err::<Seq<Seq<char>>, Seq<char>>(e@),
            },
    {
        let body = unwrap_result(results)?;
        match body {
            JsonValue::Object(fields) => match get_member(fields, "items") {
                None => Err(AppError::new("No search result field `items`")),
                Some(JsonValue::Array(items)) => Ok(collect_string_members(items, "path")),
                Some(_) => {
                    let v: Vec<String> = Vec::new();
                    assert(texts(v@) =~= seq![]);
                    Ok(v)
                },
            },
            _ => Err(incorrect_json()),
        }
    }

    /// Each language of the repository with its byte count.
    pub fn languages(&self, breakdown: &Response) -> (r: Result<Vec<(String, u64)>, AppError>)
        ensures
            match r {
                Ok(v) => languages_outcome(*breakdown) == Ok::<Seq<(Seq<char>, u64)>, Seq<char>>(
                    language_views(v@),
                ),
                Err(e) => languages_outcome(*breakdown) == Err::<Seq<(Seq<char>, u64)>, Seq<char>>(
                    e@,
                ),
            },
    {
        let body = unwrap_result(breakdown)?;
        match body {
            JsonValue::Object(fields) => {
                let mut out: Vec<(String, u64)> = Vec::new();
                let mut i: usize = 0;
                while i < fields.len()
                    invariant
                        i <= fields@.len(),
                        *body == JsonValue::Object(*fields),
                        response_body(*breakdown) == Ok::<JsonValue, Seq<char>>(*body),
                        language_counts(fields@.take(i as int)) == Some(language_views(out@)),
                    decreases fields@.len() - i,
                {
                    assert(fields@.take(i + 1).drop_last() =~= fields@.take(i as int));
                    assert(fields@.take(i + 1).last() == fields@[i as int]);
                    match &fields[i].1 {
                        JsonValue::Number(Some(n)) => {
                            out.push((fields[i].0.clone(), *n));
                            assert(language_views(out@) =~= language_views(
                                out@.drop_last(),
                            ).push((fields@[i as int].0@, *n)));
                        },
                        _ => {
                            proof {
                                assert(!(fields@[i as int].1 matches JsonValue::Number(Some(_))));
                                lemma_counts_stay_none(fields@, i as int + 1);
                            }
                            return Err(incorrect_json());
                        },
                    }
                    i = i + 1;
                }
                assert(fields@.take(fields@.len() as int) =~= fields@);
                Ok(out)
            },
            _ => Err(incorrect_json()),
        }
    }

    /// The text of one file: its base64 `content`, with line breaks taken out,
    /// decoded and read as UTF-8.
    pub fn file_contents(&self, file: &Response) -> (r: Result<String, AppError>)
        ensures
            match encoded_content(*file) {
                Err(m) => r matches Err(e) && e@ == m,
                Ok(t) => match base64_decoded(t) {
                    None => r is Err,
                    Some(b) => if valid_utf8(b) {
                        r matches Ok(s) && s@ == decode_utf8(b)
                    } else {
                        r is Err
                    },
                },
            },
    {
        let body = unwrap_result(file)?;
        let fields = match body {
            JsonValue::Object(fields) => fields,
            _ => return Err(incorrect_json()),
        };
        let encoded = match get_member(fields, "content") {
            None => {
                return Err(
                    AppError::new("File contents call response is missing the `content` field"),
                )
            },
            Some(JsonValue::Str(c)) => remove_char(c.as_str(), '\n'),
            Some(_) => return Err(AppError::new("Unsupported `content` field type")),
        };
        let bytes = match decode_base64(encoded.as_str()) {
            Ok(b) => b,
            Err(msg) => return Err(AppError::new(msg.as_str())),
        };
        match utf8_text(&bytes) {
            Ok(s) => Ok(s),
            Err(msg) => Err(AppError::new(msg.as_str())),
        }
    }
}

proof fn lemma_counts_stay_none(fields: Seq<(String, JsonValue)>, k: int)
    requires
        0 < k <= fields.len(),
        !(fields[k - 1].1 matches JsonValue::Number(Some(_))),
    ensures
        language_counts(fields) is None,
    decreases fields.len() - k,
{
    if k == fields.len() {
        assert(fields.last() == fields[k - 1]);
    } else {
        assert(fields.drop_last().len() == fields.len() - 1);
        assert(fields.drop_last()[k - 1] == fields[k - 1]);
        lemma_counts_stay_none(fields.drop_last(), k);
    }
}

} // verus!
