//! The parts of the GitHub client that decide and compute: the user cache,
//! the text shown for a user, URLs and the pull-request number of a ref.
use crate::decimal::decimal_u32;
use crate::git::BlameLine;
use crate::jsondoc::{get_field, get_field_of, json_document, json_get, json_get_of, parse_json, Json};
use vstd::prelude::*;
use vstd::string::StringSliceAdditionalSpecFns;

verus! {

/// A GitHub account.
pub struct GithubUser {
    pub username: String,
    pub avatar_url: String,
    pub url: String,
}

/// What a user record holds: login, avatar URL and profile URL.
pub struct GithubUserView {
    pub username: Seq<char>,
    pub avatar_url: Seq<char>,
    pub url: Seq<char>,
}

impl View for GithubUser {
    type V = GithubUserView;

    open spec fn view(&self) -> GithubUserView {
        GithubUserView { username: self.username@, avatar_url: self.avatar_url@, url: self.url@ }
    }
}

impl GithubUser {
    pub fn new(username: &str, avatar_url: &str, url: &str) -> (r: GithubUser)
        ensures
            r@ == (GithubUserView { username: username@, avatar_url: avatar_url@, url: url@ }),
    {
        GithubUser { username: username.to_owned(), avatar_url: avatar_url.to_owned(), url: url.to_owned() }
    }

    /// A copy of the record.
    pub fn duplicate(&self) -> (r: GithubUser)
        ensures
            r@ == self@,
    {
        GithubUser { username: self.username.clone(), avatar_url: self.avatar_url.clone(), url: self.url.clone() }
    }
}

pub open spec fn opt_user_view(u: Option<GithubUser>) -> Option<GithubUserView> {
    match u {
        Some(u) => Some(u@),
        None => None,
    }
}

/// The cache as a map from email to what was found for it (`None`: no
/// account), the later of two entries for one email winning.
pub open spec fn cache_map(s: Seq<(String, Option<GithubUser>)>) -> Map<Seq<char>, Option<GithubUserView>>
    decreases s.len(),
{
    if s.len() == 0 {
        Map::empty()
    } else {
        cache_map(s.drop_last()).insert(s.last().0@, opt_user_view(s.last().1))
    }
}

proof fn lemma_cache_map_suffix(s: Seq<(String, Option<GithubUser>)>, i: int, k: Seq<char>)
    requires
        0 <= i <= s.len(),
        forall|j: int| i <= j < s.len() ==> #[trigger] s[j].0@ != k,
    ensures
        cache_map(s).contains_key(k) == cache_map(s.take(i)).contains_key(k),
        cache_map(s).contains_key(k) ==> cache_map(s)[k] == cache_map(s.take(i))[k],
    decreases s.len() - i,
{
    if i < s.len() {
        assert(s.drop_last().take(i) == s.take(i));
        lemma_cache_map_suffix(s.drop_last(), i, k);
    } else {
        assert(s.take(i) == s);
    }
}

/// The client of one repository of the GitHub API, with a cache of the
/// accounts found by email.
pub struct GitHubClient {
    token: String,
    api_url: String,
    repo: String,
    user_cache: Vec<(String, Option<GithubUser>)>,
}

impl GitHubClient {
    pub closed spec fn spec_api_url(&self) -> Seq<char> {
        self.api_url@
    }

    pub closed spec fn spec_repo(&self) -> Seq<char> {
        self.repo@
    }

    pub closed spec fn spec_token(&self) -> Seq<char> {
        self.token@
    }

    /// What the cache holds for each email.
    pub closed spec fn cache(&self) -> Map<Seq<char>, Option<GithubUserView>> {
        cache_map(self.user_cache@)
    }

    pub fn new(api_url: &str, repo: &str, token: &str) -> (r: GitHubClient)
        ensures
            r.spec_api_url() == api_url@,
            r.spec_repo() == repo@,
            r.spec_token() == token@,
            r.cache() == Map::<Seq<char>, Option<GithubUserView>>::empty(),
    {
        GitHubClient {
            api_url: api_url.to_owned(),
            repo: repo.to_owned(),
            token: token.to_owned(),
            user_cache: Vec::new(),
        }
    }

    /// The repository, written `owner/name`.
    pub fn get_repo(&self) -> (r: &str)
        ensures
            r@ == self.spec_repo(),
    {
        self.repo.as_str()
    }

    pub fn get_token(&self) -> (r: &str)
        ensures
            r@ == self.spec_token(),
    {
        self.token.as_str()
    }

    /// Remembers what was found for `email`: an account, or none.
    pub fn store_cache_user(&mut self, email: &str, user: &Option<GithubUser>)
        ensures
            final(self).cache() == old(self).cache().insert(email@, opt_user_view(*user)),
            final(self).spec_api_url() == old(self).spec_api_url(),
            final(self).spec_repo() == old(self).spec_repo(),
            final(self).spec_token() == old(self).spec_token(),
    {
        let record = match user {
            Some(u) => Some(u.duplicate()),
            None => None,
        };
        let entry = (email.to_owned(), record);
        self.user_cache.push(entry);
        assert(self.user_cache@.drop_last() == old(self).user_cache@);
    }

    /// What is remembered for `email`: `None` when nothing is, `Some(None)`
    /// when it is remembered that there is no account.
    pub fn get_cached_record(&self, email: &str) -> (r: Option<Option<GithubUser>>)
        ensures
            r is Some <==> self.cache().contains_key(email@),
            r matches Some(u) ==> opt_user_view(u) == self.cache()[email@],
    {
        let key = email.to_owned();
        let mut i: usize = self.user_cache.len();
        while i > 0
            invariant
                i <= self.user_cache.len(),
                key@ == email@,
                forall|j: int| i <= j < self.user_cache.len() ==> #[trigger] self.user_cache@[j].0@ != email@,
            decreases i,
        {
            let entry = &self.user_cache[i - 1];
            if entry.0 == key {
                proof {
                    lemma_cache_map_suffix(self.user_cache@, i as int, email@);
                    let t = self.user_cache@.take(i as int);
                    assert(t.drop_last() == self.user_cache@.take(i - 1));
                    assert(t.last() == *entry);
                }
                return Some(
                    match &entry.1 {
                        Some(u) => Some(u.duplicate()),
                        None => None,
                    },
                );
            }
            i = i - 1;
        }
        proof {
            lemma_cache_map_suffix(self.user_cache@, 0, email@);
            assert(self.user_cache@.take(0) =~= Seq::<(String, Option<GithubUser>)>::empty());
        }
        None
    }

    /// The account remembered for `email`; `None` when none is remembered or
    /// when it is remembered that there is none.
    pub fn get_cached_user(&self, email: &str) -> (r: Option<GithubUser>)
        ensures
            opt_user_view(r) == (if self.cache().contains_key(email@) {
                self.cache()[email@]
            } else {
                None
            }),
    {
        match self.get_cached_record(email) {
            Some(u) => u,
            None => None,
        }
    }

    /// The address of the comments of pull request `pull_request_number`.
    pub fn create_pr_comment_url(&self, pull_request_number: u32) -> (r: String)
        ensures
            r@ == self.spec_api_url() + "/repos/"@ + self.spec_repo() + "/issues/"@ + decimal_text(
                pull_request_number as nat,
            ) + "/comments"@,
    {
        let mut url = self.api_url.clone();
        url.append("/repos/");
        url.append(self.repo.as_str());
        url.append("/issues/");
        url.append(decimal_string(pull_request_number as u64).as_str());
        url.append("/comments");
        url
    }

    /// How a user appears in the report: avatar linking to the profile, then
    /// the name.
    pub fn create_user_display(&self, name: &str, url: &str, avatar_url: &str) -> (r: String)
        ensures
            r@ == user_display_text(name@, url@, avatar_url@),
    {
        let mut s = "<a href=\"".to_owned();
        s.append(url);
        s.append("\"><img src=\"");
        s.append(avatar_url);
        s.append("\" width=\"20\"/></a> | ");
        s.append(name);
        s
    }

    /// How a user without a GitHub account appears: a generic avatar, and
    /// the name, or `unknown`.
    pub fn create_unknown_user_display(&self, name: &Option<String>) -> (r: String)
        ensures
            r@ == unknown_user_display_text(*name),
    {
        let shown = must_get_name(name);
        self.create_user_display(
            shown.as_str(),
            "https://github.com",
            "https://avatars.githubusercontent.com/u/1234567890?v=4",
        )
    }
}

/// A run of lines that one commit by one author last changed, from
/// `starting_line` to `ending_line`, both included.
pub struct BlameRange {
    pub starting_line: u32,
    pub ending_line: u32,
    pub commit: String,
    pub name: String,
    pub email: String,
}

/// A blame line as plain values: line, commit, email, name.
pub type BlameLineTuple = (u32, Seq<char>, Option<Seq<char>>, Option<Seq<char>>);

pub open spec fn blame_tuple(b: BlameLine) -> BlameLineTuple {
    (b.spec_line(), b.spec_commit(), b.spec_email(), b.spec_name())
}

pub open spec fn blame_tuples(v: Seq<BlameLine>) -> Seq<BlameLineTuple> {
    v.map_values(|b: BlameLine| blame_tuple(b))
}

/// The lines of one range, one per line number.
pub open spec fn range_lines(r: BlameRange) -> Seq<BlameLineTuple> {
    let n: int = if r.ending_line >= r.starting_line {
        r.ending_line - r.starting_line + 1
    } else {
        0
    };
    Seq::new(n as nat, |i: int| ((r.starting_line + i) as u32, r.commit@, Some(r.email@), Some(r.name@)))
}

/// The lines of the ranges, range after range.
pub open spec fn expand_ranges(rs: Seq<BlameRange>) -> Seq<BlameLineTuple>
    decreases rs.len(),
{
    if rs.len() == 0 {
        Seq::empty()
    } else {
        expand_ranges(rs.drop_last()) + range_lines(rs.last())
    }
}

/// One line per line number of every range, range after range.
pub fn expand_blame_ranges(ranges: &Vec<BlameRange>) -> (r: Vec<BlameLine>)
    ensures
        blame_tuples(r@) == expand_ranges(ranges@),
{
    let mut out: Vec<BlameLine> = Vec::new();
    let mut k: usize = 0;
    while k < ranges.len()
        invariant
            k <= ranges.len(),
            blame_tuples(out@) == expand_ranges(ranges@.take(k as int)),
        decreases ranges.len() - k,
    {
        let range = &ranges[k];
        let ghost base = blame_tuples(out@);
        let ghost want = range_lines(*range);
        let end: u64 = range.ending_line as u64;
        let mut line: u64 = range.starting_line as u64;
        while line <= end
            invariant
                range.starting_line <= line <= end + 1 || (line == range.starting_line && end < line),
                end == range.ending_line,
                want == range_lines(*range),
                blame_tuples(out@) == base + want.take(line - range.starting_line),
            decreases end + 1 - line,
        {
            let ghost before = out@;
            let b = BlameLine::new(line as u32, range.commit.as_str(), Some(range.email.clone()), Some(range.name.clone()));
            out.push(b);
            assert(out@ == before.push(b));
            assert(want.take(line + 1 - range.starting_line) =~= want.take(line - range.starting_line).push(
                want[line - range.starting_line],
            ));
            assert(blame_tuples(out@) =~= blame_tuples(before).push(blame_tuple(b)));
            line = line + 1;
        }
        assert(want.take(want.len() as int) == want);
        assert(ranges@.take(k + 1).drop_last() == ranges@.take(k as int));
        k = k + 1;
    }
    assert(ranges@.take(ranges.len() as int) == ranges@);
    out
}

/// A field that holds a `u32`.
pub open spec fn u32_field(v: Json, key: Seq<char>) -> Option<u32> {
    match get_field(v, key) {
        Some(Json::Number(Some(n))) => Some(n),
        _ => None,
    }
}

/// A field that holds a string.
pub open spec fn str_field(v: Option<Json>, key: Seq<char>) -> Option<String> {
    match get_field_of(v, key) {
        Some(Json::Str(s)) => Some(s),
        _ => None,
    }
}

/// The range that one element of the GraphQL `ranges` list describes.
pub open spec fn range_of(v: Json) -> Option<BlameRange> {
    let commit = get_field(v, "commit"@);
    let author = get_field_of(commit, "author"@);
    let start = u32_field(v, "startingLine"@);
    let end = u32_field(v, "endingLine"@);
    let oid = str_field(commit, "oid"@);
    let name = str_field(author, "name"@);
    let email = str_field(author, "email"@);
    if start is Some && end is Some && oid is Some && name is Some && email is Some {
        Some(
            BlameRange {
                starting_line: start->0,
                ending_line: end->0,
                commit: oid->0,
                name: name->0,
                email: email->0,
            },
        )
    } else {
        None
    }
}

/// The ranges of a list, when every element describes one.
pub open spec fn ranges_of(items: Seq<Json>) -> Option<Seq<BlameRange>>
    decreases items.len(),
{
    if items.len() == 0 {
        Some(Seq::empty())
    } else {
        match (ranges_of(items.drop_last()), range_of(items.last())) {
            (Some(rs), Some(r)) => Some(rs.push(r)),
            _ => None,
        }
    }
}

/// The blame ranges of a GraphQL blame response: `None` when the response
/// reports errors, or has no list at
/// `data.repository.object.blame.ranges`, or one element of it lacks a
/// field.
pub open spec fn blame_ranges_of(doc: Json) -> Option<Seq<BlameRange>> {
    let data = get_field(doc, "data"@);
    let errors = get_field_of(data, "errors"@);
    let ranges = get_field_of(
        get_field_of(get_field_of(get_field_of(data, "repository"@), "object"@), "blame"@),
        "ranges"@,
    );
    if errors is Some && errors != Some(Json::Null) {
        None
    } else {
        match ranges {
            Some(Json::Array(items)) => ranges_of(items@),
            _ => None,
        }
    }
}

fn u32_field_exec(v: &Json, key: &str) -> (r: Option<u32>)
    ensures
        r == u32_field(*v, key@),
{
    match json_get(v, key) {
        Some(Json::Number(Some(n))) => Some(*n),
        _ => None,
    }
}

fn str_field_exec(v: Option<&Json>, key: &str) -> (r: Option<String>)
    ensures
        r == str_field(
            match v {
                Some(y) => Some(*y),
                None => None,
            },
            key@,
        ),
{
    match json_get_of(v, key) {
        Some(Json::Str(s)) => Some(s.clone()),
        _ => None,
    }
}

fn range_from_json(v: &Json) -> (r: Option<BlameRange>)
    ensures
        r == range_of(*v),
{
    let commit = json_get(v, "commit");
    let author = json_get_of(commit, "author");
    let start = u32_field_exec(v, "startingLine");
    let end = u32_field_exec(v, "endingLine");
    let oid = str_field_exec(commit, "oid");
    let name = str_field_exec(author, "name");
    let email = str_field_exec(author, "email");
    match (start, end, oid, name, email) {
        (Some(starting_line), Some(ending_line), Some(commit), Some(name), Some(email)) => Some(
            BlameRange { starting_line, ending_line, commit, name, email },
        ),
        _ => None,
    }
}

/// The blame ranges of a GraphQL blame response, as [`blame_ranges_of`]
/// describes them.
pub fn blame_ranges_from_json(doc: &Json) -> (r: Option<Vec<BlameRange>>)
    ensures
        match blame_ranges_of(*doc) {
            Some(rs) => r matches Some(v) && v@ == rs,
            None => r is None,
        },
{
    let data = json_get(doc, "data");
    let errors = json_get_of(data, "errors");
    let clean = match errors {
        Some(Json::Null) => true,
        Some(_) => false,
        None => true,
    };
    if !clean {
        return None;
    }
    assert(get_field_of(get_field(*doc, "data"@), "errors"@) is None || get_field_of(get_field(*doc, "data"@), "errors"@) == Some(Json::Null));
    let repository = json_get_of(data, "repository");
    let object = json_get_of(repository, "object");
    let blame = json_get_of(object, "blame");
    let ranges = json_get_of(blame, "ranges");
    let ghost spec_data = get_field(*doc, "data"@);
    let ghost spec_ranges = get_field_of(
        get_field_of(get_field_of(get_field_of(spec_data, "repository"@), "object"@), "blame"@),
        "ranges"@,
    );
    assert(spec_ranges == match ranges {
        Some(y) => Some(*y),
        None => None,
    });
    let items = match ranges {
        Some(Json::Array(items)) => items,
        _ => {
            return None;
        },
    };
    let mut out: Vec<BlameRange> = Vec::new();
    let mut i: usize = 0;
    while i < items.len()
        invariant
            i <= items.len(),
            blame_ranges_of(*doc) == ranges_of(items@),
            ranges_of(items@.take(i as int)) == Some(out@),
        decreases items.len() - i,
    {
        assert(items@.take(i + 1).drop_last() == items@.take(i as int));
        assert(items@.take(i + 1).last() == items@[i as int]);
        match range_from_json(&items[i]) {
            Some(r) => out.push(r),
            None => {
                proof {
                    lemma_ranges_of_prefix(items@, i + 1);
                }
                return None;
            },
        }
        i = i + 1;
    }
    assert(items@.take(items.len() as int) == items@);
    Some(out)
}

proof fn lemma_ranges_of_prefix(items: Seq<Json>, i: int)
    requires
        0 <= i <= items.len(),
        ranges_of(items.take(i)) is None,
    ensures
        ranges_of(items) is None,
    decreases items.len() - i,
{
    if i < items.len() {
        assert(items.take(i + 1).drop_last() == items.take(i));
        lemma_ranges_of_prefix(items, i + 1);
    } else {
        assert(items.take(i) == items);
    }
}

/// The text of a field as an account record reads it: a string as it is,
/// `null` for a missing or null field; `None` for any other value.
pub open spec fn text_field(v: Option<Json>, key: Seq<char>) -> Option<Seq<char>> {
    match get_field_of(v, key) {
        Some(Json::Str(s)) => Some(s@),
        Some(Json::Null) => Some("null"@),
        None => Some("null"@),
        _ => None,
    }
}

fn text_field_exec(v: Option<&Json>, key: &str) -> (r: Option<String>)
    ensures
        opt_text(r) == text_field(
            match v {
                Some(y) => Some(*y),
                None => None,
            },
            key@,
        ),
{
    match json_get_of(v, key) {
        Some(Json::Str(s)) => Some(s.clone()),
        Some(Json::Null) => Some("null".to_owned()),
        None => Some("null".to_owned()),
        _ => None,
    }
}

pub open spec fn opt_text(o: Option<String>) -> Option<Seq<char>> {
    match o {
        Some(s) => Some(s@),
        None => None,
    }
}

/// The account in the first item of a user search response, as the search
/// answers it: an error when `total_count` is missing, null or not a
/// whole number, or when `login`, `avatar_url` or `html_url` of the first
/// item is neither a string, nor null, nor missing (read as `null`); no
/// account when the count is zero or there is no item.
pub open spec fn searched_user_of(doc: Json) -> Option<Option<GithubUserView>> {
    let total = get_field(doc, "total_count"@);
    match total {
        Some(Json::Number(Some(n))) => if n == 0 {
            Some(None)
        } else {
            match get_field(doc, "items"@) {
                Some(Json::Array(items)) => if items@.len() == 0 {
                    Some(None)
                } else {
                    let item = Some(items@[0]);
                    let login = text_field(item, "login"@);
                    let avatar = text_field(item, "avatar_url"@);
                    let url = text_field(item, "html_url"@);
                    if login is Some && avatar is Some && url is Some {
                        Some(Some(GithubUserView { username: login->0, avatar_url: avatar->0, url: url->0 }))
                    } else {
                        None
                    }
                },
                _ => Some(None),
            }
        },
        _ => None,
    }
}

/// The account of a user search response, as [`searched_user_of`] says.
pub fn user_from_search_json(doc: &Json) -> (r: Result<Option<GithubUser>, String>)
    ensures
        match searched_user_of(*doc) {
            Some(u) => r matches Ok(found) && opt_user_view(found) == u,
            None => r is Err,
        },
{
    let n = match json_get(doc, "total_count") {
        Some(Json::Number(Some(n))) => *n,
        _ => {
            return Err("Invalid JSON response".to_owned());
        },
    };
    if n == 0 {
        return Ok(None);
    }
    match json_get(doc, "items") {
        Some(Json::Array(items)) => {
            if items.len() == 0 {
                return Ok(None);
            }
            let item = Some(&items[0]);
            let login = text_field_exec(item, "login");
            let avatar = text_field_exec(item, "avatar_url");
            let url = text_field_exec(item, "html_url");
            match (login, avatar, url) {
                (Some(username), Some(avatar_url), Some(url)) => Ok(Some(GithubUser { username, avatar_url, url })),
                _ => Err("Invalid JSON response".to_owned()),
            }
        },
        _ => Ok(None),
    }
}

impl GitHubClient {
    /// The account of a user search response; an error when the response is
    /// not JSON or not a search answer.
    pub fn parse_user_from_search_response(response: &str) -> (r: Result<Option<GithubUser>, String>)
        ensures
            match json_document(response@) {
                Some(doc) => match searched_user_of(doc) {
                    Some(u) => r matches Ok(found) && opt_user_view(found) == u,
                    None => r is Err,
                },
                None => r is Err,
            },
    {
        match parse_json(response) {
            Some(doc) => user_from_search_json(&doc),
            None => Err("Failed to parse JSON".to_owned()),
        }
    }

    /// The blame lines of a GraphQL blame response, one per line of each
    /// range; an error when the response is not JSON, reports errors, or
    /// lacks a part of a range.
    pub fn parse_blame_lines_from_graphql_blame_result(response: &str) -> (r: Result<Vec<BlameLine>, String>)
        ensures
            match json_document(response@) {
                Some(doc) => match blame_ranges_of(doc) {
                    Some(rs) => r matches Ok(v) && blame_tuples(v@) == expand_ranges(rs),
                    None => r is Err,
                },
                None => r is Err,
            },
    {
        let doc = match parse_json(response) {
            Some(doc) => doc,
            None => {
                return Err("Failed to parse JSON".to_owned());
            },
        };
        match blame_ranges_from_json(&doc) {
            Some(ranges) => Ok(expand_blame_ranges(&ranges)),
            None => Err("Invalid JSON response".to_owned()),
        }
    }
}

/// An avatar linking to a profile, then a name.
pub open spec fn user_display_text(name: Seq<char>, url: Seq<char>, avatar_url: Seq<char>) -> Seq<char> {
    "<a href=\""@ + url + "\"><img src=\""@ + avatar_url + "\" width=\"20\"/></a> | "@ + name
}

/// A generic avatar, then the name or `unknown`.
pub open spec fn unknown_user_display_text(name: Option<String>) -> Seq<char> {
    user_display_text(
        name_or_unknown(name),
        "https://github.com"@,
        "https://avatars.githubusercontent.com/u/1234567890?v=4"@,
    )
}

/// Relies on str::split_once with a char pattern: the text before and after
/// the first `/`, or nothing when there is no `/`.
#[verifier::external_body]
fn split_at_first_slash(s: &str) -> (r: Option<(String, String)>)
    ensures
        match r {
            Some((before, after)) => before@ + seq!['/'] + after@ == s@ && !before@.contains('/'),
            None => !s@.contains('/'),
        },
{
    s.split_once('/').map(|(before, after)| (before.to_string(), after.to_string()))
}

/// A lowercase hexadecimal digit.
pub open spec fn hex_char(d: nat) -> char {
    if d < 10 {
        digit_char(d)
    } else if d == 10 {
        'a'
    } else if d == 11 {
        'b'
    } else if d == 12 {
        'c'
    } else if d == 13 {
        'd'
    } else if d == 14 {
        'e'
    } else {
        'f'
    }
}

/// How a character stands inside a JSON string: `"` and `\` escaped, the
/// control characters written `\b \t \n \f \r` or `\u00XX`.
pub open spec fn json_escaped_char(c: char) -> Seq<char> {
    let n = c as u32;
    if c == '"' {
        seq!['\\', '"']
    } else if c == '\\' {
        seq!['\\', '\\']
    } else if n == 8 {
        seq!['\\', 'b']
    } else if n == 9 {
        seq!['\\', 't']
    } else if n == 10 {
        seq!['\\', 'n']
    } else if n == 12 {
        seq!['\\', 'f']
    } else if n == 13 {
        seq!['\\', 'r']
    } else if n < 32 {
        seq!['\\', 'u', '0', '0', hex_char((n / 16) as nat), hex_char((n % 16) as nat)]
    } else {
        seq![c]
    }
}

/// The characters of a text, each as it stands inside a JSON string.
pub open spec fn json_escaped(s: Seq<char>) -> Seq<char>
    decreases s.len(),
{
    if s.len() == 0 {
        Seq::empty()
    } else {
        json_escaped(s.drop_last()) + json_escaped_char(s.last())
    }
}

/// The compact JSON text of an object with the one string field `key`.
pub open spec fn json_object_text(key: Seq<char>, value: Seq<char>) -> Seq<char> {
    "{\""@ + json_escaped(key) + "\":\""@ + json_escaped(value) + "\"}"@
}

/// Relies on json's JsonValue::new_object, its index assignment and
/// JsonValue::dump: the compact text of `{key: value}`, strings escaped as
/// json's generator writes them.
#[verifier::external_body]
fn json_object_of(key: &str, value: &str) -> (r: String)
    ensures
        r@ == json_object_text(key@, value@),
{
    let mut data = json::JsonValue::new_object();
    data[key] = value.into();
    data.dump()
}

/// The GraphQL query for the blame of `path` on branch `branch` of the
/// repository `owner/name`.
pub open spec fn blame_query_text(owner: Seq<char>, name: Seq<char>, branch: Seq<char>, path: Seq<char>) -> Seq<char> {
    "\nquery {\n  repository(\n      owner:\""@ + owner + "\", \n      name:\""@ + name
        + "\"\n  ) {\n      object(expression: \""@ + branch + "\") {\n        ... on Commit {\n          blame(path: \""@
        + path
        + "\") {\n              ranges {\n              startingLine,\n              endingLine,\n              commit {\n                oid,\n                author {\n                  name,\n                  email\n                }\n              }\n            }\n          }\n        }\n      }\n    }\n}\n"@
}

impl GitHubClient {
    /// The address of the user search for `email`.
    pub fn create_search_user_url(&self, email: &str) -> (r: String)
        ensures
            r@ == self.spec_api_url() + "/search/users?q="@ + email@,
    {
        let mut url = self.api_url.clone();
        url.append("/search/users?q=");
        url.append(email);
        url
    }

    /// The address of the GraphQL API.
    pub fn create_graphql_url(&self) -> (r: String)
        ensures
            r@ == self.spec_api_url() + "/graphql"@,
    {
        let mut url = self.api_url.clone();
        url.append("/graphql");
        url
    }

    /// The body of the request that comments `body` on a pull request.
    pub fn create_comment_request_body(&self, body: &str) -> (r: String)
        ensures
            r@ == json_object_text("body"@, body@),
    {
        json_object_of("body", body)
    }

    /// The body of the GraphQL request for the blame of `path` on `main`;
    /// `None` when the repository is not written `owner/name`.
    pub fn create_graphql_blame_request_body(&self, path: &str) -> (r: Option<String>)
        ensures
            match r {
                Some(body) => exists|owner: Seq<char>, name: Seq<char>|
                    owner + seq!['/'] + name == self.spec_repo() && !owner.contains('/') && body@ == json_object_text(
                        "query"@,
                        blame_query_text(owner, name, "main"@, path@),
                    ),
                None => !self.spec_repo().contains('/'),
            },
    {
        match split_at_first_slash(self.repo.as_str()) {
            None => None,
            Some((owner, name)) => {
                let mut q = "\nquery {\n  repository(\n      owner:\"".to_owned();
                q.append(owner.as_str());
                q.append("\", \n      name:\"");
                q.append(name.as_str());
                q.append("\"\n  ) {\n      object(expression: \"");
                q.append("main");
                q.append("\") {\n        ... on Commit {\n          blame(path: \"");
                q.append(path);
                q.append("\") {\n              ranges {\n              startingLine,\n              endingLine,\n              commit {\n                oid,\n                author {\n                  name,\n                  email\n                }\n              }\n            }\n          }\n        }\n      }\n    }\n}\n");
                Some(json_object_of("query", q.as_str()))
            },
        }
    }
}

/// A name, or `unknown` when there is none.
pub open spec fn name_or_unknown(name: Option<String>) -> Seq<char> {
    match name {
        Some(n) => n@,
        None => "unknown"@,
    }
}

/// A name, or `unknown` when there is none.
pub fn must_get_name(name: &Option<String>) -> (r: String)
    ensures
        r@ == name_or_unknown(*name),
{
    match name {
        Some(n) => n.clone(),
        None => "unknown".to_owned(),
    }
}

pub open spec fn digit_char(d: nat) -> char {
    if d == 0 {
        '0'
    } else if d == 1 {
        '1'
    } else if d == 2 {
        '2'
    } else if d == 3 {
        '3'
    } else if d == 4 {
        '4'
    } else if d == 5 {
        '5'
    } else if d == 6 {
        '6'
    } else if d == 7 {
        '7'
    } else if d == 8 {
        '8'
    } else {
        '9'
    }
}

/// `n` in decimal, without sign or leading zeros.
pub open spec fn decimal_text(n: nat) -> Seq<char>
    decreases n,
{
    if n < 10 {
        seq![digit_char(n)]
    } else {
        decimal_text(n / 10).push(digit_char(n % 10))
    }
}

pub fn digit_str(d: u64) -> (r: &'static str)
    requires
        d < 10,
    ensures
        r@ == seq![digit_char(d as nat)],
{
    proof {
        reveal_strlit("0");
        reveal_strlit("1");
        reveal_strlit("2");
        reveal_strlit("3");
        reveal_strlit("4");
        reveal_strlit("5");
        reveal_strlit("6");
        reveal_strlit("7");
        reveal_strlit("8");
        reveal_strlit("9");
    }
    let r = match d {
        0 => "0",
        1 => "1",
        2 => "2",
        3 => "3",
        4 => "4",
        5 => "5",
        6 => "6",
        7 => "7",
        8 => "8",
        _ => "9",
    };
    assert(r@ =~= seq![digit_char(d as nat)]);
    r
}

/// `n` written in decimal.
pub fn decimal_string(n: u64) -> (r: String)
    ensures
        r@ == decimal_text(n as nat),
    decreases n,
{
    if n < 10 {
        digit_str(n).to_owned()
    } else {
        let mut s = decimal_string(n / 10);
        s.append(digit_str(n % 10));
        s
    }
}

/// `i` is the position of the first `/` of `b`.
pub open spec fn is_first_slash(b: Seq<u8>, i: int) -> bool {
    &&& 0 <= i < b.len()
    &&& b[i] == 47
    &&& forall|j: int| 0 <= j < i ==> b[j] != 47
}

/// The pull-request number of a ref `<number>/<rest>`: the decimal number
/// before the first `/`.
pub open spec fn pr_number_of(b: Seq<u8>) -> Option<u32> {
    if exists|i: int| is_first_slash(b, i) {
        decimal_u32(b.take(choose|i: int| is_first_slash(b, i)))
    } else {
        None
    }
}

/// Parses the pull request number from a GitHub ref such as `715/merge`.
pub fn parse_pr_number_from_ref(github_ref: &str) -> (r: Option<u32>)
    ensures
        r == pr_number_of(github_ref.spec_bytes()),
{
    let b = github_ref.as_bytes();
    let mut i: usize = 0;
    while i < b.len()
        invariant
            i <= b.len(),
            b@ == github_ref.spec_bytes(),
            forall|j: int| 0 <= j < i ==> b@[j] != 47,
        decreases b.len() - i,
    {
        if b[i] == 47 {
            proof {
                assert(is_first_slash(b@, i as int));
                let k = choose|k: int| is_first_slash(b@, k);
                if k < i {
                    assert(b@[k] != 47);
                } else if k > i {
                    assert(b@[i as int] != 47);
                }
                assert(k == i);
            }
            let head = vstd::slice::slice_subrange(b, 0, i);
            assert(head@ =~= b@.take(i as int));
            assert(pr_number_of(b@) == decimal_u32(b@.take(i as int)));
            return crate::decimal::parse_u32(head);
        }
        i = i + 1;
    }
    None
}

} // verus!
