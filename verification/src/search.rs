//! The search side: query encoding, the request URLs of the two registries,
//! the routing of a search by ecosystem, the cache key of a search, the
//! reading of registry answers into candidates, and the messages of failed
//! requests.

use vstd::prelude::*;
use crate::text::{concat, chars_of, contains_text, occurs_at, decimal, decimal_string, lowercase, lowercased, push_all, push_char, text_contains, text_equals, trim, trimmed};
use crate::types::{Candidate, CandidateModel, models, texts};

verus! {

/// A byte that the query encoding keeps as it is: ASCII letters, digits and
/// `-`, `_`, `.`, `~`.
pub open spec fn is_unreserved(b: u8) -> bool {
    ||| 65 <= b <= 90
    ||| 97 <= b <= 122
    ||| 48 <= b <= 57
    ||| b == 45
    ||| b == 95
    ||| b == 46
    ||| b == 126
}

/// The upper-case hexadecimal digit of `n < 16`.
pub open spec fn hex_digit(n: int) -> char {
    if n < 10 { (48 + n) as char } else { (55 + n) as char }
}

/// The encoding of one byte: kept, `+` for a space, else `%` and two
/// upper-case hexadecimal digits.
pub open spec fn encode_byte(b: u8) -> Seq<char> {
    if is_unreserved(b) {
        seq![b as char]
    } else if b == 32 {
        seq!['+']
    } else {
        seq!['%', hex_digit((b / 16) as int), hex_digit((b % 16) as int)]
    }
}

/// The encoding of a byte string, byte by byte.
pub open spec fn percent_encode(bs: Seq<u8>) -> Seq<char>
    decreases bs.len(),
{
    if bs.len() == 0 {
        Seq::empty()
    } else {
        percent_encode(bs.drop_last()) + encode_byte(bs.last())
    }
}

fn hex_digit_exec(n: u8) -> (c: char)
    requires
        n < 16,
    ensures
        c == hex_digit(n as int),
{
    if n < 10 { (48 + n) as char } else { (55 + n) as char }
}

/// Percent-encode a query string. Keeps unreserved + space-as-plus.
pub fn encode_query(query: &str) -> (r: String)
    ensures
        r@ == percent_encode(vstd::utf8::encode_utf8(query@)),
{
    let b = query.as_bytes();
    let mut out = String::new();
    let mut i: usize = 0;
    while i < b.len()
        invariant
            i <= b@.len(),
            b@ == vstd::utf8::encode_utf8(query@),
            out@ == percent_encode(b@.subrange(0, i as int)),
        decreases b@.len() - i,
    {
        let x = b[i];
        let ghost before = out@;
        if (65 <= x && x <= 90) || (97 <= x && x <= 122) || (48 <= x && x <= 57) || x == 45 || x == 95 || x == 46 || x == 126 {
            push_char(&mut out, x as char);
        } else if x == 32 {
            push_char(&mut out, '+');
        } else {
            push_char(&mut out, '%');
            push_char(&mut out, hex_digit_exec(x / 16));
            push_char(&mut out, hex_digit_exec(x % 16));
        }
        proof {
            let p = b@.subrange(0, i + 1);
            assert(p.drop_last() =~= b@.subrange(0, i as int));
            assert(p.last() == x);
            assert(out@ =~= before + encode_byte(x));
        }
        i += 1;
    }
    assert(b@.subrange(0, b@.len() as int) =~= b@);
    out
}

/// `limit`, but at least 4: the page size asked of a registry.
pub open spec fn page_size(limit: nat) -> nat {
    if limit >= 4 { limit } else { 4 }
}

/// The repository search URL of GitHub for `query`, sorted by stars.
pub open spec fn github_search_url_spec(query: Seq<char>, limit: nat) -> Seq<char> {
    "https://api.github.com/search/repositories?q="@ + percent_encode(vstd::utf8::encode_utf8(query))
        + "&sort=stars&order=desc&per_page="@ + decimal(page_size(limit))
}

/// The crate search URL of crates.io for `query`.
pub open spec fn crates_search_url_spec(query: Seq<char>, limit: nat) -> Seq<char> {
    "https://crates.io/api/v1/crates?q="@ + percent_encode(vstd::utf8::encode_utf8(query))
        + "&per_page="@ + decimal(page_size(limit))
}

fn append_str(out: &mut String, s: &str)
    ensures
        final(out)@ == old(out)@ + s@,
{
    let v = chars_of(s);
    push_all(out, &v);
}

fn append_decimal(out: &mut String, n: usize)
    ensures
        final(out)@ == old(out)@ + decimal(n as nat),
{
    let d = decimal_string(n as u64);
    append_str(out, d.as_str());
}

/// The GitHub repository search URL for `query`, asking for at least four
/// results.
pub fn github_search_url(query: &str, limit: usize) -> (r: String)
    ensures
        r@ == github_search_url_spec(query@, limit as nat),
{
    let mut out = "https://api.github.com/search/repositories?q=".to_owned();
    let e = encode_query(query);
    append_str(&mut out, e.as_str());
    append_str(&mut out, "&sort=stars&order=desc&per_page=");
    append_decimal(&mut out, if limit >= 4 { limit } else { 4 });
    out
}

/// The crates.io search URL for `query`, asking for at least four results.
pub fn crates_search_url(query: &str, limit: usize) -> (r: String)
    ensures
        r@ == crates_search_url_spec(query@, limit as nat),
{
    let mut out = "https://crates.io/api/v1/crates?q=".to_owned();
    let e = encode_query(query);
    append_str(&mut out, e.as_str());
    append_str(&mut out, "&per_page=");
    append_decimal(&mut out, if limit >= 4 { limit } else { 4 });
    out
}

/// The value of the `Authorization` header that carries `token`.
pub fn bearer_header(token: &str) -> (r: String)
    ensures
        r@ == "Bearer "@ + token@,
{
    let mut out = "Bearer ".to_owned();
    append_str(&mut out, token);
    out
}

/// Where a search goes.
#[derive(Debug)]
pub enum Route {
    /// GitHub only, with this many results.
    Github { limit: usize },
    /// crates.io only, with this many results.
    Crates { limit: usize },
    /// Both registries at once, the larger half of the results from GitHub.
    Both { github_limit: usize, crates_limit: usize },
}

/// The route of a search whose ecosystem, lower-cased, is `lowered`.
pub open spec fn route_spec(lowered: Seq<char>, total: usize) -> Route {
    if lowered == "github"@ {
        Route::Github { limit: total }
    } else if lowered == "crates"@ || lowered == "crates.io"@ || lowered == "rust"@ {
        Route::Crates { limit: total }
    } else {
        Route::Both { github_limit: (total / 2 + total % 2) as usize, crates_limit: (total / 2) as usize }
    }
}

/// The route of a search for the lower-cased ecosystem name `lowered`:
/// `github`, then `crates`, `crates.io` or `rust`, else both registries.
pub fn route_for(lowered: &str, total_limit: usize) -> (r: Route)
    ensures
        r == route_spec(lowered@, total_limit),
{
    if text_equals(lowered, "github") {
        Route::Github { limit: total_limit }
    } else if text_equals(lowered, "crates") || text_equals(lowered, "crates.io") || text_equals(lowered, "rust") {
        Route::Crates { limit: total_limit }
    } else {
        Route::Both { github_limit: total_limit / 2 + total_limit % 2, crates_limit: total_limit / 2 }
    }
}

/// The cache key of a search: the trimmed, lower-cased query, the
/// ecosystem as given and the limit, separated by `|`.
pub open spec fn search_key_spec(query: Seq<char>, ecosystem: Seq<char>, total: nat) -> Seq<char> {
    lowercase(trim(query)) + seq!['|'] + ecosystem + seq!['|'] + decimal(total)
}

/// What a search will do: its cache key and its route.
pub struct SearchPlan {
    pub key: String,
    pub route: Route,
}

/// The plan of a search for `query` in `ecosystem` with `total_limit`
/// results.
pub fn plan_search(query: &str, ecosystem: &str, total_limit: usize) -> (r: SearchPlan)
    ensures
        r.key@ == search_key_spec(query@, ecosystem@, total_limit as nat),
        r.route == route_spec(lowercase(ecosystem@), total_limit),
{
    let t = trimmed(query);
    let mut key = lowercased(t.as_str());
    push_char(&mut key, '|');
    append_str(&mut key, ecosystem);
    push_char(&mut key, '|');
    append_decimal(&mut key, total_limit);
    let lowered = lowercased(ecosystem);
    SearchPlan { key, route: route_for(lowered.as_str(), total_limit) }
}

/// A search goes to GitHub alone for `github`, to crates.io alone for
/// `crates`, `crates.io` or `rust`, each with the whole limit; any other
/// ecosystem searches both.
pub proof fn lemma_route_by_ecosystem(lowered: Seq<char>, total: usize)
    ensures
        lowered == "github"@ <==> route_spec(lowered, total) == (Route::Github { limit: total }),
        (lowered == "crates"@ || lowered == "crates.io"@ || lowered == "rust"@)
            <==> route_spec(lowered, total) == (Route::Crates { limit: total }),
        !(lowered == "github"@ || lowered == "crates"@ || lowered == "crates.io"@ || lowered == "rust"@)
            <==> route_spec(lowered, total) is Both,
{
    reveal_strlit("github");
    reveal_strlit("crates");
    reveal_strlit("crates.io");
    reveal_strlit("rust");
    assert("github"@.len() == 6 && "crates"@.len() == 6 && "crates.io"@.len() == 9 && "rust"@.len() == 4);
    assert("github"@[0] != "crates"@[0]);
}

/// A GitHub search refused for its rate (403 or 429) tells how to sign in
/// (`gh auth login`); a time-out says so; any other failure ends with the
/// error's own text.
pub proof fn lemma_github_failure_advice(f: FetchFailure)
    ensures
        f matches FetchFailure::Status { code, .. } ==> (code == 403 || code == 429
            ==> contains_text(github_failure_message_spec(f), "`gh auth login`"@)),
        f matches FetchFailure::Transport { detail, .. } ==> (contains_text(detail@, "timed out"@)
            ==> contains_text(github_failure_message_spec(f), "timed out"@)),
        f matches FetchFailure::Status { code, text } ==> (code != 403 && code != 429
            ==> github_failure_message_spec(f).len() >= text@.len()
                && github_failure_message_spec(f).subrange(
                    github_failure_message_spec(f).len() - text@.len(), github_failure_message_spec(f).len() as int) == text@),
        f matches FetchFailure::BadJson { detail }
            ==> github_failure_message_spec(f).len() >= detail@.len()
                && github_failure_message_spec(f).subrange(
                    github_failure_message_spec(f).len() - detail@.len(), github_failure_message_spec(f).len() as int) == detail@,
{
    let m = github_failure_message_spec(f);
    let needle = "`gh auth login`"@;
    reveal_strlit("`gh auth login`");
    match f {
        FetchFailure::Status { code, text } => {
            if code == 403 {
                reveal_strlit("GitHub search rate limited (403). Run `gh auth login`, then retry.");
                assert(m.subrange(38, 53) =~= needle);
                assert(occurs_at(m, needle, 38));
            } else if code == 429 {
                reveal_strlit("GitHub search rate limited (429). Run `gh auth login` or wait a minute, then retry.");
                assert(m.subrange(38, 53) =~= needle);
                assert(occurs_at(m, needle, 38));
            } else {
                let p = "GitHub search failed: "@;
                assert(m == p + text@);
                assert(m.subrange(m.len() - text@.len(), m.len() as int) =~= text@);
            }
        },
        FetchFailure::Transport { detail, text } => {
            if contains_text(detail@, "timed out"@) {
                reveal_strlit("GitHub search timed out. Retry on a better connection.");
                reveal_strlit("timed out");
                assert(m.subrange(14, 23) =~= "timed out"@);
                assert(occurs_at(m, "timed out"@, 14));
            }
        },
        FetchFailure::BadJson { detail } => {
            let p = "GitHub returned bad JSON: "@;
            assert(m == p + detail@);
            assert(m.subrange(m.len() - detail@.len(), m.len() as int) =~= detail@);
        },
    }
}

/// A crates.io search refused for its rate (429) says to wait (crates.io
/// searches carry no token, so there is no sign-in to advise); a time-out
/// says so; any other failure ends with the error's own text.
pub proof fn lemma_crates_failure_advice(f: FetchFailure)
    ensures
        f matches FetchFailure::Status { code, .. } ==> (code == 429
            ==> contains_text(crates_failure_message_spec(f), "Wait a minute"@)),
        f matches FetchFailure::Transport { detail, .. } ==> (contains_text(detail@, "timed out"@)
            ==> contains_text(crates_failure_message_spec(f), "timed out"@)),
        f matches FetchFailure::Status { code, text } ==> (code != 429
            ==> crates_failure_message_spec(f).len() >= text@.len()
                && crates_failure_message_spec(f).subrange(
                    crates_failure_message_spec(f).len() - text@.len(), crates_failure_message_spec(f).len() as int) == text@),
        f matches FetchFailure::BadJson { detail }
            ==> crates_failure_message_spec(f).len() >= detail@.len()
                && crates_failure_message_spec(f).subrange(
                    crates_failure_message_spec(f).len() - detail@.len(), crates_failure_message_spec(f).len() as int) == detail@,
{
    let m = crates_failure_message_spec(f);
    match f {
        FetchFailure::Status { code, text } => {
            if code == 429 {
                reveal_strlit("crates.io rate limited (429). Wait a minute, then retry.");
                reveal_strlit("Wait a minute");
                assert(m.subrange(30, 43) =~= "Wait a minute"@);
                assert(occurs_at(m, "Wait a minute"@, 30));
            } else {
                let p = "crates.io search failed: "@;
                assert(m == p + text@);
                assert(m.subrange(m.len() - text@.len(), m.len() as int) =~= text@);
            }
        },
        FetchFailure::Transport { detail, text } => {
            if contains_text(detail@, "timed out"@) {
                reveal_strlit("crates.io timed out. Retry on a better connection.");
                reveal_strlit("timed out");
                assert(m.subrange(10, 19) =~= "timed out"@);
                assert(occurs_at(m, "timed out"@, 10));
            }
        },
        FetchFailure::BadJson { detail } => {
            let p = "crates.io returned bad JSON: "@;
            assert(m == p + detail@);
            assert(m.subrange(m.len() - detail@.len(), m.len() as int) =~= detail@);
        },
    }
}

/// The share of each registry in a search over both never exceeds the total.
pub proof fn lemma_both_split_covers_total(lowered: Seq<char>, total: usize)
    ensures
        route_spec(lowered, total) matches Route::Both { github_limit, crates_limit }
            ==> github_limit + crates_limit == total && crates_limit <= github_limit <= crates_limit + 1,
{
}

} // verus!

verus! {

/// What the candidate reading takes from one repository of a GitHub search
/// answer: each field as its JSON string (or number) when it is one.
#[derive(Debug)]
pub struct GithubItem {
    pub full_name: Option<String>,
    pub name: Option<String>,
    pub description: Option<String>,
    pub html_url: Option<String>,
    pub stargazers_count: Option<u64>,
    /// `license.spdx_id`
    pub license_spdx_id: Option<String>,
    pub updated_at: Option<String>,
    pub pushed_at: Option<String>,
    pub language: Option<String>,
    /// The `topics` array, each entry when it is a string.
    pub topics: Option<Vec<Option<String>>>,
}

/// What the candidate reading takes from one crate of a crates.io answer.
#[derive(Debug)]
pub struct CrateItem {
    pub name: Option<String>,
    pub description: Option<String>,
    pub downloads: Option<u64>,
    pub updated_at: Option<String>,
    pub license: Option<String>,
}

/// The text of `o`, or `default` when there is none.
pub open spec fn text_or(o: Option<String>, default: Seq<char>) -> Seq<char> {
    match o {
        Some(s) => s@,
        None => default,
    }
}

/// The strings among `v`, in order.
pub open spec fn present_texts(v: Seq<Option<String>>) -> Seq<Seq<char>>
    decreases v.len(),
{
    if v.len() == 0 {
        Seq::empty()
    } else {
        let rest = present_texts(v.drop_last());
        match v.last() {
            Some(s) => rest.push(s@),
            None => rest,
        }
    }
}

/// The candidate that a GitHub repository gives, if it has a full name.
pub open spec fn github_candidate_spec(it: GithubItem) -> Option<CandidateModel> {
    let full = text_or(it.full_name, Seq::empty());
    if full.len() == 0 {
        None
    } else {
        Some(CandidateModel {
            id: full,
            name: text_or(it.name, Seq::empty()),
            description: text_or(it.description, "No description provided"@),
            url: text_or(it.html_url, Seq::empty()),
            stars: match it.stargazers_count { Some(n) => n, None => 0 },
            downloads: 0,
            license: text_or(it.license_spdx_id, "None"@),
            updated_at: text_or(it.updated_at, Seq::empty()),
            pushed_at: text_or(it.pushed_at, Seq::empty()),
            language: text_or(it.language, Seq::empty()),
            topics: match it.topics { Some(v) => present_texts(v@), None => Seq::empty() },
            ecosystem: "github"@,
            install_cmd: "gh repo clone "@ + full,
        })
    }
}

/// The license of a crate: its text when present and not empty, else
/// `Unknown`.
pub open spec fn crate_license(o: Option<String>) -> Seq<char> {
    match o {
        Some(s) => if s@.len() > 0 { s@ } else { "Unknown"@ },
        None => "Unknown"@,
    }
}

/// The candidate that a crate gives, if it has a name.
pub open spec fn crate_candidate_spec(it: CrateItem) -> Option<CandidateModel> {
    let name = text_or(it.name, Seq::empty());
    if name.len() == 0 {
        None
    } else {
        Some(CandidateModel {
            id: "crate:"@ + name,
            name: name,
            description: text_or(it.description, "No description provided"@),
            url: "https://crates.io/crates/"@ + name,
            stars: 0,
            downloads: match it.downloads { Some(n) => n, None => 0 },
            license: crate_license(it.license),
            updated_at: text_or(it.updated_at, Seq::empty()),
            pushed_at: Seq::empty(),
            language: "Rust"@,
            topics: Seq::empty(),
            ecosystem: "crates.io"@,
            install_cmd: "cargo add "@ + name,
        })
    }
}

/// A GitHub repository becomes a candidate exactly when it has a non-empty
/// full name. The candidate keeps what the repository gives: its full name
/// as id, its name, description, URL, star count, license, dates, language;
/// a default stands only where the repository gives none.
pub proof fn lemma_github_candidate_fields(it: GithubItem)
    ensures
        github_candidate_spec(it) is Some <==> (it.full_name matches Some(f) && f@.len() > 0),
        github_candidate_spec(it) matches Some(c) ==> {
            &&& it.full_name matches Some(f) && c.id == f@
            &&& (it.name matches Some(n) ==> c.name == n@)
            &&& (it.name is None ==> c.name.len() == 0)
            &&& (it.description matches Some(d) ==> c.description == d@)
            &&& (it.description is None ==> c.description == "No description provided"@)
            &&& (it.html_url matches Some(u) ==> c.url == u@)
            &&& (it.html_url is None ==> c.url.len() == 0)
            &&& (it.stargazers_count matches Some(n) ==> c.stars == n)
            &&& (it.stargazers_count is None ==> c.stars == 0)
            &&& c.downloads == 0
            &&& (it.license_spdx_id matches Some(l) ==> c.license == l@)
            &&& (it.license_spdx_id is None ==> c.license == "None"@)
            &&& (it.updated_at matches Some(u) ==> c.updated_at == u@)
            &&& (it.pushed_at matches Some(u) ==> c.pushed_at == u@)
            &&& (it.language matches Some(l) ==> c.language == l@)
            &&& (it.topics is None ==> c.topics.len() == 0)
            &&& c.ecosystem == "github"@
            &&& c.install_cmd == "gh repo clone "@ + c.id
        },
{
}

/// A crate becomes a candidate exactly when it has a non-empty name. The
/// candidate keeps what the crate gives: its name (and `crate:` and the
/// name as id), description, download count, dates and a non-empty
/// license; a default stands only where the crate gives none.
pub proof fn lemma_crate_candidate_fields(it: CrateItem)
    ensures
        crate_candidate_spec(it) is Some <==> (it.name matches Some(n) && n@.len() > 0),
        crate_candidate_spec(it) matches Some(c) ==> {
            &&& it.name matches Some(n) && c.name == n@
            &&& c.id == "crate:"@ + c.name
            &&& (it.description matches Some(d) ==> c.description == d@)
            &&& (it.description is None ==> c.description == "No description provided"@)
            &&& (it.downloads matches Some(n) ==> c.downloads == n)
            &&& (it.downloads is None ==> c.downloads == 0)
            &&& c.stars == 0
            &&& (it.license matches Some(l) ==> c.license == (if l@.len() > 0 { l@ } else { "Unknown"@ }))
            &&& (it.license is None ==> c.license == "Unknown"@)
            &&& (it.updated_at matches Some(u) ==> c.updated_at == u@)
            &&& c.pushed_at.len() == 0
            &&& c.language == "Rust"@
            &&& c.topics.len() == 0
            &&& c.ecosystem == "crates.io"@
            &&& c.url == "https://crates.io/crates/"@ + c.name
            &&& c.install_cmd == "cargo add "@ + c.name
        },
{
}

/// The candidates of a list of GitHub repositories, skipping those without
/// a full name.
pub open spec fn github_candidates_spec(items: Seq<GithubItem>) -> Seq<CandidateModel>
    decreases items.len(),
{
    if items.len() == 0 {
        Seq::empty()
    } else {
        let rest = github_candidates_spec(items.drop_last());
        match github_candidate_spec(items.last()) {
            Some(c) => rest.push(c),
            None => rest,
        }
    }
}

/// The candidates of a list of crates, skipping those without a name.
pub open spec fn crate_candidates_spec(items: Seq<CrateItem>) -> Seq<CandidateModel>
    decreases items.len(),
{
    if items.len() == 0 {
        Seq::empty()
    } else {
        let rest = crate_candidates_spec(items.drop_last());
        match crate_candidate_spec(items.last()) {
            Some(c) => rest.push(c),
            None => rest,
        }
    }
}

/// The first `limit` entries of `s` (all of them if there are fewer).
pub open spec fn first_n<A>(s: Seq<A>, limit: nat) -> Seq<A> {
    if limit < s.len() { s.take(limit as int) } else { s }
}

fn text_or_default(o: &Option<String>, default: &str) -> (r: String)
    ensures
        r@ == text_or(*o, default@),
{
    match o {
        Some(s) => s.clone(),
        None => default.to_owned(),
    }
}

fn present_topics(v: &Vec<Option<String>>) -> (r: Vec<String>)
    ensures
        texts(r@) == present_texts(v@),
{
    let mut out: Vec<String> = Vec::new();
    let mut i: usize = 0;
    while i < v.len()
        invariant
            i <= v@.len(),
            texts(out@) == present_texts(v@.subrange(0, i as int)),
        decreases v@.len() - i,
    {
        let ghost before = out@;
        proof {
            assert(v@.subrange(0, i + 1).drop_last() =~= v@.subrange(0, i as int));
        }
        match &v[i] {
            Some(s) => {
                out.push(s.clone());
                assert(texts(out@) =~= texts(before).push(s@));
            },
            None => {},
        }
        i += 1;
    }
    assert(v@.subrange(0, v@.len() as int) =~= v@);
    out
}

fn github_candidate(it: &GithubItem) -> (r: Option<Candidate>)
    ensures
        match github_candidate_spec(*it) {
            Some(m) => r matches Some(c) && c@ == m,
            None => r is None,
        },
{
    let full = text_or_default(&it.full_name, "");
    if full.as_str().is_empty() {
        return None;
    }
    let topics = match &it.topics {
        Some(v) => present_topics(v),
        None => Vec::new(),
    };
    proof {
        if it.topics is None {
            assert(texts(topics@) =~= Seq::<Seq<char>>::empty());
        }
    }
    let c = Candidate {
        id: full.clone(),
        name: text_or_default(&it.name, ""),
        description: text_or_default(&it.description, "No description provided"),
        url: text_or_default(&it.html_url, ""),
        stars: match it.stargazers_count { Some(n) => n, None => 0 },
        downloads: 0,
        license: text_or_default(&it.license_spdx_id, "None"),
        updated_at: text_or_default(&it.updated_at, ""),
        pushed_at: text_or_default(&it.pushed_at, ""),
        language: text_or_default(&it.language, ""),
        topics,
        ecosystem: "github".to_owned(),
        install_cmd: concat("gh repo clone ", full.as_str()),
    };
    proof {
        assert(""@ =~= Seq::<char>::empty()) by {
            reveal_strlit("");
        }
    }
    Some(c)
}

fn crate_candidate(it: &CrateItem) -> (r: Option<Candidate>)
    ensures
        match crate_candidate_spec(*it) {
            Some(m) => r matches Some(c) && c@ == m,
            None => r is None,
        },
{
    let name = text_or_default(&it.name, "");
    proof {
        assert(""@ =~= Seq::<char>::empty()) by {
            reveal_strlit("");
        }
    }
    if name.as_str().is_empty() {
        return None;
    }
    let license = match &it.license {
        Some(s) => if s.as_str().is_empty() { "Unknown".to_owned() } else { s.clone() },
        None => "Unknown".to_owned(),
    };
    let topics: Vec<String> = Vec::new();
    assert(texts(topics@) =~= Seq::<Seq<char>>::empty());
    let c = Candidate {
        id: concat("crate:", name.as_str()),
        name: name.clone(),
        description: text_or_default(&it.description, "No description provided"),
        url: concat("https://crates.io/crates/", name.as_str()),
        stars: 0,
        downloads: match it.downloads { Some(n) => n, None => 0 },
        license,
        updated_at: text_or_default(&it.updated_at, ""),
        pushed_at: "".to_owned(),
        language: "Rust".to_owned(),
        topics,
        ecosystem: "crates.io".to_owned(),
        install_cmd: concat("cargo add ", name.as_str()),
    };
    Some(c)
}

/// The candidates of the first `limit` repositories of a GitHub answer,
/// skipping those without a full name.
pub fn github_candidates(items: &Vec<GithubItem>, limit: usize) -> (r: Vec<Candidate>)
    ensures
        models(r@) == github_candidates_spec(first_n(items@, limit as nat)),
{
    let n = if limit < items.len() { limit } else { items.len() };
    let ghost src = first_n(items@, limit as nat);
    assert(src =~= items@.subrange(0, n as int));
    let mut out: Vec<Candidate> = Vec::new();
    let mut i: usize = 0;
    while i < n
        invariant
            n <= items@.len(),
            i <= n,
            src == items@.subrange(0, n as int),
            models(out@) == github_candidates_spec(items@.subrange(0, i as int)),
        decreases n - i,
    {
        let ghost before = out@;
        proof {
            assert(items@.subrange(0, i + 1).drop_last() =~= items@.subrange(0, i as int));
        }
        match github_candidate(&items[i]) {
            Some(c) => {
                out.push(c);
                assert(models(out@) =~= models(before).push(out@[out@.len() - 1]@));
            },
            None => {},
        }
        i += 1;
    }
    out
}

/// The candidates of the first `limit` crates of a crates.io answer,
/// skipping those without a name.
pub fn crate_candidates(items: &Vec<CrateItem>, limit: usize) -> (r: Vec<Candidate>)
    ensures
        models(r@) == crate_candidates_spec(first_n(items@, limit as nat)),
{
    let n = if limit < items.len() { limit } else { items.len() };
    let ghost src = first_n(items@, limit as nat);
    assert(src =~= items@.subrange(0, n as int));
    let mut out: Vec<Candidate> = Vec::new();
    let mut i: usize = 0;
    while i < n
        invariant
            n <= items@.len(),
            i <= n,
            src == items@.subrange(0, n as int),
            models(out@) == crate_candidates_spec(items@.subrange(0, i as int)),
        decreases n - i,
    {
        let ghost before = out@;
        proof {
            assert(items@.subrange(0, i + 1).drop_last() =~= items@.subrange(0, i as int));
        }
        match crate_candidate(&items[i]) {
            Some(c) => {
                out.push(c);
                assert(models(out@) =~= models(before).push(out@[out@.len() - 1]@));
            },
            None => {},
        }
        i += 1;
    }
    out
}

} // verus!

verus! {

/// The candidates of a GitHub search answer: its `items` (at most `limit`
/// of them), or an error when the answer has no `items` array.
pub fn github_results(items: &Option<Vec<GithubItem>>, limit: usize) -> (r: Result<Vec<Candidate>, String>)
    ensures
        match items {
            Some(v) => r matches Ok(c) && models(c@) == github_candidates_spec(first_n(v@, limit as nat)),
            None => r matches Err(e) && e@ == "GitHub response has no items"@,
        },
{
    match items {
        Some(v) => Ok(github_candidates(v, limit)),
        None => Err("GitHub response has no items".to_owned()),
    }
}

/// The candidates of a crates.io search answer: its `crates` (at most
/// `limit` of them), or an error when the answer has no `crates` array.
pub fn crate_results(items: &Option<Vec<CrateItem>>, limit: usize) -> (r: Result<Vec<Candidate>, String>)
    ensures
        match items {
            Some(v) => r matches Ok(c) && models(c@) == crate_candidates_spec(first_n(v@, limit as nat)),
            None => r matches Err(e) && e@ == "crates.io response has no crates"@,
        },
{
    match items {
        Some(v) => Ok(crate_candidates(v, limit)),
        None => Err("crates.io response has no crates".to_owned()),
    }
}

/// Why a registry request gave no usable answer.
#[derive(Debug)]
pub enum FetchFailure {
    /// The server answered with an error status; `text` is the error's
    /// rendering.
    Status { code: u16, text: String },
    /// The request failed on the way; `detail` renders the transport
    /// problem, `text` the whole error.
    Transport { detail: String, text: String },
    /// The answer was no JSON; `detail` renders the reading error.
    BadJson { detail: String },
}

/// The message shown for a failed GitHub search.
pub open spec fn github_failure_message_spec(f: FetchFailure) -> Seq<char> {
    match f {
        FetchFailure::Status { code, text } =>
            if code == 403 {
                "GitHub search rate limited (403). Run `gh auth login`, then retry."@
            } else if code == 429 {
                "GitHub search rate limited (429). Run `gh auth login` or wait a minute, then retry."@
            } else {
                "GitHub search failed: "@ + text@
            },
        FetchFailure::Transport { detail, text } =>
            if contains_text(detail@, "timed out"@) {
                "GitHub search timed out. Retry on a better connection."@
            } else {
                "GitHub search failed: "@ + text@
            },
        FetchFailure::BadJson { detail } => "GitHub returned bad JSON: "@ + detail@,
    }
}

/// The message shown for a failed crates.io search.
pub open spec fn crates_failure_message_spec(f: FetchFailure) -> Seq<char> {
    match f {
        FetchFailure::Status { code, text } =>
            if code == 429 {
                "crates.io rate limited (429). Wait a minute, then retry."@
            } else {
                "crates.io search failed: "@ + text@
            },
        FetchFailure::Transport { detail, text } =>
            if contains_text(detail@, "timed out"@) {
                "crates.io timed out. Retry on a better connection."@
            } else {
                "crates.io search failed: "@ + text@
            },
        FetchFailure::BadJson { detail } => "crates.io returned bad JSON: "@ + detail@,
    }
}

/// The message for a failed GitHub search: rate limits and time-outs get
/// advice, anything else is reported as it is.
pub fn github_failure_message(f: &FetchFailure) -> (r: String)
    ensures
        r@ == github_failure_message_spec(*f),
{
    match f {
        FetchFailure::Status { code, text } => {
            if *code == 403 {
                "GitHub search rate limited (403). Run `gh auth login`, then retry.".to_owned()
            } else if *code == 429 {
                "GitHub search rate limited (429). Run `gh auth login` or wait a minute, then retry.".to_owned()
            } else {
                concat("GitHub search failed: ", text.as_str())
            }
        },
        FetchFailure::Transport { detail, text } => {
            if text_contains(detail.as_str(), "timed out") {
                "GitHub search timed out. Retry on a better connection.".to_owned()
            } else {
                concat("GitHub search failed: ", text.as_str())
            }
        },
        FetchFailure::BadJson { detail } => concat("GitHub returned bad JSON: ", detail.as_str()),
    }
}

/// The message for a failed crates.io search: rate limits and time-outs get
/// advice, anything else is reported as it is.
pub fn crates_failure_message(f: &FetchFailure) -> (r: String)
    ensures
        r@ == crates_failure_message_spec(*f),
{
    match f {
        FetchFailure::Status { code, text } => {
            if *code == 429 {
                "crates.io rate limited (429). Wait a minute, then retry.".to_owned()
            } else {
                concat("crates.io search failed: ", text.as_str())
            }
        },
        FetchFailure::Transport { detail, text } => {
            if text_contains(detail.as_str(), "timed out") {
                "crates.io timed out. Retry on a better connection.".to_owned()
            } else {
                concat("crates.io search failed: ", text.as_str())
            }
        },
        FetchFailure::BadJson { detail } => concat("crates.io returned bad JSON: ", detail.as_str()),
    }
}

} // verus!

verus! {

/// The value of a hexadecimal digit character (either case).
pub open spec fn hex_value(c: char) -> Option<int> {
    let u = c as u32;
    if 48 <= u <= 57 {
        Some(u - 48)
    } else if 65 <= u <= 70 {
        Some(u - 55)
    } else if 97 <= u <= 102 {
        Some(u - 87)
    } else {
        None
    }
}

/// Form decoding: `%` and two hexadecimal digits give a byte, `+` a space,
/// any other ASCII character its own byte; `None` for anything else.
pub open spec fn percent_decode(s: Seq<char>) -> Option<Seq<u8>>
    decreases s.len(),
{
    if s.len() == 0 {
        Some(Seq::empty())
    } else if s[0] == '%' {
        if s.len() >= 3 && hex_value(s[1]) is Some && hex_value(s[2]) is Some {
            match percent_decode(s.skip(3)) {
                Some(rest) => Some(seq![(hex_value(s[1])->0 * 16 + hex_value(s[2])->0) as u8] + rest),
                None => None,
            }
        } else {
            None
        }
    } else if s[0] == '+' {
        match percent_decode(s.drop_first()) {
            Some(rest) => Some(seq![32u8] + rest),
            None => None,
        }
    } else if (s[0] as u32) < 128 {
        match percent_decode(s.drop_first()) {
            Some(rest) => Some(seq![(s[0] as u32) as u8] + rest),
            None => None,
        }
    } else {
        None
    }
}

proof fn lemma_encode_front(b: u8, rest: Seq<u8>)
    ensures
        percent_encode(seq![b] + rest) == encode_byte(b) + percent_encode(rest),
    decreases rest.len(),
{
    let all = seq![b] + rest;
    if rest.len() == 0 {
        assert(all =~= seq![b]);
        assert(all.drop_last() =~= Seq::<u8>::empty());
        assert(percent_encode(all) == percent_encode(all.drop_last()) + encode_byte(all.last()));
        assert(percent_encode(Seq::<u8>::empty()) == Seq::<char>::empty());
        assert(percent_encode(all) =~= encode_byte(b));
        assert(encode_byte(b) + percent_encode(rest) =~= encode_byte(b));
    } else {
        assert(all.drop_last() =~= seq![b] + rest.drop_last());
        assert(all.last() == rest.last());
        lemma_encode_front(b, rest.drop_last());
        assert(percent_encode(all) == percent_encode(all.drop_last()) + encode_byte(all.last()));
        assert(percent_encode(rest) == percent_encode(rest.drop_last()) + encode_byte(rest.last()));
        assert(encode_byte(b) + percent_encode(rest.drop_last()) + encode_byte(rest.last())
            =~= encode_byte(b) + (percent_encode(rest.drop_last()) + encode_byte(rest.last())));
    }
}

proof fn lemma_decode_byte(b: u8, tail: Seq<char>, rest: Seq<u8>)
    requires
        percent_decode(tail) == Some(rest),
    ensures
        percent_decode(encode_byte(b) + tail) == Some(seq![b] + rest),
{
    let s = encode_byte(b) + tail;
    if is_unreserved(b) {
        assert(s[0] == b as char);
        assert(s.drop_first() =~= tail);
        assert((b as char) as u32 == b as u32);
    } else if b == 32 {
        assert(s[0] == '+');
        assert(s.drop_first() =~= tail);
    } else {
        let hi = (b / 16) as int;
        let lo = (b % 16) as int;
        assert(s[0] == '%');
        assert(s[1] == hex_digit(hi));
        assert(s[2] == hex_digit(lo));
        assert(s.skip(3) =~= tail);
        assert(hex_value(hex_digit(hi)) == Some(hi));
        assert(hex_value(hex_digit(lo)) == Some(lo));
        assert(hi * 16 + lo == b);
    }
}

/// Form decoding gives back exactly the bytes that were encoded: the
/// encoding loses nothing of a query.
pub proof fn lemma_encoding_round_trip(bs: Seq<u8>)
    ensures
        percent_decode(percent_encode(bs)) == Some(bs),
    decreases bs.len(),
{
    if bs.len() == 0 {
    } else {
        let rest = bs.drop_first();
        assert(bs =~= seq![bs[0]] + rest);
        lemma_encode_front(bs[0], rest);
        lemma_encoding_round_trip(rest);
        lemma_decode_byte(bs[0], percent_encode(rest), rest);
    }
}

/// A character that the query encoding keeps as it is: an ASCII letter or
/// digit, or `-`, `_`, `.`, `~`.
pub open spec fn is_unreserved_char(c: char) -> bool {
    let u = c as u32;
    ||| 65 <= u <= 90
    ||| 97 <= u <= 122
    ||| 48 <= u <= 57
    ||| u == 45
    ||| u == 95
    ||| u == 46
    ||| u == 126
}

/// An upper-case hexadecimal digit: `0`-`9` or `A`-`F`.
pub open spec fn is_upper_hex_char(c: char) -> bool {
    let u = c as u32;
    (48 <= u <= 57) || (65 <= u <= 70)
}

/// Text as the query encoding writes it: unreserved characters, `+`, and `%`
/// each followed by two upper-case hexadecimal digits.
pub open spec fn is_form_encoded(s: Seq<char>) -> bool {
    &&& forall|i: int| 0 <= i < s.len() ==> is_unreserved_char(#[trigger] s[i]) || s[i] == '+' || s[i] == '%'
    &&& forall|i: int| 0 <= i < s.len() && #[trigger] s[i] == '%'
        ==> i + 2 < s.len() && is_upper_hex_char(s[i + 1]) && is_upper_hex_char(s[i + 2])
}

/// The length of the encoding of `bs`: one character for each unreserved
/// byte or space, three for any other byte.
pub open spec fn encoded_len(bs: Seq<u8>) -> int
    decreases bs.len(),
{
    if bs.len() == 0 {
        0
    } else {
        encoded_len(bs.drop_last()) + (if is_unreserved(bs.last()) || bs.last() == 32 { 1int } else { 3int })
    }
}

proof fn lemma_encode_byte_shape(b: u8)
    ensures
        is_form_encoded(encode_byte(b)),
        encode_byte(b).len() == (if is_unreserved(b) || b == 32 { 1int } else { 3int }),
        encode_byte(b).len() > 0 && encode_byte(b)[0] == '%' ==> !is_unreserved(b) && b != 32,
{
    let e = encode_byte(b);
    if is_unreserved(b) {
        assert((b as char) as u32 == b as u32);
        assert(e[0] == b as char);
    } else if b == 32 {
    } else {
        let hi = (b / 16) as int;
        let lo = (b % 16) as int;
        assert((hex_digit(hi) as u32) == (if hi < 10 { 48 + hi } else { 55 + hi }));
        assert((hex_digit(lo) as u32) == (if lo < 10 { 48 + lo } else { 55 + lo }));
        assert(e[1] == hex_digit(hi) && e[2] == hex_digit(lo));
        assert(is_upper_hex_char(e[1]) && is_upper_hex_char(e[2]));
        assert(is_unreserved_char(e[1]) && is_unreserved_char(e[2]));
    }
}

/// The encoding of a query uses only unreserved characters, `+`, and `%`
/// followed by two upper-case hexadecimal digits; its length is one per
/// unreserved byte or space and three per other byte.
pub proof fn lemma_encoding_shape(bs: Seq<u8>)
    ensures
        is_form_encoded(percent_encode(bs)),
        percent_encode(bs).len() == encoded_len(bs),
    decreases bs.len(),
{
    if bs.len() > 0 {
        let p = percent_encode(bs.drop_last());
        let e = encode_byte(bs.last());
        let s = percent_encode(bs);
        lemma_encoding_shape(bs.drop_last());
        lemma_encode_byte_shape(bs.last());
        assert(s == p + e);
        assert forall|i: int| 0 <= i < s.len() implies is_unreserved_char(#[trigger] s[i]) || s[i] == '+' || s[i] == '%' by {
            if i < p.len() {
                assert(s[i] == p[i]);
            } else {
                assert(s[i] == e[i - p.len()]);
            }
        }
        assert forall|i: int| 0 <= i < s.len() && #[trigger] s[i] == '%'
            implies i + 2 < s.len() && is_upper_hex_char(s[i + 1]) && is_upper_hex_char(s[i + 2]) by {
            if i < p.len() {
                assert(s[i] == p[i]);
                assert(p[i] == '%');
                assert(s[i + 1] == p[i + 1] && s[i + 2] == p[i + 2]);
            } else {
                let j = i - p.len();
                assert(s[i] == e[j]);
                assert(e[j] == '%');
                assert(s[i + 1] == e[j + 1] && s[i + 2] == e[j + 2]);
            }
        }
    }
}

} // verus!
