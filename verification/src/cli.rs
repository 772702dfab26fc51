//! The decisions of the command line: what each argument means, how a
//! limit is read, and which secrets and queries are usable.

use vstd::prelude::*;
use crate::jev::{all_digits, digits_value};
use crate::text::{is_blank, text_equals, text_is_blank, trim, trimmed};

verus! {

/// One command-line argument as the argument parser hands it over.
#[derive(Debug)]
pub enum CliArg {
    /// `-c`
    Short(char),
    /// `--name`
    Long(String),
    /// A positional value (empty when it is not valid Unicode).
    Value(String),
}

/// What an argument asks for.
#[derive(Debug)]
pub enum CliFlag {
    /// `-e`/`--ecosystem`: the next value names the ecosystem.
    Ecosystem,
    /// `-n`/`--limit`: the next value is the number of results.
    Limit,
    /// `-j`/`--json`
    Json,
    /// `--no-filter`
    NoFilter,
    /// `--mcp`
    Mcp,
    /// `-h`/`--help`
    Help,
    /// `-v`/`--version`
    Version,
    /// A positional value: the query.
    Query(String),
    /// Anything else.
    Unexpected,
}

/// The meaning of an argument, as mathematical values.
pub enum FlagKind {
    Ecosystem,
    Limit,
    Json,
    NoFilter,
    Mcp,
    Help,
    Version,
    Query(Seq<char>),
    Unexpected,
}

/// The meaning that a flag carries.
pub open spec fn flag_view(f: CliFlag) -> FlagKind {
    match f {
        CliFlag::Ecosystem => FlagKind::Ecosystem,
        CliFlag::Limit => FlagKind::Limit,
        CliFlag::Json => FlagKind::Json,
        CliFlag::NoFilter => FlagKind::NoFilter,
        CliFlag::Mcp => FlagKind::Mcp,
        CliFlag::Help => FlagKind::Help,
        CliFlag::Version => FlagKind::Version,
        CliFlag::Query(q) => FlagKind::Query(q@),
        CliFlag::Unexpected => FlagKind::Unexpected,
    }
}

/// The meaning of each argument.
pub open spec fn classify_spec(a: CliArg) -> FlagKind {
    match a {
        CliArg::Short(c) =>
            if c == 'e' { FlagKind::Ecosystem }
            else if c == 'n' { FlagKind::Limit }
            else if c == 'j' { FlagKind::Json }
            else if c == 'h' { FlagKind::Help }
            else if c == 'v' { FlagKind::Version }
            else { FlagKind::Unexpected },
        CliArg::Long(name) =>
            if name@ == "ecosystem"@ { FlagKind::Ecosystem }
            else if name@ == "limit"@ { FlagKind::Limit }
            else if name@ == "json"@ { FlagKind::Json }
            else if name@ == "no-filter"@ { FlagKind::NoFilter }
            else if name@ == "mcp"@ { FlagKind::Mcp }
            else if name@ == "help"@ { FlagKind::Help }
            else if name@ == "version"@ { FlagKind::Version }
            else { FlagKind::Unexpected },
        CliArg::Value(v) => FlagKind::Query(v@),
    }
}

/// What an argument asks for.
pub fn classify_arg(a: &CliArg) -> (r: CliFlag)
    ensures
        flag_view(r) == classify_spec(*a),
{
    match a {
        CliArg::Short(c) => {
            if *c == 'e' { CliFlag::Ecosystem }
            else if *c == 'n' { CliFlag::Limit }
            else if *c == 'j' { CliFlag::Json }
            else if *c == 'h' { CliFlag::Help }
            else if *c == 'v' { CliFlag::Version }
            else { CliFlag::Unexpected }
        },
        CliArg::Long(name) => {
            let n = name.as_str();
            if text_equals(n, "ecosystem") { CliFlag::Ecosystem }
            else if text_equals(n, "limit") { CliFlag::Limit }
            else if text_equals(n, "json") { CliFlag::Json }
            else if text_equals(n, "no-filter") { CliFlag::NoFilter }
            else if text_equals(n, "mcp") { CliFlag::Mcp }
            else if text_equals(n, "help") { CliFlag::Help }
            else if text_equals(n, "version") { CliFlag::Version }
            else { CliFlag::Unexpected }
        },
        CliArg::Value(v) => CliFlag::Query(v.clone()),
    }
}

/// Each short flag means what its long form means: `-e` is `--ecosystem`,
/// `-n` is `--limit`, `-j` is `--json`, `-h` is `--help`, `-v` is
/// `--version`; each pair names its own flag, and none is unexpected.
pub proof fn lemma_short_flags_mean_long_flags(c: char, name: String)
    requires
        (c == 'e' && name@ == "ecosystem"@) || (c == 'n' && name@ == "limit"@) || (c == 'j' && name@ == "json"@)
            || (c == 'h' && name@ == "help"@) || (c == 'v' && name@ == "version"@),
    ensures
        classify_spec(CliArg::Short(c)) == classify_spec(CliArg::Long(name)),
        c == 'e' ==> classify_spec(CliArg::Short(c)) is Ecosystem,
        c == 'n' ==> classify_spec(CliArg::Short(c)) is Limit,
        c == 'j' ==> classify_spec(CliArg::Short(c)) is Json,
        c == 'h' ==> classify_spec(CliArg::Short(c)) is Help,
        c == 'v' ==> classify_spec(CliArg::Short(c)) is Version,
{
    reveal_strlit("ecosystem");
    reveal_strlit("limit");
    reveal_strlit("json");
    reveal_strlit("no-filter");
    reveal_strlit("mcp");
    reveal_strlit("help");
    reveal_strlit("version");
    let n = name@;
    if c == 'n' {
        assert(n.len() == 5 && n[0] == 'l');
        assert(n != "ecosystem"@);
    } else if c == 'j' {
        assert(n.len() == 4 && n[0] == 'j');
        assert(n != "ecosystem"@ && n != "limit"@);
    } else if c == 'h' {
        assert(n.len() == 4 && n[0] == 'h');
        assert(n != "ecosystem"@ && n != "limit"@ && n != "json"@ && n != "no-filter"@ && n != "mcp"@);
    } else if c == 'v' {
        assert(n.len() == 7 && n[0] == 'v');
        assert(n != "ecosystem"@ && n != "limit"@ && n != "json"@ && n != "no-filter"@ && n != "mcp"@ && n != "help"@);
    }
}

/// `--no-filter` and `--mcp` have no short form, and no other short flag
/// means anything: every short flag but `e`, `n`, `j`, `h`, `v` is
/// unexpected. A positional value is always the query, whatever it holds.
pub proof fn lemma_other_flags(c: char, v: String)
    ensures
        !(c == 'e' || c == 'n' || c == 'j' || c == 'h' || c == 'v') ==> classify_spec(CliArg::Short(c)) is Unexpected,
        classify_spec(CliArg::Value(v)) == FlagKind::Query(v@),
{
}

/// `--no-filter` turns filtering off and `--mcp` starts the tool server;
/// a long flag that the help text does not list is unexpected.
pub proof fn lemma_long_only_flags(name: String)
    ensures
        name@ == "no-filter"@ ==> classify_spec(CliArg::Long(name)) is NoFilter,
        name@ == "mcp"@ ==> classify_spec(CliArg::Long(name)) is Mcp,
        !(name@ == "ecosystem"@ || name@ == "limit"@ || name@ == "json"@ || name@ == "no-filter"@
            || name@ == "mcp"@ || name@ == "help"@ || name@ == "version"@)
            ==> classify_spec(CliArg::Long(name)) is Unexpected,
{
    reveal_strlit("ecosystem");
    reveal_strlit("limit");
    reveal_strlit("json");
    reveal_strlit("no-filter");
    reveal_strlit("mcp");
    reveal_strlit("help");
    reveal_strlit("version");
    let n = name@;
    if n == "no-filter"@ {
        assert(n.len() == 9 && n[0] == 'n');
        assert(n != "ecosystem"@ && n != "limit"@ && n != "json"@);
    }
    if n == "mcp"@ {
        assert(n.len() == 3);
        assert(n != "ecosystem"@ && n != "limit"@ && n != "json"@ && n != "no-filter"@);
    }
}

/// What `str::parse::<usize>` gives on the bytes `s`: an optional `+`, then
/// at least one decimal digit, within the range of `usize`.
pub open spec fn parse_usize_spec(s: Seq<u8>) -> Option<int> {
    let body = if s.len() > 0 && s[0] == 43 { s.drop_first() } else { s };
    if body.len() == 0 || !all_digits(body) || digits_value(body) > usize::MAX {
        None
    } else {
        Some(digits_value(body))
    }
}

/// The number of results asked for by `text`, or 5 where it is no number.
pub open spec fn limit_from_spec(text: Seq<char>) -> int {
    match parse_usize_spec(vstd::utf8::encode_utf8(text)) {
        Some(n) => n,
        None => 5,
    }
}

proof fn lemma_digits_push(s: Seq<u8>, b: u8)
    ensures
        digits_value(s.push(b)) == digits_value(s) * 10 + (b - 48),
{
    assert(s.push(b).drop_last() =~= s);
}

/// The number of results asked for by the value of `--limit`: the number
/// it spells, or 5 where it spells none that fits `usize`.
pub fn parse_limit(text: &str) -> (r: usize)
    ensures
        r == limit_from_spec(text@),
{
    let b = text.as_bytes();
    let ghost s = b@;
    let start: usize = if b.len() > 0 && b[0] == 43 { 1 } else { 0 };
    let ghost body = b@.subrange(start as int, b@.len() as int);
    proof {
        if start == 1 {
            assert(body =~= s.drop_first());
        } else {
            assert(body =~= s);
        }
    }
    if start == b.len() {
        return 5;
    }
    proof {
        assert(body.len() > 0);
        assert(parse_usize_spec(s) == (if all_digits(body) && digits_value(body) <= usize::MAX { Some(digits_value(body)) } else { None }));
    }
    let mut acc: usize = 0;
    let mut k = start;
    while k < b.len()
        invariant
            start <= k <= b@.len(),
            b@ == s,
            s == vstd::utf8::encode_utf8(text@),
            body == s.subrange(start as int, s.len() as int),
            parse_usize_spec(s) == (if all_digits(body) && digits_value(body) <= usize::MAX { Some(digits_value(body)) } else { None::<int> }),
            all_digits(s.subrange(start as int, k as int)),
            acc == digits_value(s.subrange(start as int, k as int)),
        decreases b@.len() - k,
    {
        let c = b[k];
        let ghost p = s.subrange(start as int, k + 1);
        proof {
            assert(p =~= s.subrange(start as int, k as int).push(c));
            lemma_digits_push(s.subrange(start as int, k as int), c);
        }
        if c < 48 || c > 57 {
            proof {
                assert(body[k - start] == c);
                assert(!all_digits(body));
            }
            return 5;
        }
        proof {
            assert(all_digits(p)) by {
                assert forall|i: int| 0 <= i < p.len() implies crate::jev::is_digit_byte(#[trigger] p[i]) by {
                    if i < p.len() - 1 {
                        assert(p[i] == s.subrange(start as int, k as int)[i]);
                    }
                }
            }
        }
        match acc.checked_mul(10) {
            None => {
                proof {
                    lemma_digits_grow(s, start as int, k + 1, b@.len() as int);
                }
                return 5;
            },
            Some(t) => match t.checked_add((c - 48) as usize) {
                None => {
                    proof {
                        lemma_digits_grow(s, start as int, k + 1, b@.len() as int);
                    }
                    return 5;
                },
                Some(v) => {
                    acc = v;
                },
            },
        }
        k += 1;
    }
    proof {
        assert(s.subrange(start as int, k as int) =~= body);
    }
    acc
}

/// Digits only add weight: a number with more digits after a prefix is at
/// least the prefix's value (when all of them are digits).
proof fn lemma_digits_grow(s: Seq<u8>, lo: int, mid: int, hi: int)
    requires
        0 <= lo <= mid <= hi <= s.len(),
        all_digits(s.subrange(lo, mid)),
    ensures
        all_digits(s.subrange(lo, hi)) ==> digits_value(s.subrange(lo, hi)) >= digits_value(s.subrange(lo, mid)),
    decreases hi - mid,
{
    if mid < hi && all_digits(s.subrange(lo, hi)) {
        let a = s.subrange(lo, hi - 1);
        assert(s.subrange(lo, hi).drop_last() =~= a);
        assert(all_digits(a)) by {
            assert forall|i: int| 0 <= i < a.len() implies crate::jev::is_digit_byte(#[trigger] a[i]) by {
                assert(a[i] == s.subrange(lo, hi)[i]);
            }
        }
        lemma_digits_grow(s, lo, mid, hi - 1);
        assert(crate::jev::is_digit_byte(s.subrange(lo, hi)[hi - lo - 1]));
        lemma_digits_nonneg(a);
    }
}

proof fn lemma_digits_nonneg(s: Seq<u8>)
    requires
        all_digits(s),
    ensures
        digits_value(s) >= 0,
    decreases s.len(),
{
    if s.len() > 0 {
        let t = s.drop_last();
        assert(all_digits(t)) by {
            assert forall|i: int| 0 <= i < t.len() implies crate::jev::is_digit_byte(#[trigger] t[i]) by {
                assert(t[i] == s[i]);
            }
        }
        assert(crate::jev::is_digit_byte(s[s.len() - 1]));
        lemma_digits_nonneg(t);
    }
}

/// A secret from the environment is usable once trimmed and not empty:
/// the trimmed text, or `None`.
pub fn usable_secret(raw: &str) -> (r: Option<String>)
    ensures
        match r {
            Some(s) => s@ == trim(raw@) && s@.len() > 0,
            None => trim(raw@).len() == 0,
        },
{
    let t = trimmed(raw);
    if t.as_str().is_empty() { None } else { Some(t) }
}

/// Whether a query was given and holds more than whitespace.
pub fn query_is_usable(q: &Option<String>) -> (r: bool)
    ensures
        r == (q matches Some(s) && !is_blank(s@)),
{
    match q {
        Some(s) => !text_is_blank(s.as_str()),
        None => false,
    }
}

/// The secret that `o` gives once trimmed, when it is there and not blank.
pub open spec fn usable_spec(o: Option<String>) -> Option<Seq<char>> {
    match o {
        Some(s) => if trim(s@).len() > 0 { Some(trim(s@)) } else { None },
        None => None,
    }
}

/// The GitHub token: `GITHUB_TOKEN`, else `GH_TOKEN`, else what `gh auth
/// token` printed, the first that is usable once trimmed.
pub open spec fn token_spec(github_token: Option<String>, gh_token: Option<String>, gh_cli: Option<String>) -> Option<Seq<char>> {
    if usable_spec(github_token) is Some {
        usable_spec(github_token)
    } else if usable_spec(gh_token) is Some {
        usable_spec(gh_token)
    } else {
        usable_spec(gh_cli)
    }
}

fn usable_of(o: &Option<String>) -> (r: Option<String>)
    ensures
        crate::text::opt_text(r) == usable_spec(*o),
{
    match o {
        Some(s) => usable_secret(s.as_str()),
        None => None,
    }
}

/// Which GitHub token a search uses, from the values of `GITHUB_TOKEN` and
/// `GH_TOKEN` and the output of a successful `gh auth token` (each `None`
/// where it is not there): the first that is usable once trimmed.
pub fn pick_token(github_token: &Option<String>, gh_token: &Option<String>, gh_cli: &Option<String>) -> (r: Option<String>)
    ensures
        crate::text::opt_text(r) == token_spec(*github_token, *gh_token, *gh_cli),
{
    let a = usable_of(github_token);
    if a.is_some() {
        return a;
    }
    let b = usable_of(gh_token);
    if b.is_some() {
        return b;
    }
    usable_of(gh_cli)
}

/// `GITHUB_TOKEN` wins when it holds a token; else `GH_TOKEN`; else what
/// `gh auth token` printed. The token is always trimmed and never blank, and
/// there is none only when no source holds one.
pub proof fn lemma_token_precedence(github_token: Option<String>, gh_token: Option<String>, gh_cli: Option<String>)
    ensures
        github_token matches Some(g) ==> (trim(g@).len() > 0
            ==> token_spec(github_token, gh_token, gh_cli) == Some(trim(g@))),
        (github_token matches Some(g) ==> trim(g@).len() == 0) ==> (gh_token matches Some(h) ==> (trim(h@).len() > 0
            ==> token_spec(github_token, gh_token, gh_cli) == Some(trim(h@)))),
        token_spec(github_token, gh_token, gh_cli) matches Some(t) ==> t.len() > 0 && (
            (github_token matches Some(g) && t == trim(g@))
            || (gh_token matches Some(h) && t == trim(h@))
            || (gh_cli matches Some(c) && t == trim(c@))),
        token_spec(github_token, gh_token, gh_cli) is None ==> (
            (github_token matches Some(g) ==> trim(g@).len() == 0)
            && (gh_token matches Some(h) ==> trim(h@).len() == 0)
            && (gh_cli matches Some(c) ==> trim(c@).len() == 0)),
{
}

} // verus!
