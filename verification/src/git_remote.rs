//! Where a repository is hosted, and the pull requests that commits speak of.

use vstd::prelude::*;
use vstd::slice::slice_subrange;
use crate::bundle_graph::text_of;
use crate::bundle_snippets::opt_view;
use crate::decimal::{parse_signed, push_signed_decimal, signed_decimal, signed_of};
use crate::pieces::{
    begins_with, ends_with, find_char, finishes_with, position_of, starts_with, str_starts_with,
};
use crate::regexes::{capture_group, regex_group};
use crate::text::{chars_of, string_of, trim_str, trimmed};

verus! {

/// The path of an address on the web; `None` where the text is no address.
pub uninterp spec fn url_path(address: Seq<char>) -> Option<Seq<char>>;

/// An address on the web without user, password, query and fragment, and with another
/// path; `None` where the text is no address.
pub uninterp spec fn url_without_details(address: Seq<char>, path: Seq<char>) -> Option<Seq<char>>;

/// Calls `url::Url::parse` and `Url::path`.
#[verifier::external_body]
fn read_url_path(address: &str) -> (r: Option<String>)
    ensures
        match r {
            Some(path) => url_path(address@) == Some(path@),
            None => url_path(address@) is None,
        },
{
    url::Url::parse(address).ok().map(|url| url.path().to_string())
}

/// What stands between the scheme of an address on the web and its path.
pub open spec fn web_authority(address: Seq<char>) -> Seq<char> {
    let rest = if begins_with(address, "http://"@) {
        address.skip(7)
    } else {
        address.skip(8)
    };
    rest.take(position_of(rest, '/'))
}

/// An address on the web that names no user and no password, and has neither query nor
/// fragment.
pub open spec fn is_bare_address(address: Seq<char>) -> bool {
    &&& is_web_address(address)
    &&& !web_authority(address).contains('@')
    &&& !address.contains('?')
    &&& !address.contains('#')
}

/// Calls `url::Url::parse`; of the address it then clears the user with
/// `Url::set_username`, the password with `Url::set_password`, the query with
/// `Url::set_query` and the fragment with `Url::set_fragment`, and gives it the path with
/// `Url::set_path`, which encodes what would begin a query or a fragment. The scheme stays,
/// and a host never holds the sign that ends a user.
#[verifier::external_body]
fn strip_url(address: &str, path: &str) -> (r: Option<String>)
    requires
        is_web_address(address@),
        url_path(address@) matches Some(p) && path@ == without_git(p),
    ensures
        match r {
            Some(text) => url_without_details(address@, path@) == Some(text@),
            None => url_without_details(address@, path@) is None,
        },
        r matches Some(text) ==> is_bare_address(text@),
{
    let mut url = url::Url::parse(address).ok()?;
    url.set_username("").ok();
    url.set_password(None).ok();
    url.set_query(None);
    url.set_fragment(None);
    url.set_path(path);
    Some(url.to_string())
}

/// A path without the ending that repositories have.
pub open spec fn without_git(path: Seq<char>) -> Seq<char> {
    if finishes_with(path, ".git"@) {
        path.take(path.len() - 4)
    } else {
        path
    }
}

fn drop_git(path: &str) -> (r: String)
    ensures
        r@ == without_git(path@),
{
    let v = chars_of(path);
    if ends_with(v.as_slice(), ".git") {
        proof {
            reveal_strlit(".git");
        }
        let head = slice_subrange(v.as_slice(), 0, v.len() - 4);
        assert(head@ =~= path@.take(path@.len() - 4));
        string_of(head)
    } else {
        path.to_owned()
    }
}

/// A text without the slashes in front.
pub open spec fn without_leading_slashes(s: Seq<char>) -> Seq<char>
    decreases s.len(),
{
    if s.len() > 0 && s[0] == '/' {
        without_leading_slashes(s.drop_first())
    } else {
        s
    }
}

/// A text without the slashes at the end.
pub open spec fn without_trailing_slashes(s: Seq<char>) -> Seq<char>
    decreases s.len(),
{
    if s.len() > 0 && s.last() == '/' {
        without_trailing_slashes(s.drop_last())
    } else {
        s
    }
}

fn drop_leading_slashes(s: &[char]) -> (r: &[char])
    ensures
        r@ == without_leading_slashes(s@),
{
    let mut i: usize = 0;
    assert(s@.skip(0) =~= s@);
    while i < s.len() && s[i] == '/'
        invariant
            i <= s@.len(),
            without_leading_slashes(s@) == without_leading_slashes(s@.skip(i as int)),
        decreases s.len() - i,
    {
        assert(s@.skip(i as int).drop_first() =~= s@.skip(i + 1));
        i += 1;
    }
    let rest = slice_subrange(s, i, s.len());
    assert(rest@ =~= s@.skip(i as int));
    rest
}

/// The text without the slashes at its end.
pub fn drop_trailing_slashes(s: &[char]) -> (r: &[char])
    ensures
        r@ == without_trailing_slashes(s@),
{
    let mut n: usize = s.len();
    assert(s@.take(n as int) =~= s@);
    while n > 0 && s[n - 1] == '/'
        invariant
            n <= s@.len(),
            without_trailing_slashes(s@) == without_trailing_slashes(s@.take(n as int)),
        decreases n,
    {
        assert(s@.take(n as int).drop_last() =~= s@.take(n - 1));
        n -= 1;
    }
    let head = slice_subrange(s, 0, n);
    assert(head@ =~= s@.take(n as int));
    head
}

/// The address on the web of a repository at a host.
pub open spec fn hosted_at(host: Seq<char>, path: Seq<char>) -> Seq<char> {
    "https://"@ + host + "/"@ + without_leading_slashes(without_git(trimmed(path)))
}

fn host_address(host: &[char], path: &[char]) -> (r: String)
    ensures
        r@ == hosted_at(host@, path@),
{
    let path_text = string_of(path);
    let cut = drop_git(trim_str(path_text.as_str()).as_str());
    let v = chars_of(cut.as_str());
    let mut out = "https://".to_owned();
    out.append(string_of(host).as_str());
    out.append("/");
    out.append(string_of(drop_leading_slashes(v.as_slice())).as_str());
    out
}

/// What stands in front of the first `c` and what stands behind it.
pub open spec fn split_once(s: Seq<char>, c: char) -> Option<(Seq<char>, Seq<char>)> {
    let p = position_of(s, c);
    if p < s.len() {
        Some((s.take(p), s.skip(p + 1)))
    } else {
        None
    }
}

/// What stands in front of the first `c` and what stands behind it.
pub fn cut_once(s: &[char], c: char) -> (r: Option<(&[char], &[char])>)
    ensures
        match r {
            Some((a, b)) => split_once(s@, c) == Some((a@, b@)),
            None => split_once(s@, c) is None,
        },
{
    let p = find_char(s, c);
    if p < s.len() {
        let a = slice_subrange(s, 0, p);
        let b = slice_subrange(s, p + 1, s.len());
        assert(a@ =~= s@.take(p as int));
        assert(b@ =~= s@.skip(p + 1));
        Some((a, b))
    } else {
        None
    }
}

/// The address on the web of a remote given as user and host, with the path behind a colon.
pub open spec fn colon_remote(value: Seq<char>) -> Option<Seq<char>> {
    if begins_with(value, "git@"@) {
        match split_once(value.skip(4), ':') {
            Some((host, path)) => Some(hosted_at(host, path)),
            None => None,
        }
    } else {
        None
    }
}

/// The address on the web of a remote given by the scheme of the secure shell.
pub open spec fn shell_remote(value: Seq<char>) -> Option<Seq<char>> {
    if begins_with(value, "ssh://"@) {
        match split_once(value.skip(6), '@') {
            Some((_, rest)) => match split_once(rest, '/') {
                Some((host, path)) => Some(hosted_at(host, path)),
                None => None,
            },
            None => None,
        }
    } else {
        None
    }
}

/// The address on the web of a remote. `cleaned` is the address without its details, where
/// the remote is one already.
pub open spec fn remote_address(value: Seq<char>, cleaned: Option<Seq<char>>) -> Option<Seq<char>> {
    if value.len() == 0 {
        None
    } else if cleaned is Some {
        cleaned
    } else if colon_remote(value) is Some {
        colon_remote(value)
    } else {
        shell_remote(value)
    }
}

/// The remote is an address on the web.
pub open spec fn is_web_address(value: Seq<char>) -> bool {
    begins_with(value, "http://"@) || begins_with(value, "https://"@)
}

/// The address without its details, where the remote is an address on the web.
pub open spec fn cleaned_address(value: Seq<char>) -> Option<Seq<char>> {
    if is_web_address(value) {
        match url_path(value) {
            Some(path) => url_without_details(value, without_git(path)),
            None => None,
        }
    } else {
        None
    }
}

/// The address on the web of a remote, given the cleaned address where it is one already.
pub fn choose_remote(value: &str, cleaned: Option<String>) -> (r: Option<String>)
    ensures
        text_of(r) == remote_address(value@, text_of(cleaned)),
{
    let v = chars_of(value);
    if v.len() == 0 {
        return None;
    }
    if cleaned.is_some() {
        return cleaned;
    }
    if starts_with(v.as_slice(), "git@") {
        proof {
            reveal_strlit("git@");
        }
        let rest = slice_subrange(v.as_slice(), 4, v.len());
        assert(rest@ =~= value@.skip(4));
        if let Some((host, path)) = cut_once(rest, ':') {
            return Some(host_address(host, path));
        }
    }
    if starts_with(v.as_slice(), "ssh://") {
        proof {
            reveal_strlit("ssh://");
        }
        let rest = slice_subrange(v.as_slice(), 6, v.len());
        assert(rest@ =~= value@.skip(6));
        if let Some((_, behind)) = cut_once(rest, '@') {
            if let Some((host, path)) = cut_once(behind, '/') {
                return Some(host_address(host, path));
            }
        }
    }
    None
}

proof fn lemma_first_char(s: Seq<char>, prefix: Seq<char>)
    ensures
        begins_with(s, prefix) && prefix.len() > 0 ==> s[0] == prefix[0],
{
    if begins_with(s, prefix) && prefix.len() > 0 {
        assert(s.subrange(0, prefix.len() as int)[0] == s[0]);
    }
}

/// The address on the web of a remote, where it has one. What is made of an address shows
/// no user and no password, and neither query nor fragment.
pub fn normalize_remote_url(raw: Option<String>) -> (r: Option<String>)
    ensures
        text_of(r) == match raw {
            Some(text) => remote_address(trimmed(text@), cleaned_address(trimmed(text@))),
            None => None,
        },
        raw matches Some(text) ==> is_web_address(trimmed(text@)) ==> (r matches Some(url)
            ==> is_bare_address(url@)),
{
    let Some(text) = raw else {
        return None;
    };
    let value = trim_str(text.as_str());
    let web = str_starts_with(value.as_str(), "http://") || str_starts_with(
        value.as_str(),
        "https://",
    );
    let cleaned = if web {
        match read_url_path(value.as_str()) {
            Some(path) => strip_url(value.as_str(), drop_git(path.as_str()).as_str()),
            None => None,
        }
    } else {
        None
    };
    proof {
        reveal_strlit("http://");
        reveal_strlit("https://");
        reveal_strlit("git@");
        reveal_strlit("ssh://");
        if web {
            lemma_first_char(value@, "http://"@);
            lemma_first_char(value@, "https://"@);
            lemma_first_char(value@, "git@"@);
            lemma_first_char(value@, "ssh://"@);
        }
    }
    choose_remote(value.as_str(), cleaned)
}

// ---------------------------------------------------------------------------
// Pull requests
// ---------------------------------------------------------------------------

/// A number in brackets behind a hash.
pub const BRACKETED_NUMBER: &'static str = r"\(#(\d+)\)";

/// A number behind `PR` and a hash.
pub const NAMED_NUMBER: &'static str = r"PR\s*#(\d+)";

/// A number behind a hash.
pub const PLAIN_NUMBER: &'static str = r"#(\d+)";

/// The number that a group holds.
pub open spec fn number_in(found: Option<Seq<char>>) -> Option<int> {
    match found {
        Some(digits) => signed_of(digits),
        None => None,
    }
}

/// The first of three that is there.
pub open spec fn first_number(a: Option<int>, b: Option<int>, c: Option<int>) -> Option<int> {
    if a is Some {
        a
    } else if b is Some {
        b
    } else {
        c
    }
}

/// An optional number of 64 bits as a mathematical integer.
pub open spec fn wide(n: Option<i64>) -> Option<int> {
    match n {
        Some(v) => Some(v as int),
        None => None,
    }
}

/// The number that a group holds.
fn read_number(found: Option<String>) -> (r: Option<i64>)
    ensures
        wide(r) == number_in(text_of(found)),
{
    match found {
        Some(digits) => parse_signed(digits.as_str()),
        None => None,
    }
}

/// The number of the pull request, given what each of the patterns found.
pub fn choose_number(bracketed: Option<String>, named: Option<String>, plain: Option<String>) -> (r:
    Option<i64>)
    ensures
        wide(r) == first_number(
            number_in(text_of(bracketed)),
            number_in(text_of(named)),
            number_in(text_of(plain)),
        ),
{
    let a = read_number(bracketed);
    if a.is_some() {
        return a;
    }
    let b = read_number(named);
    if b.is_some() {
        return b;
    }
    read_number(plain)
}

/// The number of the pull request that the subject of a commit speaks of.
pub open spec fn request_number(subject: Seq<char>) -> Option<int> {
    first_number(
        number_in(regex_group(BRACKETED_NUMBER@, subject, 1)),
        number_in(regex_group(NAMED_NUMBER@, subject, 1)),
        number_in(regex_group(PLAIN_NUMBER@, subject, 1)),
    )
}

/// The number of the pull request that the subject of a commit speaks of.
pub fn parse_pull_request_number(subject: &str) -> (r: Option<i64>)
    ensures
        wide(r) == request_number(subject@),
{
    let bracketed = capture_group(BRACKETED_NUMBER, subject, 1);
    let named = capture_group(NAMED_NUMBER, subject, 1);
    let plain = capture_group(PLAIN_NUMBER, subject, 1);
    choose_number(bracketed, named, plain)
}

/// The address of a pull request, where the repository has one on the web.
pub open spec fn request_url(remote: Option<Seq<char>>, number: Option<int>) -> Option<Seq<char>> {
    match (remote, number) {
        (Some(url), Some(n)) => Some(
            without_trailing_slashes(url) + "/pull/"@ + signed_decimal(n),
        ),
        _ => None,
    }
}

/// The address of a pull request.
pub fn build_pull_request_url(remote_url: Option<&str>, pr_number: Option<i64>) -> (r: Option<
    String,
>)
    ensures
        text_of(r) == request_url(opt_view(remote_url), wide(pr_number)),
{
    match (remote_url, pr_number) {
        (Some(url), Some(n)) => {
            let v = chars_of(url);
            let mut out = string_of(drop_trailing_slashes(v.as_slice()));
            out.append("/pull/");
            push_signed_decimal(&mut out, n);
            Some(out)
        },
        _ => None,
    }
}

// ---------------------------------------------------------------------------
// What holds of addresses
// ---------------------------------------------------------------------------

/// The ending of repositories is taken away once, and only where it is there.
pub proof fn law_without_git(path: Seq<char>)
    ensures
        without_git(path + ".git"@) == path,
        !".git"@.is_suffix_of(path) ==> without_git(path) == path,
{
    reveal_strlit(".git");
    let full = path + ".git"@;
    assert(full.subrange(
        full.len() - ".git"@.len(),
        full.len() - ".git"@.len() + ".git"@.len(),
    ) =~= ".git"@);
    assert(full.take(full.len() - 4) =~= path);
    crate::pieces::law_occurrence(path, ".git"@);
}

/// Slashes at an end are taken away, all of them and nothing else.
pub proof fn law_slashes(s: Seq<char>)
    ensures
        exists|n: int|
            {
                &&& 0 <= n <= s.len()
                &&& without_leading_slashes(s) == #[trigger] s.skip(n)
                &&& forall|i: int| 0 <= i < n ==> s[i] == '/'
                &&& n < s.len() ==> s[n] != '/'
            },
        exists|n: int|
            {
                &&& 0 <= n <= s.len()
                &&& without_trailing_slashes(s) == #[trigger] s.take(n)
                &&& forall|i: int| n <= i < s.len() ==> s[i] == '/'
                &&& n > 0 ==> s[n - 1] != '/'
            },
{
    lemma_leading_slashes(s);
    lemma_trailing_slashes(s);
}

proof fn lemma_leading_slashes(s: Seq<char>)
    ensures
        exists|n: int|
            {
                &&& 0 <= n <= s.len()
                &&& without_leading_slashes(s) == #[trigger] s.skip(n)
                &&& forall|i: int| 0 <= i < n ==> s[i] == '/'
                &&& n < s.len() ==> s[n] != '/'
            },
    decreases s.len(),
{
    if s.len() > 0 && s[0] == '/' {
        let rest = s.drop_first();
        lemma_leading_slashes(rest);
        let n = choose|n: int|
            {
                &&& 0 <= n <= rest.len()
                &&& without_leading_slashes(rest) == #[trigger] rest.skip(n)
                &&& forall|i: int| 0 <= i < n ==> rest[i] == '/'
                &&& n < rest.len() ==> rest[n] != '/'
            };
        assert(rest.skip(n) =~= s.skip(n + 1));
        assert forall|i: int| 0 <= i < n + 1 implies s[i] == '/' by {
            if i > 0 {
                assert(rest[i - 1] == s[i]);
            }
        }
    } else {
        assert(s.skip(0) =~= s);
    }
}

proof fn lemma_trailing_slashes(s: Seq<char>)
    ensures
        exists|n: int|
            {
                &&& 0 <= n <= s.len()
                &&& without_trailing_slashes(s) == #[trigger] s.take(n)
                &&& forall|i: int| n <= i < s.len() ==> s[i] == '/'
                &&& n > 0 ==> s[n - 1] != '/'
            },
    decreases s.len(),
{
    if s.len() > 0 && s.last() == '/' {
        let rest = s.drop_last();
        lemma_trailing_slashes(rest);
        let n = choose|n: int|
            {
                &&& 0 <= n <= rest.len()
                &&& without_trailing_slashes(rest) == #[trigger] rest.take(n)
                &&& forall|i: int| n <= i < rest.len() ==> rest[i] == '/'
                &&& n > 0 ==> rest[n - 1] != '/'
            };
        assert(rest.take(n) =~= s.take(n));
        assert forall|i: int| n <= i < s.len() implies s[i] == '/' by {
            if i < rest.len() {
                assert(rest[i] == s[i]);
            }
        }
        if n > 0 {
            assert(rest[n - 1] == s[n - 1]);
        }
    } else {
        assert(s.take(s.len() as int) =~= s);
    }
}

/// A text is cut at the first separator: in front of it there is none.
pub proof fn law_split_once(s: Seq<char>, c: char)
    ensures
        split_once(s, c) matches Some((a, b)) ==> !a.contains(c) && s == a + seq![c] + b,
        split_once(s, c) is None <==> !s.contains(c),
{
    crate::pieces::lemma_position_of(s, c);
    let p = position_of(s, c);
    if p < s.len() {
        assert(s =~= s.take(p) + seq![c] + s.skip(p + 1));
        assert(s.contains(s[p]));
        assert forall|i: int| 0 <= i < p implies s.take(p)[i] != c by {
            assert(s.take(p)[i] == s[i]);
        }
    }
}

/// A remote with the path behind a colon is on the web at its host, under its path.
pub proof fn law_colon_remote(host: Seq<char>, path: Seq<char>)
    requires
        !host.contains(':'),
    ensures
        colon_remote("git@"@ + host + seq![':'] + path) == Some(
            "https://"@ + host + "/"@ + without_leading_slashes(without_git(trimmed(path))),
        ),
{
    reveal_strlit("git@");
    let value = "git@"@ + host + seq![':'] + path;
    let rest = host + seq![':'] + path;
    assert(value =~= "git@"@ + rest);
    assert(value.subrange(0, 0int + "git@"@.len()) =~= "git@"@);
    assert(value.skip(4) =~= rest);
    assert forall|i: int| 0 <= i < host.len() implies rest[i] != ':' by {
        assert(rest[i] == host[i]);
    }
    crate::pieces::lemma_position_unique(rest, ':', host.len() as int);
    assert(rest.take(host.len() as int) =~= host);
    assert(rest.skip(host.len() + 1int) =~= path);
}

/// A remote by the secure shell is on the web at its host, under its path, and its user is
/// told nobody.
pub proof fn law_shell_remote(user: Seq<char>, host: Seq<char>, path: Seq<char>)
    requires
        !user.contains('@'),
        !host.contains('/'),
    ensures
        shell_remote("ssh://"@ + user + seq!['@'] + host + seq!['/'] + path) == Some(
            "https://"@ + host + "/"@ + without_leading_slashes(without_git(trimmed(path))),
        ),
{
    reveal_strlit("ssh://");
    let value = "ssh://"@ + user + seq!['@'] + host + seq!['/'] + path;
    let tail = host + seq!['/'] + path;
    let rest = user + seq!['@'] + tail;
    assert(value =~= "ssh://"@ + rest);
    assert(value.subrange(0, 0int + "ssh://"@.len()) =~= "ssh://"@);
    assert(value.skip(6) =~= rest);
    assert forall|i: int| 0 <= i < user.len() implies rest[i] != '@' by {
        assert(rest[i] == user[i]);
    }
    crate::pieces::lemma_position_unique(rest, '@', user.len() as int);
    assert(rest.skip(user.len() + 1int) =~= tail);
    assert forall|i: int| 0 <= i < host.len() implies tail[i] != '/' by {
        assert(tail[i] == host[i]);
    }
    crate::pieces::lemma_position_unique(tail, '/', host.len() as int);
    assert(tail.take(host.len() as int) =~= host);
    assert(tail.skip(host.len() + 1int) =~= path);
}

/// A remote is an address on the web exactly where it names one of the two schemes, and
/// what is no such address and neither of the other two forms has none.
pub proof fn law_remote_kinds(value: Seq<char>)
    ensures
        is_web_address(value) <==> "http://"@.is_prefix_of(value) || "https://"@.is_prefix_of(value),
        !is_web_address(value) ==> cleaned_address(value) is None,
        remote_address(value, None) matches Some(_) ==> "git@"@.is_prefix_of(value)
            || "ssh://"@.is_prefix_of(value),
        value.len() > 0 ==> forall|c: Seq<char>| #[trigger]
            remote_address(value, Some(c)) == Some(c),
        remote_address(Seq::empty(), Some(value)) is None,
{
    crate::pieces::law_occurrence(value, "http://"@);
    crate::pieces::law_occurrence(value, "https://"@);
    crate::pieces::law_occurrence(value, "git@"@);
    crate::pieces::law_occurrence(value, "ssh://"@);
}

/// Of the three patterns for the number of a pull request the first that found one counts.
pub proof fn law_first_number(a: Option<int>, b: Option<int>, c: Option<int>)
    ensures
        a is Some ==> first_number(a, b, c) == a,
        a is None && b is Some ==> first_number(a, b, c) == b,
        a is None && b is None ==> first_number(a, b, c) == c,
{
}

/// The address of a pull request lies below that of the repository, with one slash between,
/// and ends with its number. Without one of the two there is none.
pub proof fn law_request_url(remote: Seq<char>, n: int)
    requires
        remote.len() > 0,
        remote.last() != '/',
    ensures
        request_url(Some(remote), Some(n)) == Some(remote + "/pull/"@ + signed_decimal(n)),
        request_url(Some(remote.push('/')), Some(n)) == request_url(Some(remote), Some(n)),
        request_url(None, Some(n)) is None,
        request_url(Some(remote), None) is None,
{
    assert(remote.push('/').drop_last() =~= remote);
    assert(without_trailing_slashes(remote.push('/')) == without_trailing_slashes(remote));
}

} // verus!
