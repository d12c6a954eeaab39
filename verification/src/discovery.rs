//! Finding the access token: in the page the path of the application script, and in the script
//! the token.

use crate::speedtest::Fault;
use crate::text::{before_mark, characters, find, position, stands_at};
use vstd::prelude::*;
use vstd::string::*;

verus! {

/// The address that hands out the test servers.
pub const API_ENDPOINT: &'static str = "https://api.fast.com/netflix/speedtest/v2";

/// The token that is used when none is found.
pub const FALLBACK_TOKEN: &'static str = "YXNkZmFzZGxmbnNkYWZoYXNkZmhrYWxm";

/// The site whose page names the application script.
pub const SITE: &'static str = "https://fast.com";

/// The address of that page.
pub const PAGE_URL: &'static str = "https://fast.com/";

/// What stands in front of a source path in the page.
pub const SOURCE: &'static str = "src=\"";

/// The shortest token, in characters.
pub const SHORTEST_TOKEN: usize = 20;

/// Whether `path` is the path of the application script.
pub open spec fn is_script_path(path: Seq<char>) -> bool {
    "/app-"@.is_prefix_of(path) && ".js"@.is_suffix_of(path)
}

/// The script path that `part` begins with, up to the first double quote.
pub open spec fn leading_path(part: Seq<char>) -> Option<Seq<char>> {
    match find(part, seq!['"']) {
        Some(i) => if is_script_path(part.take(i)) {
            Some(part.take(i))
        } else {
            None
        },
        None => None,
    }
}

/// The first script path at the beginning of `page` or right behind a source attribute.
pub open spec fn script_path_in(page: Seq<char>) -> Option<Seq<char>>
    decreases page.len(),
{
    match find(page, SOURCE@) {
        Some(i) => match leading_path(page.take(i)) {
            Some(path) => Some(path),
            None => {
                let rest = page.skip(i + SOURCE@.len());
                proof {
                    reveal_strlit("src=\"");
                    crate::text::lemma_find_from(page, SOURCE@, 0);
                }
                script_path_in(rest)
            },
        },
        None => leading_path(page),
    }
}

/// The path of the application script, if the page names one.
pub fn script_path(page: &str) -> (r: Option<String>)
    ensures
        r matches Some(path) ==> script_path_in(page@) == Some(path@),
        r is None ==> script_path_in(page@) is None,
{
    let text = characters(page);
    let source = characters(SOURCE);
    let mut from: usize = 0;
    proof {
        reveal_strlit("src=\"");
        assert(text@.skip(0) =~= page@);
    }
    loop
        invariant
            text@ == page@,
            source@ == SOURCE@,
            source@.len() == 5,
            from <= text.len(),
            script_path_in(page@) == script_path_in(text@.skip(from as int)),
        decreases text.len() - from,
    {
        let next = position(&text, &source, from);
        let end: usize = match next {
            Some(i) => i,
            None => text.len(),
        };
        let ghost rest = text@.skip(from as int);
        proof {
            crate::text::lemma_find_in_suffix(text@, source@, from as int, 0);
            crate::text::lemma_find_from(text@, source@, from as int);
        }
        let found = path_between(page, &text, from, end);
        proof {
            assert(rest.take(end - from) =~= text@.subrange(from as int, end as int));
            if next is None {
                assert(rest.take(end - from) =~= rest);
            }
        }
        if found.is_some() {
            return found;
        }
        match next {
            None => {
                return None;
            },
            Some(i) => {
                proof {
                    assert(rest.skip(end - from + 5) =~= text@.skip(i + 5));
                }
                from = i + source.len();
            },
        }
    }
}

/// The script path at the beginning of the part of `page` from `from` to `end`.
fn path_between(page: &str, text: &Vec<char>, from: usize, end: usize) -> (r: Option<String>)
    requires
        text@ == page@,
        from <= end <= text.len(),
    ensures
        r matches Some(path) ==> leading_path(page@.subrange(from as int, end as int)) == Some(
            path@,
        ),
        r is None ==> leading_path(page@.subrange(from as int, end as int)) is None,
{
    let quote: Vec<char> = vec!['"'];
    let prefix = characters("/app-");
    let suffix = characters(".js");
    let ghost part = text@.subrange(from as int, end as int);
    proof {
        reveal_strlit("/app-");
        reveal_strlit(".js");
        assert(quote@ =~= seq!['"']);
        crate::text::lemma_find_in_suffix(text@, quote@, from as int, 0);
        crate::text::lemma_find_in_prefix(text@.skip(from as int), quote@, end - from, 0);
        assert(text@.skip(from as int).take(end - from) =~= part);
        crate::text::lemma_find_from(text@, quote@, from as int);
    }
    match position(text, &quote, from) {
        None => None,
        Some(stop) => {
            if stop >= end {
                return None;
            }
            let ghost path = part.take(stop - from);
            proof {
                assert(path =~= text@.subrange(from as int, stop as int));
            }
            if stop - from < prefix.len() {
                return None;
            }
            let starts = stands_at(text, &prefix, from);
            let ends = stands_at(text, &suffix, stop - suffix.len());
            proof {
                assert(path.subrange(0, 5) =~= text@.subrange(from as int, from + 5));
                assert(path.subrange(path.len() - 3, path.len() as int) =~= text@.subrange(
                    stop - 3,
                    stop as int,
                ));
            }
            if starts && ends {
                Some(page.substring_char(from, stop).to_owned())
            } else {
                None
            }
        },
    }
}

/// What the script writes in front of its token, in the order in which it is looked for.
pub open spec fn markers() -> Seq<Seq<char>> {
    seq!["token:\""@, "token: \""@, "token='"@, "token = '"@]
}

/// The quote that ends a token that `marker` introduces.
pub open spec fn closing_quote(marker: Seq<char>) -> char {
    if marker.last() == '\'' {
        '\''
    } else {
        '"'
    }
}

/// Whether `c` may stand in a token.
pub open spec fn is_token_char(c: char) -> bool {
    'a' <= c <= 'z' || 'A' <= c <= 'Z' || '0' <= c <= '9' || c == '-' || c == '_'
}

/// Whether `s` has the shape of a token.
pub open spec fn is_token(s: Seq<char>) -> bool {
    s.len() >= SHORTEST_TOKEN && forall|i: int|
        0 <= i < s.len() ==> is_token_char(#[trigger] s[i])
}

/// The token behind the first `marker` in `script`, if what stands there has the shape of one.
pub open spec fn token_behind(script: Seq<char>, marker: Seq<char>) -> Option<Seq<char>> {
    match find(script, marker) {
        Some(i) => {
            let text = before_mark(script.skip(i + marker.len()), closing_quote(marker));
            if is_token(text) {
                Some(text)
            } else {
                None
            }
        },
        None => None,
    }
}

/// The token behind the first of the markers from number `k` on that has one behind it.
pub open spec fn token_from(script: Seq<char>, k: int) -> Option<Seq<char>>
    decreases markers().len() - k,
{
    if k < 0 || k >= markers().len() {
        None
    } else {
        match token_behind(script, markers()[k]) {
            Some(token) => Some(token),
            None => token_from(script, k + 1),
        }
    }
}

/// The token that the script holds.
pub open spec fn token_in(script: Seq<char>) -> Option<Seq<char>> {
    token_from(script, 0)
}

/// The token that the script holds, if it holds one.
pub fn extract_token(script: &str) -> (r: Option<String>)
    ensures
        r matches Some(token) ==> token_in(script@) == Some(token@),
        r is None ==> token_in(script@) is None,
{
    let text = characters(script);
    proof {
        reveal_strlit("token:\"");
        reveal_strlit("token: \"");
        reveal_strlit("token='");
        reveal_strlit("token = '");
        reveal_with_fuel(token_from, 5);
    }
    let first = take_token(script, &text, "token:\"", '"');
    if first.is_some() {
        return first;
    }
    let second = take_token(script, &text, "token: \"", '"');
    if second.is_some() {
        return second;
    }
    let third = take_token(script, &text, "token='", '\'');
    if third.is_some() {
        return third;
    }
    take_token(script, &text, "token = '", '\'')
}

/// Whether every character from `start` to `end` may stand in a token.
fn token_chars_only(text: &Vec<char>, start: usize, end: usize) -> (r: bool)
    requires
        start <= end <= text.len(),
    ensures
        r == forall|j: int|
            0 <= j < end - start ==> is_token_char(
                #[trigger] text@.subrange(start as int, end as int)[j],
            ),
{
    let ghost part = text@.subrange(start as int, end as int);
    let mut k: usize = start;
    while k < end
        invariant
            start <= k <= end <= text.len(),
            part == text@.subrange(start as int, end as int),
            forall|j: int| 0 <= j < k - start ==> is_token_char(#[trigger] part[j]),
        decreases end - k,
    {
        let c: char = text[k];
        let fits = ('a' <= c && c <= 'z') || ('A' <= c && c <= 'Z') || ('0' <= c && c <= '9') || c
            == '-' || c == '_';
        if !fits {
            proof {
                assert(!is_token_char(part[k - start]));
            }
            return false;
        }
        k = k + 1;
    }
    true
}

/// The token behind the first `marker`, if what stands there has the shape of one.
fn take_token(script: &str, text: &Vec<char>, marker: &str, quote: char) -> (r: Option<String>)
    requires
        text@ == script@,
        quote == closing_quote(marker@),
    ensures
        r matches Some(token) ==> token_behind(script@, marker@) == Some(token@),
        r is None ==> token_behind(script@, marker@) is None,
{
    let marker = characters(marker);
    match position(text, &marker, 0) {
        None => None,
        Some(i) => {
            let start: usize = i + marker.len();
            let closing: Vec<char> = vec![quote];
            let end: usize = match position(text, &closing, start) {
                Some(j) => j,
                None => text.len(),
            };
            let ghost token = text@.subrange(start as int, end as int);
            proof {
                assert(closing@ =~= seq![quote]);
                crate::text::lemma_find_in_suffix(text@, closing@, start as int, 0);
                crate::text::lemma_find_from(text@, closing@, start as int);
                assert(text@.skip(start as int).take(end - start) =~= token);
                if end == text.len() {
                    assert(text@.skip(start as int) =~= token);
                }
                assert(token == before_mark(script@.skip(i + marker@.len()), quote));
            }
            if end - start < SHORTEST_TOKEN {
                return None;
            }
            if !token_chars_only(text, start, end) {
                return None;
            }
            Some(script.substring_char(start, end).to_owned())
        },
    }
}

/// The address of the script with that path.
pub fn script_url(path: &str) -> (r: String)
    ensures
        r@ == SITE@ + path@,
{
    let mut r = SITE.to_owned();
    r.append(path);
    r
}

/// The address of the application script that the page names.
pub open spec fn script_address(page: Seq<char>) -> Result<Seq<char>, Fault> {
    match script_path_in(page) {
        Some(path) => Ok(SITE@ + path),
        None => Err(Fault::NoScript),
    }
}

/// The address of the application script that the page names, or that it names none.
pub fn find_script(page: &str) -> (r: Result<String, Fault>)
    ensures
        r matches Ok(url) ==> script_address(page@) == Ok::<Seq<char>, Fault>(url@),
        r matches Err(fault) ==> script_address(page@) == Err::<Seq<char>, Fault>(fault),
{
    match script_path(page) {
        Some(path) => Ok(script_url(path.as_str())),
        None => Err(Fault::NoScript),
    }
}

/// The token that the script holds, or that it holds none.
pub open spec fn token_or_fault(script: Seq<char>) -> Result<Seq<char>, Fault> {
    match token_in(script) {
        Some(token) => Ok(token),
        None => Err(Fault::NoToken),
    }
}

/// The token that the script holds, or that it holds none.
pub fn find_token(script: &str) -> (r: Result<String, Fault>)
    ensures
        r matches Ok(token) ==> token_or_fault(script@) == Ok::<Seq<char>, Fault>(token@),
        r matches Err(fault) ==> token_or_fault(script@) == Err::<Seq<char>, Fault>(fault),
{
    match extract_token(script) {
        Some(token) => Ok(token),
        None => Err(Fault::NoToken),
    }
}

/// The address that hands out test servers to the bearer of `token`.
pub open spec fn targets_address(token: Seq<char>) -> Seq<char> {
    API_ENDPOINT@ + "?https=true&token="@ + token + "&urlCount=5"@
}

/// The address that hands out test servers to the bearer of `token`.
pub fn targets_url(token: &str) -> (r: String)
    ensures
        r@ == targets_address(token@),
{
    let mut r = API_ENDPOINT.to_owned();
    r.append("?https=true&token=");
    r.append(token);
    r.append("&urlCount=5");
    r
}

/// Whatever is found in a page has the shape of a script path.
pub proof fn lemma_script_path_has_its_shape(page: Seq<char>)
    ensures
        script_path_in(page) matches Some(path) ==> is_script_path(path),
    decreases page.len(),
{
    if let Some(i) = find(page, SOURCE@) {
        reveal_strlit("src=\"");
        crate::text::lemma_find_from(page, SOURCE@, 0);
        lemma_script_path_has_its_shape(page.skip(i + SOURCE@.len()));
    }
}

/// Whatever is found in a script has the shape of a token: it is long enough, and letters,
/// digits, dashes and underscores alone, which an address can carry as they are.
pub proof fn lemma_token_has_its_shape(script: Seq<char>)
    ensures
        token_in(script) matches Some(token) ==> is_token(token),
{
    reveal_with_fuel(token_from, 5);
}

/// The token that is used when none is found has that shape too.
pub proof fn lemma_fallback_has_token_shape()
    ensures
        is_token(FALLBACK_TOKEN@),
{
    reveal_strlit("YXNkZmFzZGxmbnNkYWZoYXNkZmhrYWxm");
}

/// What introduces a token, each with the quote that ends it, in the order in which it is looked
/// for.
pub open spec fn introductions() -> Seq<(Seq<char>, char)> {
    seq![("token:\""@, '"'), ("token: \""@, '"'), ("token='"@, '\''), ("token = '"@, '\'')]
}

/// Whether `text` stands right behind the first `marker` of `script`, which is at place `at`, and
/// goes on to the first `quote` there or else to the end.
pub open spec fn is_behind(
    script: Seq<char>,
    marker: Seq<char>,
    quote: char,
    at: int,
    text: Seq<char>,
) -> bool {
    let start = at + marker.len();
    let end = start + text.len();
    &&& 0 <= at && end <= script.len()
    &&& script.subrange(at, start) == marker
    &&& forall|j: int| 0 <= j < at ==> #[trigger] script.subrange(j, j + marker.len()) != marker
    &&& script.subrange(start, end) == text
    &&& !text.contains(quote)
    &&& end == script.len() || script[end] == quote
}

/// Whether `s` is made of twenty or more letters, digits, dashes and underscores of ASCII.
pub open spec fn looks_like_a_token(s: Seq<char>) -> bool {
    s.len() >= 20 && forall|i: int|
        0 <= i < s.len() ==> {
            ||| 'a' <= #[trigger] s[i] <= 'z'
            ||| 'A' <= s[i] <= 'Z'
            ||| '0' <= s[i] <= '9'
            ||| s[i] == '-'
            ||| s[i] == '_'
        }
}

/// Whether something that looks like a token stands behind the introduction number `k`.
pub open spec fn introduced(script: Seq<char>, k: int, token: Seq<char>) -> bool {
    looks_like_a_token(token) && exists|at: int| #[trigger]
        is_behind(script, introductions()[k].0, introductions()[k].1, at, token)
}

proof fn lemma_before_mark(s: Seq<char>, mark: char)
    ensures
        before_mark(s, mark).is_prefix_of(s),
        !before_mark(s, mark).contains(mark),
        before_mark(s, mark).len() < s.len() ==> s[before_mark(s, mark).len() as int] == mark,
{
    let pattern = seq![mark];
    crate::text::lemma_find_from(s, pattern, 0);
    let part = before_mark(s, mark);
    assert(part =~= s.subrange(0, part.len() as int));
    assert forall|i: int| 0 <= i < part.len() implies part[i] != mark by {
        if s[i] == mark {
            assert(s.subrange(i, i + 1) =~= pattern);
            assert(crate::text::occurs_at(s, pattern, i));
        }
    }
    if part.len() < s.len() {
        let i = part.len() as int;
        assert(s.subrange(i, i + 1)[0] == pattern[0]);
    }
}

/// What stands behind the first marker is what the search looks at.
proof fn lemma_behind(script: Seq<char>, marker: Seq<char>, quote: char)
    ensures
        match find(script, marker) {
            Some(i) => is_behind(
                script,
                marker,
                quote,
                i,
                before_mark(script.skip(i + marker.len()), quote),
            ),
            None => true,
        },
        forall|at: int, text: Seq<char>| #[trigger]
            is_behind(script, marker, quote, at, text) ==> find(script, marker) == Some(at)
                && before_mark(script.skip(at + marker.len()), quote) == text,
{
    crate::text::lemma_find_from(script, marker, 0);
    if let Some(i) = find(script, marker) {
        let start = i + marker.len();
        let rest = script.skip(start);
        let text = before_mark(rest, quote);
        lemma_before_mark(rest, quote);
        assert(text =~= script.subrange(start, start + text.len())) by {
            assert(text =~= rest.subrange(0, text.len() as int));
        }
        assert forall|j: int| 0 <= j < i implies #[trigger] script.subrange(j, j + marker.len())
            != marker by {
            assert(!crate::text::occurs_at(script, marker, j));
        }
    }
    assert forall|at: int, text: Seq<char>| #[trigger]
        is_behind(script, marker, quote, at, text) implies find(script, marker) == Some(at)
        && before_mark(script.skip(at + marker.len()), quote) == text by {
        let start = at + marker.len();
        assert(crate::text::occurs_at(script, marker, at));
        if let Some(i) = find(script, marker) {
            assert(crate::text::occurs_at(script, marker, i));
            if i > at {
                assert(!crate::text::occurs_at(script, marker, at));
            }
            if i < at {
                assert(script.subrange(i, i + marker.len()) != marker);
            }
        }
        let rest = script.skip(start);
        let found = before_mark(rest, quote);
        lemma_before_mark(rest, quote);
        assert forall|j: int| 0 <= j < text.len() implies text[j] == rest[j] by {
            assert(script.subrange(start, start + text.len())[j] == script[start + j]);
        }
        assert forall|j: int| 0 <= j < found.len() implies found[j] == rest[j] by {
            assert(rest.subrange(0, found.len() as int)[j] == rest[j]);
        }
        if text.len() < found.len() {
            assert(rest[text.len() as int] == quote);
            assert(found[text.len() as int] == quote);
        }
        if found.len() < text.len() {
            assert(text[found.len() as int] == quote);
        }
        assert(found =~= text);
    }
}

proof fn lemma_introduction(script: Seq<char>, k: int, token: Seq<char>)
    requires
        0 <= k < 4,
    ensures
        markers()[k] == introductions()[k].0,
        introduced(script, k, token) <==> token_behind(script, markers()[k]) == Some(token),
{
    reveal_strlit("token:\"");
    reveal_strlit("token: \"");
    reveal_strlit("token='");
    reveal_strlit("token = '");
    let (marker, quote) = introductions()[k];
    assert(closing_quote(marker) == quote);
    lemma_behind(script, marker, quote);
    assert(is_token(token) <==> looks_like_a_token(token)) by {
        assert forall|i: int| 0 <= i < token.len() && is_token(token) implies {
            ||| 'a' <= #[trigger] token[i] <= 'z'
            ||| 'A' <= token[i] <= 'Z'
            ||| '0' <= token[i] <= '9'
            ||| token[i] == '-'
            ||| token[i] == '_'
        } by {
            assert(is_token_char(token[i]));
        }
    }
}

/// The search for the token is complete and sound: it gives the text behind the first of the
/// introductions that has something which looks like a token behind it, wherever that stands in
/// the script, and it gives nothing only where none has.
pub proof fn lemma_token_search(script: Seq<char>)
    ensures
        token_in(script) matches Some(token) ==> exists|k: int|
            0 <= k < 4 && #[trigger] introduced(script, k, token) && forall|i: int, other: Seq<char>|
                0 <= i < k ==> !#[trigger] introduced(script, i, other),
        token_in(script) is None ==> forall|k: int, token: Seq<char>|
            0 <= k < 4 ==> !#[trigger] introduced(script, k, token),
        forall|k: int, token: Seq<char>|
            0 <= k < 4 && #[trigger] introduced(script, k, token) && (forall|
                i: int,
                other: Seq<char>,
            |
                0 <= i < k ==> !#[trigger] introduced(script, i, other)) ==> token_in(script)
                == Some(token),
{
    reveal_with_fuel(token_from, 5);
    assert forall|k: int, token: Seq<char>| 0 <= k < 4 implies #[trigger] introduced(
        script,
        k,
        token,
    ) == (token_behind(script, markers()[k]) == Some(token)) by {
        lemma_introduction(script, k, token);
    }
    assert forall|k: int| 0 <= k < 4 && #[trigger] token_behind(script, markers()[k]) is Some implies introduced(
        script,
        k,
        token_behind(script, markers()[k])->0,
    ) by {}
    if let Some(token) = token_in(script) {
        let k: int = if token_behind(script, markers()[0]) is Some {
            0
        } else if token_behind(script, markers()[1]) is Some {
            1
        } else if token_behind(script, markers()[2]) is Some {
            2
        } else {
            3
        };
        assert(introduced(script, k, token));
    }
}

/// A token in a script is found however much stands in front of it and behind it, and whether it
/// is closed or goes on to the end: all that is asked is that its introduction does not stand
/// earlier, and that none which is looked for before it has a token behind it.
pub proof fn lemma_token_is_found(
    before: Seq<char>,
    k: int,
    token: Seq<char>,
    behind: Seq<char>,
    script: Seq<char>,
)
    requires
        0 <= k < 4,
        looks_like_a_token(token),
        script == before + introductions()[k].0 + token + seq![introductions()[k].1] + behind
            || script == before + introductions()[k].0 + token,
        forall|j: int|
            0 <= j < before.len() ==> #[trigger] (before + introductions()[k].0).subrange(
                j,
                j + introductions()[k].0.len(),
            ) != introductions()[k].0,
        forall|i: int, other: Seq<char>| 0 <= i < k ==> !#[trigger] introduced(script, i, other),
    ensures
        token_in(script) == Some(token),
{
    let (marker, quote) = introductions()[k];
    let at = before.len() as int;
    let start = at + marker.len();
    assert(script.subrange(at, start) =~= marker);
    assert(script.subrange(start, start + token.len()) =~= token);
    assert forall|j: int| 0 <= j < at implies #[trigger] script.subrange(j, j + marker.len())
        != marker by {
        assert((before + marker).subrange(j, j + marker.len()) =~= script.subrange(
            j,
            j + marker.len(),
        ));
    }
    assert(!token.contains(quote)) by {
        if token.contains(quote) {
            let i = choose|i: int| 0 <= i < token.len() && token[i] == quote;
            assert(token[i] == '"' || token[i] == '\'');
        }
    }
    assert(is_behind(script, marker, quote, at, token));
    assert(introduced(script, k, token));
    lemma_token_search(script);
}

/// Whether `path` stands in `page` at place `at`, at the very beginning or right behind a source
/// attribute, is closed by the first double quote there, and is that of an application script.
pub open spec fn is_script_at(page: Seq<char>, at: int, path: Seq<char>) -> bool {
    &&& 0 <= at && at + path.len() < page.len()
    &&& at == 0 || (at >= 5 && page.subrange(at - 5, at) == "src=\""@)
    &&& page.subrange(at, at + path.len()) == path
    &&& page[at + path.len()] == '"'
    &&& !path.contains('"')
    &&& path.len() >= 5
    &&& path.subrange(0, 5) == "/app-"@
    &&& path.subrange(path.len() - 3, path.len() as int) == ".js"@
}

/// What stands at the beginning of a part that ends with the page or in front of a source
/// attribute.
proof fn lemma_leading_path(page: Seq<char>, end: int, path: Seq<char>)
    requires
        0 <= end <= page.len(),
        end == page.len() || (end + 5 <= page.len() && page.subrange(end, end + 5) == "src=\""@),
    ensures
        is_script_at(page, 0, path) <==> leading_path(page.take(end)) == Some(path),
{
    reveal_strlit("src=\"");
    reveal_strlit("/app-");
    reveal_strlit(".js");
    let part = page.take(end);
    let quote = seq!['"'];
    lemma_before_mark(part, '"');
    crate::text::lemma_find_from(part, quote, 0);
    if leading_path(part) == Some(path) {
        let i = find(part, quote)->0;
        assert(path == part.take(i));
        assert(path =~= page.subrange(0, i));
        assert(part.subrange(i, i + 1)[0] == quote[0]);
        assert(before_mark(part, '"') == path);
        assert(page.subrange(0, path.len() as int) =~= path);
        assert("/app-"@ =~= path.subrange(0, 5));
        assert(".js"@ =~= path.subrange(path.len() - 3, path.len() as int));
    }
    if is_script_at(page, 0, path) {
        let n = path.len() as int;
        assert forall|j: int| 0 <= j < n implies path[j] == page[j] by {
            assert(page.subrange(0, n)[j] == page[j]);
        }
        if n >= end {
            let source = page.subrange(end, end + 5);
            assert(source[0] == page[end] && source[1] == page[end + 1] && source[2] == page[end
                + 2] && source[3] == page[end + 3] && source[4] == page[end + 4]);
            if n > end + 4 {
                assert(path[end + 4] == '"');
                assert(path.contains('"'));
            } else {
                assert(n == end + 4);
                let tail = path.subrange(n - 3, n);
                assert(tail[2] == path[n - 1]);
                assert(path[n - 1] == page[end + 3]);
            }
            assert(false);
        }
        assert(part[n] == '"');
        assert(part.subrange(n, n + 1) =~= quote);
        assert(crate::text::occurs_at(part, quote, n));
        let i = find(part, quote)->0;
        if i < n {
            assert(part.subrange(i, i + 1)[0] == quote[0]);
            assert(path[i] == '"');
            assert(path.contains('"'));
        }
        assert(i == n);
        assert(part.take(n) =~= path);
        assert("/app-"@.is_prefix_of(path));
        assert(".js"@.is_suffix_of(path));
    }
}

/// Behind the first source attribute the page begins anew.
proof fn lemma_script_behind_source(page: Seq<char>, i: int, at: int, path: Seq<char>)
    requires
        find(page, "src=\""@) == Some(i),
    ensures
        at >= 0 ==> (is_script_at(page, at + i + 5, path) <==> is_script_at(
            page.skip(i + 5),
            at,
            path,
        )),
        is_script_at(page, at, path) ==> at == 0 || at >= i + 5,
{
    reveal_strlit("src=\"");
    let source = "src=\""@;
    crate::text::lemma_find_from(page, source, 0);
    let rest = page.skip(i + 5);
    let here = page.subrange(i, i + 5);
    assert(here[0] == page[i] && here[1] == page[i + 1] && here[2] == page[i + 2] && here[3]
        == page[i + 3] && here[4] == page[i + 4]);
    if is_script_at(page, at, path) && 0 < at < i + 5 {
        assert(crate::text::occurs_at(page, source, at - 5));
    }
    if at >= 0 {
        let to = at + i + 5;
        if at + path.len() < rest.len() {
            assert(rest.subrange(at, at + path.len()) =~= page.subrange(to, to + path.len()));
        }
        if at == 0 {
            assert(to - 5 == i);
        } else if at < 5 {
            if to <= page.len() {
                let there = page.subrange(to - 5, to);
                assert(there[0] == page[i + at]);
            }
        } else if at <= rest.len() {
            assert(rest.subrange(at - 5, at) =~= page.subrange(to - 5, to));
        }
    }
}

/// The search for the application script is complete and sound: it gives the path that stands
/// first in the page among those of application scripts that a source attribute introduces or
/// the page begins with, and it gives nothing only where there is none.
pub proof fn lemma_script_search(page: Seq<char>)
    ensures
        script_path_in(page) matches Some(path) ==> exists|at: int| #[trigger]
            is_script_at(page, at, path) && forall|i: int, other: Seq<char>|
                i < at ==> !#[trigger] is_script_at(page, i, other),
        script_path_in(page) is None ==> forall|at: int, path: Seq<char>|
            !#[trigger] is_script_at(page, at, path),
        forall|at: int, path: Seq<char>| #[trigger]
            is_script_at(page, at, path) && (forall|i: int, other: Seq<char>|
                i < at ==> !#[trigger] is_script_at(page, i, other)) ==> script_path_in(page)
                == Some(path),
    decreases page.len(),
{
    reveal_strlit("src=\"");
    crate::text::lemma_find_from(page, "src=\""@, 0);
    match find(page, "src=\""@) {
        None => {
            assert(page.take(page.len() as int) =~= page);
            assert forall|path: Seq<char>| is_script_at(page, 0, path) <==> #[trigger] leading_path(
                page,
            ) == Some(path) by {
                lemma_leading_path(page, page.len() as int, path);
            }
            assert forall|at: int, path: Seq<char>| at != 0 implies !#[trigger] is_script_at(
                page,
                at,
                path,
            ) by {
                if is_script_at(page, at, path) {
                    assert(crate::text::occurs_at(page, "src=\""@, at - 5));
                }
            }
            if let Some(path) = leading_path(page) {
                lemma_leading_path(page, page.len() as int, path);
                assert(is_script_at(page, 0, path));
            }
            assert forall|path: Seq<char>| #[trigger] is_script_at(page, 0, path) implies leading_path(
                page,
            ) == Some(path) by {
                lemma_leading_path(page, page.len() as int, path);
            }
        },
        Some(i) => {
            let rest = page.skip(i + 5);
            let first = leading_path(page.take(i));
            lemma_script_search(rest);
            assert forall|path: Seq<char>| #[trigger] is_script_at(page, 0, path) implies first
                == Some(path) by {
                lemma_leading_path(page, i, path);
            }
            if let Some(path) = first {
                lemma_leading_path(page, i, path);
                assert(is_script_at(page, 0, path));
            }
            assert forall|at: int, path: Seq<char>| #[trigger] is_script_at(page, at, path) implies at
                == 0 || (at >= i + 5 && is_script_at(rest, at - i - 5, path)) by {
                lemma_script_behind_source(page, i, at, path);
                lemma_script_behind_source(page, i, at - i - 5, path);
            }
            assert forall|at: int, path: Seq<char>| #[trigger] is_script_at(rest, at, path) implies is_script_at(
                page,
                at + i + 5,
                path,
            ) by {
                lemma_script_behind_source(page, i, at, path);
            }
            if first is None {
                if let Some(path) = script_path_in(rest) {
                    let at = choose|at: int| #[trigger]
                        is_script_at(rest, at, path) && forall|k: int, other: Seq<char>|
                            k < at ==> !#[trigger] is_script_at(rest, k, other);
                    assert(is_script_at(page, at + i + 5, path));
                }
                assert forall|at: int, path: Seq<char>| #[trigger]
                    is_script_at(page, at, path) && (forall|k: int, other: Seq<char>|
                        k < at ==> !#[trigger] is_script_at(page, k, other)) implies script_path_in(
                    page,
                ) == Some(path) by {
                    let to = at - i - 5;
                    assert(is_script_at(rest, to, path));
                    assert forall|k: int, other: Seq<char>| k < to implies !#[trigger] is_script_at(
                        rest,
                        k,
                        other,
                    ) by {
                        if is_script_at(rest, k, other) {
                            assert(is_script_at(page, k + i + 5, other));
                        }
                    }
                }
            }
        },
    }
}

/// A script that the page names is found however much stands in front of its source attribute and
/// behind it, as long as no other stands earlier.
pub proof fn lemma_script_is_found(before: Seq<char>, path: Seq<char>, behind: Seq<char>)
    requires
        path.len() >= 5,
        path.subrange(0, 5) == "/app-"@,
        path.subrange(path.len() - 3, path.len() as int) == ".js"@,
        !path.contains('"'),
        forall|i: int, other: Seq<char>|
            i < before.len() + 5 ==> !#[trigger] is_script_at(
                before + "src=\""@ + path + seq!['"'] + behind,
                i,
                other,
            ),
    ensures
        script_path_in(before + "src=\""@ + path + seq!['"'] + behind) == Some(path),
        script_address(before + "src=\""@ + path + seq!['"'] + behind) == Ok::<Seq<char>, Fault>(
            "https://fast.com"@ + path,
        ),
{
    reveal_strlit("src=\"");
    let page = before + "src=\""@ + path + seq!['"'] + behind;
    let at = before.len() as int + 5;
    assert(page.subrange(at - 5, at) =~= "src=\""@);
    assert(page.subrange(at, at + path.len()) =~= path);
    assert(is_script_at(page, at, path));
    lemma_script_search(page);
}

/// The script is loaded from the site, at the path that the page names; the server list is asked
/// with exactly the token that is handed in.
pub proof fn lemma_addresses(page: Seq<char>, script: Seq<char>, token: Seq<char>)
    ensures
        script_path_in(page) matches Some(path) ==> script_address(page) == Ok::<Seq<char>, Fault>(
            "https://fast.com"@ + path,
        ),
        script_path_in(page) is None <==> script_address(page) is Err,
        token_in(script) matches Some(found) ==> token_or_fault(script) == Ok::<Seq<char>, Fault>(
            found,
        ),
        token_in(script) is None <==> token_or_fault(script) is Err,
        targets_address(token) == "https://api.fast.com/netflix/speedtest/v2"@
            + "?https=true&token="@ + token + "&urlCount=5"@,
{
}

} // verus!
