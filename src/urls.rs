use vstd::prelude::*;
use vstd::string::*;

use crate::scan::{
    candidates, extract_candidates, is_cloud_url_text, is_space, quoted_cloud_url_between_spaces_is_found,
    scheme_separator, string_views, whitespace_separates_candidates,
};
use crate::text::{chars_of, occurs_at, occurs_at_exec, opt_view};

verus! {

/// What `url::Url::parse` makes of a text: `None` where it is no absolute URL,
/// else the URL's serialization.
pub uninterp spec fn url_serialization(s: Seq<char>) -> Option<Seq<char>>;

/// Relies on `url::Url::parse`, which fails on a text that is no absolute URL
/// and else yields a URL whose serialization (`Url::as_str`, which `Into<String>`
/// hands over) depends on the text alone.
#[verifier::external_body]
fn parse_url(s: &str) -> (r: Option<String>)
    ensures
        opt_view(r) == url_serialization(s@),
{
    match url::Url::parse(s) {
        Ok(u) => Some(u.into()),
        Err(_) => None,
    }
}

/// The serializations of the candidates that parse as URLs, in order; the
/// others are dropped.
pub open spec fn parsed_urls(cs: Seq<Seq<char>>) -> Seq<Seq<char>>
    decreases cs.len(),
{
    if cs.len() == 0 {
        Seq::empty()
    } else {
        let rest = parsed_urls(cs.drop_last());
        match url_serialization(cs.last()) {
            Some(u) => rest.push(u),
            None => rest,
        }
    }
}

/// The cloud URLs that a tool's output names, in order of appearance.
pub open spec fn cloud_urls(t: Seq<char>) -> Seq<Seq<char>> {
    parsed_urls(candidates(t))
}

/// The first index at or after `k` where `w` occurs in `t`.
pub open spec fn first_occurrence(t: Seq<char>, w: Seq<char>, k: int) -> Option<int>
    decreases t.len() + 1 - k,
{
    if k < 0 || k + w.len() > t.len() {
        None
    } else if occurs_at(t, w, k) {
        Some(k)
    } else {
        first_occurrence(t, w, k + 1)
    }
}

/// The first index at or after `k` that holds `c` (or the length of `t`).
pub open spec fn char_end(t: Seq<char>, c: char, k: int) -> int
    decreases t.len() - k,
{
    if k < 0 || k >= t.len() || t[k] == c {
        k
    } else {
        char_end(t, c, k + 1)
    }
}

/// The project name that a URL carries: the text after the first `://` up to
/// the first hyphen, where that hyphen stands in the first segment (before any `/`).
pub open spec fn project_name_of(u: Seq<char>) -> Option<Seq<char>> {
    match first_occurrence(u, scheme_separator(), 0) {
        None => None,
        Some(k) => {
            let s = k + scheme_separator().len();
            let d = char_end(u, '-', s);
            if d < char_end(u, '/', s) {
                Some(u.subrange(s, d))
            } else {
                None
            }
        },
    }
}

/// The first URL of `urls` whose project name is `name`.
pub open spec fn first_match(urls: Seq<Seq<char>>, name: Seq<char>) -> Option<Seq<char>>
    decreases urls.len(),
{
    if urls.len() == 0 {
        None
    } else if project_name_of(urls[0]) == Some(name) {
        Some(urls[0])
    } else {
        first_match(urls.drop_first(), name)
    }
}

/// Parses each candidate as a URL and keeps the serializations of those that
/// parse, in order.
pub fn parse_candidates(cs: &Vec<String>) -> (r: Vec<String>)
    ensures
        string_views(r@) == parsed_urls(string_views(cs@)),
{
    let mut r: Vec<String> = Vec::new();
    let mut i: usize = 0;
    while i < cs.len()
        invariant
            i <= cs@.len(),
            string_views(r@) == parsed_urls(string_views(cs@).take(i as int)),
        decreases cs@.len() - i,
    {
        let ghost before = string_views(cs@).take(i as int);
        let parsed = parse_url(cs[i].as_str());
        proof {
            let next = string_views(cs@).take(i + 1);
            assert(next.drop_last() =~= before);
            assert(next.last() == cs@[i as int]@);
        }
        match parsed {
            Some(u) => {
                proof {
                    assert(string_views(r@.push(u)) =~= string_views(r@).push(u@));
                }
                r.push(u);
            },
            None => {},
        }
        i = i + 1;
    }
    assert(string_views(cs@).take(cs@.len() as int) =~= string_views(cs@));
    r
}

/// The cloud URLs that the output of the tool's `list` command names, in order
/// of appearance; quoted candidates that do not parse as URLs are skipped.
pub fn get_urls(list_output: &str) -> (r: Vec<String>)
    ensures
        string_views(r@) == cloud_urls(list_output@),
{
    let cs = extract_candidates(list_output);
    parse_candidates(&cs)
}

fn first_occurrence_exec(t: &Vec<char>, w: &Vec<char>) -> (r: Option<usize>)
    ensures
        match r {
            Some(k) => first_occurrence(t@, w@, 0) == Some(k as int) && k + w@.len() <= t@.len(),
            None => first_occurrence(t@, w@, 0) is None,
        },
{
    if w.len() > t.len() {
        return None;
    }
    if w.len() == 0 {
        assert(t@.subrange(0, 0) =~= w@);
        return Some(0);
    }
    let mut k: usize = 0;
    while k <= t.len() - w.len()
        invariant
            1 <= w@.len() <= t@.len(),
            k <= t@.len() - w@.len() + 1,
            first_occurrence(t@, w@, 0) == first_occurrence(t@, w@, k as int),
        decreases t@.len() + 1 - k,
    {
        if occurs_at_exec(t, w, k) {
            return Some(k);
        }
        k = k + 1;
    }
    None
}

fn char_end_exec(t: &Vec<char>, c: char, k: usize) -> (r: usize)
    requires
        k <= t@.len(),
    ensures
        r == char_end(t@, c, k as int),
        k <= r <= t@.len(),
{
    let mut i = k;
    while i < t.len() && t[i] != c
        invariant
            k <= i <= t@.len(),
            char_end(t@, c, k as int) == char_end(t@, c, i as int),
        decreases t@.len() - i,
    {
        i = i + 1;
    }
    i
}

/// The project name that `url` carries, if any (see `project_name_of`).
pub fn url_project_name(url: &str) -> (r: Option<String>)
    ensures
        opt_view(r) == project_name_of(url@),
{
    let u = chars_of(url);
    let mut sep: Vec<char> = Vec::new();
    sep.push(':');
    sep.push('/');
    sep.push('/');
    assert(sep@ =~= scheme_separator());
    match first_occurrence_exec(&u, &sep) {
        None => None,
        Some(k) => {
            assert(u@.len() == u.len());
            let s = k + 3;
            let d = char_end_exec(&u, '-', s);
            if d < char_end_exec(&u, '/', s) {
                Some(url.substring_char(s, d).to_owned())
            } else {
                None
            }
        },
    }
}

/// The first of `urls` whose project name is exactly `project_name`.
pub fn find_project_url(urls: &Vec<String>, project_name: &str) -> (r: Option<String>)
    ensures
        opt_view(r) == first_match(string_views(urls@), project_name@),
{
    let wanted = project_name.to_owned();
    let mut i: usize = 0;
    assert(string_views(urls@).subrange(0, urls@.len() as int) =~= string_views(urls@));
    while i < urls.len()
        invariant
            wanted@ == project_name@,
            i <= urls@.len(),
            first_match(string_views(urls@), project_name@) == first_match(
                string_views(urls@).subrange(i as int, urls@.len() as int),
                project_name@,
            ),
        decreases urls@.len() - i,
    {
        let ghost rest = string_views(urls@).subrange(i as int, urls@.len() as int);
        assert(rest[0] == urls@[i as int]@);
        assert(rest.drop_first() =~= string_views(urls@).subrange(i + 1, urls@.len() as int));
        match url_project_name(urls[i].as_str()) {
            Some(name) => {
                if name == wanted {
                    return Some(urls[i].clone());
                }
            },
            None => {},
        }
        i = i + 1;
    }
    None
}

/// The first URL in the output of the tool's `list` command whose project name
/// is exactly `project_name`.
pub fn get_current_url(list_output: &str, project_name: &str) -> (r: Option<String>)
    ensures
        opt_view(r) == first_match(cloud_urls(list_output@), project_name@),
{
    let urls = get_urls(list_output);
    find_project_url(&urls, project_name)
}

proof fn lemma_parsed_urls_concat(a: Seq<Seq<char>>, b: Seq<Seq<char>>)
    ensures
        parsed_urls(a + b) == parsed_urls(a) + parsed_urls(b),
    decreases b.len(),
{
    if b.len() == 0 {
        assert(a + b =~= a);
        assert(parsed_urls(a) + parsed_urls(b) =~= parsed_urls(a));
    } else {
        lemma_parsed_urls_concat(a, b.drop_last());
        assert((a + b).drop_last() =~= a + b.drop_last());
        assert((a + b).last() == b.last());
        match url_serialization(b.last()) {
            Some(u) => {
                assert(parsed_urls(a) + parsed_urls(b.drop_last()).push(u) =~= (parsed_urls(a)
                    + parsed_urls(b.drop_last())).push(u));
            },
            None => {},
        }
    }
}

/// A quoted candidate that does not parse as a URL is skipped, and the URLs
/// before and after it are kept as they are, in order.
pub proof fn unparsable_candidate_is_skipped(
    before: Seq<Seq<char>>,
    c: Seq<char>,
    after: Seq<Seq<char>>,
)
    requires
        url_serialization(c) is None,
    ensures
        parsed_urls(before + seq![c] + after) == parsed_urls(before) + parsed_urls(after),
{
    lemma_parsed_urls_concat(before + seq![c], after);
    lemma_parsed_urls_concat(before, seq![c]);
    assert(seq![c].drop_last() =~= Seq::<Seq<char>>::empty());
    assert(seq![c].last() == c);
    assert(parsed_urls(Seq::<Seq<char>>::empty()) =~= Seq::<Seq<char>>::empty());
    assert(parsed_urls(seq![c]) == match url_serialization(c) {
        Some(v) => parsed_urls(Seq::<Seq<char>>::empty()).push(v),
        None => parsed_urls(Seq::<Seq<char>>::empty()),
    });
    assert(parsed_urls(seq![c]) =~= Seq::<Seq<char>>::empty());
    assert(parsed_urls(before) + parsed_urls(seq![c]) =~= parsed_urls(before));
}

/// A quoted candidate that parses is kept, in its place among the others.
pub proof fn parsable_candidate_is_kept(
    before: Seq<Seq<char>>,
    c: Seq<char>,
    after: Seq<Seq<char>>,
    u: Seq<char>,
)
    requires
        url_serialization(c) == Some(u),
    ensures
        parsed_urls(before + seq![c] + after) == parsed_urls(before) + seq![u] + parsed_urls(after),
{
    lemma_parsed_urls_concat(before + seq![c], after);
    lemma_parsed_urls_concat(before, seq![c]);
    assert(seq![c].drop_last() =~= Seq::<Seq<char>>::empty());
    assert(seq![c].last() == c);
    assert(parsed_urls(Seq::<Seq<char>>::empty()) =~= Seq::<Seq<char>>::empty());
    assert(parsed_urls(seq![c]) == match url_serialization(c) {
        Some(v) => parsed_urls(Seq::<Seq<char>>::empty()).push(v),
        None => parsed_urls(Seq::<Seq<char>>::empty()),
    });
    assert(parsed_urls(seq![c]) =~= seq![u]);
}

/// The URLs of two texts joined by a whitespace character are those of the
/// first followed by those of the second.
pub proof fn whitespace_separates_urls(x: Seq<char>, s: char, y: Seq<char>)
    requires
        is_space(s),
    ensures
        cloud_urls(x + seq![s] + y) == cloud_urls(x) + cloud_urls(y),
{
    whitespace_separates_candidates(x, s, y);
    lemma_parsed_urls_concat(candidates(x), candidates(y));
}

/// Every occurrence is kept: a quoted cloud URL between whitespace that parses
/// is returned in its place, after the URLs before it and before those after it.
pub proof fn quoted_url_between_spaces_is_returned(
    x: Seq<char>,
    s1: char,
    c: Seq<char>,
    s2: char,
    y: Seq<char>,
    u: Seq<char>,
)
    requires
        is_space(s1),
        is_space(s2),
        is_cloud_url_text(c),
        url_serialization(c) == Some(u),
    ensures
        cloud_urls(x + seq![s1, '"'] + c + seq!['"', s2] + y) == cloud_urls(x) + seq![u] + cloud_urls(y),
{
    quoted_cloud_url_between_spaces_is_found(x, s1, c, s2, y);
    parsable_candidate_is_kept(candidates(x), c, candidates(y), u);
}

proof fn lemma_first_occurrence_skip(t: Seq<char>, w: Seq<char>, p: int, q: int)
    requires
        0 <= p <= q,
        q + w.len() <= t.len(),
        forall|m: int| p <= m < q ==> !occurs_at(t, w, m),
    ensures
        first_occurrence(t, w, p) == first_occurrence(t, w, q),
    decreases q - p,
{
    if p < q {
        lemma_first_occurrence_skip(t, w, p + 1, q);
    }
}

proof fn lemma_char_end_skip(t: Seq<char>, c: char, p: int, q: int)
    requires
        0 <= p <= q <= t.len(),
        forall|m: int| p <= m < q ==> t[m] != c,
    ensures
        char_end(t, c, p) == char_end(t, c, q),
    decreases q - p,
{
    if p < q {
        lemma_char_end_skip(t, c, p + 1, q);
    }
}

proof fn lemma_char_end_bound(t: Seq<char>, c: char, k: int)
    requires
        0 <= k <= t.len(),
    ensures
        k <= char_end(t, c, k) <= t.len(),
    decreases t.len() - k,
{
    if k < t.len() && t[k] != c {
        lemma_char_end_bound(t, c, k + 1);
    }
}

/// The project name of `scheme://name-rest` is `name`, whatever characters it
/// holds but a hyphen or a slash, where the scheme holds no colon: a URL whose
/// first segment is `proj2-ab.wolf.jina.ai` carries the project name `proj2`,
/// and the names are compared exactly.
pub proof fn project_name_is_first_label(scheme: Seq<char>, name: Seq<char>, rest: Seq<char>)
    requires
        forall|i: int| 0 <= i < scheme.len() ==> #[trigger] scheme[i] != ':',
        forall|i: int| 0 <= i < name.len() ==> #[trigger] name[i] != '-' && name[i] != '/',
    ensures
        project_name_of(scheme + scheme_separator() + name + seq!['-'] + rest) == Some(name),
{
    let u = scheme + scheme_separator() + name + seq!['-'] + rest;
    let s = scheme.len() as int;
    assert forall|m: int| 0 <= m < s implies !occurs_at(u, scheme_separator(), m) by {
        assert(u[m] == scheme[m]);
        if occurs_at(u, scheme_separator(), m) {
            assert(u.subrange(m, m + 3)[0] == u[m]);
        }
    }
    assert(u.subrange(s, s + 3) =~= scheme_separator());
    lemma_first_occurrence_skip(u, scheme_separator(), 0, s);
    assert(first_occurrence(u, scheme_separator(), 0) == Some(s));
    let st = s + 3;
    let d = st + name.len();
    assert forall|m: int| st <= m < d implies u[m] != '-' && u[m] != '/' by {
        assert(u[m] == name[m - st]);
    }
    assert(u[d] == '-');
    lemma_char_end_skip(u, '-', st, d);
    lemma_char_end_skip(u, '/', st, d + 1);
    lemma_char_end_bound(u, '/', d + 1);
    assert(u.subrange(st, d) =~= name);
}

} // verus!
