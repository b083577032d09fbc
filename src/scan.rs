use vstd::prelude::*;
use vstd::string::*;

use crate::text::{
    chars_of, is_lower, lemma_letters_end, letters_end, letters_end_exec, occurs_at, occurs_at_exec,
};

verus! {

/// The separator between a URL's scheme and the rest of it.
pub open spec fn scheme_separator() -> Seq<char> {
    seq![':', '/', '/']
}

/// The domain that the managed cloud's hosts end in, with the dot before it.
pub open spec fn cloud_suffix() -> Seq<char> {
    seq!['.', 'j', 'i', 'n', 'a', '.', 'a', 'i']
}

pub open spec fn is_space(c: char) -> bool {
    c == ' ' || c == '\t' || c == '\n' || c == '\r' || c == '\x0B' || c == '\x0C'
}

/// A character that may stand in a quoted URL: no quote and no whitespace.
pub open spec fn is_url_char(c: char) -> bool {
    c != '"' && !is_space(c)
}

/// A character that ends a URL's host.
pub open spec fn is_host_end(c: char) -> bool {
    c == '/' || c == '?' || c == '#' || c == ':'
}

/// The first index at or after `k` that holds no URL character (or the length of `t`).
pub open spec fn url_end(t: Seq<char>, k: int) -> int
    decreases t.len() - k,
{
    if k < 0 || k >= t.len() || !is_url_char(t[k]) {
        k
    } else {
        url_end(t, k + 1)
    }
}

/// The first index in `k..b` that ends a host (or `b`).
pub open spec fn host_end(t: Seq<char>, k: int, b: int) -> int
    decreases b - k,
{
    if k < 0 || k >= b || k >= t.len() || is_host_end(t[k]) {
        k
    } else {
        host_end(t, k + 1, b)
    }
}

/// Whether the host that starts at `lo`, in a URL that ends at `b`, is one of
/// the managed cloud's: it ends in the cloud suffix.
pub open spec fn cloud_host(t: Seq<char>, lo: int, b: int) -> bool {
    let h = host_end(t, lo, b);
    h - lo >= cloud_suffix().len() && occurs_at(t, cloud_suffix(), h - cloud_suffix().len())
}

/// Where the quoted cloud URL that starts at `i` ends, if one starts there: a
/// double quote, a non-empty run of lowercase letters, `://`, and the URL
/// characters up to the closing quote or whitespace, with a cloud host.
pub open spec fn match_end(t: Seq<char>, i: int) -> Option<int> {
    if 0 <= i < t.len() && t[i] == '"' {
        let j = letters_end(t, i + 1);
        if j > i + 1 && occurs_at(t, scheme_separator(), j) {
            let lo = j + scheme_separator().len();
            let b = url_end(t, lo);
            if cloud_host(t, lo, b) {
                Some(b)
            } else {
                None
            }
        } else {
            None
        }
    } else {
        None
    }
}

/// The cloud URLs quoted in `t` from index `p` on, left to right.
pub open spec fn candidates_from(t: Seq<char>, p: int) -> Seq<Seq<char>>
    decreases t.len() - p,
{
    if p < 0 || p >= t.len() {
        Seq::empty()
    } else {
        match match_end(t, p) {
            Some(e) => if p < e <= t.len() {
                seq![t.subrange(p + 1, e)] + candidates_from(t, e)
            } else {
                Seq::empty()
            },
            None => candidates_from(t, p + 1),
        }
    }
}

/// Every cloud URL quoted in `t`, in the order in which they appear.
pub open spec fn candidates(t: Seq<char>) -> Seq<Seq<char>> {
    candidates_from(t, 0)
}

pub open spec fn string_views(v: Seq<String>) -> Seq<Seq<char>> {
    v.map_values(|s: String| s@)
}

fn scheme_separator_exec() -> (r: Vec<char>)
    ensures
        r@ == scheme_separator(),
{
    let mut r: Vec<char> = Vec::new();
    r.push(':');
    r.push('/');
    r.push('/');
    assert(r@ =~= scheme_separator());
    r
}

fn cloud_suffix_exec() -> (r: Vec<char>)
    ensures
        r@ == cloud_suffix(),
{
    let mut r: Vec<char> = Vec::new();
    r.push('.');
    r.push('j');
    r.push('i');
    r.push('n');
    r.push('a');
    r.push('.');
    r.push('a');
    r.push('i');
    assert(r@ =~= cloud_suffix());
    r
}

fn is_url_char_exec(c: char) -> (r: bool)
    ensures
        r == is_url_char(c),
{
    c != '"' && c != ' ' && c != '\t' && c != '\n' && c != '\r' && c != '\x0B' && c != '\x0C'
}

fn url_end_exec(t: &Vec<char>, k: usize) -> (r: usize)
    requires
        k <= t@.len(),
    ensures
        r == url_end(t@, k as int),
        k <= r <= t@.len(),
{
    let mut i = k;
    while i < t.len() && is_url_char_exec(t[i])
        invariant
            k <= i <= t@.len(),
            url_end(t@, k as int) == url_end(t@, i as int),
        decreases t@.len() - i,
    {
        i = i + 1;
    }
    i
}

fn host_end_exec(t: &Vec<char>, k: usize, b: usize) -> (r: usize)
    requires
        k <= b <= t@.len(),
    ensures
        r == host_end(t@, k as int, b as int),
        k <= r <= b,
{
    let mut i = k;
    while i < b && t[i] != '/' && t[i] != '?' && t[i] != '#' && t[i] != ':'
        invariant
            k <= i <= b <= t@.len(),
            host_end(t@, k as int, b as int) == host_end(t@, i as int, b as int),
        decreases b - i,
    {
        i = i + 1;
    }
    i
}

fn match_end_exec(t: &Vec<char>, sep: &Vec<char>, suffix: &Vec<char>, i: usize) -> (r: Option<
    usize,
>)
    requires
        sep@ == scheme_separator(),
        suffix@ == cloud_suffix(),
        i < t@.len(),
    ensures
        match r {
            Some(e) => match_end(t@, i as int) == Some(e as int) && i < e <= t@.len(),
            None => match_end(t@, i as int) is None,
        },
{
    if t[i] != '"' {
        return None;
    }
    assert(t@.len() == t.len());
    let j = letters_end_exec(t, i + 1);
    if j > i + 1 && occurs_at_exec(t, sep, j) {
        assert(scheme_separator().len() == 3);
        assert(cloud_suffix().len() == 8);
        let lo = j + 3;
        let b = url_end_exec(t, lo);
        let h = host_end_exec(t, lo, b);
        if h - lo >= 8 && occurs_at_exec(t, suffix, h - 8) {
            Some(b)
        } else {
            None
        }
    } else {
        None
    }
}

/// Every cloud URL quoted in `text`, in order of appearance: a double quote, a
/// lowercase scheme, `://`, and what follows up to the closing quote or
/// whitespace, where the host ends in `.jina.ai`.
pub fn extract_candidates(text: &str) -> (r: Vec<String>)
    ensures
        string_views(r@) == candidates(text@),
{
    let t = chars_of(text);
    let sep = scheme_separator_exec();
    let suffix = cloud_suffix_exec();
    let mut r: Vec<String> = Vec::new();
    let mut p: usize = 0;
    while p < t.len()
        invariant
            t@ == text@,
            sep@ == scheme_separator(),
            suffix@ == cloud_suffix(),
            p <= t@.len(),
            string_views(r@) + candidates_from(t@, p as int) == candidates(t@),
        decreases t@.len() - p,
    {
        match match_end_exec(&t, &sep, &suffix, p) {
            Some(e) => {
                let s = text.substring_char(p + 1, e).to_owned();
                proof {
                    assert(string_views(r@.push(s)) =~= string_views(r@) + seq![s@]);
                    assert(string_views(r@.push(s)) + candidates_from(t@, e as int) =~= string_views(r@)
                        + candidates_from(t@, p as int));
                }
                r.push(s);
                p = e;
            },
            None => {
                p = p + 1;
            },
        }
    }
    assert(string_views(r@) + candidates_from(t@, p as int) =~= string_views(r@));
    r
}

/// The shape of a quoted cloud URL: a non-empty lowercase scheme, `://`, and
/// URL characters only, with a host that ends in the cloud suffix.
pub open spec fn is_cloud_url_text(c: Seq<char>) -> bool {
    let j = letters_end(c, 0);
    &&& 0 < j
    &&& occurs_at(c, scheme_separator(), j)
    &&& url_end(c, j + scheme_separator().len()) == c.len()
    &&& cloud_host(c, j + scheme_separator().len(), c.len() as int)
}

/// Whether `t` ends at `n` or has a quote or whitespace there.
pub open spec fn breaks_at(t: Seq<char>, n: int) -> bool {
    0 <= n <= t.len() && (n == t.len() || !is_url_char(t[n]))
}

proof fn lemma_url_end(t: Seq<char>, k: int)
    requires
        0 <= k <= t.len(),
    ensures
        k <= url_end(t, k) <= t.len(),
        breaks_at(t, url_end(t, k)),
    decreases t.len() - k,
{
    if k < t.len() && is_url_char(t[k]) {
        lemma_url_end(t, k + 1);
    }
}

proof fn lemma_host_end(t: Seq<char>, k: int, b: int)
    requires
        0 <= k <= b <= t.len(),
    ensures
        k <= host_end(t, k, b) <= b,
    decreases b - k,
{
    if k < b && !is_host_end(t[k]) {
        lemma_host_end(t, k + 1, b);
    }
}

proof fn lemma_match_end_bound(t: Seq<char>, i: int)
    ensures
        match_end(t, i) matches Some(e) ==> i + 1 < e <= t.len(),
{
    if 0 <= i < t.len() && t[i] == '"' {
        lemma_letters_end(t, i + 1);
        let j = letters_end(t, i + 1);
        if occurs_at(t, scheme_separator(), j) {
            let lo = j + 3;
            lemma_url_end(t, lo);
            lemma_host_end(t, lo, url_end(t, lo));
        }
    }
}

proof fn lemma_words_are_url_chars()
    ensures
        forall|m: int| 0 <= m < scheme_separator().len() ==> is_url_char(#[trigger] scheme_separator()[m]),
        forall|m: int| 0 <= m < cloud_suffix().len() ==> is_url_char(#[trigger] cloud_suffix()[m]),
{
}

proof fn lemma_letters_end_trunc(t: Seq<char>, n: int, k: int)
    requires
        breaks_at(t, n),
        0 <= k <= n,
    ensures
        letters_end(t, k) == letters_end(t.subrange(0, n), k),
    decreases n - k,
{
    let x = t.subrange(0, n);
    if k < n {
        assert(x[k] == t[k]);
        if is_lower(t[k]) {
            lemma_letters_end_trunc(t, n, k + 1);
        }
    }
}

proof fn lemma_url_end_trunc(t: Seq<char>, n: int, k: int)
    requires
        breaks_at(t, n),
        0 <= k <= n,
    ensures
        url_end(t, k) == url_end(t.subrange(0, n), k),
    decreases n - k,
{
    let x = t.subrange(0, n);
    if k < n {
        assert(x[k] == t[k]);
        if is_url_char(t[k]) {
            lemma_url_end_trunc(t, n, k + 1);
        }
    }
}

proof fn lemma_occurs_trunc(t: Seq<char>, n: int, w: Seq<char>, k: int)
    requires
        breaks_at(t, n),
        0 <= k <= n,
        forall|m: int| 0 <= m < w.len() ==> is_url_char(#[trigger] w[m]),
    ensures
        occurs_at(t, w, k) == occurs_at(t.subrange(0, n), w, k),
{
    let x = t.subrange(0, n);
    if k + w.len() <= n {
        assert(t.subrange(k, k + w.len()) =~= x.subrange(k, k + w.len()));
    } else if k + w.len() <= t.len() {
        assert(t.subrange(k, k + w.len())[n - k] == t[n]);
        assert(is_url_char(w[n - k]));
    }
}

proof fn lemma_host_end_trunc(t: Seq<char>, n: int, k: int, b: int)
    requires
        breaks_at(t, n),
        0 <= k,
        b <= n,
    ensures
        host_end(t, k, b) == host_end(t.subrange(0, n), k, b),
    decreases b - k,
{
    let x = t.subrange(0, n);
    if k < b {
        assert(x[k] == t[k]);
        if !is_host_end(t[k]) {
            lemma_host_end_trunc(t, n, k + 1, b);
        }
    }
}

proof fn lemma_cloud_host_trunc(t: Seq<char>, n: int, lo: int, b: int)
    requires
        breaks_at(t, n),
        0 <= lo <= b <= n,
    ensures
        cloud_host(t, lo, b) == cloud_host(t.subrange(0, n), lo, b),
{
    let x = t.subrange(0, n);
    lemma_host_end_trunc(t, n, lo, b);
    lemma_host_end(x, lo, b);
    let h = host_end(x, lo, b);
    if h - lo >= 8 {
        assert(t.subrange(h - 8, h) =~= x.subrange(h - 8, h));
    }
}

proof fn lemma_match_end_trunc(t: Seq<char>, n: int, i: int)
    requires
        breaks_at(t, n),
        0 <= i < n,
    ensures
        match_end(t, i) == match_end(t.subrange(0, n), i),
{
    let x = t.subrange(0, n);
    assert(x[i] == t[i]);
    if t[i] == '"' {
        lemma_letters_end_trunc(t, n, i + 1);
        lemma_letters_end(x, i + 1);
        let j = letters_end(x, i + 1);
        lemma_words_are_url_chars();
        lemma_occurs_trunc(t, n, scheme_separator(), j);
        if occurs_at(x, scheme_separator(), j) {
            let lo = j + 3;
            lemma_url_end_trunc(t, n, lo);
            lemma_url_end(x, lo);
            lemma_cloud_host_trunc(t, n, lo, url_end(x, lo));
        }
    }
}

proof fn lemma_candidates_trunc(t: Seq<char>, n: int, p: int)
    requires
        breaks_at(t, n),
        0 <= p <= n,
    ensures
        candidates_from(t, p) == candidates_from(t.subrange(0, n), p) + candidates_from(t, n),
    decreases n - p,
{
    let x = t.subrange(0, n);
    if p < n {
        lemma_match_end_trunc(t, n, p);
        lemma_match_end_bound(x, p);
        match match_end(x, p) {
            Some(e) => {
                lemma_candidates_trunc(t, n, e);
                assert(t.subrange(p + 1, e) =~= x.subrange(p + 1, e));
                assert(seq![x.subrange(p + 1, e)] + candidates_from(x, e) + candidates_from(t, n)
                    =~= seq![x.subrange(p + 1, e)] + (candidates_from(x, e) + candidates_from(t, n)));
            },
            None => {
                lemma_candidates_trunc(t, n, p + 1);
            },
        }
    } else {
        assert(candidates_from(x, p) + candidates_from(t, n) =~= candidates_from(t, n));
    }
}

proof fn lemma_letters_end_shift(t: Seq<char>, off: int, k: int)
    requires
        0 <= off <= t.len(),
        0 <= k,
    ensures
        letters_end(t, off + k) == off + letters_end(t.subrange(off, t.len() as int), k),
    decreases t.len() - off - k,
{
    let y = t.subrange(off, t.len() as int);
    if k < y.len() {
        assert(y[k] == t[off + k]);
        if is_lower(y[k]) {
            lemma_letters_end_shift(t, off, k + 1);
        }
    }
}

proof fn lemma_url_end_shift(t: Seq<char>, off: int, k: int)
    requires
        0 <= off <= t.len(),
        0 <= k,
    ensures
        url_end(t, off + k) == off + url_end(t.subrange(off, t.len() as int), k),
    decreases t.len() - off - k,
{
    let y = t.subrange(off, t.len() as int);
    if k < y.len() {
        assert(y[k] == t[off + k]);
        if is_url_char(y[k]) {
            lemma_url_end_shift(t, off, k + 1);
        }
    }
}

proof fn lemma_occurs_shift(t: Seq<char>, off: int, w: Seq<char>, k: int)
    requires
        0 <= off <= t.len(),
        0 <= k,
    ensures
        occurs_at(t, w, off + k) == occurs_at(t.subrange(off, t.len() as int), w, k),
{
    let y = t.subrange(off, t.len() as int);
    if k + w.len() <= y.len() {
        assert(t.subrange(off + k, off + k + w.len()) =~= y.subrange(k, k + w.len()));
    }
}

proof fn lemma_host_end_shift(t: Seq<char>, off: int, k: int, b: int)
    requires
        0 <= off <= t.len(),
        0 <= k,
        b <= t.len() - off,
    ensures
        host_end(t, off + k, off + b) == off + host_end(t.subrange(off, t.len() as int), k, b),
    decreases b - k,
{
    let y = t.subrange(off, t.len() as int);
    if k < b {
        assert(y[k] == t[off + k]);
        if !is_host_end(y[k]) {
            lemma_host_end_shift(t, off, k + 1, b);
        }
    }
}

proof fn lemma_cloud_host_shift(t: Seq<char>, off: int, lo: int, b: int)
    requires
        0 <= off <= t.len(),
        0 <= lo <= b <= t.len() - off,
    ensures
        cloud_host(t, off + lo, off + b) == cloud_host(t.subrange(off, t.len() as int), lo, b),
{
    let y = t.subrange(off, t.len() as int);
    lemma_host_end_shift(t, off, lo, b);
    let h = host_end(y, lo, b);
    if h - lo >= 8 {
        lemma_occurs_shift(t, off, cloud_suffix(), h - 8);
    }
}

proof fn lemma_match_end_shift(t: Seq<char>, off: int, i: int)
    requires
        0 <= off <= t.len(),
        0 <= i,
    ensures
        match_end(t, off + i) == match match_end(t.subrange(off, t.len() as int), i) {
            Some(e) => Some(off + e),
            None => None,
        },
{
    let y = t.subrange(off, t.len() as int);
    if i < y.len() {
        assert(y[i] == t[off + i]);
        if y[i] == '"' {
            lemma_letters_end_shift(t, off, i + 1);
            lemma_letters_end(y, i + 1);
            let j = letters_end(y, i + 1);
            lemma_occurs_shift(t, off, scheme_separator(), j);
            if occurs_at(y, scheme_separator(), j) {
                let lo = j + 3;
                lemma_url_end_shift(t, off, lo);
                lemma_url_end(y, lo);
                lemma_cloud_host_shift(t, off, lo, url_end(y, lo));
            }
        }
    }
}

proof fn lemma_candidates_shift(t: Seq<char>, off: int, q: int)
    requires
        0 <= off <= t.len(),
        0 <= q,
    ensures
        candidates_from(t, off + q) == candidates_from(t.subrange(off, t.len() as int), q),
    decreases t.len() - off - q,
{
    let y = t.subrange(off, t.len() as int);
    if q < y.len() {
        lemma_match_end_shift(t, off, q);
        lemma_match_end_bound(y, q);
        match match_end(y, q) {
            Some(e) => {
                lemma_candidates_shift(t, off, e);
                assert(t.subrange(off + q + 1, off + e) =~= y.subrange(q + 1, e));
            },
            None => {
                lemma_candidates_shift(t, off, q + 1);
            },
        }
    }
}

/// Whitespace separates: the URLs of two texts joined by a whitespace
/// character are those of the first followed by those of the second. So a
/// malformed fragment changes nothing of what is found on either side of it,
/// on its own line or another, and the order of appearance is kept.
pub proof fn whitespace_separates_candidates(x: Seq<char>, s: char, y: Seq<char>)
    requires
        is_space(s),
    ensures
        candidates(x + seq![s] + y) == candidates(x) + candidates(y),
{
    let t = x + seq![s] + y;
    let n = x.len() as int;
    assert(t[n] == s);
    lemma_candidates_trunc(t, n, 0);
    assert(t.subrange(0, n) =~= x);
    assert(match_end(t, n) is None);
    assert(candidates_from(t, n) == candidates_from(t, n + 1));
    lemma_candidates_shift(t, n + 1, 0);
    assert(t.subrange(n + 1, t.len() as int) =~= y);
}

proof fn lemma_match_shape(t: Seq<char>, i: int)
    requires
        match_end(t, i) is Some,
    ensures
        match_end(t, i) matches Some(e) && i + 1 < e <= t.len() && is_cloud_url_text(
            t.subrange(i + 1, e),
        ),
{
    lemma_match_end_bound(t, i);
    let e = match_end(t, i)->0;
    let j = letters_end(t, i + 1);
    lemma_letters_end(t, i + 1);
    let lo = j + 3;
    lemma_url_end(t, lo);
    lemma_match_end_trunc(t, e, i);
    let x = t.subrange(0, e);
    let off = i + 1;
    let c = x.subrange(off, e);
    assert(c =~= t.subrange(i + 1, e));
    lemma_letters_end_trunc(t, e, i + 1);
    lemma_letters_end(x, i + 1);
    lemma_letters_end_shift(x, off, 0);
    let jc = letters_end(c, 0);
    lemma_occurs_shift(x, off, scheme_separator(), jc);
    lemma_url_end_shift(x, off, jc + 3);
    lemma_url_end_trunc(t, e, lo);
    lemma_url_end(c, jc + 3);
    lemma_cloud_host_shift(x, off, jc + 3, c.len() as int);
}

proof fn lemma_candidates_shape(t: Seq<char>, p: int)
    ensures
        forall|k: int|
            0 <= k < candidates_from(t, p).len() ==> is_cloud_url_text(
                #[trigger] candidates_from(t, p)[k],
            ),
    decreases t.len() - p,
{
    if 0 <= p < t.len() {
        match match_end(t, p) {
            Some(e) => {
                if p < e <= t.len() {
                    lemma_match_shape(t, p);
                    lemma_candidates_shape(t, e);
                    let rest = candidates_from(t, e);
                    assert(candidates_from(t, p) == seq![t.subrange(p + 1, e)] + rest);
                    assert forall|k: int|
                        0 <= k < candidates_from(t, p).len() implies is_cloud_url_text(
                        #[trigger] candidates_from(t, p)[k],
                    ) by {
                        if k > 0 {
                            assert(candidates_from(t, p)[k] == rest[k - 1]);
                        } else {
                            assert(candidates_from(t, p)[k] == t.subrange(p + 1, e));
                        }
                    }
                }
            },
            None => {
                assert(candidates_from(t, p) == candidates_from(t, p + 1));
                lemma_candidates_shape(t, p + 1);
            },
        }
    }
}

/// Every candidate taken from a text is a syntactically valid cloud URL: a
/// lowercase scheme, `://`, no quote or whitespace, and a host that ends in
/// the cloud domain.
pub proof fn every_candidate_is_a_cloud_url(t: Seq<char>)
    ensures
        forall|k: int|
            0 <= k < candidates(t).len() ==> is_cloud_url_text(#[trigger] candidates(t)[k]),
{
    lemma_candidates_shape(t, 0);
}

/// A cloud URL in double quotes is found, whole.
pub proof fn quoted_cloud_url_is_found(c: Seq<char>)
    requires
        is_cloud_url_text(c),
    ensures
        candidates(seq!['"'] + c + seq!['"']) == seq![c],
{
    let t = seq!['"'] + c + seq!['"'];
    let n = c.len() + 1int;
    assert(t[n] == '"');
    lemma_candidates_trunc(t, n, 0);
    let x = t.subrange(0, n);
    assert(x =~= seq!['"'] + c);
    assert(letters_end(t, n + 1) == n + 1);
    assert(match_end(t, n) is None);
    assert(candidates_from(t, n) == candidates_from(t, n + 1));
    let j = letters_end(c, 0);
    assert(x.subrange(1, n) =~= c);
    lemma_letters_end_shift(x, 1, 0);
    lemma_occurs_shift(x, 1, scheme_separator(), j);
    lemma_url_end_shift(x, 1, j + 3);
    lemma_cloud_host_shift(x, 1, j + 3, c.len() as int);
    assert(x[0] == '"');
    assert(match_end(x, 0) == Some(n));
    assert(candidates_from(x, n) =~= Seq::<Seq<char>>::empty());
    assert(candidates_from(x, 0) == seq![x.subrange(1, n)] + candidates_from(x, n));
    assert(candidates(t) =~= seq![c]);
}

/// Each cloud URL that stands in double quotes between whitespace is found in
/// its place among the others.
pub proof fn quoted_cloud_url_between_spaces_is_found(
    x: Seq<char>,
    s1: char,
    c: Seq<char>,
    s2: char,
    y: Seq<char>,
)
    requires
        is_space(s1),
        is_space(s2),
        is_cloud_url_text(c),
    ensures
        candidates(x + seq![s1, '"'] + c + seq!['"', s2] + y) == candidates(x) + seq![c] + candidates(y),
{
    let q = seq!['"'] + c + seq!['"'];
    let rest = q + seq![s2] + y;
    assert(x + seq![s1, '"'] + c + seq!['"', s2] + y =~= x + seq![s1] + rest);
    whitespace_separates_candidates(x, s1, rest);
    whitespace_separates_candidates(q, s2, y);
    quoted_cloud_url_is_found(c);
    assert(candidates(x) + (seq![c] + candidates(y)) =~= candidates(x) + seq![c] + candidates(y));
}

} // verus!
