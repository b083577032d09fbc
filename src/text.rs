use vstd::prelude::*;

verus! {

/// The characters of `s`, one per element, for indexed scanning.
pub fn chars_of(s: &str) -> (r: Vec<char>)
    ensures
        r@ == s@,
{
    let mut r: Vec<char> = Vec::new();
    for c in it: s.chars()
        invariant
            r@ == it.seq().take(it.index() as int),
    {
        r.push(c);
    }
    r
}

pub open spec fn is_lower(c: char) -> bool {
    'a' <= c && c <= 'z'
}

/// The first index at or after `k` that does not hold a lowercase ASCII letter.
pub open spec fn letters_end(t: Seq<char>, k: int) -> int
    decreases t.len() - k,
{
    if k < 0 || k >= t.len() || !is_lower(t[k]) {
        k
    } else {
        letters_end(t, k + 1)
    }
}

/// Whether `w` occurs in `t` starting at index `k`.
pub open spec fn occurs_at(t: Seq<char>, w: Seq<char>, k: int) -> bool {
    0 <= k && k + w.len() <= t.len() && t.subrange(k, k + w.len()) == w
}

/// Whether `w` occurs anywhere in `t`.
pub open spec fn contains(t: Seq<char>, w: Seq<char>) -> bool {
    exists|k: int| occurs_at(t, w, k)
}

pub fn letters_end_exec(t: &Vec<char>, k: usize) -> (r: usize)
    requires
        k <= t@.len(),
    ensures
        r == letters_end(t@, k as int),
        k <= r <= t@.len(),
{
    let mut i = k;
    while i < t.len() && 'a' <= t[i] && t[i] <= 'z'
        invariant
            k <= i <= t@.len(),
            letters_end(t@, k as int) == letters_end(t@, i as int),
        decreases t@.len() - i,
    {
        i = i + 1;
    }
    i
}

pub fn occurs_at_exec(t: &Vec<char>, w: &Vec<char>, k: usize) -> (r: bool)
    ensures
        r == occurs_at(t@, w@, k as int),
{
    if k > t.len() || w.len() > t.len() - k {
        return false;
    }
    let mut j: usize = 0;
    while j < w.len()
        invariant
            k + w@.len() <= t@.len(),
            k <= t.len(),
            w.len() <= t.len() - k,
            0 <= j <= w@.len(),
            forall|m: int| 0 <= m < j ==> t@[k + m] == w@[m],
        decreases w@.len() - j,
    {
        if t[k + j] != w[j] {
            assert(t@.subrange(k as int, k + w@.len())[j as int] != w@[j as int]);
            return false;
        }
        j = j + 1;
    }
    assert(t@.subrange(k as int, k + w@.len()) =~= w@);
    true
}

/// Whether `w` occurs anywhere in `t`.
pub fn contains_exec(t: &Vec<char>, w: &Vec<char>) -> (r: bool)
    ensures
        r == contains(t@, w@),
{
    let mut k: usize = 0;
    while k < t.len()
        invariant
            k <= t@.len(),
            forall|m: int| 0 <= m < k ==> !occurs_at(t@, w@, m),
        decreases t@.len() - k,
    {
        if occurs_at_exec(t, w, k) {
            return true;
        }
        k = k + 1;
    }
    if occurs_at_exec(t, w, k) {
        return true;
    }
    assert forall|m: int| !occurs_at(t@, w@, m) by {
        if 0 <= m && m + w@.len() <= t@.len() {
            assert(m <= k);
        }
    }
    false
}

/// The view of an optional string.
pub open spec fn opt_view(o: Option<String>) -> Option<Seq<char>> {
    match o {
        Some(s) => Some(s@),
        None => None,
    }
}

/// The run of letters that `letters_end` measures holds lowercase letters only,
/// and what follows it is none.
pub proof fn lemma_letters_end(t: Seq<char>, k: int)
    requires
        0 <= k <= t.len(),
    ensures
        k <= letters_end(t, k) <= t.len(),
        forall|m: int| k <= m < letters_end(t, k) ==> is_lower(#[trigger] t[m]),
        letters_end(t, k) < t.len() ==> !is_lower(t[letters_end(t, k)]),
    decreases t.len() - k,
{
    if k < t.len() && is_lower(t[k]) {
        lemma_letters_end(t, k + 1);
    }
}

} // verus!
