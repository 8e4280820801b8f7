use vstd::prelude::*;
use vstd::string::*;

verus! {

/// `p` stands in `s` starting at index `i`.
pub open spec fn occurs_at(s: Seq<char>, p: Seq<char>, i: int) -> bool {
    0 <= i && i + p.len() <= s.len() && s.subrange(i, i + p.len()) == p
}

/// Index of the first occurrence of `p` in `s` at or after `i`.
pub open spec fn find_from(s: Seq<char>, p: Seq<char>, i: int) -> Option<int>
    decreases s.len() + 1 - i,
{
    if i < 0 || i + p.len() > s.len() {
        None
    } else if occurs_at(s, p, i) {
        Some(i)
    } else {
        find_from(s, p, i + 1)
    }
}

/// Index of the first occurrence of `p` in `s`.
pub open spec fn find(s: Seq<char>, p: Seq<char>) -> Option<int> {
    find_from(s, p, 0)
}

/// `s` cut around the first occurrence of `p`, which itself is dropped.
pub open spec fn split_once(s: Seq<char>, p: Seq<char>) -> Option<(Seq<char>, Seq<char>)> {
    match find(s, p) {
        Some(i) => Some((s.subrange(0, i), s.subrange(i + p.len(), s.len() as int))),
        None => None,
    }
}

/// `s` ends with `p`.
pub open spec fn ends_with(s: Seq<char>, p: Seq<char>) -> bool {
    p.len() <= s.len() && s.subrange(s.len() - p.len(), s.len() as int) == p
}

/// The first occurrence at or after `i` is at `k` when `p` stands at `k`
/// and nowhere in between.
pub proof fn lemma_find_from_first(s: Seq<char>, p: Seq<char>, i: int, k: int)
    requires
        0 <= i <= k,
        occurs_at(s, p, k),
        forall|j: int| i <= j < k ==> !occurs_at(s, p, j),
    ensures
        find_from(s, p, i) == Some(k),
    decreases k - i,
{
    if i < k {
        lemma_find_from_first(s, p, i + 1, k);
    }
}

/// `p` stands at the very start of `s`.
pub proof fn lemma_find_prefix(p: Seq<char>, rest: Seq<char>)
    ensures
        find(p + rest, p) == Some(0int),
        split_once(p + rest, p) == Some((Seq::<char>::empty(), rest)),
{
    let s = p + rest;
    assert(s.subrange(0, p.len() as int) =~= p);
    lemma_find_from_first(s, p, 0, 0);
    assert(s.subrange(0, 0) =~= Seq::<char>::empty());
    assert(s.subrange(p.len() as int, s.len() as int) =~= rest);
}

/// A field followed by its closing marker is cut back out, as long as the
/// marker does not already stand inside the field.
pub proof fn lemma_split_field(f: Seq<char>, m: Seq<char>, rest: Seq<char>)
    requires
        closed_field(f, m),
    ensures
        split_once(f + m + rest, m) == Some((f, rest)),
{
    let s = f + m + rest;
    let fm = f + m;
    assert(s.subrange(f.len() as int, f.len() + m.len() as int) =~= m);
    assert forall|j: int| 0 <= j < f.len() implies !occurs_at(s, m, j) by {
        if occurs_at(s, m, j) {
            assert(s.subrange(j, j + m.len()) =~= fm.subrange(j, j + m.len()));
            assert(occurs_at(fm, m, j));
        }
    }
    lemma_find_from_first(s, m, 0, f.len() as int);
    assert(s.subrange(0, f.len() as int) =~= f);
    assert(s.subrange(f.len() + m.len() as int, s.len() as int) =~= rest);
}

/// `m` stands nowhere in `f + m` before the end of `f`: a reader that looks for
/// the first `m` after the field finds the one that closes it.
pub open spec fn closed_field(f: Seq<char>, m: Seq<char>) -> bool {
    forall|j: int| 0 <= j < f.len() ==> !occurs_at(f + m, m, j)
}

/// The characters of `s`, in order.
pub fn chars_of(s: &str) -> (v: Vec<char>)
    ensures
        v@ == s@,
{
    let mut v: Vec<char> = Vec::new();
    for c in it: s.chars()
        invariant
            v@ == it.seq().subrange(0, it.index() as int),
    {
        v.push(c);
    }
    v
}


/// A field closed by `m` is read back whole when no character of it is the
/// first character of `m`.
pub proof fn lemma_closed_by_first_char(f: Seq<char>, m: Seq<char>)
    requires
        m.len() > 0,
        forall|j: int| 0 <= j < f.len() ==> f[j] != m[0],
    ensures
        closed_field(f, m),
{
    assert forall|j: int| 0 <= j < f.len() implies !occurs_at(f + m, m, j) by {
        if occurs_at(f + m, m, j) {
            assert((f + m).subrange(j, j + m.len())[0] == m[0]);
        }
    }
}

/// Whether `p` stands in `s` at index `i`.
fn occurs_at_exec(s: &Vec<char>, p: &Vec<char>, i: usize) -> (b: bool)
    requires
        i + p.len() <= s.len(),
    ensures
        b == occurs_at(s@, p@, i as int),
{
    let mut j: usize = 0;
    while j < p.len()
        invariant
            j <= p.len(),
            i + p.len() <= s.len(),
            forall|k: int| 0 <= k < j ==> s@[i + k] == p@[k],
        decreases p.len() - j,
    {
        if s[i + j] != p[j] {
            assert(s@.subrange(i as int, i + p.len())[j as int] != p@[j as int]);
            return false;
        }
        j += 1;
    }
    assert(s@.subrange(i as int, i + p.len()) =~= p@);
    true
}

/// Index of the first occurrence of `p` in `s`.
pub fn find_chars(s: &Vec<char>, p: &Vec<char>) -> (r: Option<usize>)
    ensures
        match r {
            Some(i) => find(s@, p@) == Some(i as int) && occurs_at(s@, p@, i as int),
            None => find(s@, p@) is None,
        },
{
    if p.len() > s.len() {
        return None;
    }
    let last = s.len() - p.len();
    let mut i: usize = 0;
    loop
        invariant
            last == s.len() - p.len(),
            p.len() <= s.len(),
            i <= last,
            find(s@, p@) == find_from(s@, p@, i as int),
        decreases last - i,
    {
        if occurs_at_exec(s, p, i) {
            return Some(i);
        }
        if i == last {
            assert(find_from(s@, p@, i + 1) is None);
            return None;
        }
        i += 1;
    }
}

/// `s` cut around the first occurrence of `p`.
pub fn split_first<'a>(s: &'a str, p: &str) -> (r: Option<(&'a str, &'a str)>)
    ensures
        match r {
            Some((a, b)) => split_once(s@, p@) == Some((a@, b@)),
            None => split_once(s@, p@) is None,
        },
{
    let sc = chars_of(s);
    let pc = chars_of(p);
    match find_chars(&sc, &pc) {
        Some(i) => {
            let n = sc.len();
            Some((s.substring_char(0, i), s.substring_char(i + pc.len(), n)))
        },
        None => None,
    }
}

/// Whether `s` ends with `p`.
pub fn ends_with_exec(s: &str, p: &str) -> (b: bool)
    ensures
        b == ends_with(s@, p@),
{
    let sc = chars_of(s);
    let pc = chars_of(p);
    if pc.len() > sc.len() {
        return false;
    }
    occurs_at_exec(&sc, &pc, sc.len() - pc.len())
}

/// Whether `a` and `b` hold the same characters.
pub fn same_text(a: &str, b: &str) -> (r: bool)
    ensures
        r == (a@ == b@),
{
    let ac = chars_of(a);
    let bc = chars_of(b);
    if ac.len() != bc.len() {
        return false;
    }
    let r = occurs_at_exec(&ac, &bc, 0);
    assert(ac@.subrange(0, bc@.len() as int) =~= ac@);
    r
}

} // verus!
