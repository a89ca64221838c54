use vstd::prelude::*;

verus! {

/// `pat` occurs in `s` as a contiguous run.
pub open spec fn occurs_in(s: Seq<char>, pat: Seq<char>) -> bool {
    exists|i: int| 0 <= i && i + pat.len() <= s.len() && #[trigger] s.subrange(i, i + pat.len()) == pat
}

/// The characters of `text`, in order.
pub fn text_chars(text: &str) -> (r: Vec<char>)
    ensures
        r@ == text@,
{
    broadcast use vstd::string::axiom_spec_iter;

    let mut r: Vec<char> = Vec::new();
    for c in it: text.chars()
        invariant
            it.seq() == text@,
            r@ == it.seq().take(it.index()),
    {
        assert(it.seq().take(it.index() + 1) =~= it.seq().take(it.index()).push(c));
        r.push(c);
    }
    assert(r@ =~= text@);
    r
}

/// Tells whether `pat` matches `s` at position `at`.
fn matches_at(s: &Vec<char>, pat: &Vec<char>, at: usize) -> (r: bool)
    requires
        at + pat.len() <= s.len(),
    ensures
        r == (s@.subrange(at as int, at + pat.len()) == pat@),
{
    let mut k: usize = 0;
    while k < pat.len()
        invariant
            at + pat.len() <= s.len(),
            0 <= k <= pat.len(),
            forall|j: int| 0 <= j < k ==> s@[at + j] == pat@[j],
        decreases pat.len() - k,
    {
        if s[at + k] != pat[k] {
            assert(s@.subrange(at as int, at + pat.len())[k as int] != pat@[k as int]);
            return false;
        }
        k = k + 1;
    }
    assert(s@.subrange(at as int, at + pat.len()) =~= pat@);
    true
}

/// Tells whether `pat` occurs in `s`.
pub fn chars_occur_in(s: &Vec<char>, pat: &Vec<char>) -> (r: bool)
    ensures
        r == occurs_in(s@, pat@),
{
    if pat.len() > s.len() {
        return false;
    }
    let last = s.len() - pat.len();
    let mut at: usize = 0;
    loop
        invariant
            last + pat.len() == s.len(),
            0 <= at <= last,
            forall|i: int| 0 <= i < at ==> #[trigger] s@.subrange(i, i + pat.len()) != pat@,
        decreases last - at,
    {
        if matches_at(s, pat, at) {
            return true;
        }
        if at == last {
            return false;
        }
        at = at + 1;
    }
}

/// Tells whether `pat` occurs in `text`.
pub fn text_contains(text: &str, pat: &str) -> (r: bool)
    ensures
        r == occurs_in(text@, pat@),
{
    let s = text_chars(text);
    let p = text_chars(pat);
    chars_occur_in(&s, &p)
}

/// Tells whether the two texts hold the same characters.
pub fn text_equals(a: &str, b: &str) -> (r: bool)
    ensures
        r == (a@ == b@),
{
    let x = text_chars(a);
    let y = text_chars(b);
    if x.len() != y.len() {
        return false;
    }
    let r = matches_at(&x, &y, 0);
    assert(x@.subrange(0, y@.len() as int) =~= x@);
    r
}

} // verus!
