use vstd::prelude::*;

use crate::char_classes::{
    char_is_decimal_digit, char_is_white_space, is_ascii_digit, is_decimal_digit, is_white_space,
};
use crate::text::text_chars;

verus! {

// ---------------------------------------------------------------------------
// The grammar of rule ids in a rule file
// ---------------------------------------------------------------------------
/// The text after joining continued lines: scanning from the left, every
/// backslash that is directly followed by a line feed is replaced, together
/// with the line feed, by one space.
pub open spec fn join_continued_lines(s: Seq<char>) -> Seq<char>
    decreases s.len(),
{
    if s.len() < 2 {
        s
    } else if s[0] == '\\' && s[1] == '\n' {
        seq![' '] + join_continued_lines(s.skip(2))
    } else {
        seq![s[0]] + join_continued_lines(s.skip(1))
    }
}

/// The number of white space characters in the run that starts at `from`.
pub open spec fn white_space_run(s: Seq<char>, from: int) -> nat
    decreases s.len() - from,
{
    if 0 <= from < s.len() && is_white_space(s[from]) {
        1 + white_space_run(s, from + 1)
    } else {
        0
    }
}

/// The number of decimal digits in the run that starts at `from`.
pub open spec fn digit_run(s: Seq<char>, from: int) -> nat
    decreases s.len() - from,
{
    if 0 <= from < s.len() && is_decimal_digit(s[from]) {
        1 + digit_run(s, from + 1)
    } else {
        0
    }
}

/// The id clause that starts at position `at` of `s`, if there is one: the
/// letters `id`, white space, a colon, white space, and one or more decimal
/// digits, every run taken as long as it goes. Gives the position after the
/// clause and the position of its first digit.
pub open spec fn id_clause_at(s: Seq<char>, at: int) -> Option<(int, int)> {
    if 0 <= at && at + 2 <= s.len() && s[at] == 'i' && s[at + 1] == 'd' {
        let colon = at + 2 + white_space_run(s, at + 2);
        if colon < s.len() && s[colon] == ':' {
            let digits = colon + 1 + white_space_run(s, colon + 1);
            let n = digit_run(s, digits);
            if n > 0 {
                Some((digits + n, digits))
            } else {
                None
            }
        } else {
            None
        }
    } else {
        None
    }
}

/// The value of a sequence of ASCII digits read in base ten.
pub open spec fn decimal_value(d: Seq<char>) -> int
    decreases d.len(),
{
    if d.len() == 0 {
        0
    } else {
        10 * decimal_value(d.drop_last()) + (d.last() as int - '0' as int)
    }
}

/// What parsing a run of digits as an `i64` gives: a value when every
/// character is an ASCII digit and the value fits, nothing otherwise.
pub open spec fn parse_rule_id(d: Seq<char>) -> Option<i64> {
    if d.len() > 0 && (forall|i: int| 0 <= i < d.len() ==> is_ascii_digit(#[trigger] d[i]))
        && decimal_value(d) <= i64::MAX {
        Some(decimal_value(d) as i64)
    } else {
        None
    }
}

/// The rule ids found in `s` from position `at` on: the id clauses are taken
/// leftmost first and without overlap, and a clause whose digits do not parse
/// as an `i64` gives no id.
pub open spec fn rule_ids_from(s: Seq<char>, at: int) -> Seq<i64>
    decreases s.len() - at,
{
    if at < 0 || at >= s.len() {
        Seq::empty()
    } else {
        match id_clause_at(s, at) {
            Some((end, digits)) => {
                proof {
                    lemma_id_clause_bound(s, at);
                }
                match parse_rule_id(s.subrange(digits, end)) {
                    Some(id) => seq![id] + rule_ids_from(s, end),
                    None => rule_ids_from(s, end),
                }
            },
            None => rule_ids_from(s, at + 1),
        }
    }
}

/// The rule ids that a rule file with this text declares, in order.
pub open spec fn rule_ids_in(text: Seq<char>) -> Seq<i64> {
    rule_ids_from(join_continued_lines(text), 0)
}

// ---------------------------------------------------------------------------
// Lemmas
// ---------------------------------------------------------------------------
proof fn lemma_white_space_run_bound(s: Seq<char>, from: int)
    requires
        0 <= from <= s.len(),
    ensures
        from + white_space_run(s, from) <= s.len(),
        forall|k: int|
            from <= k < from + white_space_run(s, from) ==> is_white_space(#[trigger] s[k]),
    decreases s.len() - from,
{
    if from < s.len() && is_white_space(s[from]) {
        lemma_white_space_run_bound(s, from + 1);
    }
}

proof fn lemma_digit_run_bound(s: Seq<char>, from: int)
    requires
        0 <= from <= s.len(),
    ensures
        from + digit_run(s, from) <= s.len(),
    decreases s.len() - from,
{
    if from < s.len() && is_decimal_digit(s[from]) {
        lemma_digit_run_bound(s, from + 1);
    }
}

/// An id clause lies inside the text and ends after it starts.
pub proof fn lemma_id_clause_bound(s: Seq<char>, at: int)
    requires
        0 <= at <= s.len(),
    ensures
        id_clause_at(s, at) matches Some((end, digits)) ==> at + 3 <= digits < end <= s.len(),
{
    if at + 2 <= s.len() {
        lemma_white_space_run_bound(s, at + 2);
        let colon = at + 2 + white_space_run(s, at + 2);
        if colon < s.len() {
            lemma_white_space_run_bound(s, colon + 1);
            let digits = colon + 1 + white_space_run(s, colon + 1);
            lemma_digit_run_bound(s, digits);
        }
    }
}

proof fn lemma_decimal_value_nonneg(d: Seq<char>)
    requires
        forall|i: int| 0 <= i < d.len() ==> is_ascii_digit(#[trigger] d[i]),
    ensures
        decimal_value(d) >= 0,
    decreases d.len(),
{
    if d.len() > 0 {
        lemma_decimal_value_nonneg(d.drop_last());
    }
}

/// Reading more digits never makes the value smaller.
proof fn lemma_decimal_value_prefix(d: Seq<char>, k: int)
    requires
        forall|i: int| 0 <= i < d.len() ==> is_ascii_digit(#[trigger] d[i]),
        0 <= k <= d.len(),
    ensures
        decimal_value(d.take(k)) <= decimal_value(d),
    decreases d.len(),
{
    if k == d.len() {
        assert(d.take(k) =~= d);
    } else {
        let p = d.drop_last();
        lemma_decimal_value_prefix(p, k);
        lemma_decimal_value_nonneg(p);
        assert(p.take(k) =~= d.take(k));
    }
}

// ---------------------------------------------------------------------------
// Executable scanning
// ---------------------------------------------------------------------------
/// Joins continued lines: see [`join_continued_lines`].
pub fn join_lines(s: &Vec<char>) -> (r: Vec<char>)
    ensures
        r@ == join_continued_lines(s@),
{
    let n = s.len();
    let mut out: Vec<char> = Vec::new();
    let mut i: usize = 0;
    assert(s@.skip(0) =~= s@);
    while i < n
        invariant
            n == s.len(),
            0 <= i <= n,
            out@ + join_continued_lines(s@.skip(i as int)) == join_continued_lines(s@),
        decreases n - i,
    {
        let ghost rest = s@.skip(i as int);
        if i + 1 < n && s[i] == '\\' && s[i + 1] == '\n' {
            assert(rest.skip(2) =~= s@.skip(i + 2));
            assert(join_continued_lines(rest) == seq![' '] + join_continued_lines(
                s@.skip(i + 2),
            ));
            assert(out@.push(' ') + join_continued_lines(s@.skip(i + 2)) =~= out@
                + join_continued_lines(rest));
            out.push(' ');
            i = i + 2;
        } else {
            let c = s[i];
            if i + 1 < n {
                assert(rest.skip(1) =~= s@.skip(i + 1));
                assert(join_continued_lines(rest) == seq![c] + join_continued_lines(
                    s@.skip(i + 1),
                ));
            } else {
                assert(rest =~= seq![c]);
                assert(s@.skip(i + 1).len() == 0);
                assert(join_continued_lines(s@.skip(i + 1)) =~= Seq::<char>::empty());
            }
            assert(out@.push(c) + join_continued_lines(s@.skip(i + 1)) =~= out@
                + join_continued_lines(rest));
            out.push(c);
            i = i + 1;
        }
    }
    assert(join_continued_lines(s@.skip(n as int)) =~= Seq::<char>::empty());
    assert(out@ + Seq::<char>::empty() =~= out@);
    out
}

fn white_space_run_at(s: &Vec<char>, from: usize) -> (r: usize)
    requires
        from <= s.len(),
    ensures
        r == white_space_run(s@, from as int),
        from + r <= s.len(),
{
    let mut i = from;
    while i < s.len() && char_is_white_space(s[i])
        invariant
            from <= i <= s.len(),
            white_space_run(s@, from as int) == (i - from) + white_space_run(s@, i as int),
        decreases s.len() - i,
    {
        i = i + 1;
    }
    proof {
        lemma_white_space_run_bound(s@, from as int);
    }
    i - from
}

fn digit_run_at(s: &Vec<char>, from: usize) -> (r: usize)
    requires
        from <= s.len(),
    ensures
        r == digit_run(s@, from as int),
        from + r <= s.len(),
{
    let mut i = from;
    while i < s.len() && char_is_decimal_digit(s[i])
        invariant
            from <= i <= s.len(),
            digit_run(s@, from as int) == (i - from) + digit_run(s@, i as int),
        decreases s.len() - i,
    {
        i = i + 1;
    }
    proof {
        lemma_digit_run_bound(s@, from as int);
    }
    i - from
}

/// The id clause at position `at`: see [`id_clause_at`].
fn id_clause_at_exec(s: &Vec<char>, at: usize) -> (r: Option<(usize, usize)>)
    requires
        at <= s.len(),
    ensures
        match r {
            Some((end, digits)) => id_clause_at(s@, at as int) == Some((end as int, digits as int)),
            None => id_clause_at(s@, at as int) is None,
        },
{
    if s.len() - at >= 2 && s[at] == 'i' && s[at + 1] == 'd' {
        let colon = at + 2 + white_space_run_at(s, at + 2);
        if colon < s.len() && s[colon] == ':' {
            let digits = colon + 1 + white_space_run_at(s, colon + 1);
            let n = digit_run_at(s, digits);
            if n > 0 {
                Some((digits + n, digits))
            } else {
                None
            }
        } else {
            None
        }
    } else {
        None
    }
}

/// Parses `s[start..end]` as an `i64`: see [`parse_rule_id`].
fn parse_rule_id_at(s: &Vec<char>, start: usize, end: usize) -> (r: Option<i64>)
    requires
        start < end <= s.len(),
    ensures
        r == parse_rule_id(s@.subrange(start as int, end as int)),
{
    let ghost d = s@.subrange(start as int, end as int);
    let mut v: i64 = 0;
    let mut i = start;
    while i < end
        invariant
            start <= i <= end <= s.len(),
            d == s@.subrange(start as int, end as int),
            forall|k: int| start <= k < i ==> is_ascii_digit(#[trigger] s@[k]),
            v == decimal_value(s@.subrange(start as int, i as int)),
            0 <= v,
        decreases end - i,
    {
        let c = s[i];
        if !('0' <= c && c <= '9') {
            assert(!is_ascii_digit(d[i - start]));
            return None;
        }
        let digit: i64 = (c as u32 - '0' as u32) as i64;
        let ghost prefix = s@.subrange(start as int, i + 1);
        assert(prefix.drop_last() =~= s@.subrange(start as int, i as int));
        assert(decimal_value(prefix) == 10 * v + digit);
        if v > (i64::MAX - digit) / 10 {
            proof {
                assert(10 * v + digit > i64::MAX) by (nonlinear_arith)
                    requires
                        v > (i64::MAX - digit) / 10,
                        0 <= digit <= 9,
                ;
                if forall|k: int| 0 <= k < d.len() ==> is_ascii_digit(#[trigger] d[k]) {
                    assert(d.take(i + 1 - start) =~= prefix);
                    lemma_decimal_value_prefix(d, i + 1 - start);
                }
            }
            return None;
        }
        assert(10 * v + digit <= i64::MAX) by (nonlinear_arith)
            requires
                v <= (i64::MAX - digit) / 10,
                0 <= digit <= 9,
        ;
        v = v * 10 + digit;
        i = i + 1;
    }
    assert(s@.subrange(start as int, i as int) =~= d);
    Some(v)
}

/// The ids of the rules that a rule file declares, read from its text: every
/// `id:<digits>` clause (white space allowed around the colon) after joining
/// continued lines, in order; a clause whose number does not fit an `i64` is
/// skipped.
pub fn rule_ids_of_text(text: &str) -> (ids: Vec<i64>)
    ensures
        ids@ == rule_ids_in(text@),
{
    let raw = text_chars(text);
    let s = join_lines(&raw);
    let n = s.len();
    let mut ids: Vec<i64> = Vec::new();
    let mut at: usize = 0;
    while at < n
        invariant
            n == s.len(),
            s@ == join_continued_lines(text@),
            0 <= at <= n,
            ids@ + rule_ids_from(s@, at as int) == rule_ids_from(s@, 0),
        decreases n - at,
    {
        proof {
            lemma_id_clause_bound(s@, at as int);
        }
        match id_clause_at_exec(&s, at) {
            Some((end, digits)) => {
                match parse_rule_id_at(&s, digits, end) {
                    Some(id) => {
                        assert(ids@.push(id) + rule_ids_from(s@, end as int) =~= ids@ + (seq![id]
                            + rule_ids_from(s@, end as int)));
                        ids.push(id);
                    },
                    None => {},
                }
                at = end;
            },
            None => {
                at = at + 1;
            },
        }
    }
    assert(ids@ + Seq::<i64>::empty() =~= ids@);
    ids
}

// ---------------------------------------------------------------------------
// Rule file names
// ---------------------------------------------------------------------------
/// The position of the last `.` in a file name, if it has one.
pub open spec fn last_dot(name: Seq<char>) -> Option<int>
    decreases name.len(),
{
    if name.len() == 0 {
        None
    } else if name.last() == '.' {
        Some(name.len() - 1)
    } else {
        last_dot(name.drop_last())
    }
}

/// The extension of a file name, as a path's `extension` gives it: what
/// follows the last `.`, unless there is no `.`, the only `.` that counts
/// starts the name, or the name is `..`.
pub open spec fn file_extension(name: Seq<char>) -> Option<Seq<char>> {
    if name == ".."@ {
        None
    } else {
        match last_dot(name) {
            Some(i) => if i > 0 {
                Some(name.skip(i + 1))
            } else {
                None
            },
            None => None,
        }
    }
}

proof fn lemma_last_dot(name: Seq<char>)
    ensures
        match last_dot(name) {
            Some(i) => 0 <= i < name.len() && name[i] == '.' && forall|k: int|
                i < k < name.len() ==> #[trigger] name[k] != '.',
            None => forall|k: int| 0 <= k < name.len() ==> #[trigger] name[k] != '.',
        },
    decreases name.len(),
{
    if name.len() > 0 && name.last() != '.' {
        let p = name.drop_last();
        lemma_last_dot(p);
        assert forall|k: int| 0 <= k < name.len() - 1 implies name[k] == p[k] by {}
    }
}

/// Tells whether a rule file name has the extension `conf`.
pub fn is_conf_file_name(name: &str) -> (r: bool)
    ensures
        r == (file_extension(name@) == Some("conf"@)),
{
    let s = text_chars(name);
    let conf = text_chars("conf");
    if s.len() == 2 && s[0] == '.' && s[1] == '.' {
        proof {
            reveal_strlit("..");
            assert(s@ =~= ".."@);
        }
        return false;
    }
    proof {
        reveal_strlit("..");
        if s@ == ".."@ {
            assert(s@[0] == '.' && s@[1] == '.');
        }
    }
    // Find the last dot.
    let mut i: usize = s.len();
    while i > 0 && s[i - 1] != '.'
        invariant
            0 <= i <= s.len(),
            forall|k: int| i <= k < s.len() ==> #[trigger] s@[k] != '.',
        decreases i,
    {
        i = i - 1;
    }
    proof {
        lemma_last_dot(s@);
        match last_dot(s@) {
            Some(j) => {
                if i == 0 {
                    assert(s@[j] == '.');
                } else {
                    assert(j == i - 1) by {
                        if j < i - 1 {
                            assert(s@[i - 1] == '.');
                        } else if j > i - 1 {
                            assert(s@[j] != '.');
                        }
                    }
                }
            },
            None => {
                if i > 0 {
                    assert(s@[i - 1] == '.');
                }
            },
        }
    }
    if i <= 1 {
        return false;
    }
    // `i - 1` is the last dot and it does not start the name.
    if s.len() - i != conf.len() {
        assert(s@.skip(i as int).len() != conf@.len());
        return false;
    }
    assert(file_extension(name@) == Some(s@.skip(i as int)));
    let mut k: usize = 0;
    while k < conf.len()
        invariant
            s@ == name@,
            conf@ == "conf"@,
            file_extension(name@) == Some(s@.skip(i as int)),
            s.len() - i == conf.len(),
            1 < i <= s.len(),
            0 <= k <= conf.len(),
            forall|q: int| 0 <= q < k ==> s@[i + q] == #[trigger] conf@[q],
        decreases conf.len() - k,
    {
        if s[i + k] != conf[k] {
            assert(s@.skip(i as int)[k as int] != conf@[k as int]);
            return false;
        }
        k = k + 1;
    }
    assert(s@.skip(i as int) =~= conf@);
    true
}

} // verus!
