use vstd::prelude::*;
use regex::Regex;

use crate::text::occurs_in;

verus! {

/// `regex::Regex`, a compiled regular expression.
#[verifier::external_type_specification]
#[verifier::external_body]
pub struct ExRegex(Regex);

/// `regex::Error`, why a pattern did not compile.
#[verifier::external_type_specification]
#[verifier::external_body]
pub struct ExRegexError(regex::Error);

/// Whether `regex::Regex::new` compiles this pattern: it refuses a pattern
/// that is not valid syntax, or whose compiled form exceeds the default size
/// limit. The compiled size counts pointer-sized parts, so near that limit the
/// answer depends on the target's pointer width, which one build fixes.
pub uninterp spec fn regex_compiles(pattern: Seq<char>) -> bool;

/// Whether the regular expression compiled from `pattern` matches somewhere
/// in `haystack`, as `regex::Regex::is_match` answers.
pub uninterp spec fn regex_finds(pattern: Seq<char>, haystack: Seq<char>) -> bool;

/// A pattern made only of ASCII letters, digits, `-` and `_`: none of them
/// has a special meaning in a regular expression.
pub open spec fn is_literal_pattern(p: Seq<char>) -> bool {
    forall|i: int|
        0 <= i < p.len() ==> {
            let c = #[trigger] p[i];
            ('a' <= c && c <= 'z') || ('A' <= c && c <= 'Z') || ('0' <= c && c <= '9') || c == '-'
                || c == '_'
        }
}

/// The texts, in order, in which `pattern` occurs as a contiguous run.
pub open spec fn texts_containing(texts: Seq<Seq<char>>, pattern: Seq<char>) -> Seq<Seq<char>> {
    texts.filter(|h: Seq<char>| occurs_in(h, pattern))
}

/// A compiled file name pattern together with the text it was compiled from.
pub struct FileNamePattern {
    regex: Regex,
    source: String,
}

impl View for FileNamePattern {
    type V = Seq<char>;

    closed spec fn view(&self) -> Seq<char> {
        self.source@
    }
}

impl FileNamePattern {
    /// Calls `regex::Regex::new`: succeeds exactly when the pattern compiles,
    /// and keeps the pattern's text beside the compiled regex.
    #[verifier::external_body]
    fn compile(pattern: &str) -> (r: Result<FileNamePattern, regex::Error>)
        ensures
            r is Ok <==> regex_compiles(pattern@),
            r matches Ok(p) ==> p@ == pattern@,
    {
        match Regex::new(pattern) {
            Ok(regex) => Ok(FileNamePattern { regex, source: pattern.to_string() }),
            Err(e) => Err(e),
        }
    }

    /// Calls `regex::Regex::is_match` on `haystack`. The regex of a value is
    /// the one compiled from its text (only `compile` makes a value and its
    /// fields are private), so the answer is that of the pattern `self@`.
    /// `is_match` reports a match anywhere in the haystack, and in a literal
    /// pattern every character matches itself alone (matching is case
    /// sensitive by default), so such a pattern matches exactly where it occurs.
    #[verifier::external_body]
    fn is_match(&self, haystack: &str) -> (r: bool)
        ensures
            r == regex_finds(self@, haystack@),
            is_literal_pattern(self@) ==> r == occurs_in(haystack@, self@),
    {
        self.regex.is_match(haystack)
    }
}

/// A file name pattern that is not a regular expression that compiles.
#[derive(Debug, PartialEq, Eq)]
pub struct InvalidFileNamePattern {
    /// The pattern as it was given.
    pub pattern: String,
}

/// The texts of a list of strings.
pub open spec fn texts(v: Seq<String>) -> Seq<Seq<char>> {
    v.map_values(|s: String| s@)
}

/// The paths, in order, in which the regular expression `pattern` matches somewhere.
pub open spec fn matching_paths(paths: Seq<Seq<char>>, pattern: Seq<char>) -> Seq<Seq<char>>
    decreases paths.len(),
{
    if paths.len() == 0 {
        Seq::empty()
    } else {
        let prev = matching_paths(paths.drop_last(), pattern);
        if regex_finds(pattern, paths.last()) {
            prev.push(paths.last())
        } else {
            prev
        }
    }
}

/// Keeps, in order, the paths in which the regular expression `pattern`
/// matches somewhere; an error when `pattern` does not compile.
pub fn select_matching_paths(paths: &Vec<String>, pattern: &str) -> (r: Result<
    Vec<String>,
    InvalidFileNamePattern,
>)
    ensures
        r is Ok <==> regex_compiles(pattern@),
        r matches Ok(v) ==> texts(v@) == matching_paths(texts(paths@), pattern@),
        r matches Err(e) ==> e.pattern@ == pattern@,
        r matches Ok(v) ==> (is_literal_pattern(pattern@) ==> texts(v@) == texts_containing(
            texts(paths@),
            pattern@,
        )),
{
    let compiled = match FileNamePattern::compile(pattern) {
        Ok(p) => p,
        Err(_) => {
            return Err(InvalidFileNamePattern { pattern: pattern.to_owned() });
        },
    };
    let ghost all = texts(paths@);
    let mut kept: Vec<String> = Vec::new();
    let n = paths.len();
    let mut i: usize = 0;
    while i < n
        invariant
            n == paths@.len(),
            all == texts(paths@),
            compiled@ == pattern@,
            0 <= i <= n,
            texts(kept@) == matching_paths(all.take(i as int), pattern@),
            is_literal_pattern(pattern@) ==> forall|k: int|
                0 <= k < i ==> #[trigger] regex_finds(pattern@, all[k]) == occurs_in(
                    all[k],
                    pattern@,
                ),
        decreases n - i,
    {
        let path = &paths[i];
        assert(all.take(i + 1).drop_last() =~= all.take(i as int));
        assert(all.take(i + 1).last() == path@);
        if compiled.is_match(path.as_str()) {
            let ghost before = kept@;
            kept.push(path.clone());
            assert(texts(kept@) =~= texts(before).push(path@));
        }
        i = i + 1;
    }
    assert(all.take(n as int) =~= all);
    proof {
        if is_literal_pattern(pattern@) {
            lemma_literal_matches(all, pattern@);
        }
    }
    Ok(kept)
}

/// Where a pattern matches exactly the texts it occurs in, the texts it
/// matches are the texts that contain it.
proof fn lemma_literal_matches(all: Seq<Seq<char>>, pattern: Seq<char>)
    requires
        forall|k: int|
            0 <= k < all.len() ==> #[trigger] regex_finds(pattern, all[k]) == occurs_in(
                all[k],
                pattern,
            ),
    ensures
        matching_paths(all, pattern) == texts_containing(all, pattern),
    decreases all.len(),
{
    let pred = |h: Seq<char>| occurs_in(h, pattern);
    if all.len() == 0 {
        reveal(Seq::filter);
        assert(all.filter(pred) =~= Seq::<Seq<char>>::empty());
    } else {
        let prev = all.drop_last();
        assert forall|k: int| 0 <= k < prev.len() implies #[trigger] regex_finds(pattern, prev[k])
            == occurs_in(prev[k], pattern) by {
            assert(prev[k] == all[k]);
        }
        lemma_literal_matches(prev, pattern);
        prev.lemma_filter_push(all.last(), pred);
        assert(prev.push(all.last()) =~= all);
        assert(regex_finds(pattern, all[all.len() - 1]) == occurs_in(all[all.len() - 1], pattern));
    }
}

} // verus!
