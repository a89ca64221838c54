use vstd::prelude::*;

use crate::text::text_chars;

verus! {

/// All supported ml algorithms
#[derive(Clone, Copy, Debug, PartialEq, Eq)]
pub enum WarmMLModelAlgorithm {
    Svm,
    LogisticRegression,
}

/// The error of parsing an algorithm name: holds the name that was given.
#[derive(Debug)]
pub struct WarmMLModelAlgorithmParseError(pub String);

/// The code of the lower case of an ASCII letter; other characters keep their code.
pub open spec fn ascii_lower_code(c: char) -> u32 {
    if 'A' <= c && c <= 'Z' {
        ((c as u32) + 32) as u32
    } else {
        c as u32
    }
}

/// `s` lowercases to `name`. Every character of the names `svm` and `lr`
/// is an ASCII letter, and only ASCII letters lowercase to ASCII letters
/// among them, so lowercasing ASCII letters alone decides it.
pub open spec fn lowercases_to(s: Seq<char>, name: Seq<char>) -> bool {
    s.len() == name.len() && forall|i: int| 0 <= i < s.len() ==> ascii_lower_code(#[trigger] s[i]) == name[i] as u32
}

/// The short lower-case name of an algorithm.
pub open spec fn algorithm_name(a: WarmMLModelAlgorithm) -> Seq<char> {
    match a {
        WarmMLModelAlgorithm::Svm => "svm"@,
        WarmMLModelAlgorithm::LogisticRegression => "lr"@,
    }
}

fn lowercases_char_to(c: char, l: char) -> (r: bool)
    ensures
        r == (ascii_lower_code(c) == l as u32),
{
    if 'A' <= c && c <= 'Z' {
        (c as u32) + 32 == l as u32
    } else {
        c as u32 == l as u32
    }
}

fn text_lowercases_to(s: &str, name: &str) -> (r: bool)
    ensures
        r == lowercases_to(s@, name@),
{
    let a = text_chars(s);
    let b = text_chars(name);
    if a.len() != b.len() {
        return false;
    }
    let mut i: usize = 0;
    while i < a.len()
        invariant
            a@ == s@,
            b@ == name@,
            a.len() == b.len(),
            0 <= i <= a.len(),
            forall|k: int| 0 <= k < i ==> ascii_lower_code(#[trigger] a@[k]) == b@[k] as u32,
        decreases a.len() - i,
    {
        if !lowercases_char_to(a[i], b[i]) {
            return false;
        }
        i = i + 1;
    }
    true
}

impl WarmMLModelAlgorithmParseError {
    /// The message of the error: `invalid enum variant: ` and the given name.
    pub fn message(&self) -> (r: String)
        ensures
            r@ == "invalid enum variant: "@ + self.0@,
    {
        String::from_str("invalid enum variant: ").concat(self.0.as_str())
    }
}

impl WarmMLModelAlgorithm {
    /// Returns the lowercase name for an algorithm
    pub fn to_string(&self) -> (r: String)
        ensures
            r@ == algorithm_name(*self),
    {
        match self {
            WarmMLModelAlgorithm::Svm => String::from_str("svm"),
            WarmMLModelAlgorithm::LogisticRegression => String::from_str("lr"),
        }
    }

    /// Parses an algorithm from its name, in any case: `svm` or `lr`.
    pub fn from_str(s: &str) -> (r: Result<Self, WarmMLModelAlgorithmParseError>)
        ensures
            lowercases_to(s@, "svm"@) ==> r == Ok::<Self, WarmMLModelAlgorithmParseError>(
                WarmMLModelAlgorithm::Svm,
            ),
            !lowercases_to(s@, "svm"@) && lowercases_to(s@, "lr"@) ==> r == Ok::<
                Self,
                WarmMLModelAlgorithmParseError,
            >(WarmMLModelAlgorithm::LogisticRegression),
            !lowercases_to(s@, "svm"@) && !lowercases_to(s@, "lr"@) ==> (r matches Err(e)
                && e.0@ == s@),
    {
        if text_lowercases_to(s, "svm") {
            Ok(WarmMLModelAlgorithm::Svm)
        } else if text_lowercases_to(s, "lr") {
            Ok(WarmMLModelAlgorithm::LogisticRegression)
        } else {
            Err(WarmMLModelAlgorithmParseError(String::from_str(s)))
        }
    }
}

impl std::str::FromStr for WarmMLModelAlgorithm {
    type Err = WarmMLModelAlgorithmParseError;

    fn from_str(s: &str) -> (r: Result<Self, Self::Err>)
        ensures
            lowercases_to(s@, "svm"@) ==> r == Ok::<Self, WarmMLModelAlgorithmParseError>(
                WarmMLModelAlgorithm::Svm,
            ),
            !lowercases_to(s@, "svm"@) && lowercases_to(s@, "lr"@) ==> r == Ok::<
                Self,
                WarmMLModelAlgorithmParseError,
            >(WarmMLModelAlgorithm::LogisticRegression),
            !lowercases_to(s@, "svm"@) && !lowercases_to(s@, "lr"@) ==> (r matches Err(e)
                && e.0@ == s@),
    {
        WarmMLModelAlgorithm::from_str(s)
    }
}

/// Lower-casing turns each upper-case ASCII letter into its lower-case letter
/// (the code 32 higher) and keeps every other character.
pub proof fn lemma_ascii_lowercase(c: char)
    ensures
        'A' <= c <= 'Z' ==> ascii_lower_code(c) == (c as u32) + 32,
        !('A' <= c <= 'Z') ==> ascii_lower_code(c) == c as u32,
{
}

/// The names parse in any mix of cases, and only so: a text lowercases to
/// `svm` exactly when it is `s`, `v`, `m`, each in either case, and to `lr`
/// exactly when it is `l`, `r`, each in either case.
pub proof fn lemma_names_parse_in_any_case(s: Seq<char>)
    ensures
        lowercases_to(s, "svm"@) <==> (s.len() == 3 && (s[0] == 's' || s[0] == 'S') && (s[1] == 'v'
            || s[1] == 'V') && (s[2] == 'm' || s[2] == 'M')),
        lowercases_to(s, "lr"@) <==> (s.len() == 2 && (s[0] == 'l' || s[0] == 'L') && (s[1] == 'r'
            || s[1] == 'R')),
{
    reveal_strlit("svm");
    reveal_strlit("lr");
    if s.len() == 3 {
        lemma_lower_letter(s[0], 's');
        lemma_lower_letter(s[1], 'v');
        lemma_lower_letter(s[2], 'm');
        if lowercases_to(s, "svm"@) {
            assert(ascii_lower_code(s[0]) == 's' as u32);
            assert(ascii_lower_code(s[1]) == 'v' as u32);
            assert(ascii_lower_code(s[2]) == 'm' as u32);
        }
    }
    if s.len() == 2 {
        lemma_lower_letter(s[0], 'l');
        lemma_lower_letter(s[1], 'r');
        if lowercases_to(s, "lr"@) {
            assert(ascii_lower_code(s[0]) == 'l' as u32);
            assert(ascii_lower_code(s[1]) == 'r' as u32);
        }
    }
}

/// A character lowercases to the lower-case ASCII letter `l` exactly when it
/// is `l` or its upper-case letter.
proof fn lemma_lower_letter(c: char, l: char)
    requires
        'a' <= l <= 'z',
    ensures
        ascii_lower_code(c) == l as u32 <==> (c == l || c as u32 == (l as u32) - 32),
{
    if c as u32 == (l as u32) - 32 {
        assert('A' <= c <= 'Z');
    }
}

/// The name that `to_string` gives is read back by `from_str` as the same
/// algorithm.
pub proof fn lemma_algorithm_name_parses_back(a: WarmMLModelAlgorithm)
    ensures
        lowercases_to(algorithm_name(a), "svm"@) <==> a == WarmMLModelAlgorithm::Svm,
        lowercases_to(algorithm_name(a), "lr"@) <==> a == WarmMLModelAlgorithm::LogisticRegression,
{
    reveal_strlit("svm");
    reveal_strlit("lr");
    let svm = algorithm_name(WarmMLModelAlgorithm::Svm);
    let lr = algorithm_name(WarmMLModelAlgorithm::LogisticRegression);
    assert(lowercases_to(svm, "svm"@));
    assert(lowercases_to(lr, "lr"@));
    assert(!lowercases_to(svm, "lr"@));
    assert(!lowercases_to(lr, "svm"@));
}

} // verus!
