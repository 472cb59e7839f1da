use vstd::prelude::*;

use crate::pattern_rendering::has_plain_literals;
use crate::regular_expression_pattern::RegularExpressionPattern;

verus! {

/// Why a text is no pattern: parsing stopped at `position` (counted in characters) before the end.
#[derive(Debug, Clone, Copy, PartialEq, Eq)]
pub struct ParseError {
    pub position: usize,
}

/// Whether `c` stands for itself in a pattern; `| * ( ) \` do not.
pub open spec fn is_literal_char(c: char) -> bool {
    c != '|' && c != '*' && c != '(' && c != ')' && c != '\\'
}

/// literal := any character but `| * ( ) \`
pub open spec fn literal_at(s: Seq<char>, i: int) -> Option<(RegularExpressionPattern, int)> {
    if 0 <= i < s.len() && is_literal_char(s[i]) {
        Some((RegularExpressionPattern::Literal(s[i]), i + 1))
    } else {
        None
    }
}

/// choose := concat-or-empty '|' choose | concat-or-empty. It always succeeds; the result is the
/// pattern read from position `i` and the position after it.
pub open spec fn choose_at(s: Seq<char>, i: int) -> (RegularExpressionPattern, int)
    decreases s.len() - i, 4int,
{
    let (first, j) = concatenate_or_empty_at(s, i);
    if i <= j && j < s.len() && s[j] == '|' {
        let (second, k) = choose_at(s, j + 1);
        (RegularExpressionPattern::Choose(Box::new(first), Box::new(second)), k)
    } else {
        (first, j)
    }
}

/// concat-or-empty := concat | the empty pattern
pub open spec fn concatenate_or_empty_at(s: Seq<char>, i: int) -> (RegularExpressionPattern, int)
    decreases s.len() - i, 3int,
{
    match concatenate_at(s, i) {
        Some(parsed) => parsed,
        None => (RegularExpressionPattern::Empty, i),
    }
}

/// concat := repeat concat | repeat
pub open spec fn concatenate_at(s: Seq<char>, i: int) -> Option<(RegularExpressionPattern, int)>
    decreases s.len() - i, 2int,
{
    match repeat_at(s, i) {
        None => None,
        Some((first, j)) => if i < j && j <= s.len() {
            match concatenate_at(s, j) {
                Some((second, k)) => Some(
                    (RegularExpressionPattern::Concatenate(Box::new(first), Box::new(second)), k),
                ),
                None => Some((first, j)),
            }
        } else {
            Some((first, j))
        },
    }
}

/// repeat := atom '*' | atom
pub open spec fn repeat_at(s: Seq<char>, i: int) -> Option<(RegularExpressionPattern, int)>
    decreases s.len() - i, 1int,
{
    match brackets_at(s, i) {
        None => None,
        Some((atom, j)) => if 0 <= j < s.len() && s[j] == '*' {
            Some((RegularExpressionPattern::Repeat(Box::new(atom)), j + 1))
        } else {
            Some((atom, j))
        },
    }
}

/// atom := '(' choose ')' | literal
pub open spec fn brackets_at(s: Seq<char>, i: int) -> Option<(RegularExpressionPattern, int)>
    decreases s.len() - i, 0int,
{
    if 0 <= i < s.len() && s[i] == '(' {
        let (inner, j) = choose_at(s, i + 1);
        if 0 <= j < s.len() && s[j] == ')' {
            Some((inner, j + 1))
        } else {
            None
        }
    } else {
        literal_at(s, i)
    }
}

/// The pattern that the whole of `s` spells, or where reading it stopped short.
pub open spec fn parse(s: Seq<char>) -> Result<RegularExpressionPattern, ParseError> {
    let (pattern, end) = choose_at(s, 0);
    if end == s.len() {
        Ok(pattern)
    } else {
        Err(ParseError { position: end as usize })
    }
}

proof fn lemma_choose_plain(s: Seq<char>, i: int)
    ensures
        has_plain_literals(choose_at(s, i).0),
    decreases s.len() - i, 4int,
{
    lemma_concatenate_or_empty_plain(s, i);
    let (_, j) = concatenate_or_empty_at(s, i);
    if i <= j && j < s.len() && s[j] == '|' {
        lemma_choose_plain(s, j + 1);
    }
}

proof fn lemma_concatenate_or_empty_plain(s: Seq<char>, i: int)
    ensures
        has_plain_literals(concatenate_or_empty_at(s, i).0),
    decreases s.len() - i, 3int,
{
    lemma_concatenate_plain(s, i);
}

proof fn lemma_concatenate_plain(s: Seq<char>, i: int)
    ensures
        concatenate_at(s, i) matches Some((pattern, _)) ==> has_plain_literals(pattern),
    decreases s.len() - i, 2int,
{
    lemma_repeat_plain(s, i);
    if let Some((_, j)) = repeat_at(s, i) {
        if i < j && j <= s.len() {
            lemma_concatenate_plain(s, j);
        }
    }
}

proof fn lemma_repeat_plain(s: Seq<char>, i: int)
    ensures
        repeat_at(s, i) matches Some((pattern, _)) ==> has_plain_literals(pattern),
    decreases s.len() - i, 1int,
{
    lemma_brackets_plain(s, i);
}

proof fn lemma_brackets_plain(s: Seq<char>, i: int)
    ensures
        brackets_at(s, i) matches Some((pattern, _)) ==> has_plain_literals(pattern),
    decreases s.len() - i, 0int,
{
    if 0 <= i < s.len() && s[i] == '(' {
        lemma_choose_plain(s, i + 1);
    }
}

/// Every character that a parsed pattern reads stood for itself in the text.
pub proof fn lemma_parsed_literals_are_plain(s: Seq<char>)
    ensures
        parse(s) matches Ok(pattern) ==> has_plain_literals(pattern),
{
    lemma_choose_plain(s, 0);
}

/// The characters of `input`, in order.
fn characters(input: &str) -> (chars: Vec<char>)
    ensures
        chars@ == input@,
{
    let length = input.unicode_len();
    let mut chars: Vec<char> = Vec::new();
    let mut i: usize = 0;
    while i < length
        invariant
            i <= length,
            length == input@.len(),
            chars@ == input@.subrange(0, i as int),
        decreases length - i,
    {
        chars.push(input.get_char(i));
        assert(chars@ =~= input@.subrange(0, i + 1));
        i += 1;
    }
    chars
}

/// Parses a whole pattern: `|` separates alternatives, `*` repeats, brackets group, and every
/// other character but `\` stands for itself.
pub fn parse_pattern(input: &str) -> (r: Result<RegularExpressionPattern, ParseError>)
    ensures
        r == parse(input@),
{
    let chars = characters(input);
    let (pattern, end) = parse_choose(&chars, 0);
    if end == chars.len() {
        Ok(pattern)
    } else {
        Err(ParseError { position: end })
    }
}

fn parse_choose(s: &Vec<char>, i: usize) -> (r: (RegularExpressionPattern, usize))
    requires
        i <= s.len(),
    ensures
        (r.0, r.1 as int) == choose_at(s@, i as int),
    decreases s@.len() - i, 4int,
{
    let (first, j) = parse_concatenate_or_empty(s, i);
    if i <= j && j < s.len() && s[j] == '|' {
        let (second, k) = parse_choose(s, j + 1);
        (RegularExpressionPattern::Choose(Box::new(first), Box::new(second)), k)
    } else {
        (first, j)
    }
}

fn parse_concatenate_or_empty(s: &Vec<char>, i: usize) -> (r: (RegularExpressionPattern, usize))
    requires
        i <= s.len(),
    ensures
        (r.0, r.1 as int) == concatenate_or_empty_at(s@, i as int),
    decreases s@.len() - i, 3int,
{
    match parse_concatenate(s, i) {
        Some(parsed) => parsed,
        None => (RegularExpressionPattern::Empty, i),
    }
}

fn parse_concatenate(s: &Vec<char>, i: usize) -> (r: Option<(RegularExpressionPattern, usize)>)
    requires
        i <= s.len(),
    ensures
        r matches Some(parsed) ==> concatenate_at(s@, i as int) == Some((parsed.0, parsed.1 as int)),
        r is None ==> concatenate_at(s@, i as int) is None,
    decreases s@.len() - i, 2int,
{
    match parse_repeat(s, i) {
        None => None,
        Some((first, j)) => if i < j && j <= s.len() {
            match parse_concatenate(s, j) {
                Some((second, k)) => Some(
                    (RegularExpressionPattern::Concatenate(Box::new(first), Box::new(second)), k),
                ),
                None => Some((first, j)),
            }
        } else {
            Some((first, j))
        },
    }
}

fn parse_repeat(s: &Vec<char>, i: usize) -> (r: Option<(RegularExpressionPattern, usize)>)
    requires
        i <= s.len(),
    ensures
        r matches Some(parsed) ==> repeat_at(s@, i as int) == Some((parsed.0, parsed.1 as int)),
        r is None ==> repeat_at(s@, i as int) is None,
    decreases s@.len() - i, 1int,
{
    match parse_brackets(s, i) {
        None => None,
        Some((atom, j)) => if j < s.len() && s[j] == '*' {
            Some((RegularExpressionPattern::Repeat(Box::new(atom)), j + 1))
        } else {
            Some((atom, j))
        },
    }
}

fn parse_brackets(s: &Vec<char>, i: usize) -> (r: Option<(RegularExpressionPattern, usize)>)
    requires
        i <= s.len(),
    ensures
        r matches Some(parsed) ==> brackets_at(s@, i as int) == Some((parsed.0, parsed.1 as int)),
        r is None ==> brackets_at(s@, i as int) is None,
    decreases s@.len() - i, 0int,
{
    if i < s.len() && s[i] == '(' {
        let (inner, j) = parse_choose(s, i + 1);
        if j < s.len() && s[j] == ')' {
            Some((inner, j + 1))
        } else {
            None
        }
    } else {
        parse_literal(s, i)
    }
}

fn parse_literal(s: &Vec<char>, i: usize) -> (r: Option<(RegularExpressionPattern, usize)>)
    requires
        i <= s.len(),
    ensures
        r matches Some(parsed) ==> literal_at(s@, i as int) == Some((parsed.0, parsed.1 as int)),
        r is None ==> literal_at(s@, i as int) is None,
{
    if i < s.len() {
        let c = s[i];
        if c != '|' && c != '*' && c != '(' && c != ')' && c != '\\' {
            return Some((RegularExpressionPattern::Literal(c), i + 1));
        }
    }
    None
}

} // verus!
