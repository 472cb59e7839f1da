use vstd::prelude::*;

use crate::parser::{
    brackets_at, choose_at, concatenate_at, concatenate_or_empty_at, is_literal_char, literal_at,
    lemma_parsed_literals_are_plain, parse, repeat_at, ParseError,
};
use crate::regular_expression_pattern::pattern_matches;
use crate::text::push_char;
use crate::regular_expression_pattern::RegularExpressionPattern;

verus! {

/// Every character that `pattern` reads stands for itself in a pattern's text.
pub open spec fn has_plain_literals(pattern: RegularExpressionPattern) -> bool
    decreases pattern,
{
    match pattern {
        RegularExpressionPattern::Empty => true,
        RegularExpressionPattern::Literal(c) => is_literal_char(c),
        RegularExpressionPattern::Concatenate(first, second) => has_plain_literals(*first)
            && has_plain_literals(*second),
        RegularExpressionPattern::Choose(first, second) => has_plain_literals(*first)
            && has_plain_literals(*second),
        RegularExpressionPattern::Repeat(inner) => has_plain_literals(*inner),
    }
}

/// The text of `pattern` where alternatives may stand: alternatives joined by `|`.
pub open spec fn render_choose(pattern: RegularExpressionPattern) -> Seq<char>
    decreases pattern, 3int,
{
    match pattern {
        RegularExpressionPattern::Choose(first, second) => render_concatenate(*first) + seq!['|']
            + render_choose(*second),
        _ => render_concatenate(pattern),
    }
}

/// The text of `pattern` where a sequence may stand: its parts one after the other.
pub open spec fn render_concatenate(pattern: RegularExpressionPattern) -> Seq<char>
    decreases pattern, 2int,
{
    match pattern {
        RegularExpressionPattern::Concatenate(first, second) => render_repeat(*first)
            + render_concatenate(*second),
        _ => render_repeat(pattern),
    }
}

/// The text of `pattern` where a repetition may stand: an atom with a `*`.
pub open spec fn render_repeat(pattern: RegularExpressionPattern) -> Seq<char>
    decreases pattern, 1int,
{
    match pattern {
        RegularExpressionPattern::Repeat(inner) => render_atom(*inner) + seq!['*'],
        _ => render_atom(pattern),
    }
}

/// The text of `pattern` as an atom: a character, `()` for the empty pattern, and anything else
/// in brackets.
pub open spec fn render_atom(pattern: RegularExpressionPattern) -> Seq<char>
    decreases pattern, 0int,
{
    match pattern {
        RegularExpressionPattern::Empty => seq!['(', ')'],
        RegularExpressionPattern::Literal(c) => seq![c],
        RegularExpressionPattern::Choose(first, second) => seq!['('] + render_concatenate(*first)
            + seq!['|'] + render_choose(*second) + seq![')'],
        RegularExpressionPattern::Concatenate(first, second) => seq!['('] + render_repeat(*first)
            + render_concatenate(*second) + seq![')'],
        RegularExpressionPattern::Repeat(inner) => seq!['('] + render_atom(*inner) + seq!['*']
            + seq![')'],
    }
}

/// The text of `pattern`, with brackets only where precedence needs them.
pub open spec fn render(pattern: RegularExpressionPattern) -> Seq<char> {
    render_choose(pattern)
}

/// `s` spells `text` from position `i` on.
pub open spec fn spelled_at(s: Seq<char>, i: int, text: Seq<char>) -> bool {
    0 <= i && i + text.len() <= s.len() && s.subrange(i, i + text.len()) == text
}

/// Position `j` is the end of `s` or holds `c`.
pub open spec fn ends_or_holds(s: Seq<char>, j: int, c: char) -> bool {
    j == s.len() || (0 <= j < s.len() && s[j] == c)
}

proof fn lemma_spelled_split(s: Seq<char>, i: int, x: Seq<char>, y: Seq<char>)
    requires
        spelled_at(s, i, x + y),
    ensures
        spelled_at(s, i, x),
        spelled_at(s, i + x.len(), y),
{
    assert forall|k: int| 0 <= k < x.len() implies s.subrange(i, i + x.len())[k] == x[k] by {
        assert(s.subrange(i, i + (x + y).len())[k] == (x + y)[k]);
    }
    assert(s.subrange(i, i + x.len()) =~= x);
    assert forall|k: int| 0 <= k < y.len() implies s.subrange(
        i + x.len(),
        i + x.len() + y.len(),
    )[k] == y[k] by {
        assert(s.subrange(i, i + (x + y).len())[x.len() + k] == (x + y)[x.len() + k]);
    }
    assert(s.subrange(i + x.len(), i + x.len() + y.len()) =~= y);
}

proof fn lemma_spelled_char(s: Seq<char>, i: int, c: char)
    requires
        spelled_at(s, i, seq![c]),
    ensures
        i < s.len() && s[i] == c,
{
    assert(s.subrange(i, i + 1)[0] == s[i]);
}

/// Each rendering is non-empty and starts with `(` or a character that stands for itself.
proof fn lemma_render_starts(pattern: RegularExpressionPattern)
    requires
        has_plain_literals(pattern),
    ensures
        render_choose(pattern).len() > 0,
        render_concatenate(pattern).len() > 0,
        render_repeat(pattern).len() > 0,
        render_atom(pattern).len() > 0,
        starts_plainly(render_choose(pattern)),
        starts_plainly(render_concatenate(pattern)),
        starts_plainly(render_repeat(pattern)),
        starts_plainly(render_atom(pattern)),
    decreases pattern,
{
    match pattern {
        RegularExpressionPattern::Choose(first, second) => {
            lemma_render_starts(*first);
            let left = render_concatenate(*first);
            assert((left + seq!['|'] + render_choose(*second))[0] == left[0]);
            assert(render_choose(pattern) == left + seq!['|'] + render_choose(*second));
            assert(render_concatenate(pattern) == render_repeat(pattern));
            assert(render_repeat(pattern) == render_atom(pattern));
            let bracketed = seq!['('] + left + seq!['|'] + render_choose(*second) + seq![')'];
            assert(render_atom(pattern) == bracketed);
            assert(bracketed[0] == '(');
        },
        RegularExpressionPattern::Concatenate(first, second) => {
            lemma_render_starts(*first);
            let left = render_repeat(*first);
            assert((left + render_concatenate(*second))[0] == left[0]);
        },
        RegularExpressionPattern::Repeat(inner) => {
            lemma_render_starts(*inner);
            let atom = render_atom(*inner);
            assert((atom + seq!['*'])[0] == atom[0]);
        },
        _ => {
            assert(render_atom(pattern)[0] == '(' || render_atom(pattern) == seq![
                render_atom(pattern)[0],
            ]);
        },
    }
    assert(render_repeat(pattern) == render_atom(pattern) || pattern is Repeat);
    assert(render_concatenate(pattern) == render_repeat(pattern) || pattern is Concatenate);
    assert(render_choose(pattern) == render_concatenate(pattern) || pattern is Choose);
}

/// `text` starts with `(` or with a character that stands for itself.
pub open spec fn starts_plainly(text: Seq<char>) -> bool {
    text.len() > 0 && (text[0] == '(' || is_literal_char(text[0]))
}

/// No sequence starts at the end, at `)` or at `|`.
proof fn lemma_no_concatenate_at_stop(s: Seq<char>, j: int)
    requires
        0 <= j <= s.len(),
        j == s.len() || s[j] == ')' || s[j] == '|',
    ensures
        concatenate_at(s, j) is None,
{
    assert(literal_at(s, j) is None);
    assert(brackets_at(s, j) is None);
    assert(repeat_at(s, j) is None);
}

proof fn lemma_choose_round_trip(s: Seq<char>, i: int, pattern: RegularExpressionPattern)
    requires
        has_plain_literals(pattern),
        spelled_at(s, i, render_choose(pattern)),
        ends_or_holds(s, i + render_choose(pattern).len(), ')'),
    ensures
        choose_at(s, i) == (pattern, i + render_choose(pattern).len()),
    decreases pattern, 4int,
{
    match pattern {
        RegularExpressionPattern::Choose(first, second) => {
            let left = render_concatenate(*first);
            let j = i + left.len();
            lemma_spelled_split(s, i, left + seq!['|'], render_choose(*second));
            lemma_spelled_split(s, i, left, seq!['|']);
            lemma_spelled_char(s, j, '|');
            lemma_concatenate_round_trip(s, i, *first);
            lemma_choose_round_trip(s, j + 1, *second);
        },
        _ => {
            lemma_concatenate_round_trip(s, i, pattern);
        },
    }
}

proof fn lemma_concatenate_round_trip(s: Seq<char>, i: int, pattern: RegularExpressionPattern)
    requires
        has_plain_literals(pattern),
        spelled_at(s, i, render_concatenate(pattern)),
        ends_or_holds(s, i + render_concatenate(pattern).len(), ')') || ends_or_holds(
            s,
            i + render_concatenate(pattern).len(),
            '|',
        ),
    ensures
        concatenate_at(s, i) == Some((pattern, i + render_concatenate(pattern).len())),
        concatenate_or_empty_at(s, i) == (pattern, i + render_concatenate(pattern).len()),
    decreases pattern, 3int,
{
    match pattern {
        RegularExpressionPattern::Concatenate(first, second) => {
            let left = render_repeat(*first);
            let j = i + left.len();
            lemma_spelled_split(s, i, left, render_concatenate(*second));
            lemma_render_starts(*first);
            lemma_render_starts(*second);
            assert(s.subrange(j, j + render_concatenate(*second).len())[0] == s[j]);
            lemma_repeat_round_trip(s, i, *first);
            lemma_concatenate_round_trip(s, j, *second);
        },
        _ => {
            lemma_render_starts(pattern);
            lemma_repeat_round_trip(s, i, pattern);
            lemma_no_concatenate_at_stop(s, i + render_concatenate(pattern).len());
        },
    }
}

proof fn lemma_repeat_round_trip(s: Seq<char>, i: int, pattern: RegularExpressionPattern)
    requires
        has_plain_literals(pattern),
        spelled_at(s, i, render_repeat(pattern)),
        i + render_repeat(pattern).len() == s.len() || s[i + render_repeat(pattern).len()] != '*',
    ensures
        repeat_at(s, i) == Some((pattern, i + render_repeat(pattern).len())),
    decreases pattern, 2int,
{
    match pattern {
        RegularExpressionPattern::Repeat(inner) => {
            let atom = render_atom(*inner);
            lemma_spelled_split(s, i, atom, seq!['*']);
            lemma_spelled_char(s, i + atom.len(), '*');
            lemma_atom_round_trip(s, i, *inner);
        },
        _ => {
            lemma_atom_round_trip(s, i, pattern);
        },
    }
}

proof fn lemma_atom_round_trip(s: Seq<char>, i: int, pattern: RegularExpressionPattern)
    requires
        has_plain_literals(pattern),
        spelled_at(s, i, render_atom(pattern)),
    ensures
        brackets_at(s, i) == Some((pattern, i + render_atom(pattern).len())),
    decreases pattern, 1int,
{
    match pattern {
        RegularExpressionPattern::Empty => {
            assert(seq!['(', ')'] =~= seq!['('] + seq![')']);
            lemma_spelled_split(s, i, seq!['('], seq![')']);
            lemma_spelled_char(s, i, '(');
            lemma_spelled_char(s, i + 1, ')');
            lemma_no_concatenate_at_stop(s, i + 1);
        },
        RegularExpressionPattern::Literal(c) => {
            lemma_spelled_char(s, i, c);
        },
        RegularExpressionPattern::Choose(_, _) => {
            lemma_bracketed_choose_round_trip(s, i, pattern);
        },
        RegularExpressionPattern::Concatenate(_, _) => {
            lemma_bracketed_concatenate_round_trip(s, i, pattern);
        },
        RegularExpressionPattern::Repeat(_) => {
            lemma_bracketed_repeat_round_trip(s, i, pattern);
        },
    }
}

proof fn lemma_bracketed_choose_round_trip(
    s: Seq<char>,
    i: int,
    pattern: RegularExpressionPattern,
)
    requires
        pattern is Choose,
        has_plain_literals(pattern),
        spelled_at(s, i, render_atom(pattern)),
    ensures
        brackets_at(s, i) == Some((pattern, i + render_atom(pattern).len())),
    decreases pattern, 0int,
{
    if let RegularExpressionPattern::Choose(first, second) = pattern {
        let left = render_concatenate(*first);
        let right = render_choose(*second);
        let j = i + 1 + left.len();
        let k = j + 1 + right.len();
        lemma_spelled_split(s, i, seq!['('] + left + seq!['|'] + right, seq![')']);
        lemma_spelled_split(s, i, seq!['('] + left + seq!['|'], right);
        lemma_spelled_split(s, i, seq!['('] + left, seq!['|']);
        lemma_spelled_split(s, i, seq!['('], left);
        lemma_spelled_char(s, i, '(');
        lemma_spelled_char(s, j, '|');
        lemma_spelled_char(s, k, ')');
        lemma_concatenate_round_trip(s, i + 1, *first);
        lemma_choose_round_trip(s, j + 1, *second);
        assert(choose_at(s, i + 1) == (pattern, k));
    }
}

proof fn lemma_bracketed_concatenate_round_trip(
    s: Seq<char>,
    i: int,
    pattern: RegularExpressionPattern,
)
    requires
        pattern is Concatenate,
        has_plain_literals(pattern),
        spelled_at(s, i, render_atom(pattern)),
    ensures
        brackets_at(s, i) == Some((pattern, i + render_atom(pattern).len())),
    decreases pattern, 0int,
{
    if let RegularExpressionPattern::Concatenate(first, second) = pattern {
        let left = render_repeat(*first);
        let right = render_concatenate(*second);
        let j = i + 1 + left.len();
        let k = j + right.len();
        lemma_spelled_split(s, i, seq!['('] + left + right, seq![')']);
        lemma_spelled_split(s, i, seq!['('] + left, right);
        lemma_spelled_split(s, i, seq!['('], left);
        lemma_spelled_char(s, i, '(');
        lemma_spelled_char(s, k, ')');
        lemma_render_starts(*first);
        lemma_render_starts(*second);
        assert(s.subrange(j, j + right.len())[0] == s[j]);
        lemma_repeat_round_trip(s, i + 1, *first);
        lemma_concatenate_round_trip(s, j, *second);
        assert(concatenate_at(s, i + 1) == Some((pattern, k)));
        assert(concatenate_or_empty_at(s, i + 1) == (pattern, k));
        assert(choose_at(s, i + 1) == (pattern, k));
    }
}

proof fn lemma_bracketed_repeat_round_trip(
    s: Seq<char>,
    i: int,
    pattern: RegularExpressionPattern,
)
    requires
        pattern is Repeat,
        has_plain_literals(pattern),
        spelled_at(s, i, render_atom(pattern)),
    ensures
        brackets_at(s, i) == Some((pattern, i + render_atom(pattern).len())),
    decreases pattern, 0int,
{
    if let RegularExpressionPattern::Repeat(inner) = pattern {
        let atom = render_atom(*inner);
        let j = i + 1 + atom.len();
        lemma_spelled_split(s, i, seq!['('] + atom + seq!['*'], seq![')']);
        lemma_spelled_split(s, i, seq!['('] + atom, seq!['*']);
        lemma_spelled_split(s, i, seq!['('], atom);
        lemma_spelled_char(s, i, '(');
        lemma_spelled_char(s, j, '*');
        lemma_spelled_char(s, j + 1, ')');
        lemma_atom_round_trip(s, i + 1, *inner);
        assert(repeat_at(s, i + 1) == Some((pattern, j + 1)));
        lemma_no_concatenate_at_stop(s, j + 1);
        assert(concatenate_at(s, i + 1) == Some((pattern, j + 1)));
        assert(concatenate_or_empty_at(s, i + 1) == (pattern, j + 1));
        assert(choose_at(s, i + 1) == (pattern, j + 1));
    }
}

/// Parsing the text of a pattern whose characters all stand for themselves gives the pattern back.
pub proof fn lemma_render_then_parse(pattern: RegularExpressionPattern)
    requires
        has_plain_literals(pattern),
    ensures
        parse(render(pattern)) == Ok::<RegularExpressionPattern, ParseError>(pattern),
{
    let text = render(pattern);
    assert(text.subrange(0, text.len() as int) =~= text);
    lemma_choose_round_trip(text, 0, pattern);
}

/// Rendering a parsed pattern and parsing the text again gives the same pattern, so the two match
/// the same strings.
pub proof fn lemma_parse_render_parse(text: Seq<char>, pattern: RegularExpressionPattern)
    requires
        parse(text) == Ok::<RegularExpressionPattern, ParseError>(pattern),
    ensures
        parse(render(pattern)) == Ok::<RegularExpressionPattern, ParseError>(pattern),
        forall|input: Seq<char>| #[trigger]
            pattern_matches(parse(render(pattern))->Ok_0, input) == pattern_matches(pattern, input),
{
    lemma_parsed_literals_are_plain(text);
    lemma_render_then_parse(pattern);
}

impl RegularExpressionPattern {
    /// The pattern's text: `|` between alternatives, parts of a sequence side by side, `*` after
    /// a repeated atom, `()` for the empty pattern, and brackets only where precedence needs them.
    pub fn to_string(&self) -> (text: String)
        ensures
            text@ == render(*self),
    {
        let mut text = String::new();
        self.write_choose(&mut text);
        assert(text@ =~= render(*self));
        text
    }

    fn write_choose(&self, text: &mut String)
        ensures
            final(text)@ == old(text)@ + render_choose(*self),
        decreases self, 3int,
    {
        match self {
            RegularExpressionPattern::Choose(first, second) => {
                first.write_concatenate(text);
                push_char(text, '|');
                second.write_choose(text);
                assert(text@ =~= old(text)@ + render_choose(*self));
            },
            _ => self.write_concatenate(text),
        }
    }

    fn write_concatenate(&self, text: &mut String)
        ensures
            final(text)@ == old(text)@ + render_concatenate(*self),
        decreases self, 2int,
    {
        match self {
            RegularExpressionPattern::Concatenate(first, second) => {
                first.write_repeat(text);
                second.write_concatenate(text);
                assert(text@ =~= old(text)@ + render_concatenate(*self));
            },
            _ => self.write_repeat(text),
        }
    }

    fn write_repeat(&self, text: &mut String)
        ensures
            final(text)@ == old(text)@ + render_repeat(*self),
        decreases self, 1int,
    {
        match self {
            RegularExpressionPattern::Repeat(inner) => {
                inner.write_atom(text);
                push_char(text, '*');
                assert(text@ =~= old(text)@ + render_repeat(*self));
            },
            _ => self.write_atom(text),
        }
    }

    fn write_atom(&self, text: &mut String)
        ensures
            final(text)@ == old(text)@ + render_atom(*self),
        decreases self, 0int,
    {
        match self {
            RegularExpressionPattern::Empty => {
                push_char(text, '(');
                push_char(text, ')');
            },
            RegularExpressionPattern::Literal(c) => {
                push_char(text, *c);
            },
            RegularExpressionPattern::Choose(first, second) => {
                push_char(text, '(');
                first.write_concatenate(text);
                push_char(text, '|');
                second.write_choose(text);
                push_char(text, ')');
            },
            RegularExpressionPattern::Concatenate(first, second) => {
                push_char(text, '(');
                first.write_repeat(text);
                second.write_concatenate(text);
                push_char(text, ')');
            },
            RegularExpressionPattern::Repeat(inner) => {
                push_char(text, '(');
                inner.write_atom(text);
                push_char(text, '*');
                push_char(text, ')');
            },
        }
        assert(text@ =~= old(text)@ + render_atom(*self));
    }
}

} // verus!
