//! Splitting a formula into its infix tokens.

use vstd::prelude::*;
use vstd::slice::slice_subrange;
use crate::error::TokenizerError;
use crate::token::{infix_symbols, InfixSymbol, InfixToken, InfixTokenOperator, SupportedFunction};
use crate::unicode::{alphabetic, numeric, strip_whitespace, without_whitespace};

verus! {

/// The name by which a formula calls a function.
pub open spec fn name_of(f: SupportedFunction) -> Seq<char> {
    match f {
        SupportedFunction::Sine => seq!['s', 'i', 'n'],
        SupportedFunction::Exp => seq!['e', 'x', 'p'],
        SupportedFunction::Ln => seq!['l', 'n'],
        SupportedFunction::Log10 => seq!['l', 'o', 'g', '1', '0'],
        SupportedFunction::Sqrt => seq!['s', 'q', 'r', 't'],
    }
}

/// The function whose name `input` begins with, and the length of that name.
pub open spec fn function_at(input: Seq<char>) -> Option<(SupportedFunction, nat)> {
    if name_of(SupportedFunction::Sine).is_prefix_of(input) {
        Some((SupportedFunction::Sine, name_of(SupportedFunction::Sine).len()))
    } else if name_of(SupportedFunction::Exp).is_prefix_of(input) {
        Some((SupportedFunction::Exp, name_of(SupportedFunction::Exp).len()))
    } else if name_of(SupportedFunction::Ln).is_prefix_of(input) {
        Some((SupportedFunction::Ln, name_of(SupportedFunction::Ln).len()))
    } else if name_of(SupportedFunction::Log10).is_prefix_of(input) {
        Some((SupportedFunction::Log10, name_of(SupportedFunction::Log10).len()))
    } else if name_of(SupportedFunction::Sqrt).is_prefix_of(input) {
        Some((SupportedFunction::Sqrt, name_of(SupportedFunction::Sqrt).len()))
    } else {
        None
    }
}

/// The length of the longest prefix of `input` made of numeric characters
/// and at most one point; `seen_point` says that the point is used up.
pub open spec fn literal_len(input: Seq<char>, seen_point: bool) -> nat
    decreases input.len(),
{
    if input.len() == 0 {
        0
    } else if numeric(input[0]) {
        1 + literal_len(input.drop_first(), seen_point)
    } else if input[0] == '.' && !seen_point {
        1 + literal_len(input.drop_first(), true)
    } else {
        0
    }
}

/// Whether `c` is one of the digits `0` to `9`.
pub open spec fn is_decimal_digit(c: char) -> bool {
    '0' <= c <= '9'
}

/// Whether `text` is written in decimal digits and points alone.
pub open spec fn is_decimal(text: Seq<char>) -> bool {
    forall|i: int| 0 <= i < text.len() ==> is_decimal_digit(#[trigger] text[i]) || text[i] == '.'
}

/// The literal that `input` begins with, and its length: the longest run of
/// numeric characters and at most one point, if it begins with a numeric
/// character and holds no digit but `0` to `9`.
pub open spec fn literal_at(input: Seq<char>) -> Option<(Seq<char>, nat)> {
    let n = literal_len(input, false);
    if input.len() > 0 && numeric(input[0]) && is_decimal(input.take(n as int)) {
        Some((input.take(n as int), n))
    } else {
        None
    }
}

/// The operator that a character writes.
pub open spec fn operator_of(c: char) -> Option<InfixTokenOperator> {
    if c == '+' {
        Some(InfixTokenOperator::Add)
    } else if c == '-' {
        Some(InfixTokenOperator::SubtractOrNegate)
    } else if c == '*' {
        Some(InfixTokenOperator::Multiply)
    } else if c == '/' {
        Some(InfixTokenOperator::Divide)
    } else if c == '^' {
        Some(InfixTokenOperator::Power)
    } else {
        None
    }
}

/// The token that `rest` begins with, and its length in characters. The
/// kinds are tried in a fixed order: function name, variable, literal,
/// operator, parenthesis.
pub open spec fn token_at(rest: Seq<char>) -> Option<(InfixSymbol, nat)>
    recommends
        rest.len() > 0,
{
    if let Some((f, n)) = function_at(rest) {
        Some((InfixSymbol::Function(f), n))
    } else if alphabetic(rest[0]) {
        Some((InfixSymbol::Variable(rest[0]), 1))
    } else if let Some((text, n)) = literal_at(rest) {
        Some((InfixSymbol::Literal(text), n))
    } else if let Some(op) = operator_of(rest[0]) {
        Some((InfixSymbol::Operator(op), 1))
    } else if rest[0] == '(' {
        Some((InfixSymbol::ParenOpen, 1))
    } else if rest[0] == ')' {
        Some((InfixSymbol::ParenClose, 1))
    } else {
        None
    }
}

/// `done` followed by what the rest of the input gives, or the position at
/// which the rest fails.
pub open spec fn followed_by(done: Seq<InfixSymbol>, rest: Result<Seq<InfixSymbol>, nat>) -> Result<
    Seq<InfixSymbol>,
    nat,
> {
    match rest {
        Ok(tokens) => Ok(done + tokens),
        Err(e) => Err(e),
    }
}

/// The tokens of `text` from position `at` on, or the first position at which
/// no token begins.
pub open spec fn scan(text: Seq<char>, at: nat) -> Result<Seq<InfixSymbol>, nat>
    decreases text.len() - at,
{
    if at >= text.len() {
        Ok(Seq::empty())
    } else {
        match token_at(text.skip(at as int)) {
            Some((token, n)) => if 0 < n && at + n <= text.len() {
                followed_by(seq![token], scan(text, at + n))
            } else {
                Err(at)
            },
            None => Err(at),
        }
    }
}

/// The tokens of a formula: white space is removed, then the rest is scanned
/// from the left. Where no token begins, the result is that position, counted
/// in the characters that are not white space.
pub open spec fn tokens_of(expression: Seq<char>) -> Result<Seq<InfixSymbol>, nat> {
    scan(without_whitespace(expression), 0)
}

/// A token is never empty.
pub proof fn lemma_token_not_empty(rest: Seq<char>)
    requires
        rest.len() > 0,
    ensures
        token_at(rest) matches Some((_, n)) ==> 0 < n <= rest.len(),
{
    lemma_literal_len_bound(rest, false);
}

/// A text with one more character is decimal if the text and the character are.
pub proof fn lemma_is_decimal_push(text: Seq<char>, c: char)
    ensures
        is_decimal(text.push(c)) == (is_decimal(text) && (is_decimal_digit(c) || c == '.')),
{
    let longer = text.push(c);
    if is_decimal(longer) {
        assert forall|i: int| 0 <= i < text.len() implies is_decimal_digit(#[trigger] text[i])
            || text[i] == '.' by {
            assert(longer[i] == text[i]);
        }
        assert(longer[text.len() as int] == c);
    }
}

/// A run of literal characters is no longer than the input.
pub proof fn lemma_literal_len_bound(input: Seq<char>, seen_point: bool)
    ensures
        literal_len(input, seen_point) <= input.len(),
        input.len() > 0 && numeric(input[0]) ==> literal_len(input, seen_point) > 0,
    decreases input.len(),
{
    if input.len() > 0 {
        lemma_literal_len_bound(input.drop_first(), seen_point);
        lemma_literal_len_bound(input.drop_first(), true);
    }
}

fn function_name(f: SupportedFunction) -> (name: &'static str)
    ensures
        name@ == name_of(f),
{
    proof {
        reveal_strlit("sin");
        reveal_strlit("exp");
        reveal_strlit("ln");
        reveal_strlit("log10");
        reveal_strlit("sqrt");
    }
    match f {
        SupportedFunction::Sine => "sin",
        SupportedFunction::Exp => "exp",
        SupportedFunction::Ln => "ln",
        SupportedFunction::Log10 => "log10",
        SupportedFunction::Sqrt => "sqrt",
    }
}

fn starts_with(input: &[char], name: &str) -> (b: bool)
    ensures
        b == name@.is_prefix_of(input@),
{
    let n = name.unicode_len();
    if n > input.len() {
        return false;
    }
    let mut i: usize = 0;
    while i < n
        invariant
            i <= n,
            n == name@.len(),
            n <= input@.len(),
            forall|j: int| 0 <= j < i ==> input@[j] == name@[j],
        decreases n - i,
    {
        if input[i] != name.get_char(i) {
            assert(input@.subrange(0, n as int)[i as int] != name@[i as int]);
            return false;
        }
        i += 1;
    }
    assert(name@ =~= input@.subrange(0, n as int));
    true
}

fn names_function(input: &[char], f: SupportedFunction) -> (r: Option<(SupportedFunction, usize)>)
    ensures
        name_of(f).is_prefix_of(input@) ==> r == Some((f, name_of(f).len() as usize)),
        !name_of(f).is_prefix_of(input@) ==> r is None,
{
    let name = function_name(f);
    if starts_with(input, name) {
        Some((f, name.unicode_len()))
    } else {
        None
    }
}

/// Finds the function whose name `input` begins with, and the length of
/// that name.
pub fn get_func(input: &[char]) -> (r: Option<(SupportedFunction, usize)>)
    ensures
        r matches Some((f, n)) ==> function_at(input@) == Some((f, n as nat)),
        r is None ==> function_at(input@) is None,
{
    if let Some(found) = names_function(input, SupportedFunction::Sine) {
        return Some(found);
    }
    if let Some(found) = names_function(input, SupportedFunction::Exp) {
        return Some(found);
    }
    if let Some(found) = names_function(input, SupportedFunction::Ln) {
        return Some(found);
    }
    if let Some(found) = names_function(input, SupportedFunction::Log10) {
        return Some(found);
    }
    names_function(input, SupportedFunction::Sqrt)
}

fn is_digit(c: char) -> (b: bool)
    ensures
        b == is_decimal_digit(c),
{
    '0' <= c && c <= '9'
}

/// Reads the literal that `input` begins with: the longest run of numeric
/// characters and at most one point. Returns its characters and their number.
pub fn read_literal(input: &[char]) -> (r: Option<(Vec<char>, usize)>)
    ensures
        r matches Some((text, n)) ==> literal_at(input@) == Some((text@, n as nat)),
        r is None ==> literal_at(input@) is None,
{
    if input.len() == 0 || !input[0].is_numeric() {
        return None;
    }
    let mut text: Vec<char> = Vec::new();
    let mut seen_point = false;
    let mut decimal = true;
    let mut n: usize = 0;
    assert(input@.skip(0) == input@);
    while n < input.len()
        invariant
            n <= input.len(),
            text@ == input@.take(n as int),
            decimal == is_decimal(input@.take(n as int)),
            literal_len(input@, false) == n + literal_len(input@.skip(n as int), seen_point),
        ensures
            n <= input.len(),
            text@ == input@.take(n as int),
            decimal == is_decimal(input@.take(n as int)),
            literal_len(input@, false) == n,
        decreases input.len() - n,
    {
        let c = input[n];
        proof {
            assert(input@.skip(n as int).drop_first() == input@.skip(n as int + 1));
            assert(input@.skip(n as int)[0] == c);
        }
        if c.is_numeric() {
            decimal = decimal && (is_digit(c) || c == '.');
        } else if c == '.' && !seen_point {
            seen_point = true;
        } else {
            break ;
        }
        proof {
            assert(input@.take(n as int + 1) == input@.take(n as int).push(c));
            lemma_is_decimal_push(input@.take(n as int), c);
        }
        text.push(c);
        n += 1;
    }
    if decimal {
        Some((text, n))
    } else {
        None
    }
}

fn read_operator(c: char) -> (r: Option<InfixTokenOperator>)
    ensures
        r == operator_of(c),
{
    if c == '+' {
        Some(InfixTokenOperator::Add)
    } else if c == '-' {
        Some(InfixTokenOperator::SubtractOrNegate)
    } else if c == '*' {
        Some(InfixTokenOperator::Multiply)
    } else if c == '/' {
        Some(InfixTokenOperator::Divide)
    } else if c == '^' {
        Some(InfixTokenOperator::Power)
    } else {
        None
    }
}

/// Reads the token that `rest` begins with, and its length in characters.
fn read_token(rest: &[char]) -> (r: Option<(InfixToken, usize)>)
    requires
        rest@.len() > 0,
    ensures
        r matches Some((token, n)) ==> token_at(rest@) == Some((token@, n as nat)),
        r is None ==> token_at(rest@) is None,
{
    let c = rest[0];
    if let Some((func, len)) = get_func(rest) {
        Some((InfixToken::Function(func), len))
    } else if c.is_alphabetic() {
        Some((InfixToken::Variable(c), 1))
    } else if let Some((num, len)) = read_literal(rest) {
        Some((InfixToken::Literal(num), len))
    } else if let Some(op) = read_operator(c) {
        Some((InfixToken::Operator(op), 1))
    } else if c == '(' {
        Some((InfixToken::ParenOpen, 1))
    } else if c == ')' {
        Some((InfixToken::ParenClose, 1))
    } else {
        None
    }
}

/// Where scanning fails, it fails at a position of the text at which no
/// token begins.
pub proof fn lemma_scan_fails_where_no_token_begins(text: Seq<char>, at: nat, failure: nat)
    requires
        scan(text, at) == Err::<Seq<InfixSymbol>, nat>(failure),
    ensures
        at <= failure < text.len(),
        token_at(text.skip(failure as int)) is None,
    decreases text.len() - at,
{
    lemma_token_not_empty(text.skip(at as int));
    if let Some((_, n)) = token_at(text.skip(at as int)) {
        lemma_scan_fails_where_no_token_begins(text, at + n, failure);
    }
}

/// Splits a formula into its tokens. White space is ignored. Fails at the
/// first position at which no token begins; the position is counted in the
/// characters that are not white space.
pub fn tokenize(expression: &str) -> (result: Result<Vec<InfixToken>, TokenizerError>)
    ensures
        result matches Ok(tokens) ==> tokens_of(expression@) == Ok::<Seq<InfixSymbol>, nat>(
            infix_symbols(tokens@),
        ),
        result matches Err(e) ==> tokens_of(expression@) == Err::<Seq<InfixSymbol>, nat>(
            e.failure_idx as nat,
        ) && e.failure_idx < without_whitespace(expression@).len() && token_at(
            without_whitespace(expression@).skip(e.failure_idx as int),
        ) is None,
{
    let text = strip_whitespace(expression);
    let mut tokens: Vec<InfixToken> = Vec::new();
    let mut at: usize = 0;
    assert(infix_symbols(tokens@) == Seq::<InfixSymbol>::empty());
    assert(Seq::<InfixSymbol>::empty() + Seq::<InfixSymbol>::empty() == Seq::<InfixSymbol>::empty());
    while at < text.len()
        invariant
            at <= text.len(),
            text@ == without_whitespace(expression@),
            tokens_of(expression@) == followed_by(infix_symbols(tokens@), scan(text@, at as nat)),
        decreases text.len() - at,
    {
        let rest = slice_subrange(text.as_slice(), at, text.len());
        let ghost done = infix_symbols(tokens@);
        proof {
            assert(rest@ == text@.skip(at as int));
            lemma_token_not_empty(rest@);
        }
        match read_token(rest) {
            Some((token, step)) => {
                proof {
                    let tail = scan(text@, (at + step) as nat);
                    if tail is Ok {
                        assert(done + (seq![token@] + tail->Ok_0) == done.push(token@)
                            + tail->Ok_0);
                    }
                }
                tokens.push(token);
                assert(infix_symbols(tokens@) == done.push(token@));
                at += step;
            },
            None => {
                proof {
                    lemma_scan_fails_where_no_token_begins(text@, at as nat, at as nat);
                }
                return Err(TokenizerError { failure_idx: at });
            },
        }
    }
    proof {
        assert(infix_symbols(tokens@) + Seq::<InfixSymbol>::empty() == infix_symbols(tokens@));
    }
    Ok(tokens)
}

} // verus!
