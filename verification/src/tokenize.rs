//! The scanner: source characters to a sequence of classified tokens.

use crate::text::{decimal, digit_char, push_decimal, same_text, substring};
use std::collections::VecDeque;
use vstd::prelude::*;

verus! {

/// The class of a token.
#[allow(non_camel_case_types)]
#[derive(Clone, Copy, Debug, PartialEq, Eq, Structural)]
pub enum TokenKind {
    /// An operator, a punctuation mark, or the word `else`.
    TK_RESERVED,
    /// A variable or function name.
    TK_IDENT,
    /// An integer literal.
    TK_NUM,
    /// The keyword `return`.
    TK_RETURN,
    /// The keyword `if`.
    TK_IF,
    /// The keyword `while`.
    TK_WHILE,
    /// The keyword `for`.
    TK_FOR,
}

/// One lexical unit of the source text.
#[derive(Clone, Debug, PartialEq, Eq)]
pub struct Token {
    pub kind: TokenKind,
    /// The literal's value; present on integer literals only.
    pub val: Option<u32>,
    /// The source text that the token was read from.
    pub str: String,
}

/// What a [`Token`] stands for in contracts: the same fields, with the text
/// as a sequence of characters.
pub struct TokenView {
    pub kind: TokenKind,
    pub val: Option<u32>,
    pub str: Seq<char>,
}

impl View for Token {
    type V = TokenView;

    open spec fn view(&self) -> TokenView {
        TokenView { kind: self.kind, val: self.val, str: self.str@ }
    }
}

/// The views of a sequence of tokens, in order.
#[verifier::opaque]
pub open spec fn token_views(tokens: Seq<Token>) -> Seq<TokenView> {
    Seq::new(tokens.len(), |i: int| tokens[i]@)
}

/// Why scanning stopped.
#[derive(Clone, Copy, Debug, PartialEq, Eq, Structural)]
pub enum LexError {
    /// The character `ch` at index `at` starts no token.
    UnexpectedChar { at: usize, ch: char },
    /// The integer literal that starts at index `at` does not fit in 32 bits.
    NumberTooLarge { at: usize },
}

impl LexError {
    /// The diagnostic for this error.
    pub open spec fn text(self) -> Seq<char> {
        match self {
            LexError::UnexpectedChar { at, ch } => "unexpected character '"@.push(ch)
                + "' at index "@ + decimal(at as int),
            LexError::NumberTooLarge { at } => "the integer literal at index "@ + decimal(at as int)
                + " does not fit in 32 bits"@,
        }
    }

    /// A diagnostic that names what stopped the scan, and where.
    pub fn message(&self) -> (text: String)
        ensures
            text@ == self.text(),
    {
        match self {
            LexError::UnexpectedChar { at, ch } => {
                let mut text = String::from_str("unexpected character '");
                text.push(*ch);
                text.append("' at index ");
                push_decimal(&mut text, *at as u64);
                text
            },
            LexError::NumberTooLarge { at } => {
                let mut text = String::from_str("the integer literal at index ");
                push_decimal(&mut text, *at as u64);
                text.append(" does not fit in 32 bits");
                text
            },
        }
    }
}

/// Blank characters, which separate tokens and are otherwise skipped.
pub open spec fn is_space(c: char) -> bool {
    c == ' ' || c == '\t' || c == '\n' || c == '\r' || c == '\x0c'
}

/// Characters that identifiers and keywords are made of.
pub open spec fn is_lower(c: char) -> bool {
    'a' <= c && c <= 'z'
}

/// Decimal digits.
pub open spec fn is_digit(c: char) -> bool {
    '0' <= c && c <= '9'
}

/// The two-character operators `<=`, `>=`, `==` and `!=`.
pub open spec fn is_pair(a: char, b: char) -> bool {
    (a == '<' || a == '>' || a == '=' || a == '!') && b == '='
}

/// The one-character operators and punctuation marks.
pub open spec fn is_single(c: char) -> bool {
    c == '+' || c == '-' || c == '*' || c == '/' || c == '(' || c == ')' || c == '{' || c == '}'
        || c == ',' || c == ';' || c == '<' || c == '>' || c == '='
}

/// Length of the longest run of lowercase letters that starts at `i`.
pub open spec fn lower_run(s: Seq<char>, i: int) -> nat
    decreases s.len() - i,
{
    if 0 <= i < s.len() && is_lower(s[i]) {
        1 + lower_run(s, i + 1)
    } else {
        0
    }
}

/// Length of the longest run of digits that starts at `i`.
pub open spec fn digit_run(s: Seq<char>, i: int) -> nat
    decreases s.len() - i,
{
    if 0 <= i < s.len() && is_digit(s[i]) {
        1 + digit_run(s, i + 1)
    } else {
        0
    }
}

/// The number that a run of digits writes: each further digit multiplies
/// what came before by ten and adds itself.
pub open spec fn digits_value(w: Seq<char>) -> nat
    decreases w.len(),
{
    if w.len() == 0 {
        0
    } else {
        digits_value(w.drop_last()) * 10 + (w.last() as int - '0' as int) as nat
    }
}

proof fn lemma_digit_char(d: int)
    requires
        0 <= d < 10,
    ensures
        is_digit(digit_char(d)),
        digit_char(d) as int - '0' as int == d,
{
    assert('0' as int == 48 && '1' as int == 49 && '2' as int == 50 && '3' as int == 51);
    assert('4' as int == 52 && '5' as int == 53 && '6' as int == 54 && '7' as int == 55);
    assert('8' as int == 56 && '9' as int == 57);
}

/// What is written in decimal reads back as the same number: the digits
/// that the code generator writes for `n` are digits that the scanner reads
/// as `n`.
pub proof fn lemma_decimal_reads_back(n: nat)
    ensures
        digits_value(decimal(n as int)) == n,
        forall|i: int|
            0 <= i < decimal(n as int).len() ==> is_digit(#[trigger] decimal(n as int)[i]),
    decreases n,
{
    let digits = decimal(n as int);
    if n >= 10 {
        lemma_decimal_reads_back(n / 10);
        lemma_digit_char((n % 10) as int);
        assert(digits.drop_last() =~= decimal((n / 10) as int));
        assert(digits.last() == digit_char((n % 10) as int));
        assert(digits_value(digits) == digits_value(decimal((n / 10) as int)) * 10 + n % 10);
    } else {
        lemma_digit_char(n as int);
        assert(digits.drop_last() =~= Seq::<char>::empty());
        assert(digits.last() == digit_char(n as int));
        assert(digits_value(Seq::<char>::empty()) == 0);
        assert(digits_value(digits) == 0 * 10 + n);
    }
}

/// The kind of a maximal run of lowercase letters: a keyword where the run
/// spells one exactly, reserved for `else`, an identifier otherwise. A
/// keyword followed by further letters is therefore part of an identifier.
pub open spec fn word_kind(w: Seq<char>) -> TokenKind {
    if w == "return"@ {
        TokenKind::TK_RETURN
    } else if w == "if"@ {
        TokenKind::TK_IF
    } else if w == "while"@ {
        TokenKind::TK_WHILE
    } else if w == "for"@ {
        TokenKind::TK_FOR
    } else if w == "else"@ {
        TokenKind::TK_RESERVED
    } else {
        TokenKind::TK_IDENT
    }
}

/// Number of characters of the token that starts at `i`, where `s[i]` is not
/// blank; zero where no token starts there. Two-character operators win over
/// one-character ones.
pub open spec fn lexeme_len(s: Seq<char>, i: int) -> nat {
    if is_lower(s[i]) {
        1 + lower_run(s, i + 1)
    } else if i + 1 < s.len() && is_pair(s[i], s[i + 1]) {
        2
    } else if is_single(s[i]) {
        1
    } else if is_digit(s[i]) {
        1 + digit_run(s, i + 1)
    } else {
        0
    }
}

/// The token that starts at `i`, where `s[i]` is not blank, or the reason why
/// there is none.
pub open spec fn lexeme(s: Seq<char>, i: int) -> Result<TokenView, LexError> {
    let w = s.subrange(i, i + lexeme_len(s, i));
    if is_lower(s[i]) {
        Ok(TokenView { kind: word_kind(w), val: None, str: w })
    } else if (i + 1 < s.len() && is_pair(s[i], s[i + 1])) || is_single(s[i]) {
        Ok(TokenView { kind: TokenKind::TK_RESERVED, val: None, str: w })
    } else if is_digit(s[i]) {
        if digits_value(w) <= u32::MAX {
            Ok(TokenView { kind: TokenKind::TK_NUM, val: Some(digits_value(w) as u32), str: w })
        } else {
            Err(LexError::NumberTooLarge { at: i as usize })
        }
    } else {
        Err(LexError::UnexpectedChar { at: i as usize, ch: s[i] })
    }
}

/// The tokens of `s` from index `i` on, or the first lexical error.
pub open spec fn scan(s: Seq<char>, i: int) -> Result<Seq<TokenView>, LexError>
    decreases s.len() - i,
    via scan_decreases
{
    if i < 0 || i >= s.len() {
        Ok(Seq::empty())
    } else if is_space(s[i]) {
        scan(s, i + 1)
    } else {
        match lexeme(s, i) {
            Err(e) => Err(e),
            Ok(t) => match scan(s, i + lexeme_len(s, i)) {
                Err(e) => Err(e),
                Ok(rest) => Ok(seq![t] + rest),
            },
        }
    }
}

/// A run that starts inside `s` ends inside `s`.
pub proof fn lemma_run_ends(s: Seq<char>, i: int)
    requires
        0 <= i <= s.len(),
    ensures
        i + lower_run(s, i) <= s.len(),
        i + digit_run(s, i) <= s.len(),
    decreases s.len() - i,
{
    if i < s.len() {
        lemma_run_ends(s, i + 1);
    }
}

#[via_fn]
proof fn scan_decreases(s: Seq<char>, i: int) {
    if 0 <= i < s.len() {
        lemma_run_ends(s, i + 1);
    }
}

/// `done` followed by what `more` gives, or the error of `more`.
pub open spec fn tokens_then(
    done: Seq<TokenView>,
    more: Result<Seq<TokenView>, LexError>,
) -> Result<Seq<TokenView>, LexError> {
    match more {
        Ok(rest) => Ok(done + rest),
        Err(e) => Err(e),
    }
}

fn space(c: char) -> (b: bool)
    ensures
        b == is_space(c),
{
    c == ' ' || c == '\t' || c == '\n' || c == '\r' || c == '\x0c'
}

fn lower(c: char) -> (b: bool)
    ensures
        b == is_lower(c),
{
    'a' <= c && c <= 'z'
}

fn digit(c: char) -> (b: bool)
    ensures
        b == is_digit(c),
{
    '0' <= c && c <= '9'
}

fn single(c: char) -> (b: bool)
    ensures
        b == is_single(c),
{
    c == '+' || c == '-' || c == '*' || c == '/' || c == '(' || c == ')' || c == '{' || c == '}'
        || c == ',' || c == ';' || c == '<' || c == '>' || c == '='
}

fn pair(a: char, b: char) -> (r: bool)
    ensures
        r == is_pair(a, b),
{
    (a == '<' || a == '>' || a == '=' || a == '!') && b == '='
}

/// End of the run of lowercase letters that starts at `from`.
fn lower_end(chars: &Vec<char>, from: usize) -> (to: usize)
    requires
        from < chars.len(),
        is_lower(chars@[from as int]),
    ensures
        from < to <= chars.len(),
        to - from == lexeme_len(chars@, from as int),
{
    let mut to: usize = from + 1;
    while to < chars.len() && lower(chars[to])
        invariant
            from < to <= chars.len(),
            lexeme_len(chars@, from as int) == (to - from) + lower_run(chars@, to as int),
        decreases chars.len() - to,
    {
        to += 1;
    }
    to
}

/// End of the run of digits that starts at `from`.
fn digit_end(chars: &Vec<char>, from: usize) -> (to: usize)
    requires
        from < chars.len(),
        is_digit(chars@[from as int]),
    ensures
        from < to <= chars.len(),
        to - from == lexeme_len(chars@, from as int),
        forall|k: int| from <= k < to ==> is_digit(#[trigger] chars@[k]),
{
    let mut to: usize = from + 1;
    while to < chars.len() && digit(chars[to])
        invariant
            from < to <= chars.len(),
            lexeme_len(chars@, from as int) == (to - from) + digit_run(chars@, to as int),
            forall|k: int| from <= k < to ==> is_digit(#[trigger] chars@[k]),
        decreases chars.len() - to,
    {
        to += 1;
    }
    to
}

/// A run of digits never writes less than any of its prefixes.
proof fn lemma_digits_value_grows(w: Seq<char>, k: int)
    requires
        0 <= k <= w.len(),
        forall|j: int| 0 <= j < w.len() ==> is_digit(#[trigger] w[j]),
    ensures
        digits_value(w.subrange(0, k)) <= digits_value(w),
    decreases w.len(),
{
    if k == w.len() {
        assert(w.subrange(0, k) =~= w);
    } else {
        lemma_digits_value_grows(w.drop_last(), k);
        assert(w.drop_last().subrange(0, k) =~= w.subrange(0, k));
    }
}

/// The value of the digits `from..to`, unless it exceeds 32 bits.
fn number(chars: &Vec<char>, from: usize, to: usize) -> (val: Option<u32>)
    requires
        from <= to <= chars.len(),
        forall|k: int| from <= k < to ==> is_digit(#[trigger] chars@[k]),
    ensures
        match val {
            Some(v) => v == digits_value(chars@.subrange(from as int, to as int)),
            None => digits_value(chars@.subrange(from as int, to as int)) > u32::MAX,
        },
{
    let ghost w = chars@.subrange(from as int, to as int);
    let mut val: u32 = 0;
    let mut k: usize = from;
    while k < to
        invariant
            from <= k <= to <= chars.len(),
            w == chars@.subrange(from as int, to as int),
            forall|j: int| from <= j < to ==> is_digit(#[trigger] chars@[j]),
            val == digits_value(w.subrange(0, k - from)),
        decreases to - k,
    {
        let d: u32 = chars[k] as u32 - '0' as u32;
        proof {
            let next = w.subrange(0, k - from + 1);
            assert(next.drop_last() =~= w.subrange(0, k - from));
            assert(next.last() == chars@[k as int]);
            assert(digits_value(next) == val * 10 + d);
            lemma_digits_value_grows(w, k - from + 1);
        }
        if val > (u32::MAX - d) / 10 {
            return None;
        }
        val = val * 10 + d;
        k += 1;
    }
    assert(w.subrange(0, to - from) =~= w);
    Some(val)
}

/// The kind of the word `text`.
fn kind_of_word(text: &String) -> (kind: TokenKind)
    ensures
        kind == word_kind(text@),
{
    if same_text(text, "return") {
        TokenKind::TK_RETURN
    } else if same_text(text, "if") {
        TokenKind::TK_IF
    } else if same_text(text, "while") {
        TokenKind::TK_WHILE
    } else if same_text(text, "for") {
        TokenKind::TK_FOR
    } else if same_text(text, "else") {
        TokenKind::TK_RESERVED
    } else {
        TokenKind::TK_IDENT
    }
}

/// Splits the source text into tokens.
///
/// Blank characters are skipped. A maximal run of lowercase letters is one
/// word: a keyword, `else`, or an identifier. Two-character operators are
/// tried before one-character ones, and a maximal run of digits is one
/// integer literal. The first character that starts no token, or the first
/// literal that exceeds 32 bits, ends the scan with an error.
pub fn tokenize(chars: Vec<char>) -> (r: Result<VecDeque<Token>, LexError>)
    ensures
        match scan(chars@, 0) {
            Ok(tokens) => r is Ok && token_views(r->Ok_0@) == tokens,
            Err(e) => r is Err && r->Err_0 == e,
        },
{
    reveal(token_views);
    let n: usize = chars.len();
    let mut tokens: VecDeque<Token> = VecDeque::new();
    let mut i: usize = 0;
    assert(token_views(tokens@) + Seq::<TokenView>::empty() =~= Seq::<TokenView>::empty());
    while i < n
        invariant
            i <= n == chars.len(),
            scan(chars@, 0) == tokens_then(token_views(tokens@), scan(chars@, i as int)),
        decreases n - i,
    {
        reveal(token_views);
        let c: char = chars[i];
        if space(c) {
            i += 1;
        } else {
            let ghost before = token_views(tokens@);
            let ghost rest = scan(chars@, i + lexeme_len(chars@, i as int));
            let to: usize;
            let kind: TokenKind;
            let mut val: Option<u32> = None;
            if lower(c) {
                to = lower_end(&chars, i);
            } else if i + 1 < n && pair(c, chars[i + 1]) {
                to = i + 2;
            } else if single(c) {
                to = i + 1;
            } else if digit(c) {
                to = digit_end(&chars, i);
                val = number(&chars, i, to);
                if val.is_none() {
                    return Err(LexError::NumberTooLarge { at: i });
                }
            } else {
                return Err(LexError::UnexpectedChar { at: i, ch: c });
            }
            let text: String = substring(&chars, i, to);
            if lower(c) {
                kind = kind_of_word(&text);
            } else if digit(c) {
                kind = TokenKind::TK_NUM;
            } else {
                kind = TokenKind::TK_RESERVED;
            }
            let token = Token { kind, val, str: text };
            assert(lexeme(chars@, i as int) == Ok::<TokenView, LexError>(token@));
            tokens.push_back(token);
            i = to;
            proof {
                assert(token_views(tokens@) =~= before.push(token@));
                if let Ok(more) = rest {
                    assert(before + (seq![token@] + more) =~= before.push(token@) + more);
                }
            }
        }
    }
    assert(token_views(tokens@) + Seq::<TokenView>::empty() =~= token_views(tokens@));
    Ok(tokens)
}

} // verus!
