//! A small token scanner for the invocation grammar.
//!
//! Tokens are spans of the input text: identifiers, numbers, string and
//! character literals, lifetimes, brackets and punctuation. Comments and
//! whitespace separate tokens and are dropped. A file the scanner cannot
//! tokenize contributes nothing to the field universe.

use vstd::prelude::*;

verus! {

#[derive(Clone, Copy, PartialEq, Eq, Structural)]
pub enum TokenKind {
    Ident,
    Number,
    Str,
    CharLit,
    Lifetime,
    Open,
    Close,
    Punct,
}

/// One token: its kind and its span in the input, in character positions.
#[derive(Clone, Copy, PartialEq, Eq, Structural)]
pub struct Token {
    pub kind: TokenKind,
    pub start: usize,
    pub end: usize,
}

pub open spec fn is_ident_start(c: char) -> bool {
    ('a' <= c && c <= 'z') || ('A' <= c && c <= 'Z') || c == '_'
}

pub open spec fn is_ident_continue(c: char) -> bool {
    is_ident_start(c) || ('0' <= c && c <= '9')
}

pub open spec fn is_digit(c: char) -> bool {
    '0' <= c && c <= '9'
}

/// A well-formed token over the given input: a valid span, nonempty, and an
/// identifier token holds identifier characters only, led by a start
/// character.
pub open spec fn token_wf(t: Token, input: Seq<char>) -> bool {
    &&& t.start < t.end <= input.len()
    &&& t.kind == TokenKind::Ident ==> {
        &&& is_ident_start(input[t.start as int])
        &&& forall|k: int| t.start < k < t.end ==> is_ident_continue(#[trigger] input[k])
    }
    &&& (t.kind == TokenKind::Open || t.kind == TokenKind::Close) ==> t.end == t.start + 1
}

/// A well-formed token row: each token well formed, tokens disjoint and in
/// input order.
pub open spec fn tokens_wf(toks: Seq<Token>, input: Seq<char>) -> bool {
    &&& forall|i: int| 0 <= i < toks.len() ==> token_wf(#[trigger] toks[i], input)
    &&& forall|i: int, j: int| 0 <= i < j < toks.len()
        ==> (#[trigger] toks[i]).end <= (#[trigger] toks[j]).start
}


pub open spec fn is_blank(c: char) -> bool {
    c == ' ' || c == '\t' || c == '\r' || c == '\n'
}

/// Where a line comment ends: the next newline, or the input's end.
pub open spec fn spec_line_end(input: Seq<char>, i: int) -> int
    decreases input.len() - i,
{
    if i < 0 || i >= input.len() {
        input.len() as int
    } else if input[i] == '\n' {
        i
    } else {
        spec_line_end(input, i + 1)
    }
}

pub proof fn lemma_line_end_bounds(input: Seq<char>, i: int)
    requires
        0 <= i <= input.len(),
    ensures
        i <= spec_line_end(input, i) <= input.len(),
    decreases input.len() - i,
{
    if i < input.len() && input[i] != '\n' {
        lemma_line_end_bounds(input, i + 1);
    }
}

/// Where a (nested) block comment body ends: one past its closing
/// delimiter, or nothing for an unterminated comment.
pub open spec fn spec_block_end(input: Seq<char>, i: int, depth: int) -> Option<int>
    decreases input.len() - i,
{
    if i < 0 || i >= input.len() {
        None
    } else if input[i] == '*' && i + 1 < input.len() && input[i + 1] == '/' {
        if depth <= 1 {
            Some(i + 2)
        } else {
            spec_block_end(input, i + 2, depth - 1)
        }
    } else if input[i] == '/' && i + 1 < input.len() && input[i + 1] == '*' {
        spec_block_end(input, i + 2, depth + 1)
    } else {
        spec_block_end(input, i + 1, depth)
    }
}

pub proof fn lemma_block_end_bounds(input: Seq<char>, i: int, depth: int)
    requires
        0 <= i,
    ensures
        spec_block_end(input, i, depth) matches Some(j) ==> i < j <= input.len(),
    decreases input.len() - i,
{
    if 0 <= i < input.len() {
        if input[i] == '*' && i + 1 < input.len() && input[i + 1] == '/' {
            if depth > 1 {
                lemma_block_end_bounds(input, i + 2, depth - 1);
            }
        } else if input[i] == '/' && i + 1 < input.len() && input[i + 1] == '*' {
            lemma_block_end_bounds(input, i + 2, depth + 1);
        } else {
            lemma_block_end_bounds(input, i + 1, depth);
        }
    }
}

/// The first position at or after `i` holding a token, skipping whitespace
/// and comments; nothing for an unterminated block comment.
pub open spec fn spec_skip_blank(input: Seq<char>, i: int) -> Option<int>
    decreases input.len() - i,
{
    if i < 0 || i >= input.len() {
        Some(i)
    } else if is_blank(input[i]) {
        spec_skip_blank(input, i + 1)
    } else if input[i] == '/' && i + 1 < input.len() && input[i + 1] == '/' {
        let j = spec_line_end(input, i + 2);
        if j <= i || j > input.len() {
            None
        } else {
            spec_skip_blank(input, j)
        }
    } else if input[i] == '/' && i + 1 < input.len() && input[i + 1] == '*' {
        match spec_block_end(input, i + 2, 1) {
            None => None,
            Some(j) => if j <= i || j > input.len() {
                None
            } else {
                spec_skip_blank(input, j)
            },
        }
    } else {
        Some(i)
    }
}

pub proof fn lemma_skip_blank_bounds(input: Seq<char>, i: int)
    requires
        0 <= i <= input.len(),
    ensures
        spec_skip_blank(input, i) matches Some(j) ==> i <= j <= input.len(),
    decreases input.len() - i,
{
    if 0 <= i < input.len() {
        if is_blank(input[i]) {
            lemma_skip_blank_bounds(input, i + 1);
        } else if input[i] == '/' && i + 1 < input.len() && input[i + 1] == '/' {
            lemma_line_end_bounds(input, i + 2);
            let j = spec_line_end(input, i + 2);
            if j > i {
                lemma_skip_blank_bounds(input, j);
            }
        } else if input[i] == '/' && i + 1 < input.len() && input[i + 1] == '*' {
            lemma_block_end_bounds(input, i + 2, 1);
            match spec_block_end(input, i + 2, 1) {
                Some(j) => {
                    if j > i {
                        lemma_skip_blank_bounds(input, j);
                    }
                },
                None => {},
            }
        }
    }
}

/// Where an identifier ends: the first position at or after `i` that does
/// not continue one.
pub open spec fn spec_ident_end(input: Seq<char>, i: int) -> int
    decreases input.len() - i,
{
    if 0 <= i < input.len() && is_ident_continue(input[i]) {
        spec_ident_end(input, i + 1)
    } else {
        i
    }
}

pub proof fn lemma_ident_end_bounds(input: Seq<char>, i: int)
    requires
        0 <= i <= input.len(),
    ensures
        i <= spec_ident_end(input, i) <= input.len(),
    decreases input.len() - i,
{
    if i < input.len() && is_ident_continue(input[i]) {
        lemma_ident_end_bounds(input, i + 1);
    }
}

/// Where a number ends: identifier characters, and one decimal point
/// followed by a digit.
pub open spec fn spec_number_end(input: Seq<char>, i: int, seen_dot: bool) -> int
    decreases input.len() - i,
{
    if i < 0 || i >= input.len() {
        i
    } else if is_ident_continue(input[i]) {
        spec_number_end(input, i + 1, seen_dot)
    } else if input[i] == '.' && !seen_dot && i + 1 < input.len() && is_digit(input[i + 1]) {
        spec_number_end(input, i + 2, true)
    } else {
        i
    }
}

pub proof fn lemma_number_end_bounds(input: Seq<char>, i: int, seen_dot: bool)
    requires
        0 <= i <= input.len(),
    ensures
        i <= spec_number_end(input, i, seen_dot) <= input.len(),
    decreases input.len() - i,
{
    if i < input.len() {
        if is_ident_continue(input[i]) {
            lemma_number_end_bounds(input, i + 1, seen_dot);
        } else if input[i] == '.' && !seen_dot && i + 1 < input.len() && is_digit(input[i + 1]) {
            lemma_number_end_bounds(input, i + 2, true);
        }
    }
}

/// One past a string literal's closing quote, escapes skipped; nothing for
/// an unterminated literal.
pub open spec fn spec_string_end(input: Seq<char>, i: int) -> Option<int>
    decreases input.len() - i,
{
    if i < 0 || i >= input.len() {
        None
    } else if input[i] == '"' {
        Some(i + 1)
    } else if input[i] == '\\' {
        if i + 1 >= input.len() {
            None
        } else {
            spec_string_end(input, i + 2)
        }
    } else {
        spec_string_end(input, i + 1)
    }
}

pub proof fn lemma_string_end_bounds(input: Seq<char>, i: int)
    requires
        0 <= i,
    ensures
        spec_string_end(input, i) matches Some(j) ==> i < j <= input.len(),
    decreases input.len() - i,
{
    if 0 <= i < input.len() {
        if input[i] == '"' {
        } else if input[i] == '\\' {
            if i + 1 < input.len() {
                lemma_string_end_bounds(input, i + 2);
            }
        } else {
            lemma_string_end_bounds(input, i + 1);
        }
    }
}

/// One past the closing quote of an escaped character literal; nothing for
/// an unterminated one.
pub open spec fn spec_char_end(input: Seq<char>, i: int) -> Option<int>
    decreases input.len() - i,
{
    if i < 0 || i >= input.len() {
        None
    } else if input[i] == '\'' {
        Some(i + 1)
    } else {
        spec_char_end(input, i + 1)
    }
}

pub proof fn lemma_char_end_bounds(input: Seq<char>, i: int)
    requires
        0 <= i,
    ensures
        spec_char_end(input, i) matches Some(j) ==> i < j <= input.len(),
    decreases input.len() - i,
{
    if 0 <= i < input.len() && input[i] != '\'' {
        lemma_char_end_bounds(input, i + 1);
    }
}

/// The second character of a two-character punctuation token.
pub open spec fn spec_joins(a: char, b: char) -> bool {
    (a == '=' && b == '=') || (a == '=' && b == '>') || (a == ':' && b == ':') || (a == '-' && b
        == '>') || (a == '.' && b == '.')
}

/// A single punctuation character the token grammar accepts.
pub open spec fn is_punct_char(c: char) -> bool {
    c == '#' || c == '!' || c == '?' || c == '@' || c == '$' || c == ',' || c == ';' || c == '.'
        || c == ':' || c == '=' || c == '<' || c == '>' || c == '&' || c == '|' || c == '+' || c
        == '-' || c == '*' || c == '/' || c == '%' || c == '^' || c == '~'
}

/// The text a tokenization could not read.
#[derive(Debug)]
pub struct LexError {
    pub pos: usize,
}

fn exec_is_ident_start(c: char) -> (r: bool)
    ensures
        r == is_ident_start(c),
{
    ('a' <= c && c <= 'z') || ('A' <= c && c <= 'Z') || c == '_'
}

fn exec_is_ident_continue(c: char) -> (r: bool)
    ensures
        r == is_ident_continue(c),
{
    exec_is_ident_start(c) || ('0' <= c && c <= '9')
}

fn exec_is_digit(c: char) -> (r: bool)
    ensures
        r == is_digit(c),
{
    '0' <= c && c <= '9'
}

/// Skips whitespace, line comments and (nested) block comments. Returns the
/// next position to read, or the position of an unterminated comment.
fn skip_blank(input: &Vec<char>, from: usize) -> (r: Result<usize, LexError>)
    requires
        from <= input@.len(),
    ensures
        match r {
            Ok(p) => from <= p <= input@.len() && spec_skip_blank(input@, from as int) == Some(
                p as int,
            ),
            Err(_) => spec_skip_blank(input@, from as int) is None,
        },
{
    let n = input.len();
    let mut i = from;
    while i < n
        invariant
            from <= i <= n,
            n == input@.len(),
            spec_skip_blank(input@, from as int) == spec_skip_blank(input@, i as int),
        decreases n - i,
    {
        let c: char = input[i];
        if c == ' ' || c == '\t' || c == '\r' || c == '\n' {
            i = i + 1;
        } else if c == '/' && i + 1 < n && input[i + 1] == '/' {
            let ghost base = i as int;
            i = i + 2;
            while i < n && input[i] != '\n'
                invariant
                    base + 2 <= i <= n,
                    n == input@.len(),
                    spec_line_end(input@, base + 2) == spec_line_end(input@, i as int),
                decreases n - i,
            {
                i = i + 1;
            }
            proof {
                assert(spec_line_end(input@, i as int) == i as int);
                assert(spec_skip_blank(input@, base) == spec_skip_blank(input@, i as int));
            }
        } else if c == '/' && i + 1 < n && input[i + 1] == '*' {
            let ghost base = i as int;
            i = i + 2;
            let ghost centry = i as int;
            let mut depth: usize = 1;
            while depth > 0
                invariant
                    centry == base + 2 <= i <= n,
                    from <= base,
                    n == input@.len(),
                    input@[base] == '/' && base + 1 < n && input@[base + 1] == '*',
                    !is_blank(input@[base]),
                    spec_skip_blank(input@, from as int) == spec_skip_blank(input@, base),
                    2 * (depth - 1) <= i - centry,
                    (depth >= 1 && spec_block_end(input@, centry, 1) == spec_block_end(
                        input@,
                        i as int,
                        depth as int,
                    )) || (depth == 0 && spec_block_end(input@, centry, 1) == Some(i as int)),
                decreases n - i,
            {
                if i >= n {
                    proof {
                        assert(spec_block_end(input@, i as int, depth as int) is None);
                        assert(spec_skip_blank(input@, base) is None);
                        assert(spec_skip_blank(input@, from as int) is None);
                    }
                    return Err(LexError { pos: i });
                }
                if input[i] == '*' && i + 1 < n && input[i + 1] == '/' {
                    depth = depth - 1;
                    i = i + 2;
                } else if input[i] == '/' && i + 1 < n && input[i + 1] == '*' {
                    depth = depth + 1;
                    i = i + 2;
                } else {
                    i = i + 1;
                }
            }
            proof {
                assert(spec_block_end(input@, base + 2, 1) == Some(i as int));
                assert(spec_skip_blank(input@, base) == spec_skip_blank(input@, i as int));
            }
        } else {
            proof {
                assert(spec_skip_blank(input@, i as int) == Some(i as int));
            }
            return Ok(i);
        }
    }
    proof {
        assert(spec_skip_blank(input@, i as int) == Some(i as int));
    }
    Ok(i)
}

/// Reads the identifier starting at `from`.
fn scan_ident(input: &Vec<char>, from: usize) -> (r: usize)
    requires
        from < input@.len(),
        is_ident_start(input@[from as int]),
    ensures
        from < r <= input@.len(),
        r as int == spec_ident_end(input@, from as int + 1),
        forall|k: int| from < k < r ==> is_ident_continue(#[trigger] input@[k]),
{
    let n = input.len();
    let mut i = from + 1;
    while i < n && exec_is_ident_continue(input[i])
        invariant
            from < i <= n,
            n == input@.len(),
            spec_ident_end(input@, from as int + 1) == spec_ident_end(input@, i as int),
            forall|k: int| from < k < i ==> is_ident_continue(#[trigger] input@[k]),
        decreases n - i,
    {
        i = i + 1;
    }
    proof {
        assert(spec_ident_end(input@, i as int) == i as int);
    }
    i
}

/// Reads the number starting at `from`: digits, identifier characters, and
/// one decimal point followed by a digit.
fn scan_number(input: &Vec<char>, from: usize) -> (r: usize)
    requires
        from < input@.len(),
    ensures
        from < r <= input@.len(),
        r as int == spec_number_end(input@, from as int + 1, false),
{
    let n = input.len();
    let mut i = from + 1;
    let mut seen_dot = false;
    while i < n
        invariant
            from < i <= n,
            n == input@.len(),
            spec_number_end(input@, from as int + 1, false) == spec_number_end(
                input@,
                i as int,
                seen_dot,
            ),
        decreases n - i,
    {
        let c: char = input[i];
        if exec_is_ident_continue(c) {
            i = i + 1;
        } else if c == '.' && !seen_dot && i + 1 < n && exec_is_digit(input[i + 1]) {
            seen_dot = true;
            i = i + 2;
        } else {
            proof {
                assert(spec_number_end(input@, i as int, seen_dot) == i as int);
            }
            return i;
        }
    }
    proof {
        assert(spec_number_end(input@, i as int, seen_dot) == i as int);
    }
    i
}

/// Reads the string literal whose opening quote stands at `from`; the
/// returned position is one past the closing quote.
fn scan_string(input: &Vec<char>, from: usize) -> (r: Result<usize, LexError>)
    requires
        from < input@.len(),
    ensures
        match r {
            Ok(p) => from < p <= input@.len() && spec_string_end(input@, from as int + 1) == Some(
                p as int,
            ),
            Err(_) => spec_string_end(input@, from as int + 1) is None,
        },
{
    let n = input.len();
    let mut i = from + 1;
    while i < n
        invariant
            from < i <= n,
            n == input@.len(),
            spec_string_end(input@, from as int + 1) == spec_string_end(input@, i as int),
        decreases n - i,
    {
        let c: char = input[i];
        if c == '"' {
            return Ok(i + 1);
        } else if c == '\\' {
            if i + 1 >= n {
                return Err(LexError { pos: i });
            }
            i = i + 2;
        } else {
            i = i + 1;
        }
    }
    proof {
        assert(spec_string_end(input@, i as int) is None);
    }
    Err(LexError { pos: i })
}

/// Whether the second character of a two-character punctuation token joins
/// the first.
fn joins(a: char, b: char) -> (r: bool)
    ensures
        r == spec_joins(a, b),
{
    (a == '=' && b == '=') || (a == '=' && b == '>') || (a == ':' && b == ':') || (a == '-' && b
        == '>') || (a == '.' && b == '.')
}


/// The token standing at the non-blank position `start`, or nothing when
/// the character there heads no token.
pub open spec fn spec_next_token(input: Seq<char>, start: int) -> Option<Token> {
    let n = input.len() as int;
    let c = input[start];
    if is_ident_start(c) {
        Some(
            Token {
                kind: TokenKind::Ident,
                start: start as usize,
                end: spec_ident_end(input, start + 1) as usize,
            },
        )
    } else if is_digit(c) {
        Some(
            Token {
                kind: TokenKind::Number,
                start: start as usize,
                end: spec_number_end(input, start + 1, false) as usize,
            },
        )
    } else if c == '"' {
        match spec_string_end(input, start + 1) {
            None => None,
            Some(e) => Some(
                Token { kind: TokenKind::Str, start: start as usize, end: e as usize },
            ),
        }
    } else if c == '\'' {
        if n - start > 2 && is_ident_start(input[start + 1]) && input[start + 2] != '\'' {
            Some(
                Token {
                    kind: TokenKind::Lifetime,
                    start: start as usize,
                    end: spec_ident_end(input, start + 2) as usize,
                },
            )
        } else if n - start > 2 && input[start + 1] == '\\' {
            match spec_char_end(input, start + 2) {
                None => None,
                Some(e) => Some(
                    Token { kind: TokenKind::CharLit, start: start as usize, end: e as usize },
                ),
            }
        } else if n - start > 2 && input[start + 2] == '\'' {
            Some(
                Token {
                    kind: TokenKind::CharLit,
                    start: start as usize,
                    end: (start + 3) as usize,
                },
            )
        } else {
            None
        }
    } else if c == '(' || c == '[' || c == '{' {
        Some(Token { kind: TokenKind::Open, start: start as usize, end: (start + 1) as usize })
    } else if c == ')' || c == ']' || c == '}' {
        Some(Token { kind: TokenKind::Close, start: start as usize, end: (start + 1) as usize })
    } else if is_punct_char(c) {
        if start + 1 < n && spec_joins(c, input[start + 1]) {
            Some(
                Token { kind: TokenKind::Punct, start: start as usize, end: (start + 2) as usize },
            )
        } else {
            Some(
                Token { kind: TokenKind::Punct, start: start as usize, end: (start + 1) as usize },
            )
        }
    } else {
        None
    }
}

/// The token row of the input from position `i` on; nothing when some text
/// lexes under no token.
pub open spec fn spec_tokenize_from(input: Seq<char>, i: int) -> Option<Seq<Token>>
    decreases input.len() - i,
{
    if i < 0 {
        None
    } else {
        match spec_skip_blank(input, i) {
            None => None,
            Some(j) => if j >= input.len() {
                Some(Seq::empty())
            } else if j < i {
                None
            } else {
                match spec_next_token(input, j) {
                    None => None,
                    Some(t) => if t.end <= j || t.end > input.len() {
                        None
                    } else {
                        match spec_tokenize_from(input, t.end as int) {
                            None => None,
                            Some(rest) => Some(seq![t] + rest),
                        }
                    },
                }
            },
        }
    }
}

/// The whole input's token row, or nothing when the text does not lex.
pub open spec fn spec_tokenize(input: Seq<char>) -> Option<Seq<Token>> {
    spec_tokenize_from(input, 0)
}

/// Splits the input into tokens. The result is exactly `spec_tokenize` of
/// the text: an input holding text outside the token grammar is refused
/// whole, and equal texts always lex to equal token rows.
#[verifier::rlimit(60)]
pub fn tokenize(input: &Vec<char>) -> (r: Result<Vec<Token>, LexError>)
    ensures
        match r {
            Ok(toks) => spec_tokenize(input@) == Some(toks@) && tokens_wf(toks@, input@),
            Err(_) => spec_tokenize(input@) is None,
        },
{
    let n = input.len();
    let mut toks: Vec<Token> = Vec::new();
    let mut i: usize = 0;
    proof {
        match spec_tokenize_from(input@, 0) {
            Some(rest) => {
                assert(Seq::<Token>::empty() + rest =~= rest);
            },
            None => {},
        }
    }
    while i < n
        invariant
            i <= n,
            n == input@.len(),
            forall|k: int| 0 <= k < toks@.len() ==> token_wf(#[trigger] toks@[k], input@),
            forall|k: int| 0 <= k < toks@.len() ==> (#[trigger] toks@[k]).end <= i,
            forall|k: int, j: int| 0 <= k < j < toks@.len()
                ==> (#[trigger] toks@[k]).end <= (#[trigger] toks@[j]).start,
            match spec_tokenize_from(input@, i as int) {
                Some(rest) => spec_tokenize(input@) == Some(toks@ + rest),
                None => spec_tokenize(input@) is None,
            },
        ensures
            i >= n,
            forall|k: int| 0 <= k < toks@.len() ==> token_wf(#[trigger] toks@[k], input@),
            forall|k: int, j: int| 0 <= k < j < toks@.len()
                ==> (#[trigger] toks@[k]).end <= (#[trigger] toks@[j]).start,
            match spec_tokenize_from(input@, i as int) {
                Some(rest) => spec_tokenize(input@) == Some(toks@ + rest),
                None => spec_tokenize(input@) is None,
            },
        decreases n - i,
    {
        let ghost istart = i as int;
        let ghost toks0 = toks@;
        let next = match skip_blank(input, i) {
            Ok(p) => p,
            Err(e) => {
                proof {
                    assert(spec_tokenize_from(input@, istart) is None);
                }
                return Err(e);
            },
        };
        if next >= n {
            i = next;
            proof {
                assert(spec_tokenize_from(input@, istart) == Some(Seq::<Token>::empty()));
                assert(toks@ + Seq::<Token>::empty() =~= toks@);
                assert(spec_skip_blank(input@, i as int) == Some(i as int));
                assert(spec_tokenize_from(input@, i as int) == Some(Seq::<Token>::empty()));
            }
            break;
        }
        let start = next;
        let c: char = input[start];
        let tok: Token;
        if exec_is_ident_start(c) {
            let end = scan_ident(input, start);
            tok = Token { kind: TokenKind::Ident, start, end };
            proof {
                assert(spec_next_token(input@, start as int) == Some(tok));
            }
        } else if exec_is_digit(c) {
            let end = scan_number(input, start);
            tok = Token { kind: TokenKind::Number, start, end };
            proof {
                assert(spec_next_token(input@, start as int) == Some(tok));
            }
        } else if c == '"' {
            let end = match scan_string(input, start) {
                Ok(p) => p,
                Err(e) => {
                    proof {
                        assert(spec_next_token(input@, start as int) is None);
                        assert(spec_tokenize_from(input@, istart) is None);
                    }
                    return Err(e);
                },
            };
            tok = Token { kind: TokenKind::Str, start, end };
            proof {
                assert(spec_next_token(input@, start as int) == Some(tok));
            }
        } else if c == '\'' {
            if n - start > 2 && exec_is_ident_start(input[start + 1]) && input[start + 2] != '\'' {
                let end = scan_ident(input, start + 1);
                tok = Token { kind: TokenKind::Lifetime, start, end };
            proof {
                assert(spec_next_token(input@, start as int) == Some(tok));
            }
            } else if n - start > 2 && input[start + 1] == '\\' {
                let mut j = start + 2;
                let mut closed = false;
                let mut end = start + 2;
                while j < n
                    invariant_except_break
                        !closed,
                    invariant
                        start + 2 <= j <= n,
                        n == input@.len(),
                        end <= n,
                        spec_char_end(input@, start as int + 2) == spec_char_end(
                            input@,
                            j as int,
                        ),
                    ensures
                        start + 2 <= j <= n,
                        closed ==> start < end <= n && spec_char_end(input@, start as int + 2)
                            == Some(end as int),
                        !closed ==> j >= n && spec_char_end(input@, start as int + 2) is None,
                    decreases n - j,
                {
                    if input[j] == '\'' {
                        proof {
                            assert(spec_char_end(input@, j as int) == Some(j as int + 1));
                        }
                        closed = true;
                        end = j + 1;
                        break;
                    }
                    j = j + 1;
                }
                if !closed {
                    proof {
                        assert(spec_next_token(input@, start as int) is None);
                        assert(spec_tokenize_from(input@, istart) is None);
                    }
                    return Err(LexError { pos: j });
                }
                tok = Token { kind: TokenKind::CharLit, start, end };
            proof {
                assert(spec_next_token(input@, start as int) == Some(tok));
            }
            } else if n - start > 2 && input[start + 2] == '\'' {
                tok = Token { kind: TokenKind::CharLit, start, end: start + 3 };
                proof {
                    assert(spec_next_token(input@, start as int) == Some(tok));
                }
            } else {
                proof {
                    assert(spec_next_token(input@, start as int) is None);
                    assert(spec_tokenize_from(input@, istart) is None);
                }
                return Err(LexError { pos: start });
            }
        } else if c == '(' || c == '[' || c == '{' {
            tok = Token { kind: TokenKind::Open, start, end: start + 1 };
            proof {
                assert(spec_next_token(input@, start as int) == Some(tok));
            }
        } else if c == ')' || c == ']' || c == '}' {
            tok = Token { kind: TokenKind::Close, start, end: start + 1 };
            proof {
                assert(spec_next_token(input@, start as int) == Some(tok));
            }
        } else if c == '#' || c == '!' || c == '?' || c == '@' || c == '$' || c == ',' || c == ';'
            || c == '.' || c == ':' || c == '=' || c == '<' || c == '>' || c == '&' || c == '|'
            || c == '+' || c == '-' || c == '*' || c == '/' || c == '%' || c == '^' || c == '~' {
            if start + 1 < n && joins(c, input[start + 1]) {
                tok = Token { kind: TokenKind::Punct, start, end: start + 2 };
                proof {
                    assert(is_punct_char(c));
                    assert(spec_next_token(input@, start as int) == Some(tok));
                }
            } else {
                tok = Token { kind: TokenKind::Punct, start, end: start + 1 };
                proof {
                    assert(is_punct_char(c));
                    assert(spec_next_token(input@, start as int) == Some(tok));
                }
            }
        } else {
            proof {
                assert(spec_next_token(input@, start as int) is None);
                assert(spec_tokenize_from(input@, istart) is None);
            }
            return Err(LexError { pos: start });
        }
        proof {
            assert(token_wf(tok, input@));
            assert(spec_next_token(input@, start as int) == Some(tok));
            match spec_tokenize_from(input@, tok.end as int) {
                Some(rest2) => {
                    assert(spec_tokenize_from(input@, istart) == Some(seq![tok] + rest2));
                    assert(toks0 + (seq![tok] + rest2) =~= toks0.push(tok) + rest2);
                },
                None => {
                    assert(spec_tokenize_from(input@, istart) is None);
                },
            }
        }
        toks.push(tok);
        i = tok.end;
    }
    proof {
        assert(spec_tokenize_from(input@, i as int) == Some(Seq::<Token>::empty()));
        assert(toks@ + Seq::<Token>::empty() =~= toks@);
    }
    Ok(toks)
}

/// Copies a span of the input.
pub fn copy_range(input: &Vec<char>, start: usize, end: usize) -> (r: Vec<char>)
    requires
        start <= end <= input@.len(),
    ensures
        r@ == input@.subrange(start as int, end as int),
{
    let mut out: Vec<char> = Vec::new();
    let mut i = start;
    while i < end
        invariant
            start <= i <= end,
            end <= input@.len(),
            out@ == input@.subrange(start as int, i as int),
        decreases end - i,
    {
        out.push(input[i]);
        proof {
            assert(out@ =~= input@.subrange(start as int, i as int + 1));
        }
        i = i + 1;
    }
    proof {
        assert(out@ =~= input@.subrange(start as int, end as int));
    }
    out
}


/// The token is the single punctuation character `c`.
pub open spec fn spec_punct_is(input: Seq<char>, t: Token, c: char) -> bool {
    t.kind == TokenKind::Punct && t.end == t.start + 1 && input[t.start as int] == c
}

/// The token is the two-character punctuation `c1 c2`.
pub open spec fn spec_punct2_is(input: Seq<char>, t: Token, c1: char, c2: char) -> bool {
    t.kind == TokenKind::Punct && t.end == t.start + 2 && input[t.start as int] == c1
        && input[t.start as int + 1] == c2
}

/// The token is the given identifier word.
pub open spec fn spec_ident_is(input: Seq<char>, t: Token, word: Seq<char>) -> bool {
    t.kind == TokenKind::Ident && input.subrange(t.start as int, t.end as int) == word
}

/// Whether the token is the single punctuation character `c`.
pub fn punct_is(input: &Vec<char>, t: &Token, c: char) -> (r: bool)
    requires
        token_wf(*t, input@),
    ensures
        r == spec_punct_is(input@, *t, c),
{
    matches!(t.kind, TokenKind::Punct) && t.end == t.start + 1 && input[t.start] == c
}

/// Whether the token is the two-character punctuation `c1 c2`.
pub fn punct2_is(input: &Vec<char>, t: &Token, c1: char, c2: char) -> (r: bool)
    requires
        token_wf(*t, input@),
    ensures
        r == spec_punct2_is(input@, *t, c1, c2),
{
    matches!(t.kind, TokenKind::Punct) && t.end - t.start == 2 && input[t.start] == c1 && input[t.end
        - 1] == c2
}

/// Whether the token is the given identifier.
pub fn ident_is(input: &Vec<char>, t: &Token, word: &Vec<char>) -> (r: bool)
    requires
        token_wf(*t, input@),
    ensures
        r == spec_ident_is(input@, *t, word@),
{
    if !matches!(t.kind, TokenKind::Ident) {
        return false;
    }
    if t.end - t.start != word.len() {
        proof {
            assert(input@.subrange(t.start as int, t.end as int).len() != word@.len());
        }
        return false;
    }
    let mut i: usize = 0;
    while i < word.len()
        invariant
            i <= word@.len(),
            token_wf(*t, input@),
            t.end - t.start == word@.len(),
            forall|k: int| 0 <= k < i
                ==> input@.subrange(t.start as int, t.end as int)[k] == word@[k],
        decreases word@.len() - i,
    {
        if input[t.start + i] != word[i] {
            proof {
                assert(input@.subrange(t.start as int, t.end as int)[i as int] != word@[i as int]);
            }
            return false;
        }
        proof {
            assert(input@.subrange(t.start as int, t.end as int)[i as int] == word@[i as int]);
        }
        i = i + 1;
    }
    proof {
        assert(input@.subrange(t.start as int, t.end as int) =~= word@);
    }
    true
}

} // verus!
