//! Lexical analysis: source text to tokens.
use vstd::prelude::*;

use crate::text::{chars_between, chars_of, string_of};
use crate::token::{
    keyword_kind, keyword_of, Literal, LiteralModel, Number, Token, TokenModel, TokenType,
};

verus! {

/// Why a scan stopped.
#[derive(Clone, Copy, Debug, PartialEq, Eq, Structural)]
pub enum LexError {
    /// No token starts with this character.
    InvalidToken(char),
    /// The input ended inside a string literal.
    UnterminatedString,
}

impl LexError {
    /// The human-readable text of the error.
    pub open spec fn message_spec(self) -> Seq<char> {
        match self {
            LexError::InvalidToken(c) => "invalid token: "@ + seq![c],
            LexError::UnterminatedString => "Unterminated string"@,
        }
    }

    /// The human-readable text of the error.
    pub fn message(&self) -> (r: String)
        ensures
            r@ == self.message_spec(),
    {
        match self {
            LexError::InvalidToken(c) => {
                let mut m = String::from_str("invalid token: ");
                let c = string_of(&[*c]);
                m.append(c.as_str());
                m
            },
            LexError::UnterminatedString => String::from_str("Unterminated string"),
        }
    }
}

pub open spec fn is_digit_spec(c: char) -> bool {
    '0' <= c && c <= '9'
}

pub open spec fn is_alpha_spec(c: char) -> bool {
    ('a' <= c && c <= 'z') || ('A' <= c && c <= 'Z')
}

/// Whether `c` is an ASCII decimal digit.
pub fn is_digit(c: char) -> (r: bool)
    ensures
        r == is_digit_spec(c),
{
    '0' <= c && c <= '9'
}

/// Whether `c` is an ASCII letter.
pub fn is_alpha(c: char) -> (r: bool)
    ensures
        r == is_alpha_spec(c),
{
    ('a' <= c && c <= 'z') || ('A' <= c && c <= 'Z')
}

/// Whether `c` is an ASCII letter or digit.
pub fn is_alpha_numeric(c: char) -> (r: bool)
    ensures
        r == (is_digit_spec(c) || is_alpha_spec(c)),
{
    is_digit(c) || is_alpha(c)
}

/// The kinds of character run that the scanner reads to their end.
pub enum Run {
    /// decimal digits
    Digits,
    /// letters and digits
    Word,
    /// anything but a newline
    Line,
    /// anything but a double quote
    Quoted,
}

/// Whether `c` continues a run of kind `run`.
pub open spec fn continues(run: Run, c: char) -> bool {
    match run {
        Run::Digits => is_digit_spec(c),
        Run::Word => is_digit_spec(c) || is_alpha_spec(c),
        Run::Line => c != '\n',
        Run::Quoted => c != '"',
    }
}

/// The first position at or after `i` that does not continue `run`, or the
/// end of `s`.
pub open spec fn run_end(s: Seq<char>, i: int, run: Run) -> int
    decreases s.len() - i,
{
    if 0 <= i < s.len() && continues(run, s[i]) {
        run_end(s, i + 1, run)
    } else {
        i
    }
}

/// The number of newlines in `s` between `a` (included) and `b` (excluded).
pub open spec fn newlines(s: Seq<char>, a: int, b: int) -> nat
    decreases b - a,
{
    if b <= a {
        0
    } else {
        newlines(s, a, b - 1) + if s[b - 1] == '\n' {
            1nat
        } else {
            0nat
        }
    }
}

/// The kind of a one-character punctuation token.
pub open spec fn single_kind(c: char) -> Option<TokenType> {
    if c == '(' {
        Some(TokenType::LParan)
    } else if c == ')' {
        Some(TokenType::RParan)
    } else if c == '{' {
        Some(TokenType::LBrace)
    } else if c == '}' {
        Some(TokenType::RBrace)
    } else if c == ',' {
        Some(TokenType::Comma)
    } else if c == '.' {
        Some(TokenType::Dot)
    } else if c == '-' {
        Some(TokenType::Minus)
    } else if c == '+' {
        Some(TokenType::Plus)
    } else if c == ';' {
        Some(TokenType::SemiColon)
    } else if c == '/' {
        Some(TokenType::Slash)
    } else if c == '*' {
        Some(TokenType::Star)
    } else {
        None
    }
}

/// For the operators that may be followed by `=`: the kind alone and the
/// kind with the `=`.
pub open spec fn operator_kinds(c: char) -> Option<(TokenType, TokenType)> {
    if c == '!' {
        Some((TokenType::Bang, TokenType::BangEqual))
    } else if c == '=' {
        Some((TokenType::Equal, TokenType::EqualEqual))
    } else if c == '>' {
        Some((TokenType::Greater, TokenType::GreaterEqual))
    } else if c == '<' {
        Some((TokenType::Less, TokenType::LessEqual))
    } else {
        None
    }
}

/// A token without a literal, read from `s` between `i` and `j`.
pub open spec fn plain(ty: TokenType, s: Seq<char>, i: int, j: int, line: nat) -> TokenModel {
    TokenModel { ty, lexeme: s.subrange(i, j), literal: None, line }
}

/// The token that ends every scan.
pub open spec fn eof_token(line: nat) -> TokenModel {
    TokenModel { ty: TokenType::Eof, lexeme: seq![], literal: None, line }
}

/// What one scanning step did: where the next one starts, on which line,
/// and the token it emitted, if any.
pub struct Step {
    pub next: int,
    pub line: nat,
    pub token: Option<TokenModel>,
}

/// The tokens a step emitted.
pub open spec fn emitted(t: Option<TokenModel>) -> Seq<TokenModel> {
    match t {
        Some(t) => seq![t],
        None => seq![],
    }
}

/// One scanning step at position `i` (which holds a character) on line `line`.
pub open spec fn scan_step(s: Seq<char>, i: int, line: nat) -> Result<Step, LexError> {
    let c = s[i];
    if c == '/' && i + 1 < s.len() && s[i + 1] == '/' {
        // a comment, up to the end of the line
        Ok(Step { next: run_end(s, i + 2, Run::Line), line, token: None })
    } else if single_kind(c) is Some {
        Ok(Step { next: i + 1, line, token: Some(plain(single_kind(c)->0, s, i, i + 1, line)) })
    } else if operator_kinds(c) is Some {
        let (one, two) = operator_kinds(c)->0;
        if i + 1 < s.len() && s[i + 1] == '=' {
            Ok(Step { next: i + 2, line, token: Some(plain(two, s, i, i + 2, line)) })
        } else {
            Ok(Step { next: i + 1, line, token: Some(plain(one, s, i, i + 1, line)) })
        }
    } else if c == ' ' || c == '\t' || c == '\r' {
        Ok(Step { next: i + 1, line, token: None })
    } else if c == '\n' {
        Ok(Step { next: i + 1, line: line + 1, token: None })
    } else if c == '"' {
        let q = run_end(s, i + 1, Run::Quoted);
        if q >= s.len() {
            Err(LexError::UnterminatedString)
        } else {
            let l = line + newlines(s, i + 1, q);
            Ok(
                Step {
                    next: q + 1,
                    line: l,
                    token: Some(
                        TokenModel {
                            ty: TokenType::String,
                            lexeme: s.subrange(i, q + 1),
                            literal: Some(LiteralModel::Str(s.subrange(i + 1, q))),
                            line: l,
                        },
                    ),
                },
            )
        }
    } else if is_digit_spec(c) {
        let e = run_end(s, i + 1, Run::Digits);
        if e + 1 < s.len() && s[e] == '.' && is_digit_spec(s[e + 1]) {
            let f = run_end(s, e + 2, Run::Digits);
            Ok(
                Step {
                    next: f,
                    line,
                    token: Some(
                        TokenModel {
                            ty: TokenType::Number,
                            lexeme: s.subrange(i, f),
                            literal: Some(
                                LiteralModel::Number(s.subrange(i, e), s.subrange(e + 1, f)),
                            ),
                            line,
                        },
                    ),
                },
            )
        } else {
            Ok(
                Step {
                    next: e,
                    line,
                    token: Some(
                        TokenModel {
                            ty: TokenType::Number,
                            lexeme: s.subrange(i, e),
                            literal: Some(LiteralModel::Number(s.subrange(i, e), seq![])),
                            line,
                        },
                    ),
                },
            )
        }
    } else if is_alpha_spec(c) {
        let e = run_end(s, i + 1, Run::Word);
        let w = s.subrange(i, e);
        match keyword_kind(w) {
            Some(k) => Ok(Step { next: e, line, token: Some(plain(k, s, i, e, line)) }),
            None => Ok(
                Step {
                    next: e,
                    line,
                    token: Some(
                        TokenModel {
                            ty: TokenType::Identifier,
                            lexeme: w,
                            literal: Some(LiteralModel::Identifier(w)),
                            line,
                        },
                    ),
                },
            ),
        }
    } else {
        Err(LexError::InvalidToken(c))
    }
}

/// A run ends within the text, after its start, and every character before
/// its end continues it.
pub proof fn lemma_run_end(s: Seq<char>, i: int, run: Run)
    requires
        0 <= i <= s.len(),
    ensures
        i <= run_end(s, i, run) <= s.len(),
        run_end(s, i, run) == s.len() || !continues(run, s[run_end(s, i, run)]),
        forall|k: int| i <= k < run_end(s, i, run) ==> continues(run, #[trigger] s[k]),
    decreases s.len() - i,
{
    if i < s.len() && continues(run, s[i]) {
        lemma_run_end(s, i + 1, run);
    }
}

/// Every successful step moves forward and stays within the text.
pub proof fn lemma_step_advances(s: Seq<char>, i: int, line: nat)
    requires
        0 <= i < s.len(),
    ensures
        scan_step(s, i, line) matches Ok(st) ==> i < st.next <= s.len(),
{
    lemma_run_end(s, i + 1, Run::Quoted);
    lemma_run_end(s, i + 1, Run::Digits);
    lemma_run_end(s, i + 1, Run::Word);
    if i + 2 <= s.len() {
        lemma_run_end(s, i + 2, Run::Line);
        let e = run_end(s, i + 1, Run::Digits);
        if e + 2 <= s.len() {
            lemma_run_end(s, e + 2, Run::Digits);
        }
    }
}

/// Places `done` before the tokens of a scan that succeeded.
pub open spec fn after(done: Seq<TokenModel>, r: Result<Seq<TokenModel>, LexError>) -> Result<
    Seq<TokenModel>,
    LexError,
> {
    match r {
        Ok(rest) => Ok(done + rest),
        Err(e) => Err(e),
    }
}

/// The tokens of `s` from position `i` on, with the scan at line `line`.
pub open spec fn scan_from(s: Seq<char>, i: int, line: nat) -> Result<Seq<TokenModel>, LexError>
    decreases s.len() - i,
{
    if i < 0 || i >= s.len() {
        Ok(seq![eof_token(line)])
    } else {
        match scan_step(s, i, line) {
            Err(e) => Err(e),
            Ok(st) => {
                proof {
                    lemma_step_advances(s, i, line);
                }
                after(emitted(st.token), scan_from(s, st.next, st.line))
            },
        }
    }
}

/// The tokens of the source text `s`, or the error that stops its scan.
pub open spec fn scan_spec(s: Seq<char>) -> Result<Seq<TokenModel>, LexError> {
    scan_from(s, 0, 1)
}

/// The token a one-character punctuation mark scans to on line 1.
pub open spec fn punctuation_token(c: char) -> TokenModel {
    TokenModel { ty: single_kind(c)->0, lexeme: seq![c], literal: None, line: 1 }
}

/// A text made only of one-character punctuation marks, with no `/`
/// directly followed by another `/`, scans to one token per character, in
/// order, of that character's kind and with that character as its lexeme,
/// followed by a single `Eof`.
pub proof fn lemma_punctuation_round_trip(s: Seq<char>)
    requires
        forall|i: int| 0 <= i < s.len() ==> #[trigger] single_kind(s[i]) is Some,
        forall|i: int| 0 <= i < s.len() - 1 ==> !(s[i] == '/' && #[trigger] s[i + 1] == '/'),
    ensures
        scan_spec(s) == Ok::<Seq<TokenModel>, LexError>(
            Seq::new(s.len(), |i: int| punctuation_token(s[i])).push(eof_token(1)),
        ),
{
    lemma_punctuation_from(s, 0);
    assert(Seq::new((s.len() - 0) as nat, |k: int| punctuation_token(s[0 + k])) =~= Seq::new(
        s.len(),
        |i: int| punctuation_token(s[i]),
    ));
}

proof fn lemma_punctuation_from(s: Seq<char>, i: int)
    requires
        0 <= i <= s.len(),
        forall|i: int| 0 <= i < s.len() ==> #[trigger] single_kind(s[i]) is Some,
        forall|i: int| 0 <= i < s.len() - 1 ==> !(s[i] == '/' && #[trigger] s[i + 1] == '/'),
    ensures
        scan_from(s, i, 1) == Ok::<Seq<TokenModel>, LexError>(
            Seq::new((s.len() - i) as nat, |k: int| punctuation_token(s[i + k])).push(
                eof_token(1),
            ),
        ),
    decreases s.len() - i,
{
    if i < s.len() {
        lemma_punctuation_from(s, i + 1);
        assert(single_kind(s[i]) is Some);
        if i + 1 < s.len() {
            assert(!(s[i] == '/' && s[i + 1] == '/'));
        }
        assert(s.subrange(i, i + 1) =~= seq![s[i]]);
        let rest = Seq::new((s.len() - (i + 1)) as nat, |k: int| punctuation_token(s[i + 1 + k]));
        assert(seq![punctuation_token(s[i])] + rest.push(eof_token(1)) =~= Seq::new(
            (s.len() - i) as nat,
            |k: int| punctuation_token(s[i + k]),
        ).push(eof_token(1)));
    } else {
        assert(Seq::new((s.len() - i) as nat, |k: int| punctuation_token(s[i + k])).push(
            eof_token(1),
        ) =~= seq![eof_token(1)]);
    }
}

/// Where `!`, `=`, `<` or `>` is directly followed by `=`, the two
/// characters scan to one two-character operator token, and scanning goes on
/// after both.
pub proof fn lemma_maximal_munch(s: Seq<char>, i: int, line: nat)
    requires
        0 <= i,
        i + 1 < s.len(),
        operator_kinds(s[i]) is Some,
        s[i + 1] == '=',
    ensures
        scan_from(s, i, line) == after(
            seq![plain((operator_kinds(s[i])->0).1, s, i, i + 2, line)],
            scan_from(s, i + 2, line),
        ),
{
}

/// A `//` comment contributes no token: scanning from it is scanning from
/// the end of its line, on the same line; the newline that ends it then
/// moves the scan to the next line.
pub proof fn lemma_comment_skipped(s: Seq<char>, i: int, line: nat)
    requires
        0 <= i,
        i + 1 < s.len(),
        s[i] == '/',
        s[i + 1] == '/',
    ensures
        scan_from(s, i, line) == scan_from(s, run_end(s, i + 2, Run::Line), line),
        run_end(s, i + 2, Run::Line) < s.len() ==> s[run_end(s, i + 2, Run::Line)] == '\n'
            && scan_from(s, run_end(s, i + 2, Run::Line), line) == scan_from(
            s,
            run_end(s, i + 2, Run::Line) + 1,
            line + 1,
        ),
{
    let e = run_end(s, i + 2, Run::Line);
    lemma_run_end(s, i + 2, Run::Line);
    lemma_after_nothing(scan_from(s, e, line));
    if e < s.len() {
        lemma_after_nothing(scan_from(s, e + 1, line + 1));
    }
}

proof fn lemma_after_nothing(r: Result<Seq<TokenModel>, LexError>)
    ensures
        after(seq![], r) == r,
{
    if let Ok(ts) = r {
        assert(seq![] + ts =~= ts);
    }
}

/// A string literal scans to one `String` token whose literal is the text
/// between its quotes, newlines included, and whose line is that of the
/// closing quote; where no closing quote follows, the scan fails with
/// `UnterminatedString`.
pub proof fn lemma_string_literal(s: Seq<char>, i: int, line: nat)
    requires
        0 <= i < s.len(),
        s[i] == '"',
    ensures
        ({
            let q = run_end(s, i + 1, Run::Quoted);
            let l = line + newlines(s, i + 1, q);
            &&& forall|k: int| i + 1 <= k < q ==> #[trigger] s[k] != '"'
            &&& q == s.len() ==> scan_from(s, i, line) == Err::<Seq<TokenModel>, LexError>(
                LexError::UnterminatedString,
            )
            &&& q < s.len() ==> s[q] == '"' && scan_from(s, i, line) == after(
                seq![
                    TokenModel {
                        ty: TokenType::String,
                        lexeme: s.subrange(i, q + 1),
                        literal: Some(LiteralModel::Str(s.subrange(i + 1, q))),
                        line: l,
                    },
                ],
                scan_from(s, q + 1, l),
            )
        }),
{
    lemma_run_end(s, i + 1, Run::Quoted);
}

/// The models of a sequence of tokens.
pub open spec fn models(v: Seq<Token>) -> Seq<TokenModel> {
    v.map_values(|t: Token| t@)
}

/// A scan in progress over `source`: `start` is where the current token
/// began, `current` the next character to read, `line` the line it is on.
struct Scanner {
    source: Vec<char>,
    tokens: Vec<Token>,
    start: usize,
    current: usize,
    line: usize,
}

impl Scanner {
    spec fn wf(&self) -> bool {
        &&& self.start <= self.current <= self.source@.len()
        &&& self.source@.len() < usize::MAX
        &&& 1 <= self.line <= self.current + 1
    }

    spec fn done(&self) -> Seq<TokenModel> {
        models(self.tokens@)
    }

    /// `after` is this scanner once the step that begins at `self.start`,
    /// on `self.line`, is taken, with result `r`.
    spec fn stepped(&self, after: &Scanner, r: Result<(), LexError>) -> bool {
        &&& after.source@ == self.source@
        &&& after.start == self.start
        &&& match scan_step(self.source@, self.start as int, self.line as nat) {
            Ok(st) => {
                &&& r is Ok
                &&& after.current == st.next
                &&& after.line == st.line
                &&& after.done() == self.done() + emitted(st.token)
                &&& after.wf()
            },
            Err(e) => r == Err::<(), LexError>(e),
        }
    }

    fn new(input: &str) -> (r: Scanner)
        requires
            input@.len() < usize::MAX,
        ensures
            r.source@ == input@,
            r.tokens@ == Seq::<Token>::empty(),
            r.start == 0,
            r.current == 0,
            r.line == 1,
            r.wf(),
    {
        Scanner { source: chars_of(input), tokens: Vec::new(), start: 0, current: 0, line: 1 }
    }

    fn scan_tokens(&mut self) -> (r: Result<(), LexError>)
        requires
            old(self).wf(),
            old(self).current == 0,
            old(self).line == 1,
            old(self).tokens@.len() == 0,
        ensures
            match scan_spec(old(self).source@) {
                Ok(ts) => r is Ok && final(self).done() == ts,
                Err(e) => r == Err::<(), LexError>(e),
            },
    {
        let ghost s = self.source@;
        assert(self.done() =~= seq![]);
        assert(after(self.done(), scan_from(s, 0, 1)) =~= scan_from(s, 0, 1)) by {
            match scan_from(s, 0, 1) {
                Ok(ts) => assert(seq![] + ts =~= ts),
                Err(e) => {},
            }
        }
        while !self.is_at_end()
            invariant
                self.wf(),
                self.source@ == s,
                old(self).source@ == s,
                after(self.done(), scan_from(s, self.current as int, self.line as nat))
                    == scan_from(s, 0, 1),
            decreases s.len() - self.current,
        {
            self.start = self.current;
            let ghost before = *self;
            proof {
                lemma_step_advances(s, self.current as int, self.line as nat);
            }
            match self.scan_token() {
                Ok(()) => {},
                Err(e) => {
                    assert(scan_from(s, before.current as int, before.line as nat) == Err::<
                        Seq<TokenModel>,
                        LexError,
                    >(e));
                    return Err(e);
                },
            }
            proof {
                let st = scan_step(s, before.current as int, before.line as nat)->Ok_0;
                match scan_from(s, self.current as int, self.line as nat) {
                    Ok(rest) => {
                        assert(before.done() + (emitted(st.token) + rest) =~= self.done()
                            + rest);
                    },
                    Err(e) => {},
                }
            }
        }
        self.tokens.push(
            Token { ty: TokenType::Eof, lexeme: Vec::new(), literal: None, line: self.line },
        );
        proof {
            assert(self.done() =~= models(self.tokens@.drop_last()) + seq![eof_token(self.line as nat)]);
        }
        Ok(())
    }

    fn scan_token(&mut self) -> (r: Result<(), LexError>)
        requires
            old(self).wf(),
            old(self).start == old(self).current,
            old(self).current < old(self).source@.len(),
        ensures
            old(self).stepped(final(self), r),
    {
        let ghost s = self.source@;
        let c = self.advance();
        match c {
            '{' => self.add_token(TokenType::LBrace),
            '}' => self.add_token(TokenType::RBrace),
            '(' => self.add_token(TokenType::LParan),
            ')' => self.add_token(TokenType::RParan),
            ',' => self.add_token(TokenType::Comma),
            '.' => self.add_token(TokenType::Dot),
            '-' => self.add_token(TokenType::Minus),
            '+' => self.add_token(TokenType::Plus),
            ';' => self.add_token(TokenType::SemiColon),
            '/' => {
                if self.matches('/') {
                    while self.peek() != '\n' && !self.is_at_end()
                        invariant
                            self.wf(),
                            self.source@ == s,
                            self.tokens == old(self).tokens,
                            self.start == old(self).start,
                            self.line == old(self).line,
                            self.start + 2 <= self.current,
                            run_end(s, self.current as int, Run::Line) == run_end(
                                s,
                                self.start + 2,
                                Run::Line,
                            ),
                        decreases s.len() - self.current,
                    {
                        self.advance();
                    }
                } else {
                    self.add_token(TokenType::Slash)
                }
            },
            '*' => self.add_token(TokenType::Star),
            '!' => {
                if self.matches('=') {
                    self.add_token(TokenType::BangEqual)
                } else {
                    self.add_token(TokenType::Bang)
                }
            },
            '=' => {
                if self.matches('=') {
                    self.add_token(TokenType::EqualEqual)
                } else {
                    self.add_token(TokenType::Equal)
                }
            },
            '>' => {
                if self.matches('=') {
                    self.add_token(TokenType::GreaterEqual)
                } else {
                    self.add_token(TokenType::Greater)
                }
            },
            '<' => {
                if self.matches('=') {
                    self.add_token(TokenType::LessEqual)
                } else {
                    self.add_token(TokenType::Less)
                }
            },
            ' ' | '\t' | '\r' => {},
            '\n' => {
                self.line = self.line + 1;
            },
            '"' => {
                return self.string();
            },
            _ => {
                if is_digit(c) {
                    self.number();
                } else if is_alpha(c) {
                    self.identifier();
                } else {
                    return Err(LexError::InvalidToken(c));
                }
            },
        }
        Ok(())
    }

    fn advance(&mut self) -> (r: char)
        requires
            old(self).current < old(self).source@.len() < usize::MAX,
        ensures
            r == old(self).source@[old(self).current as int],
            final(self).current == old(self).current + 1,
            final(self).source == old(self).source,
            final(self).tokens == old(self).tokens,
            final(self).start == old(self).start,
            final(self).line == old(self).line,
    {
        let c = self.source[self.current];
        self.current = self.current + 1;
        c
    }

    fn is_at_end(&self) -> (r: bool)
        ensures
            r == (self.current >= self.source@.len()),
    {
        self.current >= self.source.len()
    }

    fn add_token(&mut self, ty: TokenType)
        requires
            old(self).start <= old(self).current <= old(self).source@.len(),
        ensures
            final(self).done() == old(self).done() + seq![
                plain(
                    ty,
                    old(self).source@,
                    old(self).start as int,
                    old(self).current as int,
                    old(self).line as nat,
                ),
            ],
            final(self).source == old(self).source,
            final(self).start == old(self).start,
            final(self).current == old(self).current,
            final(self).line == old(self).line,
    {
        let lexeme = chars_between(self.source.as_slice(), self.start, self.current);
        self.tokens.push(Token { ty, lexeme, literal: None, line: self.line });
        proof {
            assert(self.done() =~= old(self).done() + seq![
                plain(
                    ty,
                    old(self).source@,
                    old(self).start as int,
                    old(self).current as int,
                    old(self).line as nat,
                ),
            ]);
        }
    }

    fn add_literal_token(&mut self, ty: TokenType, literal: Literal)
        requires
            old(self).start <= old(self).current <= old(self).source@.len(),
        ensures
            final(self).done() == old(self).done() + seq![
                TokenModel {
                    ty,
                    lexeme: old(self).source@.subrange(
                        old(self).start as int,
                        old(self).current as int,
                    ),
                    literal: Some(literal@),
                    line: old(self).line as nat,
                },
            ],
            final(self).source == old(self).source,
            final(self).start == old(self).start,
            final(self).current == old(self).current,
            final(self).line == old(self).line,
    {
        let ghost lv = literal@;
        let lexeme = chars_between(self.source.as_slice(), self.start, self.current);
        self.tokens.push(Token { ty, lexeme, literal: Some(literal), line: self.line });
        proof {
            assert(self.done() =~= old(self).done() + seq![
                TokenModel {
                    ty,
                    lexeme: old(self).source@.subrange(
                        old(self).start as int,
                        old(self).current as int,
                    ),
                    literal: Some(lv),
                    line: old(self).line as nat,
                },
            ]);
        }
    }

    /// Reads the next character where it is `c`.
    fn matches(&mut self, c: char) -> (r: bool)
        requires
            old(self).current <= old(self).source@.len() < usize::MAX,
        ensures
            r == (old(self).current < old(self).source@.len()
                && old(self).source@[old(self).current as int] == c),
            final(self).current == old(self).current + if r {
                1int
            } else {
                0int
            },
            final(self).source == old(self).source,
            final(self).tokens == old(self).tokens,
            final(self).start == old(self).start,
            final(self).line == old(self).line,
    {
        if self.is_at_end() {
            return false;
        }
        if self.source[self.current] != c {
            return false;
        }
        self.current = self.current + 1;
        true
    }

    /// The next character, or `'\0'` at the end.
    fn peek(&self) -> (r: char)
        ensures
            r == if self.current < self.source@.len() {
                self.source@[self.current as int]
            } else {
                '\0'
            },
    {
        if self.is_at_end() {
            '\0'
        } else {
            self.source[self.current]
        }
    }

    /// The character after the next one, or `'\0'` past the end.
    fn peek_next(&self) -> (r: char)
        requires
            self.current < self.source@.len() < usize::MAX,
        ensures
            r == if self.current + 1 < self.source@.len() {
                self.source@[self.current + 1]
            } else {
                '\0'
            },
    {
        if self.current + 1 >= self.source.len() {
            return '\0';
        }
        self.source[self.current + 1]
    }

    fn string(&mut self) -> (r: Result<(), LexError>)
        requires
            old(self).wf(),
            old(self).current == old(self).start + 1,
            old(self).source@[old(self).start as int] == '"',
            old(self).line <= old(self).start + 1,
        ensures
            old(self).stepped(final(self), r),
    {
        let ghost s = self.source@;
        let ghost line0 = self.line;
        while self.peek() != '"' && !self.is_at_end()
            invariant
                self.source@ == s,
                s.len() < usize::MAX,
                line0 <= self.start + 1,
                self.tokens == old(self).tokens,
                self.start == old(self).start,
                self.start + 1 <= self.current <= s.len(),
                self.line == line0 + newlines(s, self.start + 1, self.current as int),
                self.line <= line0 + (self.current - (self.start + 1)),
                run_end(s, self.current as int, Run::Quoted) == run_end(
                    s,
                    self.start + 1,
                    Run::Quoted,
                ),
            decreases s.len() - self.current,
        {
            if self.peek() == '\n' {
                self.line = self.line + 1;
            }
            self.advance();
        }
        if self.is_at_end() {
            return Err(LexError::UnterminatedString);
        }
        self.advance();
        let content = chars_between(self.source.as_slice(), self.start + 1, self.current - 1);
        let literal = string_of(content.as_slice());
        self.add_literal_token(TokenType::String, Literal::Str(literal));
        Ok(())
    }

    fn number(&mut self)
        requires
            old(self).wf(),
            old(self).current == old(self).start + 1,
            is_digit_spec(old(self).source@[old(self).start as int]),
        ensures
            old(self).stepped(final(self), Ok(())),
    {
        let ghost s = self.source@;
        while is_digit(self.peek())
            invariant
                self.source@ == s,
                s.len() < usize::MAX,
                self.tokens == old(self).tokens,
                self.start == old(self).start,
                self.line == old(self).line,
                self.start + 1 <= self.current <= s.len(),
                run_end(s, self.current as int, Run::Digits) == run_end(
                    s,
                    self.start + 1,
                    Run::Digits,
                ),
            decreases s.len() - self.current,
        {
            self.advance();
        }
        let integer_end = self.current;
        let mut fraction_start = self.current;
        if self.peek() == '.' && is_digit(self.peek_next()) {
            self.advance();
            fraction_start = self.current;
            while is_digit(self.peek())
                invariant
                    self.source@ == s,
                    s.len() < usize::MAX,
                    self.tokens == old(self).tokens,
                    self.start == old(self).start,
                    self.line == old(self).line,
                    fraction_start <= self.current <= s.len(),
                    fraction_start == integer_end + 1,
                    run_end(s, self.current as int, Run::Digits) == run_end(
                        s,
                        integer_end + 2,
                        Run::Digits,
                    ),
                decreases s.len() - self.current,
            {
                self.advance();
            }
        }
        let integer = string_of(
            chars_between(self.source.as_slice(), self.start, integer_end).as_slice(),
        );
        let fraction = string_of(
            chars_between(self.source.as_slice(), fraction_start, self.current).as_slice(),
        );
        assert(s.subrange(integer_end as int, integer_end as int) =~= seq![]);
        self.add_literal_token(TokenType::Number, Literal::Number(Number { integer, fraction }));
    }

    fn identifier(&mut self)
        requires
            old(self).wf(),
            old(self).current == old(self).start + 1,
            is_alpha_spec(old(self).source@[old(self).start as int]),
        ensures
            old(self).stepped(final(self), Ok(())),
    {
        let ghost s = self.source@;
        while is_alpha_numeric(self.peek())
            invariant
                self.source@ == s,
                s.len() < usize::MAX,
                self.tokens == old(self).tokens,
                self.start == old(self).start,
                self.line == old(self).line,
                self.start + 1 <= self.current <= s.len(),
                run_end(s, self.current as int, Run::Word) == run_end(
                    s,
                    self.start + 1,
                    Run::Word,
                ),
            decreases s.len() - self.current,
        {
            self.advance();
        }
        let word = chars_between(self.source.as_slice(), self.start, self.current);
        match keyword_of(word.as_slice()) {
            Some(ty) => self.add_token(ty),
            None => {
                let name = string_of(word.as_slice());
                self.add_literal_token(TokenType::Identifier, Literal::Identifier(name));
            },
        }
    }
}

/// Scans the whole of `input` into tokens, ending with one `Eof` token; or
/// reports the first character at which no token can be read.
pub fn scan_tokens(input: &str) -> (r: Result<Vec<Token>, LexError>)
    requires
        input@.len() < usize::MAX,
    ensures
        match scan_spec(input@) {
            Ok(ts) => r matches Ok(v) && models(v@) == ts,
            Err(e) => r == Err::<Vec<Token>, LexError>(e),
        },
{
    let mut scanner = Scanner::new(input);
    match scanner.scan_tokens() {
        Ok(()) => Ok(scanner.tokens),
        Err(e) => Err(e),
    }
}

} // verus!
