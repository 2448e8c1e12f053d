use vstd::prelude::*;
use crate::error::ShellError;
use crate::utils::redirection::Descriptor;
use crate::utils::text::{chars_of, is_whitespace, push_char};

verus! {

/// A lexical unit of a command line.
#[derive(Debug, PartialEq, Clone)]
pub enum Token {
    Word(String),
    Pipe,
    Or,
    Background,
    And,
    RedirectOut(Descriptor),
    RedirectAppend(Descriptor),
    RedirectIn(Descriptor),
}

/// A token as a mathematical value.
pub enum SpecToken {
    Word(Seq<char>),
    Pipe,
    Or,
    Background,
    And,
    RedirectOut(Descriptor),
    RedirectAppend(Descriptor),
    RedirectIn(Descriptor),
}

impl DeepView for Token {
    type V = SpecToken;

    open spec fn deep_view(&self) -> SpecToken {
        match self {
            Token::Word(w) => SpecToken::Word(w@),
            Token::Pipe => SpecToken::Pipe,
            Token::Or => SpecToken::Or,
            Token::Background => SpecToken::Background,
            Token::And => SpecToken::And,
            Token::RedirectOut(d) => SpecToken::RedirectOut(*d),
            Token::RedirectAppend(d) => SpecToken::RedirectAppend(*d),
            Token::RedirectIn(d) => SpecToken::RedirectIn(*d),
        }
    }
}

/// How a redirected descriptor is written before its operator: `2` for
/// standard error, nothing for the others.
pub open spec fn descriptor_prefix(d: Descriptor) -> Seq<char> {
    match d {
        Descriptor::Stderr => "2"@,
        _ => ""@,
    }
}

/// How a token is written.
pub open spec fn token_text(t: SpecToken) -> Seq<char> {
    match t {
        SpecToken::Word(w) => w,
        SpecToken::Pipe => "|"@,
        SpecToken::Or => "||"@,
        SpecToken::Background => "&"@,
        SpecToken::And => "&&"@,
        SpecToken::RedirectOut(d) => descriptor_prefix(d) + ">"@,
        SpecToken::RedirectAppend(d) => descriptor_prefix(d) + ">>"@,
        SpecToken::RedirectIn(d) => descriptor_prefix(d) + "<"@,
    }
}

impl Token {
    /// How the token is written on a command line.
    pub fn to_string(&self) -> (s: String)
        ensures
            s@ == token_text(self.deep_view()),
    {
        match self {
            Token::Word(w) => String::from_str(w.as_str()),
            Token::Pipe => String::from_str("|"),
            Token::Or => String::from_str("||"),
            Token::Background => String::from_str("&"),
            Token::And => String::from_str("&&"),
            Token::RedirectOut(d) => prefix_of(d).concat(">"),
            Token::RedirectAppend(d) => prefix_of(d).concat(">>"),
            Token::RedirectIn(d) => prefix_of(d).concat("<"),
        }
    }
}

pub(crate) fn prefix_of(d: &Descriptor) -> (s: String)
    ensures
        s@ == descriptor_prefix(*d),
{
    match d {
        Descriptor::Stderr => String::from_str("2"),
        _ => String::from_str(""),
    }
}

/// What the lexer is in the middle of; an escape remembers the state that a
/// backslash interrupted.
#[derive(Debug, PartialEq)]
pub enum LexerState {
    Normal,
    SingleQuote,
    DoubleQuote,
    Escape(Box<LexerState>),
}

/// A snapshot of the lexer: the index of the next unread character, the
/// state, the word being built and the tokens produced so far.
#[verifier::ext_equal]
pub struct LexConfig {
    pub pos: int,
    pub state: LexerState,
    pub cur: Seq<char>,
    pub toks: Seq<SpecToken>,
}

/// The tokens after the pending word, if there is one, has been emitted.
pub open spec fn flushed(cur: Seq<char>, toks: Seq<SpecToken>) -> Seq<SpecToken> {
    if cur.len() > 0 {
        toks.push(SpecToken::Word(cur))
    } else {
        toks
    }
}

/// Whether the character at index `i` exists and is `c`.
pub open spec fn next_is(input: Seq<char>, i: int, c: char) -> bool {
    0 <= i < input.len() && input[i] == c
}

/// Emits the pending word, then `t`, and continues unquoted at `pos`.
pub open spec fn emit(pos: int, cur: Seq<char>, toks: Seq<SpecToken>, t: SpecToken) -> LexConfig {
    LexConfig { pos, state: LexerState::Normal, cur: seq![], toks: flushed(cur, toks).push(t) }
}

/// Adds `c` to the pending word and continues in `state` at `pos`.
pub open spec fn extend(pos: int, state: LexerState, cur: Seq<char>, toks: Seq<SpecToken>, c: char) -> LexConfig {
    LexConfig { pos, state, cur: cur.push(c), toks }
}

/// Reading the unquoted character at index `i`. Quotes and backslash switch
/// state; `>`, `>>`, `<`, `|`, `||`, `&`, `&&` and a digit `0`-`2` glued to
/// a following `>`, `>>` or `<` are operators; white space ends a word.
pub open spec fn step_normal(input: Seq<char>, i: int, cur: Seq<char>, toks: Seq<SpecToken>) -> LexConfig {
    let c = input[i];
    if c == '\'' {
        LexConfig { pos: i + 1, state: LexerState::SingleQuote, cur, toks }
    } else if c == '"' {
        LexConfig { pos: i + 1, state: LexerState::DoubleQuote, cur, toks }
    } else if c == '\\' {
        LexConfig { pos: i + 1, state: LexerState::Escape(Box::new(LexerState::Normal)), cur, toks }
    } else if c == '0' || c == '1' || c == '2' {
        if next_is(input, i + 1, '>') {
            if next_is(input, i + 2, '>') {
                emit(i + 3, cur, toks, SpecToken::RedirectAppend(crate::utils::redirection::descriptor_of_digit(c)))
            } else {
                emit(i + 2, cur, toks, SpecToken::RedirectOut(crate::utils::redirection::descriptor_of_digit(c)))
            }
        } else if next_is(input, i + 1, '<') {
            emit(i + 2, cur, toks, SpecToken::RedirectIn(crate::utils::redirection::descriptor_of_digit(c)))
        } else {
            extend(i + 1, LexerState::Normal, cur, toks, c)
        }
    } else if c == '>' {
        if next_is(input, i + 1, '>') {
            emit(i + 2, cur, toks, SpecToken::RedirectAppend(Descriptor::Stdout))
        } else {
            emit(i + 1, cur, toks, SpecToken::RedirectOut(Descriptor::Stdout))
        }
    } else if c == '<' {
        emit(i + 1, cur, toks, SpecToken::RedirectIn(Descriptor::Stdin))
    } else if c == '|' {
        if next_is(input, i + 1, '|') {
            emit(i + 2, cur, toks, SpecToken::Or)
        } else {
            emit(i + 1, cur, toks, SpecToken::Pipe)
        }
    } else if c == '&' {
        if next_is(input, i + 1, '&') {
            emit(i + 2, cur, toks, SpecToken::And)
        } else {
            emit(i + 1, cur, toks, SpecToken::Background)
        }
    } else if crate::utils::text::spec_is_whitespace(c) {
        LexConfig { pos: i + 1, state: LexerState::Normal, cur: seq![], toks: flushed(cur, toks) }
    } else {
        extend(i + 1, LexerState::Normal, cur, toks, c)
    }
}

/// Inside single quotes everything but the closing quote is literal.
pub open spec fn step_single_quote(input: Seq<char>, i: int, cur: Seq<char>, toks: Seq<SpecToken>) -> LexConfig {
    if input[i] == '\'' {
        LexConfig { pos: i + 1, state: LexerState::Normal, cur, toks }
    } else {
        extend(i + 1, LexerState::SingleQuote, cur, toks, input[i])
    }
}

/// Inside double quotes only the closing quote and backslash are special.
pub open spec fn step_double_quote(input: Seq<char>, i: int, cur: Seq<char>, toks: Seq<SpecToken>) -> LexConfig {
    if input[i] == '"' {
        LexConfig { pos: i + 1, state: LexerState::Normal, cur, toks }
    } else if input[i] == '\\' {
        LexConfig { pos: i + 1, state: LexerState::Escape(Box::new(LexerState::DoubleQuote)), cur, toks }
    } else {
        extend(i + 1, LexerState::DoubleQuote, cur, toks, input[i])
    }
}

/// The character after a backslash. Inside double quotes only `"` and `\`
/// are escaped, and any other character keeps its backslash; elsewhere the
/// backslash is dropped. The interrupted state resumes.
pub open spec fn step_escape(prev: LexerState, input: Seq<char>, i: int, cur: Seq<char>, toks: Seq<SpecToken>) -> LexConfig {
    let c = input[i];
    if prev == LexerState::DoubleQuote {
        if c == '"' || c == '\\' {
            extend(i + 1, prev, cur, toks, c)
        } else {
            extend(i + 1, prev, cur.push('\\'), toks, c)
        }
    } else {
        extend(i + 1, prev, cur, toks, c)
    }
}

/// One transition of the lexer, from the character at `cfg.pos`.
pub open spec fn lex_step(input: Seq<char>, cfg: LexConfig) -> LexConfig {
    match cfg.state {
        LexerState::Normal => step_normal(input, cfg.pos, cfg.cur, cfg.toks),
        LexerState::SingleQuote => step_single_quote(input, cfg.pos, cfg.cur, cfg.toks),
        LexerState::DoubleQuote => step_double_quote(input, cfg.pos, cfg.cur, cfg.toks),
        LexerState::Escape(prev) => step_escape(*prev, input, cfg.pos, cfg.cur, cfg.toks),
    }
}

/// The outcome once the input is used up: the pending word is emitted, and
/// the line is rejected if it ended inside quotes or after a backslash.
pub open spec fn lex_finish(cfg: LexConfig) -> Result<Seq<SpecToken>, Seq<char>> {
    let toks = flushed(cfg.cur, cfg.toks);
    match cfg.state {
        LexerState::Normal => Ok(toks),
        LexerState::SingleQuote => Err("unclosed single quote"@),
        LexerState::DoubleQuote => Err("unclosed double quote"@),
        LexerState::Escape(_) => Err("unclosed escape sequence"@),
    }
}

/// Runs the lexer from `cfg` to the end of the input.
pub open spec fn lex_from(input: Seq<char>, cfg: LexConfig) -> Result<Seq<SpecToken>, Seq<char>>
    decreases input.len() - cfg.pos,
{
    if 0 <= cfg.pos < input.len() {
        let next = lex_step(input, cfg);
        if cfg.pos < next.pos {
            lex_from(input, next)
        } else {
            lex_finish(next)
        }
    } else {
        lex_finish(cfg)
    }
}

/// The lexer's starting point.
pub open spec fn lex_start() -> LexConfig {
    LexConfig { pos: 0, state: LexerState::Normal, cur: seq![], toks: seq![] }
}

/// The tokens of a command line, or the message of the syntax error it has.
pub open spec fn spec_tokenize(input: Seq<char>) -> Result<Seq<SpecToken>, Seq<char>> {
    lex_from(input, lex_start())
}

/// No token in `toks` is an empty word.
pub open spec fn no_empty_words(toks: Seq<SpecToken>) -> bool {
    forall|i: int| 0 <= i < toks.len() && #[trigger] toks[i] is Word ==> toks[i]->Word_0.len() > 0
}

proof fn lemma_lex_from_no_empty_words(input: Seq<char>, cfg: LexConfig)
    requires
        no_empty_words(cfg.toks),
    ensures
        lex_from(input, cfg) matches Ok(toks) ==> no_empty_words(toks),
    decreases input.len() - cfg.pos,
{
    if 0 <= cfg.pos < input.len() {
        let next = lex_step(input, cfg);
        assert(no_empty_words(next.toks));
        if cfg.pos < next.pos {
            lemma_lex_from_no_empty_words(input, next);
        }
    }
}

/// The lexer never produces an empty word: quotes with nothing between them
/// and runs of white space add no token.
pub proof fn lemma_tokenize_no_empty_words(input: Seq<char>)
    ensures
        spec_tokenize(input) matches Ok(toks) ==> no_empty_words(toks),
{
    lemma_lex_from_no_empty_words(input, lex_start());
}

proof fn lemma_single_quoted_run(input: Seq<char>, cfg: LexConfig, q: int)
    requires
        cfg.state == LexerState::SingleQuote,
        0 <= cfg.pos <= q < input.len(),
        forall|k: int| cfg.pos <= k < q ==> input[k] != '\'',
    ensures
        lex_from(input, cfg) == lex_from(
            input,
            LexConfig { pos: q, cur: cfg.cur + input.subrange(cfg.pos, q), ..cfg },
        ),
    decreases q - cfg.pos,
{
    if cfg.pos == q {
        assert(cfg.cur + input.subrange(cfg.pos, q) =~= cfg.cur);
    } else {
        let next = lex_step(input, cfg);
        lemma_single_quoted_run(input, next, q);
        assert(next.cur + input.subrange(next.pos, q) =~= cfg.cur + input.subrange(cfg.pos, q));
    }
}

/// Nothing is special between single quotes, not even a backslash: a
/// single-quoted text is one word, exactly as written.
pub proof fn lemma_single_quotes_are_literal(s: Seq<char>)
    requires
        forall|k: int| 0 <= k < s.len() ==> s[k] != '\'',
    ensures
        spec_tokenize(seq!['\''] + s + seq!['\'']) == (if s.len() == 0 {
            Ok::<Seq<SpecToken>, Seq<char>>(seq![])
        } else {
            Ok(seq![SpecToken::Word(s)])
        }),
{
    let input = seq!['\''] + s + seq!['\''];
    let n = input.len() as int;
    let c1 = lex_step(input, lex_start());
    assert(c1 == LexConfig { pos: 1, state: LexerState::SingleQuote, cur: seq![], toks: seq![] });
    lemma_single_quoted_run(input, c1, n - 1);
    assert(input.subrange(1, n - 1) =~= s);
    let c2 = LexConfig { pos: n - 1, state: LexerState::SingleQuote, cur: s, toks: seq![] };
    assert(Seq::<char>::empty() + s =~= s);
    let c3 = lex_step(input, c2);
    assert(c3 == LexConfig { pos: n, state: LexerState::Normal, cur: s, toks: seq![] });
    assert(lex_from(input, c3) == lex_finish(c3));
    assert(flushed(s, seq![]) =~= (if s.len() == 0 { Seq::<SpecToken>::empty() } else { seq![SpecToken::Word(s)] }));
}

/// A character that unquoted text takes as it is: not white space, not a
/// quote or backslash, not an operator character, and not a digit that could
/// name a descriptor.
pub open spec fn ordinary_char(c: char) -> bool {
    &&& !crate::utils::text::spec_is_whitespace(c)
    &&& c != '\'' && c != '"' && c != '\\'
    &&& c != '>' && c != '<' && c != '|' && c != '&'
    &&& c != '0' && c != '1' && c != '2'
}

proof fn lemma_ordinary_run(input: Seq<char>, cfg: LexConfig, q: int)
    requires
        cfg.state == LexerState::Normal,
        0 <= cfg.pos <= q <= input.len(),
        forall|k: int| cfg.pos <= k < q ==> ordinary_char(#[trigger] input[k]),
    ensures
        lex_from(input, cfg) == lex_from(
            input,
            LexConfig { pos: q, cur: cfg.cur + input.subrange(cfg.pos, q), ..cfg },
        ),
    decreases q - cfg.pos,
{
    if cfg.pos == q {
        assert(cfg.cur + input.subrange(cfg.pos, q) =~= cfg.cur);
        assert(LexConfig { pos: q, cur: cfg.cur + input.subrange(cfg.pos, q), ..cfg } =~= cfg);
    } else {
        assert(ordinary_char(input[cfg.pos]));
        let next = lex_step(input, cfg);
        assert(next == extend(cfg.pos + 1, LexerState::Normal, cfg.cur, cfg.toks, input[cfg.pos]));
        lemma_ordinary_run(input, next, q);
        assert(next.cur + input.subrange(next.pos, q) =~= cfg.cur + input.subrange(cfg.pos, q));
    }
}

/// Outside quotes a backslash is dropped and the character after it, any
/// character at all (white space, a quote, an operator), is taken as it is:
/// `a\cb` is the one word `acb`.
pub proof fn lemma_backslash_escapes_next_char(a: Seq<char>, c: char, b: Seq<char>)
    requires
        forall|k: int| 0 <= k < a.len() ==> ordinary_char(#[trigger] a[k]),
        forall|k: int| 0 <= k < b.len() ==> ordinary_char(#[trigger] b[k]),
    ensures
        spec_tokenize(a + seq!['\\', c] + b) == Ok::<Seq<SpecToken>, Seq<char>>(
            seq![SpecToken::Word(a + seq![c] + b)],
        ),
{
    let input = a + seq!['\\', c] + b;
    let n = input.len() as int;
    let la = a.len() as int;
    assert forall|k: int| 0 <= k < la implies ordinary_char(#[trigger] input[k]) by {
        assert(input[k] == a[k]);
    }
    lemma_ordinary_run(input, lex_start(), la);
    assert(input.subrange(0, la) =~= a);
    assert(Seq::<char>::empty() + a =~= a);
    let c1 = LexConfig { pos: la, state: LexerState::Normal, cur: a, toks: seq![] };
    assert(LexConfig { pos: la, cur: lex_start().cur + input.subrange(0, la), ..lex_start() } == c1);
    assert(spec_tokenize(input) == lex_from(input, c1));
    assert(input[la] == '\\');
    let c2 = lex_step(input, c1);
    assert(c2 == LexConfig {
        pos: la + 1,
        state: LexerState::Escape(Box::new(LexerState::Normal)),
        cur: a,
        toks: seq![],
    });
    assert(input[la + 1] == c);
    let c3 = lex_step(input, c2);
    assert(c3 == LexConfig { pos: la + 2, state: LexerState::Normal, cur: a.push(c), toks: seq![] });
    assert(lex_from(input, c1) == lex_from(input, c2));
    assert(lex_from(input, c2) == lex_from(input, c3));
    assert forall|k: int| la + 2 <= k < n implies ordinary_char(#[trigger] input[k]) by {
        assert(input[k] == b[k - la - 2]);
    }
    lemma_ordinary_run(input, c3, n);
    assert(input.subrange(la + 2, n) =~= b);
    assert(a.push(c) + b =~= a + seq![c] + b);
    let c4 = LexConfig { pos: n, state: LexerState::Normal, cur: a + seq![c] + b, toks: seq![] };
    assert(LexConfig { pos: n, cur: c3.cur + input.subrange(la + 2, n), ..c3 } == c4);
    assert(lex_from(input, c3) == lex_from(input, c4));
    assert(lex_from(input, c4) == lex_finish(c4));
    assert(flushed(a + seq![c] + b, seq![]) =~= seq![SpecToken::Word(a + seq![c] + b)]);
}

/// Splits a command line into tokens, following shell quoting rules.
pub struct Lexer {
    chars: Vec<char>,
    pos: usize,
    current_arg: String,
    state: LexerState,
    tokens: Vec<Token>,
}

impl Lexer {
    /// The lexer's state as a snapshot.
    pub closed spec fn config(&self) -> LexConfig {
        LexConfig {
            pos: self.pos as int,
            state: self.state,
            cur: self.current_arg@,
            toks: self.tokens.deep_view(),
        }
    }

    /// The characters being tokenized.
    pub closed spec fn input(&self) -> Seq<char> {
        self.chars@
    }

    /// Tokenizes `input`; fails with a syntax error on an unclosed quote or a
    /// trailing backslash.
    pub fn tokenizer(input: &str) -> (r: Result<Vec<Token>, ShellError>)
        ensures
            r is Ok <==> spec_tokenize(input@) is Ok,
            r matches Ok(toks) ==> spec_tokenize(input@) == Ok::<Seq<SpecToken>, Seq<char>>(
                toks.deep_view(),
            ),
            r matches Err(e) ==> (e matches ShellError::SyntaxError(m) && spec_tokenize(input@)
                == Err::<Seq<SpecToken>, Seq<char>>(m@)),
    {
        let mut lexer = Lexer::new(input);
        lexer.tokenize()
    }

    fn new(input: &str) -> (l: Lexer)
        ensures
            l.input() == input@,
            l.config() == lex_start(),
    {
        let l = Lexer {
            chars: chars_of(input),
            pos: 0,
            current_arg: String::new(),
            state: LexerState::Normal,
            tokens: Vec::new(),
        };
        assert(l.tokens.deep_view() =~= Seq::<SpecToken>::empty());
        l
    }

    fn tokenize(&mut self) -> (r: Result<Vec<Token>, ShellError>)
        requires
            old(self).config() == lex_start(),
        ensures
            r is Ok <==> spec_tokenize(old(self).input()) is Ok,
            r matches Ok(toks) ==> spec_tokenize(old(self).input()) == Ok::<
                Seq<SpecToken>,
                Seq<char>,
            >(toks.deep_view()),
            r matches Err(e) ==> (e matches ShellError::SyntaxError(m) && spec_tokenize(
                old(self).input(),
            ) == Err::<Seq<SpecToken>, Seq<char>>(m@)),
    {
        let ghost input = self.chars@;
        while self.pos < self.chars.len()
            invariant
                self.chars@ == input,
                self.pos <= self.chars.len(),
                lex_from(input, self.config()) == spec_tokenize(input),
            decreases self.chars.len() - self.pos,
        {
            let ghost before = self.config();
            let c = self.chars[self.pos];
            self.pos = self.pos + 1;
            match &self.state {
                LexerState::Normal => self.lex_normal(c),
                LexerState::SingleQuote => self.lex_single_quote(c),
                LexerState::DoubleQuote => self.lex_double_quote(c),
                LexerState::Escape(_) => self.lex_escapee(c),
            }
            assert(self.config() == lex_step(input, before));
        }
        let ghost at_end = self.config();
        self.flush_current_word();
        let mut tokens: Vec<Token> = Vec::new();
        std::mem::swap(&mut tokens, &mut self.tokens);
        match &self.state {
            LexerState::Normal => Ok(tokens),
            LexerState::SingleQuote => Err(
                ShellError::SyntaxError(String::from_str("unclosed single quote")),
            ),
            LexerState::DoubleQuote => Err(
                ShellError::SyntaxError(String::from_str("unclosed double quote")),
            ),
            LexerState::Escape(_) => Err(
                ShellError::SyntaxError(String::from_str("unclosed escape sequence")),
            ),
        }
    }

    /// Whether the next unread character is `c`.
    fn peek_is(&self, c: char) -> (r: bool)
        ensures
            r == next_is(self.chars@, self.pos as int, c),
    {
        self.pos < self.chars.len() && self.chars[self.pos] == c
    }

    fn lex_normal(&mut self, c: char)
        requires
            1 <= old(self).pos <= old(self).chars.len(),
            old(self).chars@[old(self).pos - 1] == c,
            old(self).state == LexerState::Normal,
        ensures
            final(self).chars == old(self).chars,
            final(self).config() == step_normal(
                old(self).chars@,
                old(self).pos - 1,
                old(self).current_arg@,
                old(self).tokens.deep_view(),
            ),
    {
        if c == '\'' {
            self.state = LexerState::SingleQuote;
        } else if c == '"' {
            self.state = LexerState::DoubleQuote;
        } else if c == '\\' {
            self.state = LexerState::Escape(Box::new(LexerState::Normal));
        } else if c == '0' || c == '1' || c == '2' {
            self.handle_descriptor(c);
        } else if c == '>' {
            if self.peek_is('>') {
                self.pos = self.pos + 1;
                self.flush_current_word_then(Token::RedirectAppend(Descriptor::Stdout));
            } else {
                self.flush_current_word_then(Token::RedirectOut(Descriptor::Stdout));
            }
        } else if c == '<' {
            self.flush_current_word_then(Token::RedirectIn(Descriptor::Stdin));
        } else if c == '|' {
            if self.peek_is('|') {
                self.pos = self.pos + 1;
                self.flush_current_word_then(Token::Or);
            } else {
                self.flush_current_word_then(Token::Pipe);
            }
        } else if c == '&' {
            if self.peek_is('&') {
                self.pos = self.pos + 1;
                self.flush_current_word_then(Token::And);
            } else {
                self.flush_current_word_then(Token::Background);
            }
        } else if is_whitespace(c) {
            self.flush_current_word();
        } else {
            push_char(&mut self.current_arg, c);
        }
    }

    fn lex_single_quote(&mut self, c: char)
        requires
            1 <= old(self).pos <= old(self).chars.len(),
            old(self).chars@[old(self).pos - 1] == c,
            old(self).state == LexerState::SingleQuote,
        ensures
            final(self).chars == old(self).chars,
            final(self).config() == step_single_quote(
                old(self).chars@,
                old(self).pos - 1,
                old(self).current_arg@,
                old(self).tokens.deep_view(),
            ),
    {
        if c == '\'' {
            self.state = LexerState::Normal;
        } else {
            push_char(&mut self.current_arg, c);
        }
    }

    fn lex_double_quote(&mut self, c: char)
        requires
            1 <= old(self).pos <= old(self).chars.len(),
            old(self).chars@[old(self).pos - 1] == c,
            old(self).state == LexerState::DoubleQuote,
        ensures
            final(self).chars == old(self).chars,
            final(self).config() == step_double_quote(
                old(self).chars@,
                old(self).pos - 1,
                old(self).current_arg@,
                old(self).tokens.deep_view(),
            ),
    {
        if c == '"' {
            self.state = LexerState::Normal;
        } else if c == '\\' {
            self.state = LexerState::Escape(Box::new(LexerState::DoubleQuote));
        } else {
            push_char(&mut self.current_arg, c);
        }
    }

    fn lex_escapee(&mut self, c: char)
        requires
            1 <= old(self).pos <= old(self).chars.len(),
            old(self).chars@[old(self).pos - 1] == c,
            old(self).state is Escape,
        ensures
            final(self).chars == old(self).chars,
            final(self).config() == step_escape(
                *old(self).state->Escape_0,
                old(self).chars@,
                old(self).pos - 1,
                old(self).current_arg@,
                old(self).tokens.deep_view(),
            ),
    {
        let mut taken = LexerState::Normal;
        std::mem::swap(&mut taken, &mut self.state);
        match taken {
            LexerState::Escape(prev) => {
                let in_double = match *prev {
                    LexerState::DoubleQuote => true,
                    _ => false,
                };
                if in_double {
                    if c == '"' || c == '\\' {
                        push_char(&mut self.current_arg, c);
                    } else {
                        push_char(&mut self.current_arg, '\\');
                        push_char(&mut self.current_arg, c);
                    }
                } else {
                    push_char(&mut self.current_arg, c);
                }
                self.state = *prev;
            },
            _ => {},
        }
    }

    fn flush_current_word(&mut self)
        ensures
            final(self).chars == old(self).chars,
            final(self).pos == old(self).pos,
            final(self).state == old(self).state,
            final(self).current_arg@ == Seq::<char>::empty(),
            final(self).tokens.deep_view() == flushed(
                old(self).current_arg@,
                old(self).tokens.deep_view(),
            ),
    {
        if !self.current_arg.as_str().is_empty() {
            let mut word = String::new();
            std::mem::swap(&mut word, &mut self.current_arg);
            let ghost before = self.tokens.deep_view();
            let t = Token::Word(word);
            self.tokens.push(t);
            assert(self.tokens.deep_view() =~= before.push(t.deep_view()));
        } else {
            assert(self.current_arg@ =~= Seq::<char>::empty());
        }
    }

    fn flush_current_word_then(&mut self, token: Token)
        requires
            old(self).state == LexerState::Normal,
        ensures
            final(self).chars == old(self).chars,
            final(self).pos == old(self).pos,
            final(self).state == LexerState::Normal,
            final(self).current_arg@ == Seq::<char>::empty(),
            final(self).tokens.deep_view() == flushed(
                old(self).current_arg@,
                old(self).tokens.deep_view(),
            ).push(token.deep_view()),
    {
        self.flush_current_word();
        let ghost before = self.tokens.deep_view();
        let ghost tv = token.deep_view();
        self.tokens.push(token);
        assert(self.tokens.deep_view() =~= before.push(tv));
    }

    fn handle_descriptor(&mut self, c: char)
        requires
            1 <= old(self).pos <= old(self).chars.len(),
            old(self).chars@[old(self).pos - 1] == c,
            old(self).state == LexerState::Normal,
            c == '0' || c == '1' || c == '2',
        ensures
            final(self).chars == old(self).chars,
            final(self).config() == step_normal(
                old(self).chars@,
                old(self).pos - 1,
                old(self).current_arg@,
                old(self).tokens.deep_view(),
            ),
    {
        if self.peek_is('>') {
            self.pos = self.pos + 1;
            if self.peek_is('>') {
                self.pos = self.pos + 1;
                self.flush_current_word_then(Token::RedirectAppend(Descriptor::from_char(c)));
            } else {
                self.flush_current_word_then(Token::RedirectOut(Descriptor::from_char(c)));
            }
        } else if self.peek_is('<') {
            self.pos = self.pos + 1;
            self.flush_current_word_then(Token::RedirectIn(Descriptor::from_char(c)));
        } else {
            push_char(&mut self.current_arg, c);
        }
    }
}

} // verus!
