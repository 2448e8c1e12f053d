use vstd::prelude::*;
use crate::error::ShellError;
use crate::parser::lexer::{SpecToken, Token};
use crate::utils::redirection::{Descriptor, Redirection, RedirectionType, SpecRedirection};

verus! {

/// One command with its arguments and redirections, as typed.
#[derive(Debug, Clone, Default)]
pub struct ParsedCommand {
    pub cmd: String,
    pub args: Vec<String>,
    pub redirects: Vec<Redirection>,
}

/// A command as a mathematical value.
#[verifier::ext_equal]
pub struct SpecCommand {
    pub cmd: Seq<char>,
    pub args: Seq<Seq<char>>,
    pub redirects: Seq<SpecRedirection>,
}

impl DeepView for ParsedCommand {
    type V = SpecCommand;

    open spec fn deep_view(&self) -> SpecCommand {
        SpecCommand {
            cmd: self.cmd@,
            args: self.args.deep_view(),
            redirects: self.redirects.deep_view(),
        }
    }
}

/// One item of a command line.
#[derive(Debug)]
pub enum ASTNode {
    Simple(ParsedCommand),
    Pipeline(Vec<ParsedCommand>),
    Background(Box<ASTNode>),
}

/// An item of a command line as a mathematical value.
pub enum SpecAst {
    Simple(SpecCommand),
    Pipeline(Seq<SpecCommand>),
    Background(Box<SpecAst>),
}

/// The mathematical value of an item.
pub open spec fn ast_view(a: ASTNode) -> SpecAst
    decreases a,
{
    match a {
        ASTNode::Simple(c) => SpecAst::Simple(c.deep_view()),
        ASTNode::Pipeline(cs) => SpecAst::Pipeline(cs.deep_view()),
        ASTNode::Background(inner) => SpecAst::Background(Box::new(ast_view(*inner))),
    }
}

impl DeepView for ASTNode {
    type V = SpecAst;

    open spec fn deep_view(&self) -> SpecAst {
        ast_view(*self)
    }
}

/// Why a token sequence is not a command line.
pub enum ParseFailure {
    /// A syntax error with this message.
    Syntax(Seq<char>),
    /// This token stands where a command was expected.
    Unexpected(SpecToken),
}

/// `e` is the error that reports `f`.
pub open spec fn reports(e: ShellError, f: ParseFailure) -> bool {
    match f {
        ParseFailure::Syntax(m) => e matches ShellError::SyntaxError(s) && s@ == m,
        ParseFailure::Unexpected(t) => e matches ShellError::ParserSyntaxError(tok)
            && tok.deep_view() == t,
    }
}

/// The result of parsing a prefix: the value and the tokens left over.
pub type Parsed<T> = Result<(T, Seq<SpecToken>), ParseFailure>;

/// The tokens that end a command.
pub open spec fn is_operator(t: SpecToken) -> bool {
    t is Pipe || t is And || t is Or || t is Background
}

/// A command with nothing in it yet.
pub open spec fn empty_command() -> SpecCommand {
    SpecCommand { cmd: seq![], args: seq![], redirects: seq![] }
}

/// The first word names the command; later words are its arguments.
pub open spec fn add_word(acc: SpecCommand, w: Seq<char>) -> SpecCommand {
    if acc.cmd.len() == 0 {
        SpecCommand { cmd: w, ..acc }
    } else {
        SpecCommand { args: acc.args.push(w), ..acc }
    }
}

/// The message for a redirection operator with no file name after it.
pub open spec fn missing_file_message(ty: RedirectionType) -> Seq<char> {
    match ty {
        RedirectionType::Input => "expected file name after <"@,
        RedirectionType::Output => "expected file name after >"@,
        RedirectionType::Append => "expected file name after >>"@,
    }
}

/// The outcome of a command that ends before `rest`, which starts with the
/// operator `term` if there is one: a command with no name is an error that
/// names that operator, or says the command is empty.
pub open spec fn end_command(acc: SpecCommand, term: Option<SpecToken>, rest: Seq<SpecToken>) -> Parsed<SpecCommand> {
    if acc.cmd.len() == 0 {
        match term {
            Some(t) => Err(ParseFailure::Unexpected(t)),
            None => Err(ParseFailure::Syntax("unexpected empty command"@)),
        }
    } else {
        Ok((acc, rest))
    }
}

/// A redirection of `d` with type `ty`, whose operator has just been read;
/// the next token must be the file name.
pub open spec fn redirect_then(ts: Seq<SpecToken>, acc: SpecCommand, d: Descriptor, ty: RedirectionType) -> Parsed<SpecCommand>
    decreases ts.len(), 0int,
{
    if ts.len() > 0 && ts[0] is Word {
        let r = SpecRedirection { descriptor: d, file: ts[0]->Word_0, redirection_type: ty };
        command_from(ts.drop_first(), SpecCommand { redirects: acc.redirects.push(r), ..acc })
    } else {
        Err(ParseFailure::Syntax(missing_file_message(ty)))
    }
}

/// Reads words and redirections into `acc` up to the next operator.
pub open spec fn command_from(ts: Seq<SpecToken>, acc: SpecCommand) -> Parsed<SpecCommand>
    decreases ts.len(), 1int,
{
    if ts.len() == 0 {
        end_command(acc, None, ts)
    } else {
        match ts[0] {
            SpecToken::Word(w) => command_from(ts.drop_first(), add_word(acc, w)),
            SpecToken::RedirectOut(d) => redirect_then(ts.drop_first(), acc, d, RedirectionType::Output),
            SpecToken::RedirectAppend(d) => redirect_then(ts.drop_first(), acc, d, RedirectionType::Append),
            SpecToken::RedirectIn(d) => redirect_then(ts.drop_first(), acc, d, RedirectionType::Input),
            _ => end_command(acc, Some(ts[0]), ts),
        }
    }
}

/// A simple command: words and redirections up to the next operator, with a
/// command name among them.
pub open spec fn spec_parse_simple(ts: Seq<SpecToken>) -> Parsed<SpecCommand> {
    command_from(ts, empty_command())
}

/// `r` is what is left of `ts` after reading some of its tokens.
pub open spec fn is_rest_of(r: Seq<SpecToken>, ts: Seq<SpecToken>) -> bool {
    r.len() <= ts.len() && r == ts.skip(ts.len() - r.len())
}

/// A command that parses stops at an operator or at the end, has a name, and
/// has used at least one token unless it was started with a name already.
pub proof fn lemma_command_from(ts: Seq<SpecToken>, acc: SpecCommand)
    ensures
        command_from(ts, acc) matches Ok((c, r)) ==> {
            &&& is_rest_of(r, ts)
            &&& c.cmd.len() > 0
            &&& (r.len() == 0 || is_operator(r[0]))
            &&& (acc.cmd.len() == 0 ==> r.len() < ts.len())
        },
    decreases ts.len(), 1int,
{
    assert(ts.skip(0) =~= ts);
    if ts.len() > 0 {
        match ts[0] {
            SpecToken::Word(w) => {
                lemma_command_from(ts.drop_first(), add_word(acc, w));
                assert(ts.drop_first() =~= ts.skip(1));
            },
            SpecToken::RedirectOut(d) => lemma_redirect_then(ts.drop_first(), acc, d, RedirectionType::Output),
            SpecToken::RedirectAppend(d) => lemma_redirect_then(ts.drop_first(), acc, d, RedirectionType::Append),
            SpecToken::RedirectIn(d) => lemma_redirect_then(ts.drop_first(), acc, d, RedirectionType::Input),
            _ => {
                assert(ts =~= ts.skip(0));
            },
        }
        if let Ok((c, r)) = command_from(ts, acc) {
            if !(ts[0] is Pipe || ts[0] is And || ts[0] is Or || ts[0] is Background) {
                let t1 = ts.drop_first();
                assert(t1.skip(t1.len() - r.len()) =~= ts.skip(ts.len() - r.len()));
            }
        }
    }
}

/// The companion of [`lemma_command_from`] for a redirection.
pub proof fn lemma_redirect_then(ts: Seq<SpecToken>, acc: SpecCommand, d: Descriptor, ty: RedirectionType)
    ensures
        redirect_then(ts, acc, d, ty) matches Ok((c, r)) ==> {
            &&& is_rest_of(r, ts)
            &&& c.cmd.len() > 0
            &&& (r.len() == 0 || is_operator(r[0]))
            &&& r.len() < ts.len()
        },
    decreases ts.len(), 0int,
{
    if ts.len() > 0 && ts[0] is Word {
        let r0 = SpecRedirection { descriptor: d, file: ts[0]->Word_0, redirection_type: ty };
        let acc2 = SpecCommand { redirects: acc.redirects.push(r0), ..acc };
        lemma_command_from(ts.drop_first(), acc2);
        if let Ok((c, r)) = redirect_then(ts, acc, d, ty) {
            let t1 = ts.drop_first();
            assert(t1.skip(t1.len() - r.len()) =~= ts.skip(ts.len() - r.len()));
        }
    }
}

/// The stages after the first one of a pipeline: each `|` must be followed
/// by another simple command.
pub open spec fn pipeline_rest(ts: Seq<SpecToken>, cmds: Seq<SpecCommand>) -> Parsed<Seq<SpecCommand>>
    decreases ts.len(),
{
    if ts.len() > 0 && ts[0] is Pipe {
        match spec_parse_simple(ts.drop_first()) {
            Ok((c, r)) => {
                proof {
                    lemma_command_from(ts.drop_first(), empty_command());
                }
                pipeline_rest(r, cmds.push(c))
            },
            Err(f) => Err(f),
        }
    } else {
        Ok((cmds, ts))
    }
}

/// A pipeline: one or more simple commands joined by `|`; a single stage is
/// a simple command.
pub open spec fn spec_parse_pipeline(ts: Seq<SpecToken>) -> Parsed<SpecAst> {
    match spec_parse_simple(ts) {
        Ok((c, r)) => match pipeline_rest(r, seq![c]) {
            Ok((cmds, r2)) => Ok(
                (
                    if cmds.len() == 1 {
                        SpecAst::Simple(cmds[0])
                    } else {
                        SpecAst::Pipeline(cmds)
                    },
                    r2,
                ),
            ),
            Err(f) => Err(f),
        },
        Err(f) => Err(f),
    }
}

/// The items of a command line after those already in `items`. A pipeline
/// followed by `&` runs in the background, and a second `&` right after it
/// is an error; at `&&` or `||` the line ends there and the rest of it is
/// dropped; an empty line is an error.
pub open spec fn parse_items(ts: Seq<SpecToken>, items: Seq<SpecAst>) -> Result<Seq<SpecAst>, ParseFailure>
    decreases ts.len(),
{
    if ts.len() == 0 {
        if items.len() == 0 {
            Err(ParseFailure::Syntax("unexpected empty command"@))
        } else {
            Ok(items)
        }
    } else {
        match spec_parse_pipeline(ts) {
            Ok((a, r)) => {
                proof {
                    lemma_parse_pipeline(ts);
                }
                if r.len() > 0 && r[0] is Background {
                    if r.len() > 1 && r[1] is Background {
                        Err(ParseFailure::Unexpected(SpecToken::Background))
                    } else {
                        parse_items(r.drop_first(), items.push(SpecAst::Background(Box::new(a))))
                    }
                } else if r.len() > 0 && (r[0] is And || r[0] is Or) {
                    Ok(items.push(a))
                } else {
                    parse_items(r, items.push(a))
                }
            },
            Err(f) => Err(f),
        }
    }
}

/// The items of a whole command line.
pub open spec fn spec_parse(ts: Seq<SpecToken>) -> Result<Seq<SpecAst>, ParseFailure> {
    parse_items(ts, seq![])
}

/// Every stage that [`pipeline_rest`] adds has a name; it stops at the end
/// or at an operator other than `|`.
pub proof fn lemma_pipeline_rest(ts: Seq<SpecToken>, cmds: Seq<SpecCommand>)
    requires
        ts.len() == 0 || is_operator(ts[0]),
    ensures
        pipeline_rest(ts, cmds) matches Ok((cs, r)) ==> {
            &&& is_rest_of(r, ts)
            &&& (r.len() == 0 || (is_operator(r[0]) && !(r[0] is Pipe)))
            &&& cs.len() >= cmds.len()
            &&& cs.take(cmds.len() as int) == cmds
            &&& forall|i: int| cmds.len() <= i < cs.len() ==> #[trigger] cs[i].cmd.len() > 0
        },
    decreases ts.len(),
{
    assert(ts.skip(0) =~= ts);
    assert(cmds.take(cmds.len() as int) =~= cmds);
    if ts.len() > 0 && ts[0] is Pipe {
        lemma_command_from(ts.drop_first(), empty_command());
        if let Ok((c, r)) = spec_parse_simple(ts.drop_first()) {
            lemma_pipeline_rest(r, cmds.push(c));
            if let Ok((cs, r2)) = pipeline_rest(r, cmds.push(c)) {
                let t1 = ts.drop_first();
                assert(r.skip(r.len() - r2.len()) =~= ts.skip(ts.len() - r2.len()));
                assert(cs.take(cmds.len() as int) =~= cs.take(cmds.len() + 1int).take(cmds.len() as int));
                assert(cs[cmds.len() as int] == cmds.push(c)[cmds.len() as int]);
            }
        }
    }
}

/// A pipeline that parses uses at least one token, has named stages, more
/// than one of them when it is a `Pipeline`, and stops at the end or at `&`,
/// `&&` or `||`.
pub proof fn lemma_parse_pipeline(ts: Seq<SpecToken>)
    ensures
        spec_parse_pipeline(ts) matches Ok((a, r)) ==> {
            &&& is_rest_of(r, ts)
            &&& r.len() < ts.len()
            &&& (r.len() == 0 || (is_operator(r[0]) && !(r[0] is Pipe)))
            &&& spec_well_formed_stage(a)
        },
{
    lemma_command_from(ts, empty_command());
    if let Ok((c, r)) = spec_parse_simple(ts) {
        lemma_pipeline_rest(r, seq![c]);
        if let Ok((cs, r2)) = pipeline_rest(r, seq![c]) {
            assert(r.skip(r.len() - r2.len()) =~= ts.skip(ts.len() - r2.len()));
            assert(cs[0] == cs.take(1)[0]);
        }
    }
}

/// A foreground item as the parser builds it: a named simple command, or a
/// pipeline of two or more named stages.
pub open spec fn spec_well_formed_stage(a: SpecAst) -> bool {
    match a {
        SpecAst::Simple(c) => c.cmd.len() > 0,
        SpecAst::Pipeline(cs) => cs.len() >= 2 && forall|i: int|
            0 <= i < cs.len() ==> #[trigger] cs[i].cmd.len() > 0,
        SpecAst::Background(_) => false,
    }
}

/// An item as the parser builds it: a well-formed foreground item, possibly
/// put in the background once (never twice).
pub open spec fn spec_well_formed_item(a: SpecAst) -> bool {
    match a {
        SpecAst::Background(inner) => spec_well_formed_stage(*inner),
        _ => spec_well_formed_stage(a),
    }
}

proof fn lemma_parse_items_well_formed(ts: Seq<SpecToken>, items: Seq<SpecAst>)
    requires
        forall|i: int| 0 <= i < items.len() ==> spec_well_formed_item(#[trigger] items[i]),
    ensures
        parse_items(ts, items) matches Ok(out) ==> {
            &&& out.len() >= 1
            &&& forall|i: int| 0 <= i < out.len() ==> spec_well_formed_item(#[trigger] out[i])
        },
    decreases ts.len(),
{
    if ts.len() > 0 {
        lemma_parse_pipeline(ts);
        if let Ok((a, r)) = spec_parse_pipeline(ts) {
            let bg = SpecAst::Background(Box::new(a));
            assert(spec_well_formed_item(bg));
            assert(forall|i: int| 0 <= i < items.push(bg).len() ==> spec_well_formed_item(#[trigger] items.push(bg)[i]));
            assert(forall|i: int| 0 <= i < items.push(a).len() ==> spec_well_formed_item(#[trigger] items.push(a)[i]));
            if r.len() > 0 && r[0] is Background {
                if !(r.len() > 1 && r[1] is Background) {
                    lemma_parse_items_well_formed(r.drop_first(), items.push(bg));
                }
            } else if !(r.len() > 0 && (r[0] is And || r[0] is Or)) {
                lemma_parse_items_well_formed(r, items.push(a));
            }
        }
    }
}

/// Every command line that parses has at least one item, every command in
/// it has a name, every pipeline has two or more stages, and the background
/// marker is never nested.
pub proof fn lemma_parse_well_formed(ts: Seq<SpecToken>)
    ensures
        spec_parse(ts) matches Ok(items) ==> {
            &&& items.len() >= 1
            &&& forall|i: int| 0 <= i < items.len() ==> spec_well_formed_item(#[trigger] items[i])
        },
{
    lemma_parse_items_well_formed(ts, seq![]);
}

/// Parsing a command name with one redirection, written with the operator
/// token `op` and file `f`.
proof fn lemma_one_redirect(w: Seq<char>, op: SpecToken, d: Descriptor, ty: RedirectionType, f: Seq<char>)
    requires
        w.len() > 0,
        command_from(seq![op, SpecToken::Word(f)], SpecCommand { cmd: w, args: seq![], redirects: seq![] })
            == redirect_then(
            seq![SpecToken::Word(f)],
            SpecCommand { cmd: w, args: seq![], redirects: seq![] },
            d,
            ty,
        ),
    ensures
        spec_parse(seq![SpecToken::Word(w), op, SpecToken::Word(f)]) == Ok::<Seq<SpecAst>, ParseFailure>(
            seq![
                SpecAst::Simple(
                    SpecCommand {
                        cmd: w,
                        args: seq![],
                        redirects: seq![SpecRedirection { descriptor: d, file: f, redirection_type: ty }],
                    },
                ),
            ],
        ),
{
    let ts = seq![SpecToken::Word(w), op, SpecToken::Word(f)];
    let named = SpecCommand { cmd: w, args: seq![], redirects: seq![] };
    let red = SpecRedirection { descriptor: d, file: f, redirection_type: ty };
    let full = SpecCommand { cmd: w, args: seq![], redirects: seq![red] };
    assert(add_word(empty_command(), w) == named);
    assert(ts.drop_first() =~= seq![op, SpecToken::Word(f)]);
    assert(seq![SpecToken::Word(f)].drop_first() =~= Seq::<SpecToken>::empty());
    assert(SpecCommand { redirects: named.redirects.push(red), ..named } == full) by {
        assert(named.redirects.push(red) =~= seq![red]);
    }
    assert(command_from(Seq::<SpecToken>::empty(), full) == Ok::<(SpecCommand, Seq<SpecToken>), ParseFailure>((full, Seq::<SpecToken>::empty())));
    assert(redirect_then(seq![SpecToken::Word(f)], named, d, ty) == command_from(Seq::<SpecToken>::empty(), full));
    assert(spec_parse_simple(ts) == Ok::<(SpecCommand, Seq<SpecToken>), ParseFailure>((full, Seq::<SpecToken>::empty())));
    assert(pipeline_rest(Seq::<SpecToken>::empty(), seq![full]) == Ok::<(Seq<SpecCommand>, Seq<SpecToken>), ParseFailure>((seq![full], Seq::<SpecToken>::empty())));
    assert(spec_parse_pipeline(ts) == Ok::<(SpecAst, Seq<SpecToken>), ParseFailure>((SpecAst::Simple(full), Seq::<SpecToken>::empty())));
    assert(Seq::<SpecAst>::empty().push(SpecAst::Simple(full)) =~= seq![SpecAst::Simple(full)]);
    assert(parse_items(Seq::<SpecToken>::empty(), seq![SpecAst::Simple(full)]) == Ok::<Seq<SpecAst>, ParseFailure>(seq![SpecAst::Simple(full)]));
}

/// Each redirection operator gives a redirection of its own kind, whatever
/// its descriptor: `>` writes the file over, `>>` appends to it, `<` reads
/// it; the descriptor is the one the operator names.
pub proof fn lemma_redirect_kinds(w: Seq<char>, d: Descriptor, f: Seq<char>)
    requires
        w.len() > 0,
    ensures
        spec_parse(seq![SpecToken::Word(w), SpecToken::RedirectOut(d), SpecToken::Word(f)]) == Ok::<Seq<SpecAst>, ParseFailure>(
            seq![SpecAst::Simple(SpecCommand { cmd: w, args: seq![], redirects: seq![
                SpecRedirection { descriptor: d, file: f, redirection_type: RedirectionType::Output },
            ] })],
        ),
        spec_parse(seq![SpecToken::Word(w), SpecToken::RedirectAppend(d), SpecToken::Word(f)]) == Ok::<Seq<SpecAst>, ParseFailure>(
            seq![SpecAst::Simple(SpecCommand { cmd: w, args: seq![], redirects: seq![
                SpecRedirection { descriptor: d, file: f, redirection_type: RedirectionType::Append },
            ] })],
        ),
        spec_parse(seq![SpecToken::Word(w), SpecToken::RedirectIn(d), SpecToken::Word(f)]) == Ok::<Seq<SpecAst>, ParseFailure>(
            seq![SpecAst::Simple(SpecCommand { cmd: w, args: seq![], redirects: seq![
                SpecRedirection { descriptor: d, file: f, redirection_type: RedirectionType::Input },
            ] })],
        ),
{
    let named = SpecCommand { cmd: w, args: seq![], redirects: seq![] };
    let tail = seq![SpecToken::Word(f)];
    assert(seq![SpecToken::RedirectOut(d), SpecToken::Word(f)].drop_first() =~= tail);
    assert(seq![SpecToken::RedirectAppend(d), SpecToken::Word(f)].drop_first() =~= tail);
    assert(seq![SpecToken::RedirectIn(d), SpecToken::Word(f)].drop_first() =~= tail);
    lemma_one_redirect(w, SpecToken::RedirectOut(d), d, RedirectionType::Output, f);
    lemma_one_redirect(w, SpecToken::RedirectAppend(d), d, RedirectionType::Append, f);
    lemma_one_redirect(w, SpecToken::RedirectIn(d), d, RedirectionType::Input, f);
}

/// Builds the items of a command line from its tokens.
pub struct Parser {
    /// The tokens not read yet, the next one last.
    tokens: Vec<Token>,
}

/// A copy of an operator token.
fn copy_operator(t: &Token) -> (r: Token)
    requires
        is_operator(t.deep_view()),
    ensures
        r.deep_view() == t.deep_view(),
{
    match t {
        Token::Pipe => Token::Pipe,
        Token::And => Token::And,
        Token::Or => Token::Or,
        _ => Token::Background,
    }
}

impl Parser {
    /// The tokens not read yet, in order.
    pub closed spec fn rest(&self) -> Seq<SpecToken> {
        let v = self.tokens.deep_view();
        Seq::new(v.len(), |i: int| v[v.len() - 1 - i])
    }

    /// Parses a token sequence into the items of a command line.
    pub fn parser(tokens: Vec<Token>) -> (r: Result<Vec<ASTNode>, ShellError>)
        ensures
            match spec_parse(tokens.deep_view()) {
                Ok(items) => r matches Ok(v) && v.deep_view() == items,
                Err(f) => r matches Err(e) && reports(e, f),
            },
    {
        let mut p = Parser::new(tokens);
        p.parse()
    }

    fn new(tokens: Vec<Token>) -> (p: Parser)
        ensures
            p.rest() == tokens.deep_view(),
    {
        let ghost orig = tokens.deep_view();
        let mut tokens = tokens;
        let mut rev: Vec<Token> = Vec::new();
        while tokens.len() > 0
            invariant
                tokens.len() + rev.len() == orig.len(),
                forall|i: int| 0 <= i < tokens.len() ==> #[trigger] tokens@[i].deep_view() == orig[i],
                forall|j: int|
                    0 <= j < rev.len() ==> #[trigger] rev@[j].deep_view() == orig[orig.len() - 1 - j],
            decreases tokens.len(),
        {
            let t = tokens.pop().unwrap();
            rev.push(t);
        }
        let p = Parser { tokens: rev };
        assert(p.rest() =~= orig);
        p
    }

    fn peek(&self) -> (r: Option<&Token>)
        ensures
            r is None <==> self.rest().len() == 0,
            r matches Some(t) ==> t.deep_view() == self.rest()[0],
    {
        let n = self.tokens.len();
        if n == 0 {
            None
        } else {
            Some(&self.tokens[n - 1])
        }
    }

    fn next_token(&mut self) -> (r: Option<Token>)
        ensures
            old(self).rest().len() == 0 ==> r is None && final(self).rest() == old(self).rest(),
            old(self).rest().len() > 0 ==> (r matches Some(t) && t.deep_view() == old(self).rest()[0]
                && final(self).rest() == old(self).rest().drop_first()),
    {
        let ghost before = self.rest();
        let r = self.tokens.pop();
        assert(self.rest() =~= if before.len() == 0 {
            before
        } else {
            before.drop_first()
        });
        r
    }

    fn parse(&mut self) -> (r: Result<Vec<ASTNode>, ShellError>)
        ensures
            match spec_parse(old(self).rest()) {
                Ok(items) => r matches Ok(v) && v.deep_view() == items,
                Err(f) => r matches Err(e) && reports(e, f),
            },
    {
        let ghost goal = spec_parse(self.rest());
        let mut commands: Vec<ASTNode> = Vec::new();
        proof {
            assert(commands.deep_view() =~= Seq::<SpecAst>::empty());
        }
        loop
            invariant
                goal == spec_parse(old(self).rest()),
                parse_items(self.rest(), commands.deep_view()) == goal,
            ensures
                goal == spec_parse(old(self).rest()),
                parse_items(self.rest(), commands.deep_view()) == goal,
                self.rest().len() == 0,
            decreases self.rest().len(),
        {
            if self.peek().is_none() {
                break;
            }
            let ghost ts = self.rest();
            let ghost items = commands.deep_view();
            proof {
                lemma_parse_pipeline(ts);
            }
            let ast = match self.parse_pipeline() {
                Ok(a) => a,
                Err(e) => return Err(e),
            };
            let (is_background, ends_line) = match self.peek() {
                Some(Token::Background) => (true, false),
                Some(Token::And) => (false, true),
                Some(Token::Or) => (false, true),
                _ => (false, false),
            };
            if is_background {
                self.next_token();
                let twice = match self.peek() {
                    Some(Token::Background) => true,
                    _ => false,
                };
                if twice {
                    return Err(ShellError::ParserSyntaxError(Token::Background));
                }
                let node = ASTNode::Background(Box::new(ast));
                commands.push(node);
                assert(commands.deep_view() =~= items.push(node.deep_view()));
            } else if ends_line {
                commands.push(ast);
                assert(commands.deep_view() =~= items.push(ast.deep_view()));
                return Ok(commands);
            } else {
                commands.push(ast);
                assert(commands.deep_view() =~= items.push(ast.deep_view()));
            }
        }
        if commands.len() == 0 {
            Err(ShellError::SyntaxError(String::from_str("unexpected empty command")))
        } else {
            Ok(commands)
        }
    }

    fn parse_pipeline(&mut self) -> (r: Result<ASTNode, ShellError>)
        ensures
            match spec_parse_pipeline(old(self).rest()) {
                Ok((a, rest)) => r matches Ok(node) && node.deep_view() == a && final(self).rest()
                    == rest,
                Err(f) => r matches Err(e) && reports(e, f),
            },
    {
        let ghost ts = self.rest();
        proof {
            lemma_command_from(ts, empty_command());
        }
        let mut commands: Vec<ParsedCommand> = Vec::new();
        match self.parse_simple_command() {
            Ok(c) => commands.push(c),
            Err(e) => return Err(e),
        }
        let ghost first = spec_parse_simple(ts)->Ok_0;
        proof {
            assert(commands.deep_view() =~= seq![first.0]);
        }
        loop
            invariant
                ts == old(self).rest(),
                spec_parse_simple(ts) matches Ok(p) && p == first,
                pipeline_rest(self.rest(), commands.deep_view()) == pipeline_rest(
                    first.1,
                    seq![first.0],
                ),
                commands.len() >= 1,
            ensures
                ts == old(self).rest(),
                spec_parse_simple(ts) matches Ok(p) && p == first,
                pipeline_rest(self.rest(), commands.deep_view()) == pipeline_rest(
                    first.1,
                    seq![first.0],
                ),
                commands.len() >= 1,
                self.rest().len() == 0 || !(self.rest()[0] is Pipe),
            decreases self.rest().len(),
        {
            let is_pipe = match self.peek() {
                Some(Token::Pipe) => true,
                _ => false,
            };
            if !is_pipe {
                break;
            }
            let ghost before = self.rest();
            let ghost cmds = commands.deep_view();
            self.next_token();
            proof {
                lemma_command_from(before.drop_first(), empty_command());
            }
            match self.parse_simple_command() {
                Ok(c) => {
                    commands.push(c);
                    assert(commands.deep_view() =~= cmds.push(c.deep_view()));
                },
                Err(e) => return Err(e),
            }
        }
        let ghost cmds = commands.deep_view();
        assert(pipeline_rest(self.rest(), cmds) == Ok::<(Seq<SpecCommand>, Seq<SpecToken>), ParseFailure>((cmds, self.rest())));
        if commands.len() == 1 {
            let c = commands.pop().unwrap();
            assert(c.deep_view() == cmds[0]);
            Ok(ASTNode::Simple(c))
        } else {
            let node = ASTNode::Pipeline(commands);
            assert(node.deep_view() == SpecAst::Pipeline(cmds));
            Ok(node)
        }
    }

    fn parse_simple_command(&mut self) -> (r: Result<ParsedCommand, ShellError>)
        ensures
            match spec_parse_simple(old(self).rest()) {
                Ok((c, rest)) => r matches Ok(pc) && pc.deep_view() == c && final(self).rest()
                    == rest,
                Err(f) => r matches Err(e) && reports(e, f),
            },
            r matches Err(ShellError::ParserSyntaxError(t)) ==> final(self).rest().len() > 0
                && final(self).rest()[0] == t.deep_view() && is_operator(t.deep_view()),
    {
        let ghost goal = spec_parse_simple(self.rest());
        let mut cmd = ParsedCommand { cmd: String::new(), args: Vec::new(), redirects: Vec::new() };
        let mut terminating_token: Option<Token> = None;
        proof {
            assert(cmd.deep_view() =~= empty_command());
        }
        loop
            invariant_except_break
                terminating_token is None,
            invariant
                goal == spec_parse_simple(old(self).rest()),
                command_from(self.rest(), cmd.deep_view()) == goal,
            ensures
                command_from(self.rest(), cmd.deep_view()) == goal,
                self.rest().len() == 0 ==> terminating_token is None,
                self.rest().len() > 0 ==> is_operator(self.rest()[0]) && (terminating_token matches Some(
                    t,
                ) && t.deep_view() == self.rest()[0]),
            decreases self.rest().len(),
        {
            match self.peek() {
                None => break ,
                Some(t) => {
                    if is_operator_token(t) {
                        terminating_token = Some(copy_operator(t));
                        break ;
                    }
                },
            }
            let ghost before = self.rest();
            let ghost acc = cmd.deep_view();
            let token = match self.next_token() {
                Some(t) => t,
                None => break ,
            };
            match token {
                Token::Word(word) => {
                    if cmd.cmd.as_str().is_empty() {
                        cmd.cmd = word;
                    } else {
                        let ghost args = cmd.args.deep_view();
                        let ghost w = word@;
                        cmd.args.push(word);
                        assert(cmd.args.deep_view() =~= args.push(w));
                    }
                    assert(cmd.deep_view() =~= add_word(acc, before[0]->Word_0));
                },
                Token::RedirectOut(desc) => {
                    assert(command_from(before, acc) == redirect_then(
                        before.drop_first(),
                        acc,
                        desc,
                        RedirectionType::Output,
                    ));
                    match self.parse_redirect(&mut cmd, desc, RedirectionType::Output) {
                        Ok(()) => {},
                        Err(e) => return Err(e),
                    }
                },
                Token::RedirectAppend(desc) => {
                    assert(command_from(before, acc) == redirect_then(
                        before.drop_first(),
                        acc,
                        desc,
                        RedirectionType::Append,
                    ));
                    match self.parse_redirect(&mut cmd, desc, RedirectionType::Append) {
                        Ok(()) => {},
                        Err(e) => return Err(e),
                    }
                },
                Token::RedirectIn(desc) => {
                    assert(command_from(before, acc) == redirect_then(
                        before.drop_first(),
                        acc,
                        desc,
                        RedirectionType::Input,
                    ));
                    match self.parse_redirect(&mut cmd, desc, RedirectionType::Input) {
                        Ok(()) => {},
                        Err(e) => return Err(e),
                    }
                },
                unexpected => return Err(ShellError::ParserSyntaxError(unexpected)),
            }
        }
        if cmd.cmd.as_str().is_empty() {
            return Err(
                match terminating_token {
                    Some(t) => ShellError::ParserSyntaxError(t),
                    None => ShellError::SyntaxError(String::from_str("unexpected empty command")),
                },
            );
        }
        Ok(cmd)
    }

    fn parse_redirect(
        &mut self,
        cmd: &mut ParsedCommand,
        descriptor: Descriptor,
        redirection_type: RedirectionType,
    ) -> (r: Result<(), ShellError>)
        ensures
            old(self).rest().len() > 0 && old(self).rest()[0] is Word ==> {
                &&& r is Ok
                &&& final(self).rest() == old(self).rest().drop_first()
                &&& final(cmd).deep_view() == (SpecCommand {
                    redirects: old(cmd).deep_view().redirects.push(
                        SpecRedirection {
                            descriptor,
                            file: old(self).rest()[0]->Word_0,
                            redirection_type,
                        },
                    ),
                    ..old(cmd).deep_view()
                })
            },
            !(old(self).rest().len() > 0 && old(self).rest()[0] is Word) ==> {
                &&& r matches Err(e) && reports(e, ParseFailure::Syntax(missing_file_message(redirection_type)))
                &&& *final(cmd) == *old(cmd)
                &&& final(self).rest() == if old(self).rest().len() == 0 {
                    old(self).rest()
                } else {
                    old(self).rest().drop_first()
                }
            },
    {
        match self.next_token() {
            Some(Token::Word(filename)) => {
                let ghost before = cmd.redirects.deep_view();
                let red = Redirection { descriptor, file: filename, redirection_type };
                cmd.redirects.push(red);
                assert(cmd.redirects.deep_view() =~= before.push(red.deep_view()));
                Ok(())
            },
            _ => {
                let msg = match redirection_type {
                    RedirectionType::Input => String::from_str("expected file name after <"),
                    RedirectionType::Output => String::from_str("expected file name after >"),
                    RedirectionType::Append => String::from_str("expected file name after >>"),
                };
                Err(ShellError::SyntaxError(msg))
            },
        }
    }
}

/// Whether a token is one of `|`, `&&`, `||`, `&`.
fn is_operator_token(t: &Token) -> (r: bool)
    ensures
        r == is_operator(t.deep_view()),
{
    match t {
        Token::Pipe | Token::And | Token::Or | Token::Background => true,
        _ => false,
    }
}

} // verus!
