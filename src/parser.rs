use crate::ast::{command_is, pipeline_is, program_is, redirect_is, strings_view, CommandShape, Node, Redirection};
use crate::token::{views, Token, TokenKind, TokenView};
use vstd::prelude::*;

verus! {

/// A parsing failure.
#[derive(Debug)]
pub enum ParseError {
    /// The program ended before the end of the tokens.
    TokensNotParsed(&'static str),
    /// A token that the grammar does not allow where it stands.
    NotExpectedToken(&'static str),
    /// A read past the last token.
    IndexOutOfBounds(&'static str),
}

/// The kind of a parsing failure.
pub enum Fault {
    Unparsed,
    Unexpected,
    OutOfBounds,
}

pub open spec fn fault_of(e: ParseError) -> Fault {
    match e {
        ParseError::TokensNotParsed(_) => Fault::Unparsed,
        ParseError::NotExpectedToken(_) => Fault::Unexpected,
        ParseError::IndexOutOfBounds(_) => Fault::OutOfBounds,
    }
}

/// The texts of the tokens `t`.
pub open spec fn texts(t: Seq<TokenView>) -> Seq<Seq<char>> {
    t.map_values(|v: TokenView| v.1)
}

/// The redirection that starts at position `i`, where one does.
pub open spec fn redirect_at(t: Seq<TokenView>, i: int) -> Redirection {
    if t[i].0 == TokenKind::LRedirect {
        Redirection::Read(t[i + 1].1)
    } else if t[i].0 == TokenKind::RRedirect && t[i + 1].0 == TokenKind::RRedirect {
        Redirection::Append(t[i + 2].1)
    } else if t[i].0 == TokenKind::RRedirect {
        Redirection::Write(t[i + 1].1)
    } else {
        Redirection::Append(t[i + 1].1)
    }
}

/// `done` in front of the items that `r` parsed.
pub open spec fn prefixed<A>(done: Seq<A>, r: Result<(Seq<A>, int), Fault>) -> Result<(Seq<A>, int), Fault> {
    match r {
        Ok((items, k)) => Ok((done + items, k)),
        Err(f) => Err(f),
    }
}

/// The first position at or after `i` that holds no word.
pub open spec fn words_end(t: Seq<TokenView>, i: int) -> int
    decreases t.len() - i,
{
    if i < 0 || i >= t.len() || t[i].0 != TokenKind::Regular {
        i
    } else {
        words_end(t, i + 1)
    }
}

/// The redirections from position `i` on, and the position after them.
///
/// `< w` reads, `> w` writes, `>> w` and `> > w` append; a redirection
/// operator not followed by a word is unexpected.
pub open spec fn parse_redirects(t: Seq<TokenView>, i: int) -> Result<(Seq<Redirection>, int), Fault>
    decreases t.len() - i,
{
    if i < 0 || i >= t.len() {
        Err(Fault::OutOfBounds)
    } else {
        let k = t[i].0;
        if k == TokenKind::LRedirect {
            if i + 1 >= t.len() {
                Err(Fault::OutOfBounds)
            } else if t[i + 1].0 == TokenKind::Regular {
                prefixed(seq![Redirection::Read(t[i + 1].1)], parse_redirects(t, i + 2))
            } else {
                Err(Fault::Unexpected)
            }
        } else if k == TokenKind::RRedirect {
            if i + 1 >= t.len() {
                Err(Fault::OutOfBounds)
            } else if t[i + 1].0 == TokenKind::RRedirect {
                if i + 2 >= t.len() {
                    Err(Fault::OutOfBounds)
                } else if t[i + 2].0 == TokenKind::Regular {
                    prefixed(seq![Redirection::Append(t[i + 2].1)], parse_redirects(t, i + 3))
                } else {
                    Err(Fault::Unexpected)
                }
            } else if t[i + 1].0 == TokenKind::Regular {
                prefixed(seq![Redirection::Write(t[i + 1].1)], parse_redirects(t, i + 2))
            } else {
                Err(Fault::Unexpected)
            }
        } else if k == TokenKind::RAppend {
            if i + 1 >= t.len() {
                Err(Fault::OutOfBounds)
            } else if t[i + 1].0 == TokenKind::Regular {
                prefixed(seq![Redirection::Append(t[i + 1].1)], parse_redirects(t, i + 2))
            } else {
                Err(Fault::Unexpected)
            }
        } else {
            Ok((Seq::empty(), i))
        }
    }
}

/// The command at position `i`: its words, then its redirections.
pub open spec fn parse_command(t: Seq<TokenView>, i: int) -> Result<(CommandShape, int), Fault> {
    let j = words_end(t, i);
    match parse_redirects(t, j) {
        Ok((rs, k)) => Ok(
            (CommandShape { words: texts(t.subrange(i, j)), redirects: rs }, k),
        ),
        Err(f) => Err(f),
    }
}

/// The commands that follow a pipe, from position `i` on.
pub open spec fn parse_piped(t: Seq<TokenView>, i: int) -> Result<(Seq<CommandShape>, int), Fault>
    decreases t.len() - i,
{
    if i < 0 || i >= t.len() {
        Err(Fault::OutOfBounds)
    } else if t[i].0 != TokenKind::Pipe {
        Ok((Seq::empty(), i))
    } else {
        match parse_command(t, i + 1) {
            Ok((c, j)) => {
                proof {
                    lemma_command_advances(t, i + 1);
                }
                prefixed(seq![c], parse_piped(t, j))
            },
            Err(f) => Err(f),
        }
    }
}

/// The pipeline at position `i`.
pub open spec fn parse_pipeline(t: Seq<TokenView>, i: int) -> Result<(Seq<CommandShape>, int), Fault> {
    match parse_command(t, i) {
        Ok((c, j)) => prefixed(seq![c], parse_piped(t, j)),
        Err(f) => Err(f),
    }
}

/// The pipelines that follow a separator, from position `i` on.
pub open spec fn parse_separated(t: Seq<TokenView>, i: int) -> Result<(Seq<Seq<CommandShape>>, int), Fault>
    decreases t.len() - i,
{
    if i < 0 || i >= t.len() {
        Err(Fault::OutOfBounds)
    } else if t[i].0 != TokenKind::CommandSeparator {
        Ok((Seq::empty(), i))
    } else {
        match parse_pipeline(t, i + 1) {
            Ok((p, j)) => {
                proof {
                    lemma_pipeline_advances(t, i + 1);
                }
                prefixed(seq![p], parse_separated(t, j))
            },
            Err(f) => Err(f),
        }
    }
}

/// The program from position `i` on: pipelines separated by `;`, then `EOF`.
pub open spec fn parse_program(t: Seq<TokenView>, i: int) -> Result<Seq<Seq<CommandShape>>, Fault> {
    match parse_pipeline(t, i) {
        Ok((p, j)) => match parse_separated(t, j) {
            Ok((ps, k)) => if k < 0 || k >= t.len() {
                Err(Fault::OutOfBounds)
            } else if t[k].0 != TokenKind::EOF {
                Err(Fault::Unparsed)
            } else {
                Ok(seq![p] + ps)
            },
            Err(f) => Err(f),
        },
        Err(f) => Err(f),
    }
}

pub proof fn lemma_words_end(t: Seq<TokenView>, i: int)
    requires
        0 <= i,
    ensures
        i <= words_end(t, i),
        i <= t.len() ==> words_end(t, i) <= t.len(),
    decreases t.len() - i,
{
    if !(i >= t.len() || t[i].0 != TokenKind::Regular) {
        lemma_words_end(t, i + 1);
    }
}

pub proof fn lemma_redirects_advance(t: Seq<TokenView>, i: int)
    ensures
        parse_redirects(t, i) matches Ok((_, k)) ==> i <= k < t.len(),
    decreases t.len() - i,
{
    if 0 <= i < t.len() {
        if i + 2 <= t.len() {
            lemma_redirects_advance(t, i + 2);
        }
        if i + 3 <= t.len() {
            lemma_redirects_advance(t, i + 3);
        }
    }
}

pub proof fn lemma_command_advances(t: Seq<TokenView>, i: int)
    requires
        0 <= i,
    ensures
        parse_command(t, i) matches Ok((_, k)) ==> i <= k < t.len(),
{
    lemma_words_end(t, i);
    lemma_redirects_advance(t, words_end(t, i));
}

pub proof fn lemma_piped_advances(t: Seq<TokenView>, i: int)
    ensures
        parse_piped(t, i) matches Ok((_, k)) ==> i <= k < t.len(),
    decreases t.len() - i,
{
    if 0 <= i < t.len() && t[i].0 == TokenKind::Pipe {
        lemma_command_advances(t, i + 1);
        if let Ok((_, j)) = parse_command(t, i + 1) {
            lemma_piped_advances(t, j);
        }
    }
}

pub proof fn lemma_pipeline_advances(t: Seq<TokenView>, i: int)
    requires
        0 <= i,
    ensures
        parse_pipeline(t, i) matches Ok((_, k)) ==> i <= k < t.len(),
{
    lemma_command_advances(t, i);
    if let Ok((_, j)) = parse_command(t, i) {
        lemma_piped_advances(t, j);
    }
}

/// Builds a syntax tree from tokens by recursive descent, with one token of
/// lookahead.
pub struct Parser {
    tokens: Vec<Token>,
    curr: usize,
}

impl Parser {
    /// The views of the tokens.
    pub closed spec fn token_views(&self) -> Seq<TokenView> {
        views(self.tokens@)
    }

    /// The position of the next token to read.
    pub closed spec fn position(&self) -> int {
        self.curr as int
    }

    pub closed spec fn wf(&self) -> bool {
        self.curr <= self.tokens@.len()
    }

    /// A parser at the first of `tokens`.
    pub fn new(tokens: Vec<Token>) -> (p: Parser)
        ensures
            p.wf(),
            p.token_views() == views(tokens@),
            p.position() == 0,
    {
        Parser { tokens, curr: 0 }
    }

    /// Parses the tokens from the current position into a program. A single
    /// pipeline is returned as it is, two or more as a sequence.
    pub fn parse(self) -> (r: Result<Node, ParseError>)
        requires
            self.wf(),
        ensures
            r is Ok <==> parse_program(self.token_views(), self.position()) is Ok,
            r matches Ok(n) ==> program_is(n, parse_program(self.token_views(), self.position())->Ok_0),
            r matches Err(e) ==> parse_program(self.token_views(), self.position()) == Err::<
                Seq<Seq<CommandShape>>,
                Fault,
            >(fault_of(e)),
    {
        let mut p = self;
        let ghost t = p.token_views();
        let ghost i = p.position();
        let first = match p.pipeline() {
            Ok(v) => v,
            Err(e) => return Err(e),
        };
        let ghost j = p.curr as int;
        let ghost shape = parse_pipeline(t, i)->Ok_0.0;
        let mut pipelines: Vec<Node> = Vec::new();
        pipelines.push(first);
        let ghost mut done: Seq<Seq<CommandShape>> = seq![shape];
        proof {
            lemma_pipeline_advances(t, i);
        }
        loop
            invariant
                p.wf(),
                p.token_views() == t,
                t == self.token_views(),
                i == self.position(),
                j <= p.curr,
                parse_separated(t, j) == prefixed(done.drop_first(), parse_separated(t, p.curr as int)),
                done.len() >= 1,
                done[0] == shape,
                parse_pipeline(t, i) == Ok::<(Seq<CommandShape>, int), Fault>((shape, j)),
                pipelines@.len() == done.len(),
                forall|k: int| 0 <= k < done.len() ==> pipeline_is(#[trigger] pipelines@[k], done[k]),
            ensures
                p.wf(),
                p.token_views() == t,
                t == self.token_views(),
                i == self.position(),
                parse_separated(t, j) == Ok::<(Seq<Seq<CommandShape>>, int), Fault>((done.drop_first(), p.curr as int)),
                done.len() >= 1,
                done[0] == shape,
                parse_pipeline(t, i) == Ok::<(Seq<CommandShape>, int), Fault>((shape, j)),
                pipelines@.len() == done.len(),
                forall|k: int| 0 <= k < done.len() ==> pipeline_is(#[trigger] pipelines@[k], done[k]),
            decreases t.len() - p.curr,
        {
            let more = match p.match_tok(TokenKind::CommandSeparator) {
                Ok(v) => v,
                Err(e) => return Err(e),
            };
            if !more {
                proof {
                    assert(done.drop_first() + Seq::<Seq<CommandShape>>::empty() =~= done.drop_first());
                }
                break ;
            }
            let ghost c1 = p.curr as int;
            let pipeline = match p.pipeline() {
                Ok(v) => v,
                Err(e) => return Err(e),
            };
            pipelines.push(pipeline);
            proof {
                lemma_pipeline_advances(t, c1);
                let step = parse_pipeline(t, c1)->Ok_0.0;
                let rest = parse_separated(t, p.curr as int);
                if let Ok((items, k)) = rest {
                    assert(done.drop_first() + (seq![step] + items) =~= done.push(step).drop_first()
                        + items);
                }
                assert(done.push(step).drop_first() =~= done.drop_first().push(step));
                done = done.push(step);
            }
        }
        let last = match p.peek() {
            Ok(t) => t.kind(),
            Err(e) => return Err(e),
        };
        if last != TokenKind::EOF {
            return Err(ParseError::TokensNotParsed("Not all tokens are parsed"));
        }
        if pipelines.len() == 1 {
            Ok(pipelines.pop().unwrap())
        } else {
            Ok(Node::CommandSequence(pipelines))
        }
    }

    /// Whether the tokens are those of an empty line: `EOF` alone.
    pub fn is_empty(&self) -> (r: bool)
        ensures
            r == (self.token_views() == seq![(TokenKind::EOF, Seq::<char>::empty())]),
    {
        let r = self.tokens.len() == 1 && self.tokens[0].kind() == TokenKind::EOF;
        proof {
            let v = views(self.tokens@);
            let e = seq![(TokenKind::EOF, Seq::<char>::empty())];
            assert(v.len() == self.tokens@.len());
            if self.tokens@.len() == 1 {
                assert(v[0] == self.tokens@[0]@);
                if r {
                    assert(v =~= e);
                }
                if v == e {
                    assert(v[0] == e[0]);
                }
            } else {
                assert(v.len() != e.len());
            }
        }
        r
    }

    /// One pipeline: commands separated by `|`.
    fn pipeline(&mut self) -> (r: Result<Node, ParseError>)
        requires
            old(self).wf(),
        ensures
            final(self).wf(),
            final(self).token_views() == old(self).token_views(),
            ({
                let s = parse_pipeline(old(self).token_views(), old(self).curr as int);
                match r {
                    Ok(n) => s matches Ok((cs, k)) && pipeline_is(n, cs) && final(self).curr == k,
                    Err(e) => s == Err::<(Seq<CommandShape>, int), Fault>(fault_of(e)),
                }
            }),
    {
        let ghost t = self.token_views();
        let ghost i = self.curr as int;
        let first = match self.command() {
            Ok(v) => v,
            Err(e) => return Err(e),
        };
        let ghost j = self.curr as int;
        let ghost shape = parse_command(t, i)->Ok_0.0;
        let mut commands: Vec<Node> = Vec::new();
        commands.push(first);
        let ghost mut done: Seq<CommandShape> = seq![shape];
        proof {
            lemma_command_advances(t, i);
        }
        loop
            invariant
                self.wf(),
                self.token_views() == t,
                t == old(self).token_views(),
                i == old(self).curr,
                j <= self.curr,
                parse_piped(t, j) == prefixed(done.drop_first(), parse_piped(t, self.curr as int)),
                done.len() >= 1,
                done[0] == shape,
                parse_command(t, i) == Ok::<(CommandShape, int), Fault>((shape, j)),
                commands@.len() == done.len(),
                forall|k: int| 0 <= k < done.len() ==> command_is(#[trigger] commands@[k], done[k]),
            ensures
                self.wf(),
                self.token_views() == t,
                t == old(self).token_views(),
                i == old(self).curr,
                parse_piped(t, j) == Ok::<(Seq<CommandShape>, int), Fault>((done.drop_first(), self.curr as int)),
                done.len() >= 1,
                done[0] == shape,
                parse_command(t, i) == Ok::<(CommandShape, int), Fault>((shape, j)),
                commands@.len() == done.len(),
                forall|k: int| 0 <= k < done.len() ==> command_is(#[trigger] commands@[k], done[k]),
            decreases t.len() - self.curr,
        {
            let more = match self.match_tok(TokenKind::Pipe) {
                Ok(v) => v,
                Err(e) => return Err(e),
            };
            if !more {
                proof {
                    assert(done.drop_first() + Seq::<CommandShape>::empty() =~= done.drop_first());
                }
                break ;
            }
            let ghost c1 = self.curr as int;
            let command = match self.command() {
                Ok(v) => v,
                Err(e) => return Err(e),
            };
            commands.push(command);
            proof {
                lemma_command_advances(t, c1);
                let step = parse_command(t, c1)->Ok_0.0;
                let rest = parse_piped(t, self.curr as int);
                if let Ok((items, k)) = rest {
                    assert(done.drop_first() + (seq![step] + items) =~= done.push(step).drop_first()
                        + items);
                }
                done = done.push(step);
            }
        }
        Ok(Node::Pipeline(commands))
    }

    /// One command: its words, then its redirections.
    fn command(&mut self) -> (r: Result<Node, ParseError>)
        requires
            old(self).wf(),
        ensures
            final(self).wf(),
            final(self).token_views() == old(self).token_views(),
            ({
                let s = parse_command(old(self).token_views(), old(self).curr as int);
                match r {
                    Ok(n) => s matches Ok((c, k)) && command_is(n, c) && final(self).curr == k,
                    Err(e) => s == Err::<(CommandShape, int), Fault>(fault_of(e)),
                }
            }),
    {
        let ghost t = self.token_views();
        let ghost i = self.curr as int;
        proof {
            lemma_words_end(t, i);
        }
        let mut command: Vec<String> = Vec::new();
        loop
            invariant
                self.wf(),
                self.token_views() == t,
                t == old(self).token_views(),
                i == old(self).curr,
                i <= self.curr <= words_end(t, i),
                words_end(t, self.curr as int) == words_end(t, i),
                strings_view(command@) == texts(t.subrange(i, self.curr as int)),
            ensures
                self.wf(),
                self.token_views() == t,
                t == old(self).token_views(),
                i == old(self).curr,
                self.curr == words_end(t, i),
                strings_view(command@) == texts(t.subrange(i, self.curr as int)),
            decreases t.len() - self.curr,
        {
            let is_word = match self.check_tok(TokenKind::Regular) {
                Ok(v) => v,
                Err(e) => return Err(e),
            };
            if !is_word {
                break ;
            }
            let string = match self.expect_word() {
                Ok(v) => v,
                Err(e) => return Err(e),
            };
            let ghost before = command@;
            command.push(string);
            proof {
                assert(command@.drop_last() == before);
                lemma_words_end(t, self.curr as int);
                let c = self.curr - 1;
                assert(strings_view(command@) =~= strings_view(command@.drop_last()).push(string@));
                assert(texts(t.subrange(i, c + 1)) =~= texts(t.subrange(i, c)).push(t[c].1));
                assert(strings_view(command@) =~= texts(t.subrange(i, self.curr as int)));
            }
        }
        let ghost j = self.curr as int;
        let mut redirect: Vec<Node> = Vec::new();
        let ghost mut done: Seq<Redirection> = Seq::empty();
        loop
            invariant
                self.wf(),
                self.token_views() == t,
                t == old(self).token_views(),
                i == old(self).curr,
                j <= self.curr,
                j == words_end(t, i),
                parse_redirects(t, j) == prefixed(done, parse_redirects(t, self.curr as int)),
                redirect@.len() == done.len(),
                forall|k: int| 0 <= k < done.len() ==> redirect_is(#[trigger] redirect@[k], done[k]),
            ensures
                self.wf(),
                self.token_views() == t,
                t == old(self).token_views(),
                i == old(self).curr,
                j == words_end(t, i),
                parse_redirects(t, j) == Ok::<(Seq<Redirection>, int), Fault>((done, self.curr as int)),
                redirect@.len() == done.len(),
                forall|k: int| 0 <= k < done.len() ==> redirect_is(#[trigger] redirect@[k], done[k]),
            decreases t.len() - self.curr,
        {
            let ghost c0 = self.curr as int;
            let kind = match self.peek() {
                Ok(t) => t.kind(),
                Err(e) => return Err(e),
            };
            let node = if kind == TokenKind::LRedirect {
                self.advance();
                let string = match self.expect_word() {
                    Ok(v) => v,
                    Err(e) => return Err(e),
                };
                Node::RedirectRead(string)
            } else if kind == TokenKind::RRedirect {
                self.advance();
                let next = match self.peek() {
                    Ok(t) => t.kind(),
                    Err(e) => return Err(e),
                };
                if next == TokenKind::RRedirect {
                    self.advance();
                    let string = match self.expect_word() {
                        Ok(v) => v,
                        Err(e) => return Err(e),
                    };
                    Node::RedirectAppend(string)
                } else if next == TokenKind::Regular {
                    let string = match self.expect_word() {
                        Ok(v) => v,
                        Err(e) => return Err(e),
                    };
                    Node::RedirectWrite(string)
                } else {
                    return Err(ParseError::NotExpectedToken("Unexpected token after \">\""));
                }
            } else if kind == TokenKind::RAppend {
                self.advance();
                let string = match self.expect_word() {
                    Ok(v) => v,
                    Err(e) => return Err(e),
                };
                Node::RedirectAppend(string)
            } else {
                proof {
                    assert(done + Seq::<Redirection>::empty() =~= done);
                }
                break ;
            };
            proof {
                let step = redirect_at(t, c0);
                assert(redirect_is(node, step));
                assert(parse_redirects(t, c0) == prefixed(seq![step], parse_redirects(t, self.curr as int)));
                let rest = parse_redirects(t, self.curr as int);
                if let Ok((items, k)) = rest {
                    assert(done + (seq![step] + items) =~= done.push(step) + items);
                }
                done = done.push(step);
            }
            redirect.push(node);
        }
        Ok(Node::Command(command, redirect))
    }

    /// Reads the next token, which must be a word, and returns its text.
    fn expect_word(&mut self) -> (r: Result<String, ParseError>)
        requires
            old(self).wf(),
        ensures
            final(self).wf(),
            final(self).token_views() == old(self).token_views(),
            ({
                let t = old(self).token_views();
                let i = old(self).curr as int;
                &&& i >= t.len() ==> (r matches Err(e) && e is IndexOutOfBounds)
                &&& i < t.len() && t[i].0 == TokenKind::Regular ==> (r matches Ok(s) && s@
                    == t[i].1 && final(self).curr == i + 1)
                &&& i < t.len() && t[i].0 != TokenKind::Regular ==> (r matches Err(e)
                    && e is NotExpectedToken)
            }),
    {
        if self.curr >= self.tokens.len() {
            return Err(ParseError::IndexOutOfBounds("peek out of bounds"));
        }
        match &self.tokens[self.curr] {
            Token::Regular(string) => {
                let w = string.clone();
                self.advance();
                Ok(w)
            },
            _ => Err(ParseError::NotExpectedToken("Token is not Regular Token")),
        }
    }

    /// Whether the next token is of kind `kind`.
    fn check_tok(&self, kind: TokenKind) -> (r: Result<bool, ParseError>)
        ensures
            self.curr < self.tokens@.len() ==> r == Ok::<bool, ParseError>(
                self.tokens@[self.curr as int]@.0 == kind,
            ),
            self.curr >= self.tokens@.len() ==> (r matches Err(e) && e is IndexOutOfBounds),
    {
        match self.peek() {
            Ok(t) => Ok(t.kind() == kind),
            Err(e) => Err(e),
        }
    }

    /// Reads the next token where it is of kind `kind`.
    fn match_tok(&mut self, kind: TokenKind) -> (r: Result<bool, ParseError>)
        requires
            old(self).wf(),
        ensures
            final(self).wf(),
            final(self).tokens@ == old(self).tokens@,
            old(self).curr < old(self).tokens@.len() ==> r == Ok::<bool, ParseError>(
                old(self).tokens@[old(self).curr as int]@.0 == kind,
            ),
            old(self).curr >= old(self).tokens@.len() ==> (r matches Err(e) && e is IndexOutOfBounds),
            final(self).curr == if r == Ok::<bool, ParseError>(true) {
                old(self).curr + 1
            } else {
                old(self).curr as int
            },
    {
        let same_kind = match self.check_tok(kind) {
            Ok(v) => v,
            Err(e) => return Err(e),
        };
        if same_kind {
            self.advance();
        }
        Ok(same_kind)
    }

    /// The next token, which stays unread.
    fn peek(&self) -> (r: Result<&Token, ParseError>)
        ensures
            self.curr < self.tokens@.len() ==> (r matches Ok(t) && *t == self.tokens@[self.curr as int]),
            self.curr >= self.tokens@.len() ==> (r matches Err(e) && e is IndexOutOfBounds),
    {
        if self.tokens.len() <= self.curr {
            return Err(ParseError::IndexOutOfBounds("peek out of bounds"));
        }
        Ok(&self.tokens[self.curr])
    }

    /// Moves past the next token.
    fn advance(&mut self)
        requires
            old(self).curr < old(self).tokens@.len(),
        ensures
            final(self).tokens@ == old(self).tokens@,
            final(self).curr == old(self).curr + 1,
    {
        if self.curr < self.tokens.len() {
            self.curr += 1;
        }
    }
}

} // verus!
