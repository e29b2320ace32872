use vstd::prelude::*;

verus! {

/// A node of the syntax tree of one line.
#[derive(Debug, PartialEq)]
pub enum Node {
    /// A program name and its arguments, then the command's redirections in
    /// the order they are applied.
    Command(Vec<String>, Vec<Node>),
    /// Commands whose standard streams are connected left to right.
    Pipeline(Vec<Node>),
    /// Pipelines run one after another.
    CommandSequence(Vec<Node>),
    /// `>> path`: standard output appended to a file.
    RedirectAppend(String),
    /// `> path`: standard output written to a file, created or truncated.
    RedirectWrite(String),
    /// `< path`: standard input read from a file.
    RedirectRead(String),
}

/// What a redirection means.
pub enum Redirection {
    Read(Seq<char>),
    Write(Seq<char>),
    Append(Seq<char>),
}

/// What a command means: its words and its redirections.
pub struct CommandShape {
    pub words: Seq<Seq<char>>,
    pub redirects: Seq<Redirection>,
}

/// The views of a list of strings.
pub open spec fn strings_view(v: Seq<String>) -> Seq<Seq<char>> {
    v.map_values(|s: String| s@)
}

/// `n` is the redirection `r`.
pub open spec fn redirect_is(n: Node, r: Redirection) -> bool {
    match r {
        Redirection::Read(p) => n matches Node::RedirectRead(s) && s@ == p,
        Redirection::Write(p) => n matches Node::RedirectWrite(s) && s@ == p,
        Redirection::Append(p) => n matches Node::RedirectAppend(s) && s@ == p,
    }
}

/// `n` is the command `c`.
pub open spec fn command_is(n: Node, c: CommandShape) -> bool {
    &&& n matches Node::Command(words, redirects)
    &&& strings_view(words@) == c.words
    &&& redirects@.len() == c.redirects.len()
    &&& forall|k: int| 0 <= k < c.redirects.len() ==> redirect_is(#[trigger] redirects@[k], c.redirects[k])
}

/// `n` is a pipeline of the commands `cs`.
pub open spec fn pipeline_is(n: Node, cs: Seq<CommandShape>) -> bool {
    &&& n matches Node::Pipeline(commands)
    &&& commands@.len() == cs.len()
    &&& forall|k: int| 0 <= k < cs.len() ==> command_is(#[trigger] commands@[k], cs[k])
}

/// `n` is the program `p`: one pipeline stands alone, two or more form a
/// sequence.
pub open spec fn program_is(n: Node, p: Seq<Seq<CommandShape>>) -> bool {
    if p.len() == 1 {
        pipeline_is(n, p[0])
    } else {
        &&& n matches Node::CommandSequence(pipelines)
        &&& pipelines@.len() == p.len()
        &&& forall|k: int| 0 <= k < p.len() ==> pipeline_is(#[trigger] pipelines@[k], p[k])
    }
}

} // verus!
