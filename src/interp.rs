use crate::ast::{strings_view, Node};
use vstd::prelude::*;

verus! {

/// An execution failure.
#[derive(Clone, Copy, Debug)]
pub enum InterpretErr {
    /// Fatal to the rest of a sequence: a spawn, a redirection or a wait
    /// failed, or the tree has the wrong shape.
    RuntimeError(&'static str),
    /// The foreground process was killed on an interrupt.
    Interrupt(&'static str),
    /// A builtin refused its arguments or could not do its work.
    ExitStatusFailure(&'static str),
}

/// The value of a string of ASCII digits.
pub open spec fn digits_value(s: Seq<char>) -> int
    decreases s.len(),
{
    if s.len() == 0 {
        0
    } else {
        digits_value(s.drop_last()) * 10 + (s.last() as int - '0' as int)
    }
}

pub open spec fn is_digit(c: char) -> bool {
    '0' <= c && c <= '9'
}

pub open spec fn all_digits(s: Seq<char>) -> bool {
    forall|k: int| 0 <= k < s.len() ==> is_digit(#[trigger] s[k])
}

/// The integer that `s` writes in decimal: an optional sign, then one digit
/// or more.
pub open spec fn decimal_value(s: Seq<char>) -> Option<int> {
    if s.len() > 1 && s[0] == '-' && all_digits(s.drop_first()) {
        Some(-digits_value(s.drop_first()))
    } else if s.len() > 1 && s[0] == '+' && all_digits(s.drop_first()) {
        Some(digits_value(s.drop_first()))
    } else if s.len() > 0 && all_digits(s) {
        Some(digits_value(s))
    } else {
        None
    }
}

/// The `i32` that `s` writes in decimal, where it is one.
pub open spec fn exit_code(s: Seq<char>) -> Option<i32> {
    match decimal_value(s) {
        Some(v) => if i32::MIN <= v <= i32::MAX {
            Some(v as i32)
        } else {
            None
        },
        None => None,
    }
}

proof fn lemma_digits_grow(s: Seq<char>, k: int)
    requires
        0 <= k <= s.len(),
        all_digits(s),
    ensures
        digits_value(s.subrange(0, k)) <= digits_value(s),
        0 <= digits_value(s.subrange(0, k)),
    decreases s.len(),
{
    if s.len() > 0 {
        assert(s.drop_last() =~= s.subrange(0, s.len() - 1));
        if k == s.len() {
            assert(s.subrange(0, k) =~= s);
            lemma_digits_grow(s.drop_last(), k - 1);
        } else {
            assert(s.drop_last().subrange(0, k) =~= s.subrange(0, k));
            lemma_digits_grow(s.drop_last(), k);
        }
    }
}

/// How `decimal_value` reads `s` when its digits start at `start`.
proof fn lemma_sign_split(s: Seq<char>, start: int, d: Seq<char>)
    requires
        0 <= start <= 1,
        start < s.len(),
        d == s.subrange(start, s.len() as int),
        start == 1 <==> (s[0] == '-' || s[0] == '+'),
    ensures
        !all_digits(d) ==> decimal_value(s) is None,
        all_digits(d) && s[0] == '-' ==> decimal_value(s) == Some(-digits_value(d)),
        all_digits(d) && s[0] != '-' ==> decimal_value(s) == Some(digits_value(d)),
{
    if start == 0 {
        assert(d =~= s);
    } else {
        assert(d =~= s.drop_first());
        assert(!is_digit(s[0]));
    }
}

/// Reads a decimal `i32` as `i32::from_str` does: an optional `+` or `-`,
/// then ASCII digits, with a value in range.
pub fn parse_exit_code(s: &str) -> (r: Option<i32>)
    ensures
        r == exit_code(s@),
{
    let n = s.unicode_len();
    if n == 0 {
        return None;
    }
    let first = s.get_char(0);
    let negative = first == '-';
    let start: usize = if first == '-' || first == '+' {
        1
    } else {
        0
    };
    if start == n {
        proof {
            assert(!all_digits(s@));
        }
        return None;
    }
    let ghost d = s@.subrange(start as int, n as int);
    let mut value: i64 = 0;
    let mut i: usize = start;
    while i < n
        invariant
            n == s@.len(),
            start <= i <= n,
            start < n,
            start <= 1,
            start == 1 <==> (s@[0] == '-' || s@[0] == '+'),
            negative == (s@[0] == '-'),
            d == s@.subrange(start as int, n as int),
            all_digits(s@.subrange(start as int, i as int)),
            value == digits_value(s@.subrange(start as int, i as int)),
            0 <= value <= 0x8000_0000,
        decreases n - i,
    {
        let c = s.get_char(i);
        if !('0' <= c && c <= '9') {
            proof {
                let k = i - start;
                assert(d[k] == s@[i as int]);
                assert(!all_digits(d));
                lemma_sign_split(s@, start as int, d);
            }
            return None;
        }
        let ghost prefix = s@.subrange(start as int, i as int);
        value = value * 10 + (c as u32 - '0' as u32) as i64;
        i += 1;
        proof {
            assert(s@.subrange(start as int, i as int).drop_last() =~= prefix);
        }
        if value > 0x8000_0000 {
            proof {
                let k: int = i - start;
                if all_digits(d) {
                    assert(d.subrange(0, k) =~= s@.subrange(start as int, i as int));
                    lemma_digits_grow(d, k);
                }
                lemma_sign_split(s@, start as int, d);
            }
            return None;
        }
    }
    proof {
        lemma_sign_split(s@, start as int, d);
    }
    if negative {
        Some((-value) as i32)
    } else if value > 0x7fff_ffff {
        None
    } else {
        Some(value as i32)
    }
}

/// Where a command reads its standard input from.
pub enum InputSource {
    /// The shell's own standard input.
    Inherit,
    /// The standard output of the previous command's process.
    Previous,
    /// A file opened for reading.
    ReadFile(String),
}

/// Where a command writes its standard output to.
pub enum OutputTarget {
    /// The shell's own standard output.
    Inherit,
    /// A pipe to the next command.
    Pipe,
    /// A file created or truncated.
    WriteFile(String),
    /// A file opened at its end, created where absent.
    AppendFile(String),
}

/// What running a command does.
pub enum Dispatch {
    /// The `cd` builtin, with its one argument.
    ChangeDir(String),
    /// The `exit` builtin, with the status to end the process with.
    Exit(i32),
    /// An external program with its arguments.
    Spawn(String, Vec<String>),
    /// A builtin that refuses its arguments, with what to tell the user.
    UsageError(&'static str),
}

/// How to run one command of a pipeline.
pub struct CommandPlan {
    pub dispatch: Dispatch,
    pub stdin: InputSource,
    pub stdout: OutputTarget,
}

/// What an input source means.
pub enum Source {
    Inherit,
    Previous,
    File(Seq<char>),
}

/// What an output target means.
pub enum Sink {
    Inherit,
    Pipe,
    Truncate(Seq<char>),
    Append(Seq<char>),
}

/// What a dispatch means.
pub enum Action {
    ChangeDir(Seq<char>),
    Exit(int),
    Spawn(Seq<char>, Seq<Seq<char>>),
    Refuse,
}

impl View for InputSource {
    type V = Source;

    open spec fn view(&self) -> Source {
        match self {
            InputSource::Inherit => Source::Inherit,
            InputSource::Previous => Source::Previous,
            InputSource::ReadFile(p) => Source::File(p@),
        }
    }
}

impl View for OutputTarget {
    type V = Sink;

    open spec fn view(&self) -> Sink {
        match self {
            OutputTarget::Inherit => Sink::Inherit,
            OutputTarget::Pipe => Sink::Pipe,
            OutputTarget::WriteFile(p) => Sink::Truncate(p@),
            OutputTarget::AppendFile(p) => Sink::Append(p@),
        }
    }
}

impl View for Dispatch {
    type V = Action;

    open spec fn view(&self) -> Action {
        match self {
            Dispatch::ChangeDir(d) => Action::ChangeDir(d@),
            Dispatch::Exit(c) => Action::Exit(*c as int),
            Dispatch::Spawn(p, args) => Action::Spawn(p@, strings_view(args@)),
            Dispatch::UsageError(_) => Action::Refuse,
        }
    }
}

/// The input after the redirections `rs`, where it was `d` before them: the
/// last read redirection wins.
pub open spec fn input_after(rs: Seq<Node>, d: Source) -> Source
    decreases rs.len(),
{
    if rs.len() == 0 {
        d
    } else if let Node::RedirectRead(p) = rs.last() {
        Source::File(p@)
    } else {
        input_after(rs.drop_last(), d)
    }
}

/// The output after the redirections `rs`, where it was `d` before them: the
/// last write or append redirection wins.
pub open spec fn output_after(rs: Seq<Node>, d: Sink) -> Sink
    decreases rs.len(),
{
    if rs.len() == 0 {
        d
    } else if let Node::RedirectWrite(p) = rs.last() {
        Sink::Truncate(p@)
    } else if let Node::RedirectAppend(p) = rs.last() {
        Sink::Append(p@)
    } else {
        output_after(rs.drop_last(), d)
    }
}

pub open spec fn is_redirect(n: Node) -> bool {
    n is RedirectRead || n is RedirectWrite || n is RedirectAppend
}

/// What the words of a command ask for: `cd` with exactly one directory,
/// `exit` with no argument or one decimal status, or an external program.
pub open spec fn action_of(words: Seq<Seq<char>>) -> Action {
    let name = words[0];
    let args = words.drop_first();
    if name == seq!['c', 'd'] {
        if args.len() != 1 {
            Action::Refuse
        } else {
            Action::ChangeDir(args[0])
        }
    } else if name == seq!['e', 'x', 'i', 't'] {
        if args.len() > 1 {
            Action::Refuse
        } else if args.len() == 0 {
            Action::Exit(0)
        } else if let Some(c) = exit_code(args[0]) {
            Action::Exit(c as int)
        } else {
            Action::Refuse
        }
    } else {
        Action::Spawn(name, args)
    }
}

/// The stream a command gets where no redirection applies: the previous
/// process's output where there is one, and a pipe unless it is the last.
pub open spec fn default_input(has_previous: bool) -> Source {
    if has_previous {
        Source::Previous
    } else {
        Source::Inherit
    }
}

pub open spec fn default_output(is_last: bool) -> Sink {
    if is_last {
        Sink::Inherit
    } else {
        Sink::Pipe
    }
}

/// `r` is the plan for `node`: a command with at least one word and only
/// redirections after them; anything else is a runtime error.
pub open spec fn plans(node: Node, has_previous: bool, is_last: bool, r: Result<CommandPlan, InterpretErr>) -> bool {
    match node {
        Node::Command(words, rs) => if words@.len() == 0 {
            r == Err::<CommandPlan, InterpretErr>(InterpretErr::RuntimeError("Empty command"))
        } else if !(forall|k: int| 0 <= k < rs@.len() ==> is_redirect(#[trigger] rs@[k])) {
            r == Err::<CommandPlan, InterpretErr>(
                InterpretErr::RuntimeError("Unexpected node for redirect"),
            )
        } else {
            &&& r matches Ok(plan)
            &&& plan.stdin@ == input_after(rs@, default_input(has_previous))
            &&& plan.stdout@ == output_after(rs@, default_output(is_last))
            &&& plan.dispatch@ == action_of(strings_view(words@))
        },
        _ => r == Err::<CommandPlan, InterpretErr>(
            InterpretErr::RuntimeError("Unexpected node in pipeline"),
        ),
    }
}

/// Whether `s` is the name `name`, character by character.
fn same_text(s: &str, name: &str) -> (r: bool)
    ensures
        r == (s@ == name@),
{
    let n = s.unicode_len();
    if n != name.unicode_len() {
        return false;
    }
    let mut i: usize = 0;
    while i < n
        invariant
            n == s@.len(),
            n == name@.len(),
            i <= n,
            s@.subrange(0, i as int) == name@.subrange(0, i as int),
        decreases n - i,
    {
        if s.get_char(i) != name.get_char(i) {
            return false;
        }
        proof {
            assert(s@.subrange(0, i + 1) =~= s@.subrange(0, i as int).push(s@[i as int]));
            assert(name@.subrange(0, i + 1) =~= name@.subrange(0, i as int).push(name@[i as int]));
        }
        i += 1;
    }
    proof {
        assert(s@ =~= s@.subrange(0, n as int));
        assert(name@ =~= name@.subrange(0, n as int));
    }
    true
}

/// Clones the words from `start` on.
fn clone_from(words: &Vec<String>, start: usize) -> (r: Vec<String>)
    requires
        start <= words@.len(),
    ensures
        strings_view(r@) == strings_view(words@).subrange(start as int, words@.len() as int),
{
    let mut r: Vec<String> = Vec::new();
    let mut i = start;
    while i < words.len()
        invariant
            start <= i <= words@.len(),
            strings_view(r@) == strings_view(words@).subrange(start as int, i as int),
        decreases words@.len() - i,
    {
        let w = words[i].clone();
        let ghost before = r@;
        r.push(w);
        proof {
            assert(strings_view(r@) =~= strings_view(before).push(w@));
            assert(strings_view(words@).subrange(start as int, i + 1) =~= strings_view(words@).subrange(
                start as int,
                i as int,
            ).push(words@[i as int]@));
        }
        i += 1;
    }
    r
}

/// Decides what a command's words ask for.
pub fn dispatch_of(words: &Vec<String>) -> (d: Dispatch)
    requires
        words@.len() > 0,
    ensures
        d@ == action_of(strings_view(words@)),
{
    let ghost w = strings_view(words@);
    assert(w[0] == words@[0]@);
    let name = words[0].as_str();
    let nargs = words.len() - 1;
    proof {
        reveal_strlit("cd");
        reveal_strlit("exit");
        assert("cd"@ =~= seq!['c', 'd']);
        assert("exit"@ =~= seq!['e', 'x', 'i', 't']);
        assert(w.drop_first().len() == nargs);
    }
    if same_text(name, "cd") {
        if nargs != 1 {
            Dispatch::UsageError("Too many directories")
        } else {
            assert(w.drop_first()[0] == words@[1]@);
            Dispatch::ChangeDir(words[1].clone())
        }
    } else if same_text(name, "exit") {
        if nargs > 1 {
            Dispatch::UsageError("Too many arguments")
        } else if nargs == 0 {
            Dispatch::Exit(0)
        } else {
            assert(w.drop_first()[0] == words@[1]@);
            match parse_exit_code(words[1].as_str()) {
                Some(code) => Dispatch::Exit(code),
                None => Dispatch::UsageError("Didn't pass numeric argument"),
            }
        }
    } else {
        let args = clone_from(words, 1);
        assert(w.subrange(1, w.len() as int) =~= w.drop_first());
        Dispatch::Spawn(words[0].clone(), args)
    }
}

/// Decides how to run one command of a pipeline: its dispatch, and its
/// streams after its redirections, applied in order.
pub fn plan_command(node: &Node, has_previous: bool, is_last: bool) -> (r: Result<CommandPlan, InterpretErr>)
    ensures
        plans(*node, has_previous, is_last, r),
{
    let (words, redirects) = match node {
        Node::Command(words, redirects) => (words, redirects),
        _ => {
            return Err(InterpretErr::RuntimeError("Unexpected node in pipeline"));
        },
    };
    if words.len() == 0 {
        return Err(InterpretErr::RuntimeError("Empty command"));
    }
    let mut stdin = if has_previous {
        InputSource::Previous
    } else {
        InputSource::Inherit
    };
    let mut stdout = if is_last {
        OutputTarget::Inherit
    } else {
        OutputTarget::Pipe
    };
    let mut i: usize = 0;
    while i < redirects.len()
        invariant
            i <= redirects@.len(),
            *node == Node::Command(*words, *redirects),
            words@.len() > 0,
            forall|k: int| 0 <= k < i ==> is_redirect(#[trigger] redirects@[k]),
            stdin@ == input_after(redirects@.subrange(0, i as int), default_input(has_previous)),
            stdout@ == output_after(redirects@.subrange(0, i as int), default_output(is_last)),
        decreases redirects@.len() - i,
    {
        match &redirects[i] {
            Node::RedirectRead(filename) => {
                stdin = InputSource::ReadFile(filename.clone());
            },
            Node::RedirectWrite(filename) => {
                stdout = OutputTarget::WriteFile(filename.clone());
            },
            Node::RedirectAppend(filename) => {
                stdout = OutputTarget::AppendFile(filename.clone());
            },
            _ => {
                proof {
                    assert(!is_redirect(redirects@[i as int]));
                    assert(!(forall|k: int|
                        0 <= k < redirects@.len() ==> is_redirect(#[trigger] redirects@[k])));
                }
                return Err(InterpretErr::RuntimeError("Unexpected node for redirect"));
            },
        }
        proof {
            assert(redirects@.subrange(0, i + 1).drop_last() =~= redirects@.subrange(0, i as int));
        }
        i += 1;
    }
    proof {
        assert(redirects@.subrange(0, i as int) =~= redirects@);
    }
    Ok(CommandPlan { dispatch: dispatch_of(words), stdin, stdout })
}

/// What a pipeline produced: its exit status and its captured streams.
pub struct CommandOutput {
    pub status: i32,
    pub stdout: Vec<u8>,
    pub stderr: Vec<u8>,
}

impl CommandOutput {
    /// An output with the status `exit_code` and nothing captured.
    pub fn new_empty_output(exit_code: i32) -> (o: CommandOutput)
        ensures
            o.status == exit_code,
            o.stdout@.len() == 0,
            o.stderr@.len() == 0,
    {
        CommandOutput { status: exit_code, stdout: Vec::new(), stderr: Vec::new() }
    }
}

/// `o` has the status `status` and nothing captured.
pub open spec fn is_empty_output(o: CommandOutput, status: int) -> bool {
    o.status == status && o.stdout@.len() == 0 && o.stderr@.len() == 0
}

/// `r` is what a pipeline's outcome comes to within a sequence: a builtin's
/// failure counts as status 1 and an interrupt as status 130; a runtime error
/// stays an error.
pub open spec fn settles(outcome: Result<CommandOutput, InterpretErr>, r: Result<CommandOutput, InterpretErr>) -> bool {
    match outcome {
        Ok(o) => r == Ok::<CommandOutput, InterpretErr>(o),
        Err(InterpretErr::ExitStatusFailure(_)) => r matches Ok(o) && is_empty_output(o, 1),
        Err(InterpretErr::Interrupt(_)) => r matches Ok(o) && is_empty_output(o, 130),
        Err(InterpretErr::RuntimeError(_)) => r == outcome,
    }
}

/// Turns a pipeline's outcome into the result that a sequence goes on with.
pub fn settle(outcome: Result<CommandOutput, InterpretErr>) -> (r: Result<CommandOutput, InterpretErr>)
    ensures
        settles(outcome, r),
{
    match outcome {
        Ok(output) => Ok(output),
        Err(InterpretErr::ExitStatusFailure(_)) => Ok(CommandOutput::new_empty_output(1)),
        Err(InterpretErr::Interrupt(_)) => Ok(CommandOutput::new_empty_output(130)),
        Err(InterpretErr::RuntimeError(msg)) => Err(InterpretErr::RuntimeError(msg)),
    }
}

/// What the stage being carried out does.
#[derive(Clone, Copy)]
pub enum Stage {
    Builtin,
    Spawned,
    Refused(&'static str),
}

/// What the caller is to do next for a pipeline.
pub enum PipelineAction {
    /// Open the plan's files, then run its builtin or spawn its process and
    /// wait for it, watching for interrupts; then report a `StageEvent`.
    Run(CommandPlan),
    /// Wait for the last spawned process and collect its output, which is
    /// the pipeline's outcome.
    Collect,
    /// The pipeline is over, with this outcome.
    Finish(Result<CommandOutput, InterpretErr>),
}

/// How carrying out a `Run` went.
#[derive(Clone, Copy)]
pub enum StageEvent {
    /// Its files were opened, and its builtin ran or its process exited.
    Completed,
    /// A redirection's file could not be opened.
    OpenFailed,
    /// The process could not be spawned.
    SpawnFailed,
    /// Waiting for the process failed.
    WaitFailed,
    /// An interrupt arrived and the process was killed.
    Interrupted,
    /// `cd` could not change the working directory.
    ChangeDirFailed,
}

/// The failure that an event other than `Completed` stands for.
pub open spec fn event_error(e: StageEvent) -> InterpretErr {
    match e {
        StageEvent::Completed => InterpretErr::RuntimeError("Error waiting on process"),
        StageEvent::OpenFailed => InterpretErr::RuntimeError("Failed opening file"),
        StageEvent::SpawnFailed => InterpretErr::RuntimeError("Failed spawning command"),
        StageEvent::WaitFailed => InterpretErr::RuntimeError("Error waiting on process"),
        StageEvent::Interrupted => InterpretErr::Interrupt("SIGINT Received"),
        StageEvent::ChangeDirFailed => InterpretErr::ExitStatusFailure("Failed changing directory"),
    }
}

fn error_of(e: StageEvent) -> (r: InterpretErr)
    ensures
        r == event_error(e),
{
    match e {
        StageEvent::Completed => InterpretErr::RuntimeError("Error waiting on process"),
        StageEvent::OpenFailed => InterpretErr::RuntimeError("Failed opening file"),
        StageEvent::SpawnFailed => InterpretErr::RuntimeError("Failed spawning command"),
        StageEvent::WaitFailed => InterpretErr::RuntimeError("Error waiting on process"),
        StageEvent::Interrupted => InterpretErr::Interrupt("SIGINT Received"),
        StageEvent::ChangeDirFailed => InterpretErr::ExitStatusFailure("Failed changing directory"),
    }
}

/// How long to sleep between two polls of a running foreground process.
pub const POLL_INTERVAL_MS: u64 = 100;

/// What polling a foreground process found.
#[derive(Clone, Copy)]
pub enum WaitPoll {
    /// It has not exited yet.
    Running,
    /// It has exited.
    Exited,
    /// Polling it failed.
    Failed,
}

/// What to do next while waiting for a foreground process.
pub enum WaitStep {
    /// The wait is over: report this event for the stage.
    Done(StageEvent),
    /// An interrupt arrived: kill the process, then report `after_kill`.
    Kill,
    /// Sleep this many milliseconds, then poll again.
    Sleep(u64),
}

/// One step of waiting for a foreground process while watching for
/// interrupts: an exit ends the wait, a failed poll fails the stage, an
/// interrupt while it runs kills it, and otherwise the wait goes on after a
/// short sleep.
pub fn wait_step(poll: WaitPoll, interrupted: bool) -> (r: WaitStep)
    ensures
        poll is Exited ==> r == WaitStep::Done(StageEvent::Completed),
        poll is Failed ==> r == WaitStep::Done(StageEvent::WaitFailed),
        poll is Running && interrupted ==> r is Kill,
        poll is Running && !interrupted ==> r == WaitStep::Sleep(POLL_INTERVAL_MS),
{
    match poll {
        WaitPoll::Exited => WaitStep::Done(StageEvent::Completed),
        WaitPoll::Failed => WaitStep::Done(StageEvent::WaitFailed),
        WaitPoll::Running => if interrupted {
            WaitStep::Kill
        } else {
            WaitStep::Sleep(POLL_INTERVAL_MS)
        },
    }
}

/// The event of a stage whose process was to be killed on an interrupt:
/// interrupted where the kill succeeded, a failed wait otherwise.
pub fn after_kill(killed: bool) -> (e: StageEvent)
    ensures
        e == if killed {
            StageEvent::Interrupted
        } else {
            StageEvent::WaitFailed
        },
{
    if killed {
        StageEvent::Interrupted
    } else {
        StageEvent::WaitFailed
    }
}

/// The decisions of running one pipeline, stage by stage, left to right.
pub struct PipelineRun {
    commands: Vec<Node>,
    next: usize,
    prev_spawned: bool,
    prev_piped: bool,
    spawned_any: bool,
    pending: Option<Stage>,
    pending_piped: bool,
    failure: Option<InterpretErr>,
}

impl PipelineRun {
    /// The commands of the pipeline.
    pub closed spec fn commands(&self) -> Seq<Node> {
        self.commands@
    }

    /// How many stages have completed.
    pub closed spec fn completed(&self) -> int {
        self.next as int
    }

    /// Whether the last completed stage spawned a process.
    pub closed spec fn prev_spawned(&self) -> bool {
        self.prev_spawned
    }

    /// Whether the last completed stage's output went to a pipe.
    pub closed spec fn prev_piped(&self) -> bool {
        self.prev_piped
    }

    /// Whether the pending stage's output goes to a pipe.
    pub closed spec fn pending_piped(&self) -> bool {
        self.pending_piped
    }

    /// Whether the next stage has a stream to read: the output of the last
    /// stage's process, where that stage spawned one writing to a pipe.
    pub open spec fn has_stream(&self) -> bool {
        self.prev_spawned() && self.prev_piped()
    }

    /// Whether any completed stage spawned a process.
    pub closed spec fn spawned_any(&self) -> bool {
        self.spawned_any
    }

    /// The stage being carried out, if any.
    pub closed spec fn pending(&self) -> Option<Stage> {
        self.pending
    }

    /// The failure that ended the pipeline, if any.
    pub closed spec fn failure(&self) -> Option<InterpretErr> {
        self.failure
    }

    pub closed spec fn wf(&self) -> bool {
        &&& self.next <= self.commands@.len()
        &&& self.pending is Some ==> self.next < self.commands@.len() && self.failure is None
    }

    /// Whether no stage is left to run.
    pub open spec fn is_finished(&self) -> bool {
        self.pending() is None && (self.failure() is Some || self.completed() == self.commands().len())
    }

    /// `a` is how the finished pipeline ends: with its failure; else by
    /// collecting the last spawned process; else, all its stages builtins that
    /// succeeded, with status 0.
    pub open spec fn ends_with(&self, a: PipelineAction) -> bool {
        match self.failure() {
            Some(e) => a == PipelineAction::Finish(Err(e)),
            None => if self.spawned_any() {
                a is Collect
            } else {
                a matches PipelineAction::Finish(Ok(o)) && is_empty_output(o, 0)
            },
        }
    }

    /// A run at the first command of `commands`.
    pub fn new(commands: Vec<Node>) -> (r: PipelineRun)
        ensures
            r.wf(),
            r.commands() == commands@,
            r.completed() == 0,
            !r.prev_spawned(),
            !r.spawned_any(),
            r.pending() is None,
            r.failure() is None,
    {
        PipelineRun {
            commands,
            next: 0,
            prev_spawned: false,
            prev_piped: false,
            spawned_any: false,
            pending: None,
            pending_piped: false,
            failure: None,
        }
    }

    /// What to do next: run the next command, with its input from the last
    /// stage's process where that stage spawned one and its output piped
    /// unless it is the last; or end the pipeline.
    pub fn next_action(&mut self) -> (r: PipelineAction)
        requires
            old(self).wf(),
            old(self).pending() is None,
        ensures
            final(self).wf(),
            final(self).commands() == old(self).commands(),
            final(self).completed() == old(self).completed(),
            final(self).prev_spawned() == old(self).prev_spawned(),
            final(self).prev_piped() == old(self).prev_piped(),
            final(self).spawned_any() == old(self).spawned_any(),
            old(self).is_finished() ==> old(self).ends_with(r) && *final(self) == *old(self),
            !old(self).is_finished() ==> ({
                let k = old(self).completed();
                let node = old(self).commands()[k];
                let last = k + 1 == old(self).commands().len();
                match r {
                    PipelineAction::Run(plan) => plans(
                        node,
                        old(self).has_stream(),
                        last,
                        Ok::<CommandPlan, InterpretErr>(plan),
                    ) && final(self).pending_piped() == (plan.stdout is Pipe) && final(self).failure() is None && final(self).pending() == Some(
                        match plan.dispatch {
                            Dispatch::UsageError(m) => Stage::Refused(m),
                            Dispatch::Spawn(_, _) => Stage::Spawned,
                            _ => Stage::Builtin,
                        },
                    ),
                    PipelineAction::Finish(Err(e)) => plans(
                        node,
                        old(self).has_stream(),
                        last,
                        Err::<CommandPlan, InterpretErr>(e),
                    ) && final(self).failure() == Some(e) && final(self).pending() is None,
                    _ => false,
                }
            }),
    {
        if let Some(e) = self.failure {
            return PipelineAction::Finish(Err(e));
        }
        if self.next >= self.commands.len() {
            if self.spawned_any {
                return PipelineAction::Collect;
            } else {
                return PipelineAction::Finish(Ok(CommandOutput::new_empty_output(0)));
            }
        }
        let is_last = self.next + 1 == self.commands.len();
        let has_stream = self.prev_spawned && self.prev_piped;
        match plan_command(&self.commands[self.next], has_stream, is_last) {
            Ok(plan) => {
                self.pending_piped = match &plan.stdout {
                    OutputTarget::Pipe => true,
                    _ => false,
                };
                self.pending = Some(
                    match &plan.dispatch {
                        Dispatch::UsageError(m) => Stage::Refused(m),
                        Dispatch::Spawn(_, _) => Stage::Spawned,
                        _ => Stage::Builtin,
                    },
                );
                PipelineAction::Run(plan)
            },
            Err(e) => {
                self.failure = Some(e);
                PipelineAction::Finish(Err(e))
            },
        }
    }

    /// Takes in how the pending stage went. A builtin that refused its
    /// arguments fails the pipeline as a builtin failure; any event but
    /// `Completed` fails it with the event's error.
    pub fn record(&mut self, event: StageEvent)
        requires
            old(self).wf(),
            old(self).pending() is Some,
        ensures
            final(self).wf(),
            final(self).commands() == old(self).commands(),
            final(self).pending() is None,
            ({
                let before = *old(self);
                let after = *final(self);
                match (event, before.pending()->0) {
                    (StageEvent::Completed, Stage::Spawned) => after.failure() is None && after.completed()
                        == before.completed() + 1 && after.prev_spawned() && after.prev_piped()
                        == before.pending_piped() && after.spawned_any(),
                    (StageEvent::Completed, Stage::Builtin) => after.failure() is None && after.completed()
                        == before.completed() + 1 && !after.prev_spawned() && after.spawned_any()
                        == before.spawned_any(),
                    (StageEvent::Completed, Stage::Refused(m)) => after.failure() == Some(
                        InterpretErr::ExitStatusFailure(m),
                    ),
                    _ => after.failure() == Some(event_error(event)),
                }
            }),
    {
        let stage = self.pending.unwrap();
        self.pending = None;
        let advanced = if self.next < self.commands.len() {
            self.next + 1
        } else {
            self.next
        };
        match (event, stage) {
            (StageEvent::Completed, Stage::Spawned) => {
                self.next = advanced;
                self.prev_spawned = true;
                self.prev_piped = self.pending_piped;
                self.spawned_any = true;
            },
            (StageEvent::Completed, Stage::Builtin) => {
                self.next = advanced;
                self.prev_spawned = false;
            },
            (StageEvent::Completed, Stage::Refused(m)) => {
                self.failure = Some(InterpretErr::ExitStatusFailure(m));
            },
            _ => {
                self.failure = Some(error_of(event));
            },
        }
    }

    /// The pipeline's outcome from what collecting the last spawned process
    /// gave: its output, or a runtime error where waiting failed.
    pub fn collected(output: Option<CommandOutput>) -> (r: Result<CommandOutput, InterpretErr>)
        ensures
            output matches Some(o) ==> r == Ok::<CommandOutput, InterpretErr>(o),
            output is None ==> (r matches Err(e) && e is RuntimeError),
    {
        match output {
            Some(o) => Ok(o),
            None => Err(InterpretErr::RuntimeError("Error waiting for output")),
        }
    }
}

/// The status of a finished pipeline: 130 where an interrupt killed its
/// foreground process, 1 where a builtin refused its arguments or failed, 0
/// where every stage was a builtin that succeeded, and otherwise the status
/// collected from its last spawned process. Once settled, the result carries
/// that status, unless a runtime error ended the pipeline.
pub proof fn lemma_pipeline_status(
    run: PipelineRun,
    action: PipelineAction,
    collected: CommandOutput,
    settled: Result<CommandOutput, InterpretErr>,
)
    requires
        run.wf(),
        run.is_finished(),
        run.ends_with(action),
        settles(
            match action {
                PipelineAction::Finish(res) => res,
                _ => Ok(collected),
            },
            settled,
        ),
    ensures
        (run.failure() matches Some(e) && e is Interrupt) ==> (settled matches Ok(o) && o.status
            == 130),
        (run.failure() matches Some(e) && e is ExitStatusFailure) ==> (settled matches Ok(o)
            && o.status == 1),
        (run.failure() matches Some(e) && e is RuntimeError) ==> settled is Err,
        run.failure() is None && !run.spawned_any() ==> (settled matches Ok(o) && o.status == 0),
        run.failure() is None && run.spawned_any() ==> settled == Ok::<CommandOutput, InterpretErr>(
            collected,
        ),
{
}

/// The decisions of running a program: its pipelines one after another.
pub struct SequenceRun {
    pipelines: Vec<Node>,
    result: Result<CommandOutput, InterpretErr>,
    stopped: bool,
}

impl SequenceRun {
    /// The pipelines not yet run.
    pub closed spec fn pending(&self) -> Seq<Node> {
        self.pipelines@
    }

    /// The result of the last pipeline run.
    pub closed spec fn result(&self) -> Result<CommandOutput, InterpretErr> {
        self.result
    }

    /// Whether a runtime error ended the program.
    pub closed spec fn stopped(&self) -> bool {
        self.stopped
    }

    /// Whether `next_pipeline` hands out a pipeline.
    pub open spec fn offers_next(&self) -> bool {
        !self.stopped() && self.pending().len() > 0 && self.pending()[0] is Pipeline
    }

    /// A run of the program `root`: a pipeline alone or a sequence of them,
    /// before anything ran; the result so far is status 0.
    pub fn new(root: Node) -> (r: Result<SequenceRun, InterpretErr>)
        ensures
            root is Pipeline ==> (r matches Ok(s) && s.pending() == seq![root]),
            root matches Node::CommandSequence(ps) ==> (r matches Ok(s) && s.pending() == ps@),
            !(root is Pipeline || root is CommandSequence) ==> r == Err::<SequenceRun, InterpretErr>(
                InterpretErr::RuntimeError("Unexpected starting node"),
            ),
            r matches Ok(s) ==> !s.stopped() && (s.result() matches Ok(o) && is_empty_output(o, 0)),
    {
        let pipelines = match root {
            Node::Pipeline(commands) => vec![Node::Pipeline(commands)],
            Node::CommandSequence(pipelines) => pipelines,
            _ => {
                return Err(InterpretErr::RuntimeError("Unexpected starting node"));
            },
        };
        Ok(SequenceRun { pipelines, result: Ok(CommandOutput::new_empty_output(0)), stopped: false })
    }

    /// The next pipeline to run, unless the program is over. An element of
    /// the sequence that is not a pipeline ends it with a runtime error.
    pub fn next_pipeline(&mut self) -> (r: Option<PipelineRun>)
        ensures
            r is Some <==> old(self).offers_next(),
            r matches Some(run) ==> run.wf() && run.commands() == old(self).pending()[0]->Pipeline_0@
                && run.completed() == 0 && !run.prev_spawned() && !run.spawned_any()
                && run.pending() is None && run.failure() is None,
            r is Some ==> final(self).pending() == old(self).pending().drop_first() && final(self).result()
                == old(self).result() && !final(self).stopped(),
            r is None && !old(self).stopped() && old(self).pending().len() > 0 ==> final(self).stopped()
                && final(self).result() == Err::<CommandOutput, InterpretErr>(
                InterpretErr::RuntimeError("Unexpected node in command sequence"),
            ),
            r is None && (old(self).stopped() || old(self).pending().len() == 0) ==> *final(self)
                == *old(self),
    {
        if self.stopped || self.pipelines.len() == 0 {
            return None;
        }
        match self.pipelines.remove(0) {
            Node::Pipeline(commands) => Some(PipelineRun::new(commands)),
            _ => {
                self.result = Err(InterpretErr::RuntimeError("Unexpected node in command sequence"));
                self.stopped = true;
                None
            },
        }
    }

    /// Takes in a pipeline's outcome: a builtin's failure and an interrupt
    /// let the program go on with status 1 and 130; a runtime error ends it.
    pub fn record(&mut self, outcome: Result<CommandOutput, InterpretErr>)
        requires
            !old(self).stopped(),
        ensures
            final(self).pending() == old(self).pending(),
            settles(outcome, final(self).result()),
            final(self).stopped() == (outcome matches Err(e) && e is RuntimeError),
    {
        let settled = settle(outcome);
        self.stopped = settled.is_err();
        self.result = settled;
    }

    /// The program's result: that of the last pipeline run, or the runtime
    /// error that ended it.
    pub fn finish(self) -> (r: Result<CommandOutput, InterpretErr>)
        ensures
            r == self.result(),
    {
        self.result
    }
}

/// A pipeline's failure ends the program only where it is a runtime error: a
/// builtin's failure or an interrupt lets the next pipeline run.
pub proof fn lemma_sequence_goes_on(
    before: SequenceRun,
    after: SequenceRun,
    outcome: Result<CommandOutput, InterpretErr>,
)
    requires
        !before.stopped(),
        after.pending() == before.pending(),
        settles(outcome, after.result()),
        after.stopped() == (outcome matches Err(e) && e is RuntimeError),
        before.pending().len() > 0,
        before.pending()[0] is Pipeline,
    ensures
        after.offers_next() <==> !(outcome matches Err(e) && e is RuntimeError),
        (outcome matches Err(e) && e is ExitStatusFailure) ==> after.offers_next() && (after.result() matches Ok(o) && o.status == 1),
        (outcome matches Err(e) && e is Interrupt) ==> after.offers_next() && (after.result() matches Ok(o) && o.status == 130),
{
}

/// The last write or append redirection decides the output: the redirections
/// before it do not matter, and read redirections after it leave it alone.
pub proof fn lemma_last_write_wins(before: Seq<Node>, w: Node, reads: Seq<Node>, d: Sink)
    requires
        w is RedirectWrite || w is RedirectAppend,
        forall|k: int| 0 <= k < reads.len() ==> #[trigger] reads[k] is RedirectRead,
    ensures
        output_after(before.push(w) + reads, d) == match w {
            Node::RedirectWrite(p) => Sink::Truncate(p@),
            Node::RedirectAppend(p) => Sink::Append(p@),
            _ => d,
        },
    decreases reads.len(),
{
    if reads.len() == 0 {
        assert(before.push(w) + reads =~= before.push(w));
    } else {
        let all = before.push(w) + reads;
        assert(all.drop_last() =~= before.push(w) + reads.drop_last());
        assert(all.last() == reads.last());
        lemma_last_write_wins(before, w, reads.drop_last(), d);
    }
}

} // verus!
