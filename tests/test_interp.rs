use crsh::ast::Node;
use crsh::interp::{
    after_kill, parse_exit_code, plan_command, settle, wait_step, CommandOutput, Dispatch,
    InputSource, InterpretErr, OutputTarget, PipelineAction, PipelineRun, SequenceRun, StageEvent,
    WaitPoll, WaitStep,
};

fn strings(v: &[&str]) -> Vec<String> {
    v.iter().map(|s| s.to_string()).collect()
}

fn command(words: &[&str], redirects: Vec<Node>) -> Node {
    Node::Command(strings(words), redirects)
}

fn output(status: i32) -> CommandOutput {
    CommandOutput { status, stdout: b"out".to_vec(), stderr: vec![] }
}

#[test]
fn exit_codes_read_as_i32() {
    assert_eq!(Some(42), parse_exit_code("42"));
    assert_eq!(Some(-7), parse_exit_code("-7"));
    assert_eq!(Some(3), parse_exit_code("+3"));
    assert_eq!(Some(0), parse_exit_code("000"));
    assert_eq!(Some(i32::MAX), parse_exit_code("2147483647"));
    assert_eq!(Some(i32::MIN), parse_exit_code("-2147483648"));
    assert_eq!(None, parse_exit_code("2147483648"));
    assert_eq!(None, parse_exit_code("-2147483649"));
    assert_eq!(None, parse_exit_code("99999999999999999999"));
    assert_eq!(None, parse_exit_code(""));
    assert_eq!(None, parse_exit_code("-"));
    assert_eq!(None, parse_exit_code("+"));
    assert_eq!(None, parse_exit_code("abc"));
    assert_eq!(None, parse_exit_code("1a"));
    assert_eq!(None, parse_exit_code("+-1"));
    assert_eq!(None, parse_exit_code(" 1"));
}

#[test]
fn plan_defaults_follow_position() {
    let node = command(&["grep", "-r"], vec![]);
    let plan = plan_command(&node, true, false).unwrap();
    assert!(matches!(plan.stdin, InputSource::Previous));
    assert!(matches!(plan.stdout, OutputTarget::Pipe));
    match plan.dispatch {
        Dispatch::Spawn(program, args) => {
            assert_eq!("grep", program);
            assert_eq!(strings(&["-r"]), args);
        }
        _ => panic!("expected a spawn"),
    }
    let plan = plan_command(&node, false, true).unwrap();
    assert!(matches!(plan.stdin, InputSource::Inherit));
    assert!(matches!(plan.stdout, OutputTarget::Inherit));
}

#[test]
fn plan_applies_redirects_in_order() {
    let node = command(
        &["grep", "hi"],
        vec![Node::RedirectRead("input".into()), Node::RedirectWrite("output".into())],
    );
    let plan = plan_command(&node, true, false).unwrap();
    assert!(matches!(plan.stdin, InputSource::ReadFile(ref p) if p == "input"));
    assert!(matches!(plan.stdout, OutputTarget::WriteFile(ref p) if p == "output"));
}

#[test]
fn plan_last_write_wins() {
    let node = command(
        &["echo", "x"],
        vec![Node::RedirectWrite("first".into()), Node::RedirectWrite("second".into())],
    );
    let plan = plan_command(&node, false, true).unwrap();
    assert!(matches!(plan.stdout, OutputTarget::WriteFile(ref p) if p == "second"));
    let node = command(
        &["echo", "x"],
        vec![
            Node::RedirectWrite("first".into()),
            Node::RedirectAppend("log".into()),
            Node::RedirectRead("in".into()),
            Node::RedirectRead("in2".into()),
        ],
    );
    let plan = plan_command(&node, false, true).unwrap();
    assert!(matches!(plan.stdout, OutputTarget::AppendFile(ref p) if p == "log"));
    assert!(matches!(plan.stdin, InputSource::ReadFile(ref p) if p == "in2"));
}

#[test]
fn plan_builtins() {
    let plan = plan_command(&command(&["cd", "/tmp"], vec![]), false, true).unwrap();
    assert!(matches!(plan.dispatch, Dispatch::ChangeDir(ref d) if d == "/tmp"));
    let plan = plan_command(&command(&["cd"], vec![]), false, true).unwrap();
    assert!(matches!(plan.dispatch, Dispatch::UsageError(_)));
    let plan = plan_command(&command(&["cd", "a", "b"], vec![]), false, true).unwrap();
    assert!(matches!(plan.dispatch, Dispatch::UsageError(_)));
    let plan = plan_command(&command(&["exit"], vec![]), false, true).unwrap();
    assert!(matches!(plan.dispatch, Dispatch::Exit(0)));
    let plan = plan_command(&command(&["exit", "3"], vec![]), false, true).unwrap();
    assert!(matches!(plan.dispatch, Dispatch::Exit(3)));
    let plan = plan_command(&command(&["exit", "three"], vec![]), false, true).unwrap();
    assert!(matches!(plan.dispatch, Dispatch::UsageError(_)));
    let plan = plan_command(&command(&["exit", "1", "2"], vec![]), false, true).unwrap();
    assert!(matches!(plan.dispatch, Dispatch::UsageError(_)));
    let plan = plan_command(&command(&["cdx"], vec![]), false, true).unwrap();
    assert!(matches!(plan.dispatch, Dispatch::Spawn(ref p, _) if p == "cdx"));
}

#[test]
fn plan_rejects_malformed_nodes() {
    let r = plan_command(&command(&[], vec![]), false, true);
    assert!(matches!(r, Err(InterpretErr::RuntimeError("Empty command"))));
    let r = plan_command(&command(&["ls"], vec![Node::Pipeline(vec![])]), false, true);
    assert!(matches!(r, Err(InterpretErr::RuntimeError("Unexpected node for redirect"))));
    let r = plan_command(&Node::RedirectRead("x".into()), false, true);
    assert!(matches!(r, Err(InterpretErr::RuntimeError("Unexpected node in pipeline"))));
}

#[test]
fn settle_substitutes_statuses() {
    assert!(matches!(settle(Err(InterpretErr::Interrupt("x"))), Ok(ref o) if o.status == 130 && o.stdout.is_empty()));
    assert!(matches!(settle(Err(InterpretErr::ExitStatusFailure("x"))), Ok(ref o) if o.status == 1));
    assert!(matches!(settle(Err(InterpretErr::RuntimeError("x"))), Err(InterpretErr::RuntimeError("x"))));
    assert!(matches!(settle(Ok(output(5))), Ok(ref o) if o.status == 5 && o.stdout == b"out"));
}

fn run_to_end(run: &mut PipelineRun, events: &[StageEvent]) -> PipelineAction {
    let mut events = events.iter();
    loop {
        match run.next_action() {
            PipelineAction::Run(_) => run.record(*events.next().unwrap()),
            other => return other,
        }
    }
}

#[test]
fn pipeline_of_builtins_ends_with_status_zero() {
    let mut run = PipelineRun::new(vec![command(&["cd", "/"], vec![])]);
    match run_to_end(&mut run, &[StageEvent::Completed]) {
        PipelineAction::Finish(Ok(o)) => assert_eq!(0, o.status),
        _ => panic!("expected status 0"),
    }
}

#[test]
fn pipeline_with_a_process_collects_it() {
    let mut run = PipelineRun::new(vec![
        command(&["cat", "f"], vec![]),
        command(&["wc"], vec![]),
    ]);
    match run.next_action() {
        PipelineAction::Run(plan) => {
            assert!(matches!(plan.stdin, InputSource::Inherit));
            assert!(matches!(plan.stdout, OutputTarget::Pipe));
        }
        _ => panic!("expected a stage"),
    }
    run.record(StageEvent::Completed);
    match run.next_action() {
        PipelineAction::Run(plan) => {
            assert!(matches!(plan.stdin, InputSource::Previous));
            assert!(matches!(plan.stdout, OutputTarget::Inherit));
        }
        _ => panic!("expected a stage"),
    }
    run.record(StageEvent::Completed);
    assert!(matches!(run.next_action(), PipelineAction::Collect));
    let r = settle(PipelineRun::collected(Some(output(7))));
    assert!(matches!(r, Ok(ref o) if o.status == 7));
    assert!(matches!(PipelineRun::collected(None), Err(InterpretErr::RuntimeError(_))));
}

#[test]
fn builtin_between_processes_resets_the_input() {
    let mut run = PipelineRun::new(vec![
        command(&["ls"], vec![]),
        command(&["cd", "/"], vec![]),
        command(&["wc"], vec![]),
    ]);
    assert!(matches!(run.next_action(), PipelineAction::Run(_)));
    run.record(StageEvent::Completed);
    assert!(matches!(run.next_action(), PipelineAction::Run(_)));
    run.record(StageEvent::Completed);
    match run.next_action() {
        PipelineAction::Run(plan) => assert!(matches!(plan.stdin, InputSource::Inherit)),
        _ => panic!("expected a stage"),
    }
}

#[test]
fn interrupted_pipeline_settles_to_130() {
    let mut run = PipelineRun::new(vec![command(&["sleep", "10"], vec![]), command(&["wc"], vec![])]);
    match run_to_end(&mut run, &[StageEvent::Interrupted]) {
        PipelineAction::Finish(r) => {
            assert!(matches!(r, Err(InterpretErr::Interrupt(_))));
            assert!(matches!(settle(r), Ok(ref o) if o.status == 130));
        }
        _ => panic!("expected the end"),
    }
}

#[test]
fn refused_builtin_settles_to_1() {
    let mut run = PipelineRun::new(vec![command(&["cd", "a", "b"], vec![])]);
    match run_to_end(&mut run, &[StageEvent::Completed]) {
        PipelineAction::Finish(r) => {
            assert!(matches!(r, Err(InterpretErr::ExitStatusFailure(_))));
            assert!(matches!(settle(r), Ok(ref o) if o.status == 1));
        }
        _ => panic!("expected the end"),
    }
    let mut run = PipelineRun::new(vec![command(&["cd", "/nowhere"], vec![])]);
    match run_to_end(&mut run, &[StageEvent::ChangeDirFailed]) {
        PipelineAction::Finish(r) => assert!(matches!(settle(r), Ok(ref o) if o.status == 1)),
        _ => panic!("expected the end"),
    }
}

#[test]
fn failed_spawn_is_a_runtime_error() {
    let mut run = PipelineRun::new(vec![command(&["nonexistent"], vec![])]);
    match run_to_end(&mut run, &[StageEvent::SpawnFailed]) {
        PipelineAction::Finish(r) => assert!(matches!(settle(r), Err(InterpretErr::RuntimeError(_)))),
        _ => panic!("expected the end"),
    }
    let mut run = PipelineRun::new(vec![command(&["cat"], vec![Node::RedirectRead("missing".into())])]);
    match run_to_end(&mut run, &[StageEvent::OpenFailed]) {
        PipelineAction::Finish(r) => assert!(matches!(r, Err(InterpretErr::RuntimeError(_)))),
        _ => panic!("expected the end"),
    }
}

fn three_pipelines() -> Node {
    Node::CommandSequence(vec![
        Node::Pipeline(vec![command(&["a"], vec![])]),
        Node::Pipeline(vec![command(&["b"], vec![])]),
        Node::Pipeline(vec![command(&["c"], vec![])]),
    ])
}

#[test]
fn sequence_goes_on_after_builtin_failure() {
    let mut seq = SequenceRun::new(three_pipelines()).unwrap();
    assert!(seq.next_pipeline().is_some());
    seq.record(Ok(output(0)));
    assert!(seq.next_pipeline().is_some());
    seq.record(Err(InterpretErr::ExitStatusFailure("")));
    let third = seq.next_pipeline();
    assert!(third.is_some());
    seq.record(Ok(output(4)));
    assert!(seq.next_pipeline().is_none());
    assert!(matches!(seq.finish(), Ok(ref o) if o.status == 4));
}

#[test]
fn sequence_goes_on_after_interrupt() {
    let mut seq = SequenceRun::new(three_pipelines()).unwrap();
    assert!(seq.next_pipeline().is_some());
    seq.record(Err(InterpretErr::Interrupt("")));
    assert!(seq.next_pipeline().is_some());
}

#[test]
fn sequence_stops_on_runtime_error() {
    let mut seq = SequenceRun::new(three_pipelines()).unwrap();
    assert!(seq.next_pipeline().is_some());
    seq.record(Ok(output(0)));
    assert!(seq.next_pipeline().is_some());
    seq.record(Err(InterpretErr::RuntimeError("boom")));
    assert!(seq.next_pipeline().is_none());
    assert!(matches!(seq.finish(), Err(InterpretErr::RuntimeError("boom"))));
}

#[test]
fn sequence_of_one_pipeline_and_bad_roots() {
    let mut seq = SequenceRun::new(Node::Pipeline(vec![command(&["ls"], vec![])])).unwrap();
    assert!(seq.next_pipeline().is_some());
    seq.record(Err(InterpretErr::Interrupt("")));
    assert!(seq.next_pipeline().is_none());
    assert!(matches!(seq.finish(), Ok(ref o) if o.status == 130));
    assert!(matches!(
        SequenceRun::new(command(&["ls"], vec![])),
        Err(InterpretErr::RuntimeError("Unexpected starting node"))
    ));
    let empty = SequenceRun::new(Node::CommandSequence(vec![])).unwrap();
    assert!(matches!(empty.finish(), Ok(ref o) if o.status == 0));
    let mut bad = SequenceRun::new(Node::CommandSequence(vec![command(&["ls"], vec![])])).unwrap();
    assert!(bad.next_pipeline().is_none());
    assert!(matches!(
        bad.finish(),
        Err(InterpretErr::RuntimeError("Unexpected node in command sequence"))
    ));
}

#[test]
fn stage_after_a_redirected_process_reads_the_shell_input() {
    let mut run = PipelineRun::new(vec![
        command(&["echo", "hi"], vec![Node::RedirectWrite("f".into())]),
        command(&["true"], vec![]),
    ]);
    match run.next_action() {
        PipelineAction::Run(plan) => {
            assert!(matches!(plan.stdout, OutputTarget::WriteFile(ref p) if p == "f"));
        }
        _ => panic!("expected a stage"),
    }
    run.record(StageEvent::Completed);
    match run.next_action() {
        PipelineAction::Run(plan) => assert!(matches!(plan.stdin, InputSource::Inherit)),
        _ => panic!("expected a stage"),
    }
    run.record(StageEvent::Completed);
    assert!(matches!(run.next_action(), PipelineAction::Collect));
}

#[test]
fn waiting_steps() {
    assert!(matches!(wait_step(WaitPoll::Exited, false), WaitStep::Done(StageEvent::Completed)));
    assert!(matches!(wait_step(WaitPoll::Exited, true), WaitStep::Done(StageEvent::Completed)));
    assert!(matches!(wait_step(WaitPoll::Failed, false), WaitStep::Done(StageEvent::WaitFailed)));
    assert!(matches!(wait_step(WaitPoll::Running, true), WaitStep::Kill));
    assert!(matches!(wait_step(WaitPoll::Running, false), WaitStep::Sleep(100)));
    assert!(matches!(after_kill(true), StageEvent::Interrupted));
    assert!(matches!(after_kill(false), StageEvent::WaitFailed));
}
