use cairo_debugger::debug_info::{CasmDebugInfo, CodeLocation, Context, Line, StatementKind};
use cairo_debugger::session::{
    handle_request, teardown_reply, Command, Event, HandleResult, HandlerError, HandlerResponse,
    NextAction, Phase, ResponseBody, Session, StoppedReason,
};
use cairo_debugger::state::State;
use cairo_debugger::call_stack::CallStack;

fn loc(file: &str, line: usize, col: usize) -> CodeLocation {
    CodeLocation { file: file.to_string(), line, col }
}

/// Offsets 0, 10, 20, 30; statement 1 lies on line 2 (0-based) of a.cairo.
fn context() -> Context {
    Context::new(
        "/proj".to_string(),
        CasmDebugInfo { statement_to_pc: vec![0, 10, 20, 30] },
        vec![StatementKind::Other; 4],
        vec![
            vec![loc("a.cairo", 0, 0)],
            vec![loc("a.cairo", 2, 4)],
            vec![loc("b.cairo", 7, 0)],
            vec![],
        ],
        vec![Vec::new(); 4],
    )
    .unwrap()
}

fn set_breakpoints(source: &str, lines: Vec<usize>) -> Command {
    Command::SetBreakpoints { source: source.to_string(), lines }
}

fn ok(r: Result<HandlerResponse, HandlerError>) -> HandlerResponse {
    r.unwrap()
}

#[test]
fn state_flags() {
    let mut state = State::new();
    assert!(!state.is_configuration_done());
    assert!(!state.is_execution_stopped());
    state.set_configuration_done();
    assert!(state.is_configuration_done());
    state.stop_execution();
    assert!(state.is_execution_stopped());
    state.resume_execution();
    assert!(!state.is_execution_stopped());
    state.set_current_pc(12);
    assert_eq!(state.current_pc(), 12);
}

#[test]
fn set_breakpoint_adds_to_the_file() {
    let ctx = context();
    let mut state = State::new();
    assert!(state.set_breakpoint("a.cairo".to_string(), Line::new(2), &ctx));
    assert!(!state.set_breakpoint("a.cairo".to_string(), Line::new(3), &ctx));
    assert!(state.should_stop(10));
    assert!(!state.should_stop(20));
}

#[test]
fn set_breakpoints_replaces_per_file() {
    let ctx = context();
    let mut state = State::new();
    let a = "a.cairo".to_string();
    let b = "b.cairo".to_string();
    assert_eq!(state.set_breakpoints(&a, &vec![Line::new(2), Line::new(5)], &ctx), vec![true, false]);
    assert_eq!(state.set_breakpoints(&b, &vec![Line::new(7)], &ctx), vec![true]);
    assert!(state.should_stop(10));
    assert!(state.should_stop(20));
    assert_eq!(state.set_breakpoints(&a, &vec![Line::new(0)], &ctx), vec![true]);
    assert!(!state.should_stop(10));
    assert!(state.should_stop(0));
    assert!(state.should_stop(20));
}

#[test]
fn empty_set_breakpoints_clears_file() {
    let ctx = context();
    let mut state = State::new();
    let a = "a.cairo".to_string();
    assert_eq!(state.set_breakpoints(&a, &vec![Line::new(2)], &ctx), vec![true]);
    assert!(state.should_stop(10));
    let verified = state.set_breakpoints(&a, &Vec::new(), &ctx);
    assert!(verified.is_empty());
    assert!(!state.should_stop(10));
}

#[test]
fn paused_state_stops_anywhere() {
    let mut state = State::new();
    state.stop_execution();
    assert!(state.should_stop(12345));
}

#[test]
fn unresolvable_breakpoint_then_configuration_done() {
    let mut session = Session::new(context());
    let init = ok(session.process_request(&Command::Initialize));
    assert!(matches!(
        init.response_body,
        ResponseBody::Initialize { supports_configuration_done_request: true }
    ));
    assert_eq!(init.event, Some(Event::Initialized));
    assert_eq!(session.phase(), Phase::AwaitingConfiguration);

    let bps = ok(session.process_request(&set_breakpoints("a.cairo", vec![5])));
    match bps.response_body {
        ResponseBody::SetBreakpoints(statuses) => {
            assert_eq!(statuses.len(), 1);
            assert!(!statuses[0].verified);
            assert_eq!(statuses[0].line, 5);
        }
        other => panic!("unexpected response {other:?}"),
    }
    assert_eq!(session.phase(), Phase::AwaitingConfiguration);

    let done = ok(session.process_request(&Command::ConfigurationDone));
    assert_eq!(done.result, HandleResult::Trigger(NextAction::FinishInit));
    assert_eq!(session.phase(), Phase::Configured);
    assert!(!session.waits_for_request());
    session.advance(0);
    assert_eq!(session.check_stop(), None);
    assert_eq!(session.phase(), Phase::Running);
}

#[test]
fn pause_while_running_stops_once_and_continue_resumes() {
    let mut session = Session::new(context());
    ok(session.process_request(&Command::ConfigurationDone));
    session.advance(0);
    assert_eq!(session.check_stop(), None);

    let pause = ok(session.process_request(&Command::Pause));
    assert_eq!(pause.event, Some(Event::Stopped(StoppedReason::Pause)));
    assert_eq!(pause.result, HandleResult::Trigger(NextAction::Stop));
    // The pause was already reported: no second stopped event.
    assert_eq!(session.check_stop(), None);
    assert_eq!(session.phase(), Phase::Stopped);
    assert!(session.waits_for_request());

    let cont = ok(session.process_request(&Command::Continue));
    assert!(matches!(cont.response_body, ResponseBody::Continue { all_threads_continued: true }));
    assert_eq!(cont.event, None);
    assert_eq!(cont.result, HandleResult::Trigger(NextAction::Resume));
    assert_eq!(session.phase(), Phase::Running);
    session.advance(10);
    assert_eq!(session.check_stop(), None);
    assert_eq!(session.phase(), Phase::Running);
}

#[test]
fn breakpoint_hit_stops_with_event() {
    let mut session = Session::new(context());
    let bps = ok(session.process_request(&set_breakpoints("a.cairo", vec![3])));
    match bps.response_body {
        ResponseBody::SetBreakpoints(statuses) => assert!(statuses[0].verified),
        other => panic!("unexpected response {other:?}"),
    }
    ok(session.process_request(&Command::ConfigurationDone));
    session.advance(0);
    assert_eq!(session.check_stop(), None);
    session.advance(10);
    assert_eq!(session.check_stop(), Some(Event::Stopped(StoppedReason::Breakpoint)));
    assert_eq!(session.phase(), Phase::Stopped);
    match ok(session.process_request(&Command::StackTrace)).response_body {
        ResponseBody::StackTrace(frames) => {
            assert_eq!(frames.len(), 1);
            assert_eq!((frames[0].line, frames[0].column), (3, 5));
        }
        other => panic!("unexpected response {other:?}"),
    }
}

#[test]
fn teardown_after_partial_initialization() {
    let mut session = Session::new(context());
    ok(session.process_request(&Command::Initialize));
    assert_eq!(session.phase(), Phase::AwaitingConfiguration);
    assert_eq!(session.teardown(), vec![Event::Terminated, Event::Exited(0)]);
    assert_eq!(session.phase(), Phase::Terminated);
    assert!(!session.waits_for_request());
    assert_eq!(session.teardown(), Vec::<Event>::new());
}

#[test]
fn teardown_answers_only_disconnect() {
    assert!(matches!(teardown_reply(&Command::Disconnect), Some(ResponseBody::Disconnect)));
    assert!(teardown_reply(&Command::Threads).is_none());
}

#[test]
fn refused_requests() {
    let mut session = Session::new(context());
    let cases = [
        (Command::Attach, HandlerError::AttachNotSupported),
        (Command::ReverseContinue, HandlerError::ReverseContinueNotSupported),
        (Command::StepBack, HandlerError::StepBackNotSupported),
        (Command::SetFunctionBreakpoints, HandlerError::SetFunctionBreakpointsNotSupported),
        (Command::Goto, HandlerError::Unsupported),
        (Command::WriteMemory, HandlerError::Unsupported),
        (Command::Next, HandlerError::NotImplemented),
        (Command::StepIn, HandlerError::NotImplemented),
        (Command::Disconnect, HandlerError::DisconnectDuringSession),
    ];
    for (command, error) in cases {
        assert_eq!(session.process_request(&command).unwrap_err(), error);
    }
    assert_eq!(HandlerError::AttachNotSupported.message(), "Attach is not supported");
}

#[test]
fn configuration_done_while_running_is_accepted() {
    let mut session = Session::new(context());
    ok(session.process_request(&Command::ConfigurationDone));
    session.advance(0);
    let again = ok(session.process_request(&Command::ConfigurationDone));
    assert_eq!(again.result, HandleResult::Trigger(NextAction::FinishInit));
    assert_eq!(session.phase(), Phase::Running);
}

#[test]
fn advance_moves_the_call_stack_one_step_late() {
    let ctx = Context::new(
        "/proj".to_string(),
        CasmDebugInfo { statement_to_pc: vec![0, 10, 20] },
        vec![StatementKind::FunctionCall, StatementKind::Other, StatementKind::Return],
        vec![vec![loc("a.cairo", 0, 0)], vec![loc("a.cairo", 5, 0)], vec![loc("a.cairo", 6, 0)]],
        vec![Vec::new(); 3],
    )
    .unwrap();
    let mut session = Session::new(ctx);
    ok(session.process_request(&Command::ConfigurationDone));
    let mut depths = Vec::new();
    for pc in [0, 10, 20, 0] {
        session.advance(pc);
        match ok(session.process_request(&Command::StackTrace)).response_body {
            ResponseBody::StackTrace(frames) => depths.push(frames.len()),
            other => panic!("unexpected response {other:?}"),
        }
    }
    assert_eq!(depths, vec![1, 2, 2, 1]);
}

#[test]
fn configuration_done_twice_fails() {
    let mut session = Session::new(context());
    ok(session.process_request(&Command::ConfigurationDone));
    session.advance(0);
    ok(session.process_request(&Command::Pause));
    assert_eq!(
        session.process_request(&Command::ConfigurationDone).unwrap_err(),
        HandlerError::ConfigurationAlreadyDone
    );
}

#[test]
fn plain_requests_answer_without_state_change() {
    let ctx = context();
    let mut state = State::new();
    let stack = CallStack::new();
    for command in [Command::Launch, Command::Threads, Command::Evaluate] {
        let r = handle_request(&command, &mut state, &ctx, &stack).unwrap();
        assert_eq!(r.event, None);
        assert_eq!(r.result, HandleResult::Handled);
    }
    match handle_request(&Command::Threads, &mut state, &ctx, &stack).unwrap().response_body {
        ResponseBody::Threads(threads) => {
            assert_eq!(threads.len(), 1);
            assert_eq!(threads[0].id, 0);
            assert_eq!(threads[0].name, "");
        }
        other => panic!("unexpected response {other:?}"),
    }
    match handle_request(&Command::Evaluate, &mut state, &ctx, &stack).unwrap().response_body {
        ResponseBody::Evaluate { result } => assert_eq!(result, ""),
        other => panic!("unexpected response {other:?}"),
    }
    let r = handle_request(&Command::Variables { variables_reference: 2 }, &mut state, &ctx, &stack)
        .unwrap();
    match r.response_body {
        ResponseBody::Variables(variables) => assert!(variables.is_empty()),
        other => panic!("unexpected response {other:?}"),
    }
    let r = handle_request(&Command::Scopes { frame_id: 1 }, &mut state, &ctx, &stack).unwrap();
    match r.response_body {
        ResponseBody::Scopes(scopes) => assert_eq!(scopes[0].variables_reference, 2),
        other => panic!("unexpected response {other:?}"),
    }
    assert!(!state.is_configuration_done());
}
