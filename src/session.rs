use vstd::prelude::*;

use crate::call_stack::{action_for, apply_action, Action, frames_of_levels, one_based, views, CallStack, Scope, StackFrame, Variable};
use crate::debug_info::{statement_at, Context, Line};
use crate::state::State;

verus! {

/// A request of the debug adapter protocol, with the arguments this debugger reads.
#[derive(Debug)]
pub enum Command {
    Attach,
    BreakpointLocations,
    Cancel,
    Completions,
    ConfigurationDone,
    Continue,
    DataBreakpointInfo,
    Disassemble,
    Disconnect,
    Evaluate,
    ExceptionInfo,
    Goto,
    GotoTargets,
    Initialize,
    Launch,
    LoadedSources,
    Modules,
    Next,
    Pause,
    ReadMemory,
    Restart,
    RestartFrame,
    ReverseContinue,
    Scopes { frame_id: usize },
    SetBreakpoints { source: String, lines: Vec<usize> },
    SetDataBreakpoints,
    SetExceptionBreakpoints,
    SetExpression,
    SetFunctionBreakpoints,
    SetInstructionBreakpoints,
    SetVariable,
    Source,
    StackTrace,
    StepBack,
    StepIn,
    StepInTargets,
    StepOut,
    Terminate,
    TerminateThreads,
    Threads,
    Variables { variables_reference: usize },
    WriteMemory,
}

/// Why a request was refused. Each refusal ends the session.
#[derive(Clone, Copy, Debug, PartialEq, Eq, Structural)]
pub enum HandlerError {
    /// A request that the declared capabilities rule out.
    Unsupported,
    /// `attach` makes no sense: the debugger launches the program itself.
    AttachNotSupported,
    ReverseContinueNotSupported,
    StepBackNotSupported,
    SetFunctionBreakpointsNotSupported,
    /// Stepping and source requests are not implemented.
    NotImplemented,
    /// `configurationDone` arrived again while execution is stopped.
    ConfigurationAlreadyDone,
    /// `disconnect` is answered only while the session is torn down.
    DisconnectDuringSession,
}

pub open spec fn error_message(e: HandlerError) -> Seq<char> {
    match e {
        HandlerError::Unsupported => "Unsupported request"@,
        HandlerError::AttachNotSupported => "Attach is not supported"@,
        HandlerError::ReverseContinueNotSupported => "Reverse continue is not yet supported"@,
        HandlerError::StepBackNotSupported => "Step back is not yet supported"@,
        HandlerError::SetFunctionBreakpointsNotSupported =>
            "Set function breakpoints is not yet supported"@,
        HandlerError::NotImplemented => "Request is not implemented"@,
        HandlerError::ConfigurationAlreadyDone => "Configuration is already done"@,
        HandlerError::DisconnectDuringSession => "Disconnect is handled at the end of the session"@,
    }
}

impl HandlerError {
    /// Text of the failed response sent for this refusal.
    pub fn message(&self) -> (r: String)
        ensures
            r@ == error_message(*self),
    {
        match self {
            HandlerError::Unsupported => "Unsupported request".to_owned(),
            HandlerError::AttachNotSupported => "Attach is not supported".to_owned(),
            HandlerError::ReverseContinueNotSupported => "Reverse continue is not yet supported".to_owned(),
            HandlerError::StepBackNotSupported => "Step back is not yet supported".to_owned(),
            HandlerError::SetFunctionBreakpointsNotSupported =>
                "Set function breakpoints is not yet supported".to_owned(),
            HandlerError::NotImplemented => "Request is not implemented".to_owned(),
            HandlerError::ConfigurationAlreadyDone => "Configuration is already done".to_owned(),
            HandlerError::DisconnectDuringSession =>
                "Disconnect is handled at the end of the session".to_owned(),
        }
    }
}

/// Why execution stopped.
#[derive(Clone, Copy, Debug, PartialEq, Eq, Structural)]
pub enum StoppedReason {
    Pause,
    Breakpoint,
}

/// An event sent to the client.
#[derive(Clone, Copy, Debug, PartialEq, Eq, Structural)]
pub enum Event {
    Initialized,
    Stopped(StoppedReason),
    Terminated,
    Exited(i64),
}

/// The answer to one requested breakpoint line.
#[derive(Clone, Copy, Debug, PartialEq, Eq, Structural)]
pub struct BreakpointStatus {
    pub verified: bool,
    /// The line as the client gave it, counted from one.
    pub line: usize,
}

/// A thread of the debugged program; the program runs as a single thread.
#[derive(Debug)]
pub struct Thread {
    pub id: usize,
    pub name: String,
}

/// The body of a successful response.
#[derive(Debug)]
pub enum ResponseBody {
    /// The capabilities of the debugger.
    Initialize { supports_configuration_done_request: bool },
    Launch,
    ConfigurationDone,
    Pause,
    Continue { all_threads_continued: bool },
    SetBreakpoints(Vec<BreakpointStatus>),
    Threads(Vec<Thread>),
    StackTrace(Vec<StackFrame>),
    Scopes(Vec<Scope>),
    Variables(Vec<Variable>),
    /// Expressions are not evaluated: the result is empty.
    Evaluate { result: String },
    Disconnect,
}

/// What handling a request means for the session loop.
#[derive(Clone, Copy, Debug, PartialEq, Eq, Structural)]
pub enum NextAction {
    Resume,
    Stop,
    FinishInit,
}

#[derive(Clone, Copy, Debug, PartialEq, Eq, Structural)]
pub enum HandleResult {
    Handled,
    Trigger(NextAction),
}

/// The response to a request, with the event it causes, sent before the response.
#[derive(Debug)]
pub struct HandlerResponse {
    pub response_body: ResponseBody,
    pub event: Option<Event>,
    pub result: HandleResult,
}

impl HandlerResponse {
    pub fn from_body(response_body: ResponseBody) -> (r: HandlerResponse)
        ensures
            r.response_body == response_body,
            r.event is None,
            r.result == HandleResult::Handled,
    {
        HandlerResponse { response_body, event: None, result: HandleResult::Handled }
    }

    pub fn with_event(self, event: Event) -> (r: HandlerResponse)
        ensures
            r.response_body == self.response_body,
            r.event == Some(event),
            r.result == self.result,
    {
        HandlerResponse { response_body: self.response_body, event: Some(event), result: self.result }
    }

    pub fn with_result(self, result: HandleResult) -> (r: HandlerResponse)
        ensures
            r.response_body == self.response_body,
            r.event == self.event,
            r.result == result,
    {
        HandlerResponse { response_body: self.response_body, event: self.event, result }
    }
}

/// Zero-based line of a line that the client counts from one; line 0 is taken as the first.
pub open spec fn zero_based(line: usize) -> Line {
    Line(if line > 0 {
        (line - 1) as usize
    } else {
        0
    })
}

/// The refusal for a request outside the supported set, if it is one.
pub open spec fn refusal(command: Command) -> Option<HandlerError> {
    match command {
        Command::Attach => Some(HandlerError::AttachNotSupported),
        Command::ReverseContinue => Some(HandlerError::ReverseContinueNotSupported),
        Command::StepBack => Some(HandlerError::StepBackNotSupported),
        Command::SetFunctionBreakpoints => Some(HandlerError::SetFunctionBreakpointsNotSupported),
        Command::BreakpointLocations | Command::Cancel | Command::Completions
        | Command::DataBreakpointInfo | Command::Disassemble | Command::Goto
        | Command::ExceptionInfo | Command::GotoTargets | Command::LoadedSources
        | Command::Modules | Command::ReadMemory | Command::RestartFrame
        | Command::SetDataBreakpoints | Command::Restart | Command::SetExceptionBreakpoints
        | Command::TerminateThreads | Command::Terminate | Command::StepInTargets
        | Command::SetVariable | Command::SetInstructionBreakpoints | Command::SetExpression
        | Command::WriteMemory => Some(HandlerError::Unsupported),
        Command::Next | Command::StepIn | Command::StepOut | Command::Source => Some(
            HandlerError::NotImplemented,
        ),
        Command::Disconnect => Some(HandlerError::DisconnectDuringSession),
        _ => None,
    }
}

/// The state is left exactly as it was.
pub open spec fn same_state(a: State, b: State) -> bool {
    &&& b.wf() == a.wf()
    &&& b.configured() == a.configured()
    &&& b.stopped() == a.stopped()
    &&& b.pc() == a.pc()
    &&& forall|f: Seq<char>| #[trigger] b.breakpoints_in(f) == a.breakpoints_in(f)
}

/// What handling `request` does: the response, the event it causes, and the change from the
/// state `old` to the state `new`, while `calls` are the frames below the current one.
pub open spec fn request_outcome(
    request: Command,
    old: State,
    new: State,
    ctx: &Context,
    calls: Seq<usize>,
    r: Result<HandlerResponse, HandlerError>,
) -> bool {
    &&& new.wf()
    &&& refusal(request) matches Some(e) ==> r == Err::<HandlerResponse, HandlerError>(e)
        && same_state(old, new)
    &&& r is Err <==> (refusal(request) is Some || (request is ConfigurationDone
        && old.configured() && old.stopped()))
    &&& request is ConfigurationDone && old.configured() && old.stopped() ==> r
        == Err::<HandlerResponse, HandlerError>(HandlerError::ConfigurationAlreadyDone)
    &&& match r {
        Err(_) => same_state(old, new),
        Ok(resp) => match request {
            Command::Initialize => {
                &&& resp.response_body matches ResponseBody::Initialize {
                    supports_configuration_done_request,
                } && supports_configuration_done_request
                &&& resp.event == Some(Event::Initialized)
                &&& resp.result == HandleResult::Handled
                &&& same_state(old, new)
            },
            Command::Launch => {
                &&& resp.response_body is Launch
                &&& resp.event is None
                &&& resp.result == HandleResult::Handled
                &&& same_state(old, new)
            },
            Command::ConfigurationDone => {
                &&& resp.response_body is ConfigurationDone
                &&& resp.event is None
                &&& resp.result == HandleResult::Trigger(NextAction::FinishInit)
                &&& new.configured()
                &&& new.stopped() == old.stopped()
                &&& new.pc() == old.pc()
                &&& forall|f: Seq<char>| #[trigger] new.breakpoints_in(f)
                    == old.breakpoints_in(f)
            },
            Command::Pause => {
                &&& resp.response_body is Pause
                &&& resp.event == Some(Event::Stopped(StoppedReason::Pause))
                &&& resp.result == HandleResult::Trigger(NextAction::Stop)
                &&& new.stopped()
                &&& new.configured() == old.configured()
                &&& new.pc() == old.pc()
                &&& forall|f: Seq<char>| #[trigger] new.breakpoints_in(f)
                    == old.breakpoints_in(f)
            },
            Command::Continue => {
                &&& resp.response_body matches ResponseBody::Continue {
                    all_threads_continued,
                } && all_threads_continued
                &&& resp.event is None
                &&& resp.result == HandleResult::Trigger(NextAction::Resume)
                &&& !new.stopped()
                &&& new.configured() == old.configured()
                &&& new.pc() == old.pc()
                &&& forall|f: Seq<char>| #[trigger] new.breakpoints_in(f)
                    == old.breakpoints_in(f)
            },
            Command::SetBreakpoints { source, lines } => {
                &&& resp.event is None
                &&& resp.result == HandleResult::Handled
                &&& resp.response_body matches ResponseBody::SetBreakpoints(statuses) && {
                    let zero = lines@.map_values(|l: usize| zero_based(l));
                    &&& statuses@.len() == lines@.len()
                    &&& State::replaces_breakpoints(
                        old,
                        new,
                        ctx,
                        source@,
                        zero,
                        statuses@.map_values(|b: BreakpointStatus| b.verified),
                    )
                    &&& forall|k: int| 0 <= k < lines@.len() ==> #[trigger] statuses@[k].line
                        == lines@[k]
                }
            },
            Command::Threads => {
                &&& resp.response_body matches ResponseBody::Threads(threads) && threads@.len()
                    == 1 && threads@[0].id == 0 && threads@[0].name@ == Seq::<char>::empty()
                &&& resp.event is None
                &&& resp.result == HandleResult::Handled
                &&& same_state(old, new)
            },
            Command::StackTrace => {
                &&& resp.event is None
                &&& resp.result == HandleResult::Handled
                &&& same_state(old, new)
                &&& resp.response_body matches ResponseBody::StackTrace(frames) && views(frames@)
                    == frames_of_levels(
                    ctx,
                    calls.push(
                        statement_at(ctx.offsets(), old.pc()) as usize,
                    ),
                )
            },
            Command::Scopes { frame_id } => {
                &&& resp.event is None
                &&& resp.result == HandleResult::Handled
                &&& same_state(old, new)
                &&& resp.response_body matches ResponseBody::Scopes(scopes) && scopes@.len()
                    == 1 && scopes@[0].name@ == "Locals"@ && scopes@[0].variables_reference
                    == one_based(frame_id)
            },
            Command::Variables { .. } => {
                &&& resp.response_body matches ResponseBody::Variables(vars) && vars@.len() == 0
                &&& resp.event is None
                &&& resp.result == HandleResult::Handled
                &&& same_state(old, new)
            },
            Command::Evaluate => {
                &&& resp.response_body matches ResponseBody::Evaluate { result } && result@
                    == Seq::<char>::empty()
                &&& resp.event is None
                &&& resp.result == HandleResult::Handled
                &&& same_state(old, new)
            },
            _ => false,
        },
    }
}

/// Handles one request: updates the state and builds the response and the event it causes.
pub fn handle_request(
    request: &Command,
    state: &mut State,
    ctx: &Context,
    call_stack: &CallStack,
) -> (r: Result<HandlerResponse, HandlerError>)
    requires
        old(state).wf(),
        ctx.wf(),
    ensures
        request_outcome(*request, *old(state), *final(state), ctx, call_stack.calls(), r),
{
    match request {
        Command::Attach => Err(HandlerError::AttachNotSupported),
        Command::ReverseContinue => Err(HandlerError::ReverseContinueNotSupported),
        Command::StepBack => Err(HandlerError::StepBackNotSupported),
        Command::SetFunctionBreakpoints => Err(HandlerError::SetFunctionBreakpointsNotSupported),
        Command::BreakpointLocations | Command::Cancel | Command::Completions
        | Command::DataBreakpointInfo | Command::Disassemble | Command::Goto
        | Command::ExceptionInfo | Command::GotoTargets | Command::LoadedSources
        | Command::Modules | Command::ReadMemory | Command::RestartFrame
        | Command::SetDataBreakpoints | Command::Restart | Command::SetExceptionBreakpoints
        | Command::TerminateThreads | Command::Terminate | Command::StepInTargets
        | Command::SetVariable | Command::SetInstructionBreakpoints | Command::SetExpression
        | Command::WriteMemory => Err(HandlerError::Unsupported),
        Command::Next | Command::StepIn | Command::StepOut | Command::Source => Err(
            HandlerError::NotImplemented,
        ),
        Command::Disconnect => Err(HandlerError::DisconnectDuringSession),
        Command::Initialize => Ok(
            HandlerResponse::from_body(
                ResponseBody::Initialize { supports_configuration_done_request: true },
            ).with_event(Event::Initialized),
        ),
        Command::Launch => Ok(HandlerResponse::from_body(ResponseBody::Launch)),
        Command::ConfigurationDone => {
            if state.is_configuration_done() && state.is_execution_stopped() {
                return Err(HandlerError::ConfigurationAlreadyDone);
            }
            state.set_configuration_done();
            Ok(
                HandlerResponse::from_body(ResponseBody::ConfigurationDone).with_result(
                    HandleResult::Trigger(NextAction::FinishInit),
                ),
            )
        },
        Command::Pause => {
            state.stop_execution();
            Ok(
                HandlerResponse::from_body(ResponseBody::Pause).with_event(
                    Event::Stopped(StoppedReason::Pause),
                ).with_result(HandleResult::Trigger(NextAction::Stop)),
            )
        },
        Command::Continue => {
            state.resume_execution();
            Ok(
                HandlerResponse::from_body(
                    ResponseBody::Continue { all_threads_continued: true },
                ).with_result(
                    HandleResult::Trigger(NextAction::Resume),
                ),
            )
        },
        Command::SetBreakpoints { source, lines } => {
            let mut zero: Vec<Line> = Vec::new();
            let mut k: usize = 0;
            while k < lines.len()
                invariant
                    k <= lines@.len(),
                    zero@ == lines@.take(k as int).map_values(|l: usize| zero_based(l)),
                decreases lines@.len() - k,
            {
                let l = lines[k];
                zero.push(Line(
                    if l > 0 {
                        l - 1
                    } else {
                        0
                    },
                ));
                proof {
                    assert(lines@.take(k + 1).map_values(|l: usize| zero_based(l)) =~= lines@.take(
                        k as int,
                    ).map_values(|l: usize| zero_based(l)).push(zero_based(l)));
                }
                k = k + 1;
            }
            proof {
                assert(lines@.take(lines@.len() as int) =~= lines@);
            }
            let verified = state.set_breakpoints(source, &zero, ctx);
            let mut statuses: Vec<BreakpointStatus> = Vec::new();
            let mut m: usize = 0;
            while m < lines.len()
                invariant
                    m <= lines@.len(),
                    verified@.len() == lines@.len(),
                    statuses@.len() == m,
                    forall|i: int|
                        0 <= i < m ==> #[trigger] statuses@[i] == (BreakpointStatus {
                            verified: verified@[i],
                            line: lines@[i],
                        }),
                decreases lines@.len() - m,
            {
                statuses.push(BreakpointStatus { verified: verified[m], line: lines[m] });
                m = m + 1;
            }
            proof {
                assert(statuses@.map_values(|b: BreakpointStatus| b.verified) =~= verified@);
            }
            Ok(HandlerResponse::from_body(ResponseBody::SetBreakpoints(statuses)))
        },
        Command::Threads => {
            let mut threads: Vec<Thread> = Vec::new();
            threads.push(Thread { id: 0, name: String::new() });
            Ok(HandlerResponse::from_body(ResponseBody::Threads(threads)))
        },
        Command::StackTrace => {
            let statement = ctx.casm_debug_info.statement_for_pc(state.current_pc());
            let frames = call_stack.get_frames(statement, ctx);
            Ok(HandlerResponse::from_body(ResponseBody::StackTrace(frames)))
        },
        Command::Scopes { frame_id } => {
            let scopes = call_stack.get_scopes_for_frame(*frame_id);
            Ok(HandlerResponse::from_body(ResponseBody::Scopes(scopes)))
        },
        Command::Variables { variables_reference } => {
            let variables = call_stack.get_variables(*variables_reference);
            Ok(HandlerResponse::from_body(ResponseBody::Variables(variables)))
        },
        Command::Evaluate => Ok(
            HandlerResponse::from_body(ResponseBody::Evaluate { result: String::new() }),
        ),
    }
}

/// Where the session stands.
#[derive(Clone, Copy, Debug, PartialEq, Eq, Structural)]
pub enum Phase {
    /// Requests are processed until `configurationDone`.
    AwaitingConfiguration,
    /// Configuration is done; the program has not stepped yet.
    Configured,
    /// The program steps; requests are drained without waiting between steps.
    Running,
    /// The program waits; requests are processed until one resumes it.
    Stopped,
    /// The session has ended; `terminated` and `exited` have been emitted.
    Terminated,
}

/// The decisions of a debugging session. The caller owns the connection and the program: it
/// hands each request and each step to the session and sends what the session returns.
pub struct Session {
    ctx: Context,
    state: State,
    call_stack: CallStack,
    started: bool,
    terminated: bool,
}

impl Session {
    pub closed spec fn wf(&self) -> bool {
        self.ctx.wf() && self.state.wf()
    }

    pub closed spec fn context(&self) -> Context {
        self.ctx
    }

    pub closed spec fn state(&self) -> State {
        self.state
    }

    pub closed spec fn calls(&self) -> Seq<usize> {
        self.call_stack.calls()
    }

    /// The change of the call stack scheduled by the current statement.
    pub closed spec fn pending(&self) -> Option<Action> {
        self.call_stack.pending()
    }

    pub closed spec fn has_started(&self) -> bool {
        self.started
    }

    pub closed spec fn is_terminated(&self) -> bool {
        self.terminated
    }

    pub open spec fn spec_phase(&self) -> Phase {
        if self.is_terminated() {
            Phase::Terminated
        } else if !self.state().configured() {
            Phase::AwaitingConfiguration
        } else if self.state().stopped() {
            Phase::Stopped
        } else if !self.has_started() {
            Phase::Configured
        } else {
            Phase::Running
        }
    }

    pub fn new(ctx: Context) -> (r: Session)
        requires
            ctx.wf(),
        ensures
            r.wf(),
            r.context() == ctx,
            r.spec_phase() == Phase::AwaitingConfiguration,
            r.calls() == Seq::<usize>::empty(),
            r.pending() is None,
            !r.is_terminated(),
            forall|f: Seq<char>| #[trigger] r.state().breakpoints_in(f) == Seq::<usize>::empty(),
    {
        Session {
            ctx,
            state: State::new(),
            call_stack: CallStack::new(),
            started: false,
            terminated: false,
        }
    }

    pub fn phase(&self) -> (r: Phase)
        ensures
            r == self.spec_phase(),
    {
        if self.terminated {
            Phase::Terminated
        } else if !self.state.is_configuration_done() {
            Phase::AwaitingConfiguration
        } else if self.state.is_execution_stopped() {
            Phase::Stopped
        } else if !self.started {
            Phase::Configured
        } else {
            Phase::Running
        }
    }

    /// Whether the caller waits for the next request instead of stepping the program: while
    /// configuration is not done, and while execution is stopped.
    pub fn waits_for_request(&self) -> (r: bool)
        ensures
            r == (self.spec_phase() == Phase::AwaitingConfiguration || self.spec_phase()
                == Phase::Stopped),
    {
        !self.terminated && (!self.state.is_configuration_done()
            || self.state.is_execution_stopped())
    }

    /// Handles one request; on `Ok` the caller sends the event, if any, then the response, and on
    /// `Err` it fails the request and ends the session.
    pub fn process_request(&mut self, request: &Command) -> (r: Result<HandlerResponse, HandlerError>)
        requires
            old(self).wf(),
        ensures
            final(self).wf(),
            final(self).context() == old(self).context(),
            final(self).calls() == old(self).calls(),
            final(self).pending() == old(self).pending(),
            final(self).has_started() == old(self).has_started(),
            final(self).is_terminated() == old(self).is_terminated(),
            request_outcome(
                *request,
                old(self).state(),
                final(self).state(),
                &old(self).context(),
                old(self).calls(),
                r,
            ),
    {
        handle_request(request, &mut self.state, &self.ctx, &self.call_stack)
    }

    /// The program is about to execute the instruction at `pc`: the current statement becomes
    /// the one `pc` belongs to, and the call stack moves with it.
    pub fn advance(&mut self, pc: usize)
        requires
            old(self).wf(),
        ensures
            final(self).wf(),
            final(self).has_started(),
            final(self).context() == old(self).context(),
            final(self).state().pc() == pc,
            final(self).state().configured() == old(self).state().configured(),
            final(self).state().stopped() == old(self).state().stopped(),
            forall|f: Seq<char>| #[trigger] final(self).state().breakpoints_in(f)
                == old(self).state().breakpoints_in(f),
            final(self).is_terminated() == old(self).is_terminated(),
            final(self).calls() == apply_action(old(self).calls(), old(self).pending()),
            final(self).pending() == action_for(
                &old(self).context(),
                statement_at(old(self).context().offsets(), pc) as usize,
            ),
    {
        self.state.set_current_pc(pc);
        let statement = self.ctx.casm_debug_info.statement_for_pc(pc);
        self.call_stack.update(statement, &self.ctx);
        self.started = true;
    }

    /// After the queued requests are handled: stops at a breakpoint on the current offset. The
    /// event is returned only when execution was running, so a pause already reported is not
    /// reported twice.
    pub fn check_stop(&mut self) -> (r: Option<Event>)
        requires
            old(self).wf(),
        ensures
            final(self).wf(),
            final(self).context() == old(self).context(),
            final(self).calls() == old(self).calls(),
            final(self).has_started() == old(self).has_started(),
            final(self).is_terminated() == old(self).is_terminated(),
            final(self).state().configured() == old(self).state().configured(),
            final(self).state().pc() == old(self).state().pc(),
            forall|f: Seq<char>| #[trigger] final(self).state().breakpoints_in(f)
                == old(self).state().breakpoints_in(f),
            final(self).state().stopped() == (old(self).state().stopped() || old(
                self,
            ).state().is_breakpoint(old(self).state().pc())),
            r == (if !old(self).state().stopped() && old(self).state().is_breakpoint(
                old(self).state().pc(),
            ) {
                Some(Event::Stopped(StoppedReason::Breakpoint))
            } else {
                None::<Event>
            }),
    {
        if self.state.is_execution_stopped() {
            return None;
        }
        if self.state.should_stop(self.state.current_pc()) {
            self.state.stop_execution();
            Some(Event::Stopped(StoppedReason::Breakpoint))
        } else {
            None
        }
    }

    /// Events that end the session: `terminated`, then `exited`, the first time only.
    pub fn teardown(&mut self) -> (r: Vec<Event>)
        ensures
            final(self).is_terminated(),
            final(self).spec_phase() == Phase::Terminated,
            final(self).wf() == old(self).wf(),
            final(self).context() == old(self).context(),
            final(self).state() == old(self).state(),
            final(self).calls() == old(self).calls(),
            old(self).is_terminated() ==> r@ == Seq::<Event>::empty(),
            !old(self).is_terminated() ==> r@ == seq![Event::Terminated, Event::Exited(0)],
    {
        let mut events: Vec<Event> = Vec::new();
        if !self.terminated {
            events.push(Event::Terminated);
            events.push(Event::Exited(0));
            self.terminated = true;
        }
        proof {
            if !old(self).is_terminated() {
                assert(events@ =~= seq![Event::Terminated, Event::Exited(0)]);
            } else {
                assert(events@ =~= Seq::<Event>::empty());
            }
        }
        events
    }
}

/// The answer a request gets while the session is torn down: only `disconnect` is answered.
pub fn teardown_reply(request: &Command) -> (r: Option<ResponseBody>)
    ensures
        request is Disconnect <==> r is Some,
        r matches Some(b) ==> b is Disconnect,
{
    match request {
        Command::Disconnect => Some(ResponseBody::Disconnect),
        _ => None,
    }
}

/// `after` is `before` after `process_request(request)` returned `r`.
pub open spec fn processed(before: Session, after: Session, request: Command, r: Result<
    HandlerResponse,
    HandlerError,
>) -> bool {
    &&& after.context() == before.context()
    &&& after.calls() == before.calls()
    &&& after.has_started() == before.has_started()
    &&& after.is_terminated() == before.is_terminated()
    &&& request_outcome(request, before.state(), after.state(), &before.context(), before.calls(), r)
}

/// While configuration is awaited, setting breakpoints keeps the session awaiting it and
/// reports each line as verified exactly when it resolves; `configurationDone` then ends
/// configuration.
pub proof fn lemma_breakpoints_then_configuration_done(
    s0: Session,
    s1: Session,
    s2: Session,
    source: String,
    lines: Vec<usize>,
    r1: Result<HandlerResponse, HandlerError>,
    r2: Result<HandlerResponse, HandlerError>,
)
    requires
        s0.spec_phase() == Phase::AwaitingConfiguration,
        processed(s0, s1, Command::SetBreakpoints { source, lines }, r1),
        processed(s1, s2, Command::ConfigurationDone, r2),
    ensures
        s1.spec_phase() == Phase::AwaitingConfiguration,
        r1 matches Ok(resp) && resp.response_body matches ResponseBody::SetBreakpoints(statuses)
            && statuses@.len() == lines@.len() && forall|k: int|
            0 <= k < lines@.len() ==> #[trigger] statuses@[k].verified == s0.context().line_resolves(
                source@,
                zero_based(lines@[k]).0,
            ) && statuses@[k].line == lines@[k],
        r2 matches Ok(resp) && resp.result == HandleResult::Trigger(NextAction::FinishInit),
        s2.spec_phase() != Phase::AwaitingConfiguration,
        s2.spec_phase() != Phase::Terminated,
{
    let resp = r1->Ok_0;
    let statuses = resp.response_body->SetBreakpoints_0;
    let zero = lines@.map_values(|l: usize| zero_based(l));
    let verified = statuses@.map_values(|b: BreakpointStatus| b.verified);
    assert forall|k: int| 0 <= k < lines@.len() implies #[trigger] statuses@[k].verified
        == s0.context().line_resolves(source@, zero_based(lines@[k]).0) && statuses@[k].line
        == lines@[k] by {
        assert(verified[k] == statuses@[k].verified);
        assert(zero[k] == zero_based(lines@[k]));
    }
}

/// A running session that receives `pause` stops and reports it with one stopped event; the
/// following `continue` resumes it without another event.
pub proof fn lemma_pause_then_continue(
    s0: Session,
    s1: Session,
    s2: Session,
    r1: Result<HandlerResponse, HandlerError>,
    r2: Result<HandlerResponse, HandlerError>,
)
    requires
        s0.spec_phase() == Phase::Running,
        processed(s0, s1, Command::Pause, r1),
        processed(s1, s2, Command::Continue, r2),
    ensures
        s1.spec_phase() == Phase::Stopped,
        r1 matches Ok(resp) && resp.event == Some(Event::Stopped(StoppedReason::Pause)),
        r2 matches Ok(resp) && resp.event is None && resp.result == HandleResult::Trigger(
            NextAction::Resume,
        ),
        s2.spec_phase() == Phase::Running,
        forall|f: Seq<char>| #[trigger] s2.state().breakpoints_in(f) == s0.state().breakpoints_in(f),
{
}

} // verus!
