use vstd::prelude::*;

use crate::debug_info::{statement_at, lemma_last_at_or_below, CodeLocation, Context, StatementKind};

verus! {

/// Object reference of the outermost frame; frame `k` (counted from the outermost) gets
/// `1 + 2 * k`, and its variables `2 + 2 * k`.
pub const MIN_OBJECT_REFERENCE: usize = 1;

pub uninterp spec fn path_starts_with(path: Seq<char>, base: Seq<char>) -> bool;

/// Relies on `std::path::Path::starts_with`: whether `base` is a prefix of `path`, compared
/// component by component.
#[verifier::external_body]
fn path_is_under(path: &String, base: &String) -> (r: bool)
    ensures
        r == path_starts_with(path@, base@),
{
    std::path::Path::new(path).starts_with(base)
}

/// How prominently a client shows a frame.
#[derive(Clone, Copy, Debug, PartialEq, Eq, Structural)]
pub enum PresentationHint {
    Normal,
    Subtle,
}

/// One frame of a stack trace. Lines and columns count from one.
#[derive(Debug)]
pub struct StackFrame {
    pub id: usize,
    pub name: String,
    pub source_path: Option<String>,
    pub line: usize,
    pub column: usize,
    pub presentation_hint: PresentationHint,
}

/// A stack frame with its texts as character sequences.
pub struct FrameView {
    pub id: usize,
    pub name: Seq<char>,
    pub source_path: Option<Seq<char>>,
    pub line: usize,
    pub column: usize,
    pub presentation_hint: PresentationHint,
}

impl View for StackFrame {
    type V = FrameView;

    open spec fn view(&self) -> FrameView {
        FrameView {
            id: self.id,
            name: self.name@,
            source_path: match self.source_path {
                Some(p) => Some(p@),
                None => None,
            },
            line: self.line,
            column: self.column,
            presentation_hint: self.presentation_hint,
        }
    }
}

/// The views of a sequence of frames.
pub open spec fn views(frames: Seq<StackFrame>) -> Seq<FrameView> {
    frames.map_values(|f: StackFrame| f@)
}

/// The single scope that a frame offers.
#[derive(Debug)]
pub struct Scope {
    pub name: String,
    pub variables_reference: usize,
}

/// A variable of a frame.
#[derive(Debug)]
pub struct Variable {
    pub name: String,
    pub value: String,
}

/// A change of the stack that becomes real once the current statement has executed.
#[derive(Clone, Copy, Debug, PartialEq, Eq, Structural)]
pub enum Action {
    Push(usize),
    Pop,
}

/// Logical call frames of the running program, rebuilt from the stream of executed statements.
pub struct CallStack {
    /// Statements that called into the frames above them, outermost first. Does not hold the
    /// frame of the current function.
    call_ids: Vec<usize>,
    /// Change to apply to the stack when the next statement is reached: a call or a return
    /// only takes effect after it has executed.
    action_on_new_statement: Option<Action>,
}

/// `n + 1` without overflow.
pub open spec fn one_based(n: usize) -> usize {
    if n < usize::MAX {
        (n + 1) as usize
    } else {
        usize::MAX
    }
}

/// Object reference of the frame at depth `k`, saturated at the largest `usize`.
pub open spec fn frame_id(k: int) -> usize {
    if MIN_OBJECT_REFERENCE + 2 * k <= usize::MAX {
        (MIN_OBJECT_REFERENCE + 2 * k) as usize
    } else {
        usize::MAX
    }
}

/// The stack after the deferred action has been applied. Popping an empty stack does nothing.
pub open spec fn apply_action(calls: Seq<usize>, action: Option<Action>) -> Seq<usize> {
    match action {
        Some(Action::Push(s)) => calls.push(s),
        Some(Action::Pop) => if calls.len() > 0 {
            calls.drop_last()
        } else {
            calls
        },
        None => calls,
    }
}

/// The action that reaching `statement` schedules for the next statement.
pub open spec fn action_for(ctx: &Context, statement: usize) -> Option<Action> {
    if statement < ctx.num_statements() && ctx.statement_kinds@[statement as int]
        == StatementKind::FunctionCall {
        Some(Action::Push(statement))
    } else if statement < ctx.num_statements() && ctx.statement_kinds@[statement as int]
        == StatementKind::Return {
        Some(Action::Pop)
    } else {
        None
    }
}

pub open spec fn unknown_frame_spec(id: usize) -> FrameView {
    FrameView {
        id,
        name: "Unknown"@,
        source_path: None,
        line: 1,
        column: 1,
        presentation_hint: PresentationHint::Subtle,
    }
}

/// The frame at `loc`, shown normally for user code and subtly otherwise.
pub open spec fn location_frame(loc: CodeLocation, name: Seq<char>, id: usize, is_user_code: bool) -> FrameView {
    FrameView {
        id,
        name,
        source_path: Some(loc.file@),
        line: one_based(loc.line),
        column: one_based(loc.col),
        presentation_hint: if is_user_code {
            PresentationHint::Normal
        } else {
            PresentationHint::Subtle
        },
    }
}

/// The frame at `loc`; code under the project root is user code.
pub open spec fn frame_spec(ctx: &Context, loc: CodeLocation, name: Seq<char>, id: usize) -> FrameView {
    location_frame(loc, name, id, path_starts_with(loc.file@, ctx.root_path@))
}

/// Frames of one statement, innermost first: one per inlined code location, paired with the
/// function names of the statement; a single unknown frame when it has no code location. A
/// statement without function names gets one frame, at its first location, named `test`.
pub open spec fn statement_frames(ctx: &Context, statement: usize, id: usize) -> Seq<FrameView> {
    if statement < ctx.num_statements() && ctx.code_locations@[statement as int]@.len() > 0 {
        let locs = ctx.code_locations@[statement as int]@;
        let names = ctx.function_names@[statement as int]@;
        if names.len() == 0 {
            seq![frame_spec(ctx, locs[0], "test"@, id)]
        } else {
            let count = if locs.len() < names.len() {
                locs.len()
            } else {
                names.len()
            };
            Seq::new(count, |k: int| frame_spec(ctx, locs[k], names[k]@, id))
        }
    } else {
        seq![unknown_frame_spec(id)]
    }
}

/// Frames of the levels `levels[0..]`, deepest level first; level `k` gets `frame_id(k)`.
pub open spec fn frames_of_levels(ctx: &Context, levels: Seq<usize>) -> Seq<FrameView>
    decreases levels.len(),
{
    if levels.len() == 0 {
        seq![]
    } else {
        statement_frames(ctx, levels.last(), frame_id(levels.len() - 1)) + frames_of_levels(
            ctx,
            levels.drop_last(),
        )
    }
}

fn frame_id_of(k: usize) -> (r: usize)
    ensures
        r == frame_id(k as int),
{
    k.saturating_add(k).saturating_add(MIN_OBJECT_REFERENCE)
}

fn unknown_frame(id: usize) -> (r: StackFrame)
    ensures
        r@ == unknown_frame_spec(id),
{
    StackFrame {
        id,
        name: unknown_function_name(),
        source_path: None,
        line: 1,
        column: 1,
        presentation_hint: PresentationHint::Subtle,
    }
}

fn unknown_function_name() -> (r: String)
    ensures
        r@ == "Unknown"@,
{
    "Unknown".to_owned()
}

impl CallStack {
    pub closed spec fn calls(&self) -> Seq<usize> {
        self.call_ids@
    }

    pub closed spec fn pending(&self) -> Option<Action> {
        self.action_on_new_statement
    }

    pub fn new() -> (r: CallStack)
        ensures
            r.calls() == Seq::<usize>::empty(),
            r.pending() is None,
    {
        CallStack { call_ids: Vec::new(), action_on_new_statement: None }
    }

    /// Number of frames below the current one.
    pub fn depth(&self) -> (r: usize)
        ensures
            r == self.calls().len(),
    {
        self.call_ids.len()
    }

    /// Moves to `statement_idx`: first applies the change scheduled by the previous statement,
    /// then schedules the change that `statement_idx` makes once it has executed.
    pub fn update(&mut self, statement_idx: usize, ctx: &Context)
        requires
            ctx.wf(),
        ensures
            final(self).calls() == apply_action(old(self).calls(), old(self).pending()),
            final(self).pending() == action_for(ctx, statement_idx),
    {
        match self.action_on_new_statement.take() {
            Some(Action::Push(statement)) => {
                self.call_ids.push(statement);
            },
            Some(Action::Pop) => {
                self.call_ids.pop();
            },
            None => {},
        }
        if ctx.is_function_call_statement(statement_idx) {
            self.action_on_new_statement = Some(Action::Push(statement_idx));
        } else if ctx.is_return_statement(statement_idx) {
            self.action_on_new_statement = Some(Action::Pop);
        }
    }

    /// Stack trace while `statement_idx` is current, most nested frame first.
    pub fn get_frames(&self, statement_idx: usize, ctx: &Context) -> (r: Vec<StackFrame>)
        requires
            ctx.wf(),
        ensures
            views(r@) == frames_of_levels(ctx, self.calls().push(statement_idx)),
    {
        let ghost levels = self.calls().push(statement_idx);
        let mut frames: Vec<StackFrame> = Vec::new();
        let depth = self.call_ids.len();
        let mut current = build_stack_frames(ctx, statement_idx, frame_id_of(depth));
        proof {
            assert(levels.drop_last() =~= self.calls());
            assert(levels.take(depth as int) =~= self.calls());
        }
        frames.append(&mut current);
        let mut i: usize = depth;
        while i > 0
            invariant
                ctx.wf(),
                i <= depth,
                depth == self.calls().len(),
                levels == self.calls().push(statement_idx),
                views(frames@) + frames_of_levels(ctx, levels.take(i as int)) == frames_of_levels(
                    ctx,
                    levels,
                ),
            decreases i,
        {
            let mut level = build_stack_frames(ctx, self.call_ids[i - 1], frame_id_of(i - 1));
            proof {
                let t = levels.take(i as int);
                assert(t.drop_last() =~= levels.take(i - 1));
                assert(t.last() == self.calls()[i - 1]);
                assert(views(frames@ + level@) =~= views(frames@) + views(level@));
                assert(views(frames@) + (views(level@) + frames_of_levels(ctx, levels.take(i - 1)))
                    =~= (views(frames@) + views(level@)) + frames_of_levels(ctx, levels.take(i - 1)));
            }
            frames.append(&mut level);
            i = i - 1;
        }
        proof {
            assert(levels.take(0) =~= Seq::<usize>::empty());
            assert(views(frames@) + Seq::<FrameView>::empty() =~= views(frames@));
        }
        frames
    }

    /// The scopes of a frame: only its locals.
    pub fn get_scopes_for_frame(&self, frame_id: usize) -> (r: Vec<Scope>)
        ensures
            r@.len() == 1,
            r@[0].name@ == "Locals"@,
            r@[0].variables_reference == one_based(frame_id),
    {
        let scope = Scope {
            name: "Locals".to_owned(),
            variables_reference: frame_id.saturating_add(1),
        };
        let mut r: Vec<Scope> = Vec::new();
        r.push(scope);
        r
    }

    /// Variables behind a scope's reference. Values of variables are not tracked yet, so every
    /// scope is empty.
    pub fn get_variables(&self, variables_reference: usize) -> (r: Vec<Variable>)
        ensures
            r@.len() == 0,
    {
        Vec::new()
    }
}

/// The frame of the statement that `pc` belongs to, as the outermost frame: its first code
/// location with its first function name, or the unknown frame.
pub fn build_stack_frame(ctx: &Context, pc: usize) -> (r: StackFrame)
    requires
        ctx.wf(),
    ensures
        r@ == statement_frames(ctx, statement_at(ctx.offsets(), pc) as usize, MIN_OBJECT_REFERENCE)[0],
{
    let statement = ctx.casm_debug_info.statement_for_pc(pc);
    proof {
        lemma_last_at_or_below(ctx.offsets(), pc);
    }
    let mut frames = build_stack_frames(ctx, statement, MIN_OBJECT_REFERENCE);
    proof {
        assert(views(frames@).len() == frames@.len());
        assert(views(frames@)[0] == frames@[0]@);
    }
    frames.remove(0)
}

/// When a call or a return is the current statement, the stack does not change yet: the next
/// statement, whatever it is, pushes the caller's frame or pops the innermost one.
pub proof fn lemma_call_and_return_take_effect_one_step_late(
    ctx: &Context,
    trigger: usize,
    s0: CallStack,
    s1: CallStack,
    s2: CallStack,
)
    requires
        ctx.wf(),
        trigger < ctx.num_statements(),
        s1.calls() == apply_action(s0.calls(), s0.pending()),
        s1.pending() == action_for(ctx, trigger),
        s2.calls() == apply_action(s1.calls(), s1.pending()),
    ensures
        ctx.statement_kinds@[trigger as int] == StatementKind::FunctionCall ==> s2.calls()
            == s1.calls().push(trigger),
        ctx.statement_kinds@[trigger as int] == StatementKind::Return && s1.calls().len() > 0
            ==> s2.calls() == s1.calls().drop_last(),
        ctx.statement_kinds@[trigger as int] == StatementKind::Other ==> s2.calls() == s1.calls(),
{
}

fn build_stack_frames(ctx: &Context, statement_idx: usize, id: usize) -> (r: Vec<StackFrame>)
    requires
        ctx.wf(),
    ensures
        views(r@) == statement_frames(ctx, statement_idx, id),
{
    let mut frames: Vec<StackFrame> = Vec::new();
    if statement_idx >= ctx.code_locations.len() || ctx.code_locations[statement_idx].len() == 0 {
        frames.push(unknown_frame(id));
        proof {
            assert(views(frames@) =~= statement_frames(ctx, statement_idx, id));
        }
        return frames;
    }
    let locs = &ctx.code_locations[statement_idx];
    let names = &ctx.function_names[statement_idx];
    if names.len() == 0 {
        frames.push(frame_in_context(ctx, &locs[0], default_function_name(), id));
        proof {
            assert(views(frames@) =~= statement_frames(ctx, statement_idx, id));
        }
        return frames;
    }
    let count = if locs.len() < names.len() {
        locs.len()
    } else {
        names.len()
    };
    let mut k: usize = 0;
    while k < count
        invariant
            ctx.wf(),
            statement_idx < ctx.num_statements(),
            locs == ctx.code_locations@[statement_idx as int],
            names == ctx.function_names@[statement_idx as int],
            count <= locs@.len(),
            count <= names@.len(),
            k <= count,
            views(frames@) == Seq::new(k as nat, |m: int| frame_spec(ctx, locs@[m], names@[m]@, id)),
        decreases count - k,
    {
        let name = names[k].clone();
        let frame = frame_in_context(ctx, &locs[k], name, id);
        let ghost before = frames@;
        frames.push(frame);
        proof {
            assert(frames@ == before.push(frame));
            assert(views(frames@) =~= views(before).push(frame@));
            assert(views(frames@) =~= Seq::new(
                (k + 1) as nat,
                |m: int| frame_spec(ctx, locs@[m], names@[m]@, id),
            ));
        }
        k = k + 1;
    }
    proof {
        assert(views(frames@) =~= statement_frames(ctx, statement_idx, id));
    }
    frames
}

/// Name of a frame whose statement carries no function names.
fn default_function_name() -> (r: String)
    ensures
        r@ == "test"@,
{
    "test".to_owned()
}

fn frame_in_context(ctx: &Context, loc: &CodeLocation, name: String, id: usize) -> (r: StackFrame)
    ensures
        r@ == frame_spec(ctx, *loc, name@, id),
{
    let is_user_code = path_is_under(&loc.file, &ctx.root_path);
    frame_at_location(loc, name, id, is_user_code)
}

/// The frame at `loc`, with one-based line and column.
pub fn frame_at_location(loc: &CodeLocation, name: String, id: usize, is_user_code: bool) -> (r:
    StackFrame)
    ensures
        r@ == location_frame(*loc, name@, id, is_user_code),
{
    StackFrame {
        id,
        name,
        source_path: Some(loc.file.clone()),
        line: loc.line.saturating_add(1),
        column: loc.col.saturating_add(1),
        presentation_hint: if is_user_code {
            PresentationHint::Normal
        } else {
            PresentationHint::Subtle
        },
    }
}

} // verus!
