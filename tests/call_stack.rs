use cairo_debugger::call_stack::{frame_at_location, CallStack, PresentationHint};
use cairo_debugger::debug_info::{CasmDebugInfo, CodeLocation, Context, StatementKind};

fn loc(file: &str, line: usize, col: usize) -> CodeLocation {
    CodeLocation { file: file.to_string(), line, col }
}

/// Eleven statements; 3 is a call and 7 a return.
fn program() -> Context {
    let n = 11;
    let mut kinds = vec![StatementKind::Other; n];
    kinds[3] = StatementKind::FunctionCall;
    kinds[7] = StatementKind::Return;
    let mut locations = vec![Vec::new(); n];
    locations[3] = vec![loc("/proj/src/lib.cairo", 9, 4)];
    locations[4] = vec![loc("/proj/src/lib.cairo", 2, 0), loc("/proj/src/inl.cairo", 20, 8)];
    locations[5] = vec![loc("/home/core/lib.cairo", 0, 0)];
    let mut names = vec![Vec::new(); n];
    names[3] = vec!["main".to_string()];
    names[4] = vec!["helper".to_string(), "inlined".to_string()];
    Context::new(
        "/proj".to_string(),
        CasmDebugInfo { statement_to_pc: (0..n).collect() },
        kinds,
        locations,
        names,
    )
    .unwrap()
}

#[test]
fn call_stack_push_and_pop_take_effect_one_step_late() {
    let ctx = program();
    let mut stack = CallStack::new();
    let mut depths = Vec::new();
    for statement in [3, 4, 6, 7, 10] {
        stack.update(statement, &ctx);
        depths.push(stack.depth());
    }
    assert_eq!(depths, vec![0, 1, 1, 1, 0]);
}

#[test]
fn call_stack_pop_on_empty_stack_is_ignored() {
    let ctx = program();
    let mut stack = CallStack::new();
    stack.update(7, &ctx);
    stack.update(0, &ctx);
    assert_eq!(stack.depth(), 0);
}

#[test]
fn frames_are_innermost_first_with_inlined_frames() {
    let ctx = program();
    let mut stack = CallStack::new();
    stack.update(3, &ctx);
    stack.update(4, &ctx);
    let frames = stack.get_frames(4, &ctx);
    assert_eq!(frames.len(), 3);
    assert_eq!(frames[0].name, "helper");
    assert_eq!(frames[0].id, 3);
    assert_eq!((frames[0].line, frames[0].column), (3, 1));
    assert_eq!(frames[0].presentation_hint, PresentationHint::Normal);
    assert_eq!(frames[1].name, "inlined");
    assert_eq!(frames[1].source_path.as_deref(), Some("/proj/src/inl.cairo"));
    assert_eq!((frames[1].line, frames[1].column), (21, 9));
    assert_eq!(frames[2].name, "main");
    assert_eq!(frames[2].id, 1);
    assert_eq!((frames[2].line, frames[2].column), (10, 5));
}

#[test]
fn frame_outside_project_root_is_subtle() {
    let ctx = program();
    let stack = CallStack::new();
    let frames = stack.get_frames(5, &ctx);
    assert_eq!(frames.len(), 1);
    assert_eq!(frames[0].presentation_hint, PresentationHint::Subtle);
    // Statement 5 has a location but no function names.
    assert_eq!(frames[0].name, "test");
}

#[test]
fn root_prefix_counts_whole_path_components() {
    let n = 1;
    let ctx = Context::new(
        "/pro".to_string(),
        CasmDebugInfo { statement_to_pc: vec![0] },
        vec![StatementKind::Other; n],
        vec![vec![loc("/proj/a.cairo", 0, 0)]],
        vec![vec!["f".to_string()]],
    )
    .unwrap();
    let frames = CallStack::new().get_frames(0, &ctx);
    assert_eq!(frames[0].presentation_hint, PresentationHint::Subtle);
}

#[test]
fn statement_without_location_gives_unknown_frame() {
    let ctx = program();
    let frames = CallStack::new().get_frames(8, &ctx);
    assert_eq!(frames.len(), 1);
    assert_eq!(frames[0].name, "Unknown");
    assert_eq!(frames[0].source_path, None);
    assert_eq!((frames[0].line, frames[0].column), (1, 1));
    assert_eq!(frames[0].presentation_hint, PresentationHint::Subtle);
}

#[test]
fn scopes_offer_locals_only() {
    let scopes = CallStack::new().get_scopes_for_frame(3);
    assert_eq!(scopes.len(), 1);
    assert_eq!(scopes[0].name, "Locals");
    assert_eq!(scopes[0].variables_reference, 4);
}

#[test]
fn build_stack_frame_for_pc() {
    let ctx = program();
    let frame = cairo_debugger::call_stack::build_stack_frame(&ctx, 4);
    assert_eq!(frame.id, 1);
    assert_eq!(frame.name, "helper");
    assert_eq!(frame.source_path.as_deref(), Some("/proj/src/lib.cairo"));
    assert_eq!((frame.line, frame.column), (3, 1));
    let unknown = cairo_debugger::call_stack::build_stack_frame(&ctx, 9);
    assert_eq!(unknown.name, "Unknown");
}

#[test]
fn variables_are_empty() {
    assert!(CallStack::new().get_variables(2).is_empty());
}

#[test]
fn frame_at_location_uses_hint_and_one_based_position() {
    let location = loc("/x/lib.cairo", 4, 0);
    let user = frame_at_location(&location, "f".to_string(), 5, true);
    assert_eq!(user.presentation_hint, PresentationHint::Normal);
    assert_eq!((user.id, user.line, user.column), (5, 5, 1));
    let other = frame_at_location(&location, "f".to_string(), 5, false);
    assert_eq!(other.presentation_hint, PresentationHint::Subtle);
}
