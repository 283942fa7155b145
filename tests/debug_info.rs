use cairo_debugger::debug_info::{
    CasmDebugInfo, CodeLocation, Context, ContextError, Line, StatementKind,
};

fn loc(file: &str, line: usize, col: usize) -> CodeLocation {
    CodeLocation { file: file.to_string(), line, col }
}

fn context(offsets: Vec<usize>, locations: Vec<Vec<CodeLocation>>) -> Context {
    let n = offsets.len();
    Context::new(
        "/proj".to_string(),
        CasmDebugInfo { statement_to_pc: offsets },
        vec![StatementKind::Other; n],
        locations,
        vec![Vec::new(); n],
    )
    .unwrap()
}

#[test]
fn line_new_keeps_number() {
    assert_eq!(Line::new(7), Line(7));
}

#[test]
fn pc_for_statement_looks_up_offsets() {
    let info = CasmDebugInfo { statement_to_pc: vec![0, 3, 3, 8] };
    assert_eq!(info.pc_for_statement(0), Some(0));
    assert_eq!(info.pc_for_statement(3), Some(8));
    assert_eq!(info.pc_for_statement(4), None);
}

#[test]
fn statement_for_pc_round_trip() {
    let offsets = vec![0, 2, 2, 5, 9];
    let info = CasmDebugInfo { statement_to_pc: offsets.clone() };
    for i in 0..offsets.len() {
        let pc = info.pc_for_statement(i).unwrap();
        let s = info.statement_for_pc(pc);
        assert!(offsets[s] <= pc);
        assert!(s >= i);
        assert!(offsets[s + 1..].iter().all(|&o| o > pc));
    }
    // Statement 1 compiled to nothing: its offset belongs to statement 2.
    assert_eq!(info.statement_for_pc(2), 2);
    assert_eq!(info.statement_for_pc(0), 0);
}

#[test]
fn statement_for_pc_between_and_beyond_offsets() {
    let info = CasmDebugInfo { statement_to_pc: vec![3, 6, 10] };
    assert_eq!(info.statement_for_pc(1), 0);
    assert_eq!(info.statement_for_pc(7), 1);
    assert_eq!(info.statement_for_pc(100), 2);
    let empty = CasmDebugInfo { statement_to_pc: vec![] };
    assert_eq!(empty.statement_for_pc(5), 0);
}

#[test]
fn hittable_statements() {
    let info = CasmDebugInfo { statement_to_pc: vec![0, 4, 4, 8] };
    assert!(info.is_hittable(0));
    assert!(!info.is_hittable(1));
    assert!(info.is_hittable(2));
    assert!(info.is_hittable(3));
}

#[test]
fn non_hittable_statement_is_never_a_breakpoint_target() {
    // Statement 1 starts where statement 2 starts, so it compiled to no code.
    let ctx = context(
        vec![0, 4, 4, 8],
        vec![
            vec![loc("/proj/a.cairo", 1, 0)],
            vec![loc("/proj/a.cairo", 3, 0)],
            vec![loc("/proj/a.cairo", 6, 0)],
            vec![loc("/proj/a.cairo", 9, 0)],
        ],
    );
    let file = "/proj/a.cairo".to_string();
    assert_eq!(ctx.get_pc_for_line(&file, Line::new(3)), None);
    assert_eq!(ctx.get_pc_for_line(&file, Line::new(6)), Some(4));
    assert_eq!(ctx.get_pc_for_line(&file, Line::new(9)), Some(8));
}

#[test]
fn breakpoint_prefers_smaller_column_then_smaller_pc() {
    let file = "/proj/a.cairo".to_string();
    let ctx = context(
        vec![10, 20, 30],
        vec![
            vec![loc("/proj/a.cairo", 5, 4)],
            vec![loc("/proj/a.cairo", 5, 2)],
            vec![loc("/proj/b.cairo", 5, 0)],
        ],
    );
    assert_eq!(ctx.get_pc_for_line(&file, Line::new(5)), Some(20));

    let tie = context(
        vec![10, 20, 30],
        vec![
            vec![loc("/proj/a.cairo", 5, 2)],
            vec![loc("/proj/a.cairo", 5, 2)],
            vec![loc("/proj/a.cairo", 5, 2)],
        ],
    );
    assert_eq!(tie.get_pc_for_line(&file, Line::new(5)), Some(10));
}

#[test]
fn unmapped_line_or_file_does_not_resolve() {
    let ctx = context(vec![0, 5], vec![vec![loc("/proj/a.cairo", 1, 0)], vec![]]);
    assert_eq!(ctx.get_pc_for_line(&"/proj/a.cairo".to_string(), Line::new(2)), None);
    assert_eq!(ctx.get_pc_for_line(&"/proj/z.cairo".to_string(), Line::new(1)), None);
}

#[test]
fn map_pc_to_code_location_takes_first_location() {
    let ctx = context(
        vec![0, 5],
        vec![vec![loc("/proj/a.cairo", 1, 2), loc("/proj/inl.cairo", 7, 0)], vec![]],
    );
    let found = ctx.map_pc_to_code_location(3).unwrap();
    assert_eq!(found.file, "/proj/a.cairo");
    assert_eq!((found.line, found.col), (1, 2));
    assert!(ctx.map_pc_to_code_location(6).is_none());
}

#[test]
fn context_rejects_inconsistent_tables() {
    let mismatch = Context::new(
        "/proj".to_string(),
        CasmDebugInfo { statement_to_pc: vec![0, 1] },
        vec![StatementKind::Other],
        vec![Vec::new(), Vec::new()],
        vec![Vec::new(), Vec::new()],
    );
    assert!(matches!(mismatch, Err(ContextError::LengthMismatch)));
    let unsorted = Context::new(
        "/proj".to_string(),
        CasmDebugInfo { statement_to_pc: vec![4, 1] },
        vec![StatementKind::Other; 2],
        vec![Vec::new(), Vec::new()],
        vec![Vec::new(), Vec::new()],
    );
    assert!(matches!(unsorted, Err(ContextError::UnsortedOffsets)));
}

#[test]
fn statement_kinds_are_classified() {
    let ctx = Context::new(
        "/proj".to_string(),
        CasmDebugInfo { statement_to_pc: vec![0, 1, 2] },
        vec![StatementKind::FunctionCall, StatementKind::Return, StatementKind::Other],
        vec![Vec::new(); 3],
        vec![Vec::new(); 3],
    )
    .unwrap();
    assert!(ctx.is_function_call_statement(0));
    assert!(!ctx.is_function_call_statement(1));
    assert!(ctx.is_return_statement(1));
    assert!(!ctx.is_return_statement(2));
    assert!(!ctx.is_function_call_statement(9));
}

#[test]
fn invocation_kind_recognises_function_call() {
    assert_eq!(StatementKind::of_invocation(&"function_call".to_string()), StatementKind::FunctionCall);
    assert_eq!(StatementKind::of_invocation(&"felt252_add".to_string()), StatementKind::Other);
}

#[test]
fn annotation_lookups_return_none_when_absent() {
    let ctx = Context::new(
        "/proj".to_string(),
        CasmDebugInfo { statement_to_pc: vec![0, 4] },
        vec![StatementKind::Other; 2],
        vec![vec![loc("/proj/a.cairo", 3, 1)], vec![]],
        vec![vec!["main".to_string()], vec![]],
    )
    .unwrap();
    assert_eq!(ctx.code_locations_for_statement_idx(0).map(|l| l.len()), Some(1));
    assert!(ctx.code_locations_for_statement_idx(1).is_none());
    assert!(ctx.code_locations_for_statement_idx(7).is_none());
    assert_eq!(ctx.function_names_for_statement_idx(0), Some(&vec!["main".to_string()]));
    assert!(ctx.function_names_for_statement_idx(1).is_none());
    assert!(ctx.function_names_for_statement_idx(7).is_none());
}

#[test]
fn breakpoint_file_matches_by_path_components() {
    let ctx = context(vec![0, 4], vec![vec![loc("/proj/src//a.cairo", 2, 0)], vec![]]);
    assert_eq!(ctx.get_pc_for_line(&"/proj/src/a.cairo".to_string(), Line::new(2)), Some(0));
    assert_eq!(ctx.get_pc_for_line(&"/proj/src/b.cairo".to_string(), Line::new(2)), None);
}
