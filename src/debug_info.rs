use vstd::prelude::*;

verus! {

/// Line number in a source file, counted from zero.
#[derive(Clone, Copy, Debug, PartialEq, Eq, Hash, PartialOrd, Ord, Default)]
pub struct Line(pub usize);

impl Line {
    pub fn new(line: usize) -> (r: Line)
        ensures
            r.0 == line,
    {
        Line(line)
    }
}

/// Start offsets of the compiled code of each Sierra statement.
#[derive(Debug)]
pub struct CasmDebugInfo {
    /// Sierra statement index -> start CASM bytecode offset
    pub statement_to_pc: Vec<usize>,
}

/// Offsets never decrease along the statement order.
pub open spec fn is_sorted(s: Seq<usize>) -> bool {
    forall|i: int, j: int| 0 <= i <= j < s.len() ==> s[i] <= s[j]
}

/// Index of the rightmost offset that is at most `pc`, or -1 when there is none.
pub open spec fn last_at_or_below(offsets: Seq<usize>, pc: usize) -> int
    decreases offsets.len(),
{
    if offsets.len() == 0 {
        -1
    } else if offsets.last() <= pc {
        offsets.len() - 1
    } else {
        last_at_or_below(offsets.drop_last(), pc)
    }
}

/// The statement that a program counter belongs to: the rightmost statement starting at or
/// below it, or statement 0 when every statement starts above it.
pub open spec fn statement_at(offsets: Seq<usize>, pc: usize) -> int {
    let k = last_at_or_below(offsets, pc);
    if k < 0 {
        0
    } else {
        k
    }
}

/// A statement is hittable when its compiled code is not empty, that is when the next
/// statement starts at a different offset. The last statement is always hittable.
pub open spec fn offset_is_hittable(offsets: Seq<usize>, idx: int) -> bool {
    idx + 1 >= offsets.len() || offsets[idx] != offsets[idx + 1]
}

pub proof fn lemma_last_at_or_below(offsets: Seq<usize>, pc: usize)
    ensures
        -1 <= last_at_or_below(offsets, pc) < offsets.len(),
        last_at_or_below(offsets, pc) >= 0 ==> offsets[last_at_or_below(offsets, pc)] <= pc,
        forall|j: int|
            last_at_or_below(offsets, pc) < j < offsets.len() ==> offsets[j] > pc,
    decreases offsets.len(),
{
    if offsets.len() > 0 && offsets.last() > pc {
        let rest = offsets.drop_last();
        lemma_last_at_or_below(rest, pc);
        assert forall|j: int| last_at_or_below(offsets, pc) < j < offsets.len() implies offsets[j]
            > pc by {
            if j < rest.len() {
                assert(offsets[j] == rest[j]);
            }
        }
    }
}

/// Looking up the statement of the offset at which statement `i` starts gives back the
/// greatest statement that starts at or below that offset: `i` itself, or a later statement
/// with the same start when the statements in between compiled to no code.
pub proof fn lemma_statement_for_pc_round_trip(offsets: Seq<usize>, i: int)
    requires
        is_sorted(offsets),
        0 <= i < offsets.len(),
    ensures
        i <= statement_at(offsets, offsets[i]) < offsets.len(),
        offsets[statement_at(offsets, offsets[i])] == offsets[i],
        forall|j: int| statement_at(offsets, offsets[i]) < j < offsets.len() ==> offsets[j]
            > offsets[i],
        forall|j: int| i <= j < statement_at(offsets, offsets[i]) ==> !offset_is_hittable(offsets, j),
{
    lemma_last_at_or_below(offsets, offsets[i]);
    let r = statement_at(offsets, offsets[i]);
    assert forall|j: int| i <= j < r implies !offset_is_hittable(offsets, j) by {
        assert(offsets[i] <= offsets[j] <= offsets[j + 1] <= offsets[r]);
    }
}

impl CasmDebugInfo {
    pub open spec fn wf(&self) -> bool {
        is_sorted(self.statement_to_pc@)
    }

    /// Start offset of a statement; `None` for an index past the program.
    pub fn pc_for_statement(&self, idx: usize) -> (r: Option<usize>)
        ensures
            r == (if idx < self.statement_to_pc@.len() {
                Some(self.statement_to_pc@[idx as int])
            } else {
                None::<usize>
            }),
    {
        if idx < self.statement_to_pc.len() {
            Some(self.statement_to_pc[idx])
        } else {
            None
        }
    }

    /// The statement that `pc` belongs to, found by binary search over the sorted offsets.
    pub fn statement_for_pc(&self, pc: usize) -> (r: usize)
        requires
            self.wf(),
        ensures
            r == statement_at(self.statement_to_pc@, pc),
    {
        let offsets = &self.statement_to_pc;
        let mut lo: usize = 0;
        let mut hi: usize = offsets.len();
        while lo < hi
            invariant
                lo <= hi <= offsets@.len(),
                is_sorted(offsets@),
                forall|j: int| 0 <= j < lo ==> offsets@[j] <= pc,
                forall|j: int| hi <= j < offsets@.len() ==> offsets@[j] > pc,
            decreases hi - lo,
        {
            let mid = lo + (hi - lo) / 2;
            if offsets[mid] <= pc {
                lo = mid + 1;
            } else {
                hi = mid;
            }
        }
        proof {
            lemma_last_at_or_below(offsets@, pc);
            let k = last_at_or_below(offsets@, pc);
            if k >= lo {
                assert(offsets@[k] > pc);
            }
            if k + 1 < lo {
                assert(offsets@[lo - 1] <= pc);
            }
        }
        if lo == 0 {
            0
        } else {
            lo - 1
        }
    }

    pub fn is_hittable(&self, idx: usize) -> (r: bool)
        requires
            idx < self.statement_to_pc@.len(),
        ensures
            r == offset_is_hittable(self.statement_to_pc@, idx as int),
    {
        idx == self.statement_to_pc.len() - 1 || self.statement_to_pc[idx]
            != self.statement_to_pc[idx + 1]
    }
}

/// What a Sierra statement does to the call depth once it has executed.
#[derive(Clone, Copy, Debug, PartialEq, Eq, Structural)]
pub enum StatementKind {
    /// An invocation of `function_call`.
    FunctionCall,
    /// A `return` statement.
    Return,
    /// Any other invocation.
    Other,
}

impl StatementKind {
    /// Kind of an invocation of the generic library function `generic_libfunc`: calls of user
    /// functions go through `function_call`.
    pub fn of_invocation(generic_libfunc: &String) -> (r: StatementKind)
        ensures
            r == (if generic_libfunc@ == "function_call"@ {
                StatementKind::FunctionCall
            } else {
                StatementKind::Other
            }),
    {
        if *generic_libfunc == "function_call".to_owned() {
            StatementKind::FunctionCall
        } else {
            StatementKind::Other
        }
    }
}

/// A source position that a statement was compiled from. Lines and columns count from zero.
#[derive(Clone, Debug)]
pub struct CodeLocation {
    pub file: String,
    pub line: usize,
    pub col: usize,
}

impl CodeLocation {
    pub fn duplicate(&self) -> (r: CodeLocation)
        ensures
            r == *self,
    {
        CodeLocation { file: self.file.clone(), line: self.line, col: self.col }
    }
}

/// Everything the debugger needs to know about the program, fixed for the whole session.
#[derive(Debug)]
pub struct Context {
    /// Root directory of the project; code below it is user code.
    pub root_path: String,
    pub casm_debug_info: CasmDebugInfo,
    /// Kind of each statement, indexed by statement.
    pub statement_kinds: Vec<StatementKind>,
    /// Code locations of each statement, indexed by statement; the first one is not inlined.
    pub code_locations: Vec<Vec<CodeLocation>>,
    /// Names of the functions of each statement, aligned with its code locations.
    pub function_names: Vec<Vec<String>>,
}

/// Why the annotations handed to [`Context::new`] cannot be used.
#[derive(Debug, PartialEq, Eq, Structural)]
pub enum ContextError {
    /// The tables do not all have one entry per statement.
    LengthMismatch,
    /// The start offsets decrease somewhere.
    UnsortedOffsets,
}

pub uninterp spec fn same_path(a: Seq<char>, b: Seq<char>) -> bool;

/// Relies on `PartialEq` of `std::path::Path`: whether two paths are equal, compared component
/// by component (so `a//b` equals `a/b`).
#[verifier::external_body]
fn paths_equal(a: &String, b: &String) -> (r: bool)
    ensures
        r == same_path(a@, b@),
{
    std::path::Path::new(a) == std::path::Path::new(b)
}

/// `(col_a, pc_a)` comes before or equals `(col_b, pc_b)`: smaller column first, then smaller
/// offset.
pub open spec fn lex_le(col_a: usize, pc_a: usize, col_b: usize, pc_b: usize) -> bool {
    col_a < col_b || (col_a == col_b && pc_a <= pc_b)
}

impl Context {
    pub open spec fn num_statements(&self) -> nat {
        self.casm_debug_info.statement_to_pc@.len()
    }

    pub open spec fn offsets(&self) -> Seq<usize> {
        self.casm_debug_info.statement_to_pc@
    }

    pub open spec fn wf(&self) -> bool {
        &&& self.casm_debug_info.wf()
        &&& self.statement_kinds@.len() == self.num_statements()
        &&& self.code_locations@.len() == self.num_statements()
        &&& self.function_names@.len() == self.num_statements()
    }

    pub open spec fn location(&self, s: int, j: int) -> CodeLocation {
        self.code_locations@[s]@[j]
    }

    /// Location `j` of statement `s` lies on `line` of `file`, and the statement is hittable.
    pub open spec fn is_candidate(&self, file: Seq<char>, line: usize, s: int, j: int) -> bool {
        &&& 0 <= s < self.num_statements()
        &&& offset_is_hittable(self.offsets(), s)
        &&& 0 <= j < self.code_locations@[s]@.len()
        &&& same_path(self.location(s, j).file@, file)
        &&& self.location(s, j).line == line
    }

    /// A candidate whose (column, offset) comes first among all candidates of the line.
    pub open spec fn is_best_candidate(&self, file: Seq<char>, line: usize, s: int, j: int) -> bool {
        &&& self.is_candidate(file, line, s, j)
        &&& forall|s2: int, j2: int|
            #[trigger] self.is_candidate(file, line, s2, j2) ==> lex_le(
                self.location(s, j).col,
                self.offsets()[s],
                self.location(s2, j2).col,
                self.offsets()[s2],
            )
    }

    /// The line has at least one hittable statement.
    pub open spec fn line_resolves(&self, file: Seq<char>, line: usize) -> bool {
        exists|s: int, j: int| self.is_candidate(file, line, s, j)
    }

    /// The offset that a breakpoint on the line stops at, if any.
    pub open spec fn resolve_line(&self, file: Seq<char>, line: usize) -> Option<usize> {
        if self.line_resolves(file, line) {
            let (s, j) = choose|s: int, j: int| self.is_best_candidate(file, line, s, j);
            Some(self.offsets()[s])
        } else {
            None
        }
    }

    /// Builds the context from annotations already read out of the compiled program.
    pub fn new(
        root_path: String,
        casm_debug_info: CasmDebugInfo,
        statement_kinds: Vec<StatementKind>,
        code_locations: Vec<Vec<CodeLocation>>,
        function_names: Vec<Vec<String>>,
    ) -> (r: Result<Context, ContextError>)
        ensures
            match r {
                Ok(ctx) => {
                    &&& ctx.wf()
                    &&& ctx.root_path == root_path
                    &&& ctx.casm_debug_info == casm_debug_info
                    &&& ctx.statement_kinds == statement_kinds
                    &&& ctx.code_locations == code_locations
                    &&& ctx.function_names == function_names
                },
                Err(e) => e == (if statement_kinds@.len() != casm_debug_info.statement_to_pc@.len()
                    || code_locations@.len() != casm_debug_info.statement_to_pc@.len()
                    || function_names@.len() != casm_debug_info.statement_to_pc@.len() {
                    ContextError::LengthMismatch
                } else {
                    ContextError::UnsortedOffsets
                }),
            },
            r is Ok <==> (statement_kinds@.len() == casm_debug_info.statement_to_pc@.len()
                && code_locations@.len() == casm_debug_info.statement_to_pc@.len()
                && function_names@.len() == casm_debug_info.statement_to_pc@.len()
                && casm_debug_info.wf()),
    {
        let n = casm_debug_info.statement_to_pc.len();
        if statement_kinds.len() != n || code_locations.len() != n || function_names.len() != n {
            return Err(ContextError::LengthMismatch);
        }
        let offsets = &casm_debug_info.statement_to_pc;
        let mut i: usize = 0;
        while i + 1 < n
            invariant
                n == offsets@.len(),
                offsets@ == casm_debug_info.statement_to_pc@,
                statement_kinds@.len() == n,
                code_locations@.len() == n,
                function_names@.len() == n,
                i < n || (i == 0 && n == 0),
                forall|a: int, b: int| 0 <= a <= b <= i && b < n ==> offsets@[a] <= offsets@[b],
            decreases n - i,
        {
            if offsets[i] > offsets[i + 1] {
                proof {
                    assert(!is_sorted(offsets@)) by {
                        assert(offsets@[i as int] > offsets@[i + 1]);
                    }
                }
                return Err(ContextError::UnsortedOffsets);
            }
            proof {
                assert forall|a: int, b: int| 0 <= a <= b <= i + 1 && b < n implies offsets@[a]
                    <= offsets@[b] by {
                    if b == i + 1 && a <= i {
                        assert(offsets@[a] <= offsets@[i as int]);
                    }
                }
            }
            i = i + 1;
        }
        Ok(Context { root_path, casm_debug_info, statement_kinds, code_locations, function_names })
    }

    pub fn is_function_call_statement(&self, statement_idx: usize) -> (r: bool)
        requires
            self.wf(),
        ensures
            r == (statement_idx < self.num_statements()
                && self.statement_kinds@[statement_idx as int] == StatementKind::FunctionCall),
    {
        statement_idx < self.statement_kinds.len() && self.statement_kinds[statement_idx]
            == StatementKind::FunctionCall
    }

    pub fn is_return_statement(&self, statement_idx: usize) -> (r: bool)
        requires
            self.wf(),
        ensures
            r == (statement_idx < self.num_statements()
                && self.statement_kinds@[statement_idx as int] == StatementKind::Return),
    {
        statement_idx < self.statement_kinds.len() && self.statement_kinds[statement_idx]
            == StatementKind::Return
    }

    /// The first (not inlined) code location of the statement that `pc` belongs to.
    pub fn map_pc_to_code_location(&self, pc: usize) -> (r: Option<CodeLocation>)
        requires
            self.wf(),
        ensures
            ({
                let s = statement_at(self.offsets(), pc);
                r == (if s < self.num_statements() && self.code_locations@[s]@.len() > 0 {
                    Some(self.location(s, 0))
                } else {
                    None::<CodeLocation>
                })
            }),
    {
        let s = self.casm_debug_info.statement_for_pc(pc);
        proof {
            lemma_last_at_or_below(self.offsets(), pc);
        }
        if s < self.code_locations.len() && self.code_locations[s].len() > 0 {
            Some(self.code_locations[s][0].duplicate())
        } else {
            None
        }
    }

    /// The offset at which a breakpoint on `line` of `source` stops: among the hittable
    /// statements with a location on that line, the one with the smallest column, ties going
    /// to the smaller offset. A line with no hittable statement is rejected (`None`); there is
    /// no fallback to a nearby line. The annotations are searched on each call, so no table is
    /// kept: breakpoints are set far less often than the program steps.
    pub fn get_pc_for_line(&self, source: &String, line: Line) -> (r: Option<usize>)
        requires
            self.wf(),
        ensures
            r is None <==> !exists|s: int, j: int| self.is_candidate(source@, line.0, s, j),
            r matches Some(pc) ==> exists|s: int, j: int|
                self.is_best_candidate(source@, line.0, s, j) && self.offsets()[s] == pc,
            r == self.resolve_line(source@, line.0),
    {
        let n = self.code_locations.len();
        let mut best: Option<(usize, usize)> = None;
        let ghost mut bs: int = 0;
        let ghost mut bj: int = 0;
        let mut s: usize = 0;
        while s < n
            invariant
                self.wf(),
                n == self.num_statements(),
                s <= n,
                best is None <==> !exists|s2: int, j2: int|
                    s2 < s && #[trigger] self.is_candidate(source@, line.0, s2, j2),
                best matches Some(b) ==> {
                    &&& self.is_candidate(source@, line.0, bs, bj)
                    &&& bs < s
                    &&& b.0 == self.location(bs, bj).col
                    &&& b.1 == self.offsets()[bs]
                    &&& forall|s2: int, j2: int|
                        s2 < s && #[trigger] self.is_candidate(source@, line.0, s2, j2) ==> lex_le(
                            b.0,
                            b.1,
                            self.location(s2, j2).col,
                            self.offsets()[s2],
                        )
                },
            decreases n - s,
        {
            if self.casm_debug_info.is_hittable(s) {
                let locations = &self.code_locations[s];
                let pc = self.casm_debug_info.statement_to_pc[s];
                let mut j: usize = 0;
                while j < locations.len()
                    invariant
                        self.wf(),
                        n == self.num_statements(),
                        s < n,
                        offset_is_hittable(self.offsets(), s as int),
                        locations == self.code_locations@[s as int],
                        pc == self.offsets()[s as int],
                        j <= locations@.len(),
                        best is None <==> !exists|s2: int, j2: int|
                            (s2 < s || (s2 == s && j2 < j)) && #[trigger] self.is_candidate(
                                source@,
                                line.0,
                                s2,
                                j2,
                            ),
                        best matches Some(b) ==> {
                            &&& self.is_candidate(source@, line.0, bs, bj)
                            &&& (bs < s || (bs == s && bj < j))
                            &&& b.0 == self.location(bs, bj).col
                            &&& b.1 == self.offsets()[bs]
                            &&& forall|s2: int, j2: int|
                                (s2 < s || (s2 == s && j2 < j)) && #[trigger] self.is_candidate(
                                    source@,
                                    line.0,
                                    s2,
                                    j2,
                                ) ==> lex_le(
                                    b.0,
                                    b.1,
                                    self.location(s2, j2).col,
                                    self.offsets()[s2],
                                )
                        },
                    decreases locations@.len() - j,
                {
                    let loc = &locations[j];
                    if !(loc.line == line.0 && paths_equal(&loc.file, source)) {
                        proof {
                            assert(!self.is_candidate(source@, line.0, s as int, j as int));
                        }
                    } else {
                        proof {
                            assert(self.is_candidate(source@, line.0, s as int, j as int));
                        }
                        let col = loc.col;
                        let better = match best {
                            None => true,
                            Some((c, p)) => col < c || (col == c && pc < p),
                        };
                        if better {
                            best = Some((col, pc));
                            proof {
                                bs = s as int;
                                bj = j as int;
                            }
                        }
                    }
                    j = j + 1;
                }
            } else {
                proof {
                    assert forall|s2: int, j2: int|
                        s2 < s + 1 && #[trigger] self.is_candidate(
                            source@,
                            line.0,
                            s2,
                            j2,
                        ) implies s2 < s by {}
                }
            }
            s = s + 1;
        }
        match best {
            None => None,
            Some((_, pc)) => {
                proof {
                    assert(self.is_best_candidate(source@, line.0, bs, bj));
                    let (cs, cj) = choose|s: int, j: int|
                        self.is_best_candidate(source@, line.0, s, j);
                    assert(self.is_candidate(source@, line.0, cs, cj));
                    assert(self.is_candidate(source@, line.0, bs, bj));
                }
                Some(pc)
            },
        }
    }

    /// Code locations of a statement, the non-inlined one first; `None` when it has none.
    pub fn code_locations_for_statement_idx(&self, statement_idx: usize) -> (r: Option<
        &Vec<CodeLocation>,
    >)
        requires
            self.wf(),
        ensures
            r == (if statement_idx < self.num_statements() && self.code_locations@[
                statement_idx as int
            ]@.len() > 0 {
                Some(&self.code_locations@[statement_idx as int])
            } else {
                None::<&Vec<CodeLocation>>
            }),
    {
        if statement_idx < self.code_locations.len() && self.code_locations[statement_idx].len()
            > 0 {
            Some(&self.code_locations[statement_idx])
        } else {
            None
        }
    }

    /// Function names of a statement; `None` when it has none.
    pub fn function_names_for_statement_idx(&self, statement_idx: usize) -> (r: Option<&Vec<String>>)
        requires
            self.wf(),
        ensures
            r == (if statement_idx < self.num_statements() && self.function_names@[
                statement_idx as int
            ]@.len() > 0 {
                Some(&self.function_names@[statement_idx as int])
            } else {
                None::<&Vec<String>>
            }),
    {
        if statement_idx < self.function_names.len() && self.function_names[statement_idx].len()
            > 0 {
            Some(&self.function_names[statement_idx])
        } else {
            None
        }
    }
}

/// A breakpoint never resolves to a statement whose compiled code is empty: an offset chosen
/// for a line, as `get_pc_for_line` chooses it, is the start of a hittable statement with a
/// location on that line.
pub proof fn lemma_breakpoint_target_is_hittable(
    ctx: &Context,
    file: Seq<char>,
    line: usize,
    pc: usize,
)
    requires
        ctx.wf(),
        exists|s: int, j: int| ctx.is_best_candidate(file, line, s, j) && ctx.offsets()[s] == pc,
    ensures
        exists|s: int, j: int|
            {
                &&& 0 <= s < ctx.num_statements()
                &&& (s + 1 < ctx.num_statements() ==> ctx.offsets()[s] != ctx.offsets()[s + 1])
                &&& ctx.is_candidate(file, line, s, j)
                &&& ctx.offsets()[s] == pc
            },
{
    let (s, j) = choose|s: int, j: int|
        ctx.is_best_candidate(file, line, s, j) && ctx.offsets()[s] == pc;
    assert(ctx.is_candidate(file, line, s, j));
}

} // verus!
