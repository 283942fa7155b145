use vstd::prelude::*;

use crate::debug_info::{Context, Line};

verus! {

/// Breakpoints of one source file, as the offsets they stop at.
pub struct FileBreakpoints {
    pub source: String,
    pub pcs: Vec<usize>,
}

/// Session state: how far configuration has come, whether execution is stopped, the breakpoint
/// table and the current program counter.
pub struct State {
    configuration_done: bool,
    execution_stopped: bool,
    breakpoints: Vec<FileBreakpoints>,
    current_pc: usize,
}

pub open spec fn has_file(entries: Seq<FileBreakpoints>, file: Seq<char>) -> bool {
    exists|i: int| 0 <= i < entries.len() && #[trigger] entries[i].source@ == file
}

/// Breakpoint offsets recorded for `file` in a table with one entry per file.
pub open spec fn pcs_in(entries: Seq<FileBreakpoints>, file: Seq<char>) -> Seq<usize> {
    if has_file(entries, file) {
        let i = choose|i: int| 0 <= i < entries.len() && #[trigger] entries[i].source@ == file;
        entries[i].pcs@
    } else {
        seq![]
    }
}

pub open spec fn unique_sources(entries: Seq<FileBreakpoints>) -> bool {
    forall|i: int, j: int|
        0 <= i < entries.len() && 0 <= j < entries.len() && #[trigger] entries[i].source@
            == #[trigger] entries[j].source@ ==> i == j
}

proof fn lemma_pcs_in_entry(entries: Seq<FileBreakpoints>, i: int)
    requires
        unique_sources(entries),
        0 <= i < entries.len(),
    ensures
        pcs_in(entries, entries[i].source@) == entries[i].pcs@,
{
    let file = entries[i].source@;
    assert(has_file(entries, file));
    let k = choose|k: int| 0 <= k < entries.len() && #[trigger] entries[k].source@ == file;
    assert(entries[k].source@ == entries[i].source@);
}

/// Offsets that breakpoints on `lines` of `file` stop at, in the order of the lines; lines that
/// do not resolve are left out.
pub open spec fn resolved_pcs(ctx: &Context, file: Seq<char>, lines: Seq<Line>) -> Seq<usize>
    decreases lines.len(),
{
    if lines.len() == 0 {
        seq![]
    } else {
        let rest = resolved_pcs(ctx, file, lines.drop_last());
        match ctx.resolve_line(file, lines.last().0) {
            Some(pc) => rest.push(pc),
            None => rest,
        }
    }
}

impl State {
    pub closed spec fn wf(&self) -> bool {
        unique_sources(self.breakpoints@)
    }

    /// Program counter of the instruction about to execute.
    pub closed spec fn pc(&self) -> usize {
        self.current_pc
    }

    pub closed spec fn configured(&self) -> bool {
        self.configuration_done
    }

    pub closed spec fn stopped(&self) -> bool {
        self.execution_stopped
    }

    /// Breakpoint offsets of `file`, empty when none are set.
    pub closed spec fn breakpoints_in(&self, file: Seq<char>) -> Seq<usize> {
        pcs_in(self.breakpoints@, file)
    }

    /// Some file has a breakpoint at `pc`.
    pub open spec fn is_breakpoint(&self, pc: usize) -> bool {
        exists|file: Seq<char>| #[trigger] self.breakpoints_in(file).contains(pc)
    }

    /// `new` is `old` after `set_breakpoints(file, lines)` returned `verified`: the breakpoints
    /// of `file` are replaced by those of `lines`, other files keep theirs, and each line is
    /// reported verified exactly when it resolves.
    pub open spec fn replaces_breakpoints(
        old: State,
        new: State,
        ctx: &Context,
        file: Seq<char>,
        lines: Seq<Line>,
        verified: Seq<bool>,
    ) -> bool {
        &&& new.wf()
        &&& new.configured() == old.configured()
        &&& new.stopped() == old.stopped()
        &&& new.pc() == old.pc()
        &&& new.breakpoints_in(file) == resolved_pcs(ctx, file, lines)
        &&& forall|f: Seq<char>| f != file ==> #[trigger] new.breakpoints_in(f) == old.breakpoints_in(f)
        &&& verified.len() == lines.len()
        &&& forall|k: int|
            0 <= k < lines.len() ==> #[trigger] verified[k] == ctx.line_resolves(file, lines[k].0)
    }

    pub fn new() -> (r: State)
        ensures
            r.wf(),
            !r.configured(),
            !r.stopped(),
            r.pc() == 0,
            forall|f: Seq<char>| #[trigger] r.breakpoints_in(f) == Seq::<usize>::empty(),
    {
        State {
            configuration_done: false,
            execution_stopped: false,
            breakpoints: Vec::new(),
            current_pc: 0,
        }
    }

    pub fn is_configuration_done(&self) -> (r: bool)
        ensures
            r == self.configured(),
    {
        self.configuration_done
    }

    pub fn set_configuration_done(&mut self)
        ensures
            final(self).configured(),
            final(self).stopped() == old(self).stopped(),
            final(self).pc() == old(self).pc(),
            final(self).wf() == old(self).wf(),
            forall|f: Seq<char>| #[trigger] final(self).breakpoints_in(f) == old(self).breakpoints_in(f),
    {
        self.configuration_done = true;
    }

    pub fn current_pc(&self) -> (r: usize)
        ensures
            r == self.pc(),
    {
        self.current_pc
    }

    pub fn set_current_pc(&mut self, pc: usize)
        ensures
            final(self).pc() == pc,
            final(self).configured() == old(self).configured(),
            final(self).stopped() == old(self).stopped(),
            final(self).wf() == old(self).wf(),
            forall|f: Seq<char>| #[trigger] final(self).breakpoints_in(f) == old(self).breakpoints_in(f),
    {
        self.current_pc = pc;
    }

    pub fn is_execution_stopped(&self) -> (r: bool)
        ensures
            r == self.stopped(),
    {
        self.execution_stopped
    }

    pub fn stop_execution(&mut self)
        ensures
            final(self).stopped(),
            final(self).configured() == old(self).configured(),
            final(self).pc() == old(self).pc(),
            final(self).wf() == old(self).wf(),
            forall|f: Seq<char>| #[trigger] final(self).breakpoints_in(f) == old(self).breakpoints_in(f),
    {
        self.execution_stopped = true;
    }

    pub fn resume_execution(&mut self)
        ensures
            !final(self).stopped(),
            final(self).configured() == old(self).configured(),
            final(self).pc() == old(self).pc(),
            final(self).wf() == old(self).wf(),
            forall|f: Seq<char>| #[trigger] final(self).breakpoints_in(f) == old(self).breakpoints_in(f),
    {
        self.execution_stopped = false;
    }

    /// Index of the table entry of `source`.
    fn find_file(&self, source: &String) -> (r: Option<usize>)
        ensures
            match r {
                Some(i) => i < self.breakpoints@.len() && self.breakpoints@[i as int].source@
                    == source@,
                None => !has_file(self.breakpoints@, source@),
            },
    {
        let mut i: usize = 0;
        while i < self.breakpoints.len()
            invariant
                i <= self.breakpoints@.len(),
                forall|k: int| 0 <= k < i ==> self.breakpoints@[k].source@ != source@,
            decreases self.breakpoints@.len() - i,
        {
            if self.breakpoints[i].source == *source {
                return Some(i);
            }
            i = i + 1;
        }
        None
    }

    /// Adds a breakpoint on `line` of `source` and tells whether the line resolves to a
    /// hittable statement; a line that does not resolve adds nothing.
    pub fn set_breakpoint(&mut self, source: String, line: Line, ctx: &Context) -> (r: bool)
        requires
            old(self).wf(),
            ctx.wf(),
        ensures
            final(self).wf(),
            r == ctx.line_resolves(source@, line.0),
            final(self).breakpoints_in(source@) == (match ctx.resolve_line(source@, line.0) {
                Some(pc) => old(self).breakpoints_in(source@).push(pc),
                None => old(self).breakpoints_in(source@),
            }),
            forall|f: Seq<char>|
                f != source@ ==> #[trigger] final(self).breakpoints_in(f) == old(self).breakpoints_in(f),
            final(self).configured() == old(self).configured(),
            final(self).stopped() == old(self).stopped(),
            final(self).pc() == old(self).pc(),
    {
        let pc = ctx.get_pc_for_line(&source, line);
        match pc {
            None => false,
            Some(pc) => {
                let mut pcs: Vec<usize> = Vec::new();
                let found = self.find_file(&source);
                let ghost old_entries = self.breakpoints@;
                match found {
                    Some(i) => {
                        proof {
                            lemma_pcs_in_entry(old_entries, i as int);
                        }
                        let mut entry = self.breakpoints.remove(i);
                        entry.pcs.push(pc);
                        self.breakpoints.insert(i, entry);
                        proof {
                            let new_entries = self.breakpoints@;
                            assert(new_entries =~= old_entries.update(i as int, entry));
                            assert(unique_sources(new_entries));
                            lemma_pcs_in_entry(new_entries, i as int);
                            assert forall|f: Seq<char>| f != source@ implies #[trigger] pcs_in(
                                new_entries,
                                f,
                            ) == pcs_in(old_entries, f) by {
                                if has_file(old_entries, f) {
                                    let k = choose|k: int|
                                        0 <= k < old_entries.len()
                                            && #[trigger] old_entries[k].source@ == f;
                                    lemma_pcs_in_entry(old_entries, k);
                                    lemma_pcs_in_entry(new_entries, k);
                                } else {
                                    assert(!has_file(new_entries, f));
                                }
                            }
                        }
                    },
                    None => {
                        pcs.push(pc);
                        let entry = FileBreakpoints { source, pcs };
                        self.breakpoints.push(entry);
                        proof {
                            let new_entries = self.breakpoints@;
                            assert(new_entries == old_entries.push(entry));
                            assert(unique_sources(new_entries));
                            lemma_pcs_in_entry(new_entries, old_entries.len() as int);
                            assert(entry.pcs@ =~= seq![].push(pc));
                            assert forall|f: Seq<char>| f != entry.source@ implies #[trigger] pcs_in(
                                new_entries,
                                f,
                            ) == pcs_in(old_entries, f) by {
                                if has_file(old_entries, f) {
                                    let k = choose|k: int|
                                        0 <= k < old_entries.len()
                                            && #[trigger] old_entries[k].source@ == f;
                                    lemma_pcs_in_entry(old_entries, k);
                                    lemma_pcs_in_entry(new_entries, k);
                                } else {
                                    assert(!has_file(new_entries, f)) by {
                                        if has_file(new_entries, f) {
                                            let k = choose|k: int|
                                                0 <= k < new_entries.len()
                                                    && #[trigger] new_entries[k].source@ == f;
                                            assert(new_entries[k] == old_entries[k]);
                                        }
                                    }
                                }
                            }
                        }
                    },
                }
                true
            },
        }
    }

    /// Removes every breakpoint of `source`.
    fn clear_file(&mut self, source: &String)
        requires
            old(self).wf(),
        ensures
            final(self).wf(),
            final(self).breakpoints_in(source@) == Seq::<usize>::empty(),
            forall|f: Seq<char>|
                f != source@ ==> #[trigger] final(self).breakpoints_in(f) == old(self).breakpoints_in(f),
            final(self).configured() == old(self).configured(),
            final(self).stopped() == old(self).stopped(),
            final(self).pc() == old(self).pc(),
    {
        let ghost old_entries = self.breakpoints@;
        match self.find_file(source) {
            None => {},
            Some(i) => {
                let _ = self.breakpoints.remove(i);
                proof {
                    let new_entries = self.breakpoints@;
                    assert(new_entries =~= old_entries.remove(i as int));
                    assert(unique_sources(new_entries));
                    assert(!has_file(new_entries, source@)) by {
                        if has_file(new_entries, source@) {
                            let k = choose|k: int|
                                0 <= k < new_entries.len() && #[trigger] new_entries[k].source@
                                    == source@;
                            if k < i {
                                assert(new_entries[k] == old_entries[k]);
                            } else {
                                assert(new_entries[k] == old_entries[k + 1]);
                            }
                        }
                    }
                    assert forall|f: Seq<char>| f != source@ implies #[trigger] pcs_in(
                        new_entries,
                        f,
                    ) == pcs_in(old_entries, f) by {
                        if has_file(old_entries, f) {
                            let k = choose|k: int|
                                0 <= k < old_entries.len() && #[trigger] old_entries[k].source@
                                    == f;
                            lemma_pcs_in_entry(old_entries, k);
                            if k < i {
                                assert(new_entries[k] == old_entries[k]);
                                lemma_pcs_in_entry(new_entries, k);
                            } else {
                                assert(k != i);
                                assert(new_entries[k - 1] == old_entries[k]);
                                lemma_pcs_in_entry(new_entries, k - 1);
                            }
                        } else {
                            assert(!has_file(new_entries, f)) by {
                                if has_file(new_entries, f) {
                                    let k = choose|k: int|
                                        0 <= k < new_entries.len()
                                            && #[trigger] new_entries[k].source@ == f;
                                    if k < i {
                                        assert(new_entries[k] == old_entries[k]);
                                    } else {
                                        assert(new_entries[k] == old_entries[k + 1]);
                                    }
                                }
                            }
                        }
                    }
                }
            },
        }
    }

    /// Replaces the breakpoints of `source` by those of `lines` and reports, line by line,
    /// whether each one resolved to a hittable statement.
    pub fn set_breakpoints(&mut self, source: &String, lines: &Vec<Line>, ctx: &Context) -> (r: Vec<
        bool,
    >)
        requires
            old(self).wf(),
            ctx.wf(),
        ensures
            State::replaces_breakpoints(*old(self), *final(self), ctx, source@, lines@, r@),
    {
        self.clear_file(source);
        let ghost cleared = *self;
        let mut verified: Vec<bool> = Vec::new();
        let mut k: usize = 0;
        while k < lines.len()
            invariant
                ctx.wf(),
                self.wf(),
                k <= lines@.len(),
                self.breakpoints_in(source@) == resolved_pcs(ctx, source@, lines@.take(k as int)),
                forall|f: Seq<char>|
                    f != source@ ==> #[trigger] self.breakpoints_in(f) == cleared.breakpoints_in(f),
                self.configured() == cleared.configured(),
                self.stopped() == cleared.stopped(),
                self.pc() == cleared.pc(),
                verified@.len() == k,
                forall|m: int|
                    0 <= m < k ==> #[trigger] verified@[m] == ctx.line_resolves(source@, lines@[m].0),
            decreases lines@.len() - k,
        {
            let ok = self.set_breakpoint(source.clone(), lines[k], ctx);
            verified.push(ok);
            proof {
                assert(lines@.take(k + 1).drop_last() =~= lines@.take(k as int));
            }
            k = k + 1;
        }
        proof {
            assert(lines@.take(lines@.len() as int) =~= lines@);
        }
        verified
    }

    /// Execution must stop at `pc`: it was paused, or a breakpoint is set there.
    pub fn should_stop(&self, pc: usize) -> (r: bool)
        requires
            self.wf(),
        ensures
            r == (self.stopped() || self.is_breakpoint(pc)),
    {
        if self.execution_stopped {
            return true;
        }
        let mut i: usize = 0;
        while i < self.breakpoints.len()
            invariant
                self.wf(),
                !self.stopped(),
                i <= self.breakpoints@.len(),
                forall|k: int| 0 <= k < i ==> !(#[trigger] self.breakpoints@[k]).pcs@.contains(pc),
            decreases self.breakpoints@.len() - i,
        {
            let pcs = &self.breakpoints[i].pcs;
            let mut j: usize = 0;
            while j < pcs.len()
                invariant
                    self.wf(),
                    i < self.breakpoints@.len(),
                    pcs == self.breakpoints@[i as int].pcs,
                    j <= pcs@.len(),
                    forall|m: int| 0 <= m < j ==> pcs@[m] != pc,
                decreases pcs@.len() - j,
            {
                if pcs[j] == pc {
                    proof {
                        lemma_pcs_in_entry(self.breakpoints@, i as int);
                        assert(self.breakpoints_in(self.breakpoints@[i as int].source@).contains(pc));
                    }
                    return true;
                }
                j = j + 1;
            }
            i = i + 1;
        }
        proof {
            assert forall|f: Seq<char>| !(#[trigger] self.breakpoints_in(f).contains(pc)) by {
                if has_file(self.breakpoints@, f) {
                    let k = choose|k: int|
                        0 <= k < self.breakpoints@.len() && #[trigger] self.breakpoints@[k].source@
                            == f;
                    lemma_pcs_in_entry(self.breakpoints@, k);
                    assert(!self.breakpoints@[k].pcs@.contains(pc));
                }
            }
        }
        false
    }
}

/// Re-issuing a request to set breakpoints for a file with no lines clears every breakpoint of
/// that file, keeps those of other files, and reports no line as verified.
pub proof fn lemma_empty_request_clears_file(
    old: State,
    new: State,
    ctx: &Context,
    file: Seq<char>,
    verified: Seq<bool>,
)
    requires
        State::replaces_breakpoints(old, new, ctx, file, Seq::<Line>::empty(), verified),
    ensures
        new.breakpoints_in(file) == Seq::<usize>::empty(),
        verified.len() == 0,
        forall|pc: usize| !new.breakpoints_in(file).contains(pc),
        forall|f: Seq<char>| f != file ==> #[trigger] new.breakpoints_in(f) == old.breakpoints_in(f),
{
}

} // verus!
