use vstd::prelude::*;

verus! {

/// A readable name for a statement: `F{function}` at a function's entry point, and
/// `F{function}_B{block}` (or `NONE_B{block}` before any entry point) at a branch target.
#[derive(Clone, Copy, Debug, PartialEq, Eq, Structural)]
pub enum Label {
    Function(usize),
    Block { function: Option<usize>, block: usize },
}

/// The last function, in declaration order, whose entry point is `statement`.
pub open spec fn function_at(entry_points: Seq<usize>, statement: int) -> Option<usize>
    decreases entry_points.len(),
{
    if entry_points.len() == 0 {
        None
    } else if entry_points.last() == statement {
        Some((entry_points.len() - 1) as usize)
    } else {
        function_at(entry_points.drop_last(), statement)
    }
}

/// The function being labelled and the number of blocks already labelled in it, before
/// `statement`. Functions are assumed to be contiguous.
pub open spec fn scan_before(entry_points: Seq<usize>, targets: Seq<usize>, statement: nat) -> (
    Option<usize>,
    nat,
)
    decreases statement,
{
    if statement == 0 {
        (None, 0)
    } else {
        let prev = (statement - 1) as nat;
        let (function, block) = scan_before(entry_points, targets, prev);
        if function_at(entry_points, prev as int) is Some {
            (function_at(entry_points, prev as int), 0)
        } else if targets.contains(prev as usize) {
            (function, block + 1)
        } else {
            (function, block)
        }
    }
}

/// The label of `statement`, if it has one.
pub open spec fn label_of(entry_points: Seq<usize>, targets: Seq<usize>, statement: nat) -> Option<
    Label,
> {
    match function_at(entry_points, statement as int) {
        Some(f) => Some(Label::Function(f)),
        None => if targets.contains(statement as usize) {
            let (function, block) = scan_before(entry_points, targets, statement);
            Some(Label::Block { function, block: block as usize })
        } else {
            None
        },
    }
}

proof fn lemma_block_count_bounded(entry_points: Seq<usize>, targets: Seq<usize>, statement: nat)
    ensures
        scan_before(entry_points, targets, statement).1 <= statement,
    decreases statement,
{
    if statement > 0 {
        lemma_block_count_bounded(entry_points, targets, (statement - 1) as nat);
    }
}

/// Labels of the statements `0..num_statements`, given the entry point of each function and the
/// targets of all branches of the program.
pub fn extract_labels(num_statements: usize, entry_points: &Vec<usize>, branch_targets: &Vec<usize>) -> (r:
    Vec<Option<Label>>)
    ensures
        r@.len() == num_statements,
        forall|i: int|
            0 <= i < num_statements ==> #[trigger] r@[i] == label_of(
                entry_points@,
                branch_targets@,
                i as nat,
            ),
{
    // Function of each statement that is an entry point; later functions win.
    let mut functions: Vec<Option<usize>> = Vec::new();
    let mut targets: Vec<bool> = Vec::new();
    let mut i: usize = 0;
    while i < num_statements
        invariant
            i <= num_statements,
            functions@.len() == i,
            targets@.len() == i,
            forall|k: int| 0 <= k < i ==> #[trigger] functions@[k] == function_at(Seq::empty(), k),
            forall|k: int| 0 <= k < i ==> !#[trigger] targets@[k],
        decreases num_statements - i,
    {
        functions.push(None);
        targets.push(false);
        i = i + 1;
    }
    let mut f: usize = 0;
    while f < entry_points.len()
        invariant
            f <= entry_points@.len(),
            functions@.len() == num_statements,
            forall|k: int|
                0 <= k < num_statements ==> #[trigger] functions@[k] == function_at(
                    entry_points@.take(f as int),
                    k,
                ),
        decreases entry_points@.len() - f,
    {
        let entry = entry_points[f];
        if entry < num_statements {
            functions.set(entry, Some(f));
        }
        proof {
            let t = entry_points@.take(f + 1);
            assert(t.drop_last() =~= entry_points@.take(f as int));
            assert(t.last() == entry);
        }
        f = f + 1;
    }
    proof {
        assert(entry_points@.take(entry_points@.len() as int) =~= entry_points@);
    }
    let mut b: usize = 0;
    while b < branch_targets.len()
        invariant
            b <= branch_targets@.len(),
            targets@.len() == num_statements,
            forall|k: int|
                0 <= k < num_statements ==> #[trigger] targets@[k] == branch_targets@.take(
                    b as int,
                ).contains(k as usize),
        decreases branch_targets@.len() - b,
    {
        let target = branch_targets[b];
        if target < num_statements {
            targets.set(target, true);
        }
        proof {
            let t = branch_targets@.take(b + 1);
            assert(t =~= branch_targets@.take(b as int).push(target));
            assert forall|k: int| 0 <= k < num_statements implies #[trigger] targets@[k] == t.contains(
                k as usize,
            ) by {
                let before = branch_targets@.take(b as int);
                if k as usize == target {
                    assert(t[b as int] == target);
                }
                if before.contains(k as usize) {
                    let w = choose|w: int| 0 <= w < before.len() && before[w] == k as usize;
                    assert(t[w] == k as usize);
                }
                if t.contains(k as usize) && k as usize != target {
                    let w = choose|w: int| 0 <= w < t.len() && t[w] == k as usize;
                    assert(before[w] == k as usize);
                }
            }
        }
        b = b + 1;
    }
    proof {
        assert(branch_targets@.take(branch_targets@.len() as int) =~= branch_targets@);
    }
    let mut labels: Vec<Option<Label>> = Vec::new();
    let mut function: Option<usize> = None;
    let mut block: usize = 0;
    let mut s: usize = 0;
    while s < num_statements
        invariant
            s <= num_statements,
            functions@.len() == num_statements,
            targets@.len() == num_statements,
            forall|k: int|
                0 <= k < num_statements ==> #[trigger] functions@[k] == function_at(entry_points@, k),
            forall|k: int|
                0 <= k < num_statements ==> #[trigger] targets@[k] == branch_targets@.contains(
                    k as usize,
                ),
            labels@.len() == s,
            forall|k: int|
                0 <= k < s ==> #[trigger] labels@[k] == label_of(
                    entry_points@,
                    branch_targets@,
                    k as nat,
                ),
            (function, block as nat) == scan_before(entry_points@, branch_targets@, s as nat),
        decreases num_statements - s,
    {
        proof {
            lemma_block_count_bounded(entry_points@, branch_targets@, s as nat);
        }
        match functions[s] {
            Some(fi) => {
                labels.push(Some(Label::Function(fi)));
                function = Some(fi);
                block = 0;
            },
            None => {
                if targets[s] {
                    labels.push(Some(Label::Block { function, block }));
                    block = block + 1;
                } else {
                    labels.push(None);
                }
            },
        }
        s = s + 1;
    }
    labels
}

proof fn lemma_function_at(entry_points: Seq<usize>, statement: int)
    requires
        entry_points.len() <= usize::MAX,
    ensures
        match function_at(entry_points, statement) {
            Some(f) => {
                &&& f < entry_points.len()
                &&& entry_points[f as int] == statement
                &&& forall|g: int| f < g < entry_points.len() ==> entry_points[g] != statement
            },
            None => forall|g: int| 0 <= g < entry_points.len() ==> entry_points[g] != statement,
        },
    decreases entry_points.len(),
{
    if entry_points.len() > 0 && entry_points.last() != statement {
        let rest = entry_points.drop_last();
        lemma_function_at(rest, statement);
        assert forall|g: int| 0 <= g < rest.len() implies rest[g] == entry_points[g] by {}
        assert(entry_points[entry_points.len() - 1] != statement);
        match function_at(rest, statement) {
            Some(f) => {
                assert forall|g: int| f < g < entry_points.len() implies entry_points[g]
                    != statement by {
                    if g < rest.len() {
                        assert(rest[g] == entry_points[g]);
                    }
                }
            },
            None => {
                assert forall|g: int| 0 <= g < entry_points.len() implies entry_points[g]
                    != statement by {
                    if g < rest.len() {
                        assert(rest[g] == entry_points[g]);
                    }
                }
            },
        }
    }
}

/// Labels `(entry point, F{function})` of the entry points at or past `num_statements`, in the
/// order of the first `count` functions; an entry point shared by several functions takes the
/// last of them.
pub open spec fn labels_past_end(entry_points: Seq<usize>, num_statements: usize, count: nat) -> Seq<
    (usize, Label),
>
    decreases count,
{
    if count == 0 {
        seq![]
    } else {
        let f = (count - 1) as nat;
        let rest = labels_past_end(entry_points, num_statements, f);
        if entry_points[f as int] >= num_statements && function_at(
            entry_points,
            entry_points[f as int] as int,
        ) == Some(f as usize) {
            rest.push((entry_points[f as int], Label::Function(f as usize)))
        } else {
            rest
        }
    }
}

/// Labels of the entry points that lie at or past the end of the program's statements.
pub fn extract_labels_past_end(num_statements: usize, entry_points: &Vec<usize>) -> (r: Vec<
    (usize, Label),
>)
    ensures
        r@ == labels_past_end(entry_points@, num_statements, entry_points@.len()),
{
    let mut labels: Vec<(usize, Label)> = Vec::new();
    let mut f: usize = 0;
    while f < entry_points.len()
        invariant
            f <= entry_points@.len(),
            labels@ == labels_past_end(entry_points@, num_statements, f as nat),
        decreases entry_points@.len() - f,
    {
        let entry = entry_points[f];
        if entry >= num_statements {
            let mut last = true;
            let mut g: usize = f + 1;
            while g < entry_points.len()
                invariant
                    f < g <= entry_points@.len(),
                    entry == entry_points@[f as int],
                    last <==> forall|h: int| f < h < g ==> entry_points@[h] != entry,
                decreases entry_points@.len() - g,
            {
                if entry_points[g] == entry {
                    last = false;
                }
                g = g + 1;
            }
            proof {
                lemma_function_at(entry_points@, entry as int);
                let found = function_at(entry_points@, entry as int);
                if last {
                    assert(found == Some(f));
                } else {
                    assert(found != Some(f));
                }
            }
            if last {
                labels.push((entry, Label::Function(f)));
            }
        }
        f = f + 1;
    }
    labels
}

} // verus!
