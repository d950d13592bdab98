use vstd::prelude::*;

use crate::instruction::Instruction;

verus! {

/// Why a program's loop brackets cannot be paired.
#[derive(Clone, Copy, Debug, PartialEq, Eq, Structural)]
pub enum BracketError {
    /// A `[` is never closed.
    UnmatchedLoopStart,
    /// A `]` has no open `[` before it.
    UnmatchedLoopEnd,
}

impl BracketError {
    /// The diagnostic shown for this error.
    pub fn message(&self) -> (r: &'static str)
        ensures
            r@ == (match self {
                BracketError::UnmatchedLoopStart => "Unmatched '['"@,
                BracketError::UnmatchedLoopEnd => "Unmatched ']'"@,
            }),
    {
        match self {
            BracketError::UnmatchedLoopStart => "Unmatched '['",
            BracketError::UnmatchedLoopEnd => "Unmatched ']'",
        }
    }
}

/// Whether an instruction is a loop bracket.
pub open spec fn is_bracket(ins: Instruction) -> bool {
    ins == Instruction::LoopStart || ins == Instruction::LoopEnd
}

/// The change of nesting depth an instruction makes.
pub open spec fn depth_delta(ins: Instruction) -> int {
    if ins == Instruction::LoopStart {
        1
    } else if ins == Instruction::LoopEnd {
        -1
    } else {
        0
    }
}

/// Open brackets minus closing brackets among the first `k` instructions.
pub open spec fn depth(p: Seq<Instruction>, k: int) -> int
    decreases k,
{
    if k <= 0 {
        0
    } else {
        depth(p, k - 1) + depth_delta(p[k - 1])
    }
}

/// Some prefix of `p` closes more loops than it opens.
pub open spec fn has_unmatched_end(p: Seq<Instruction>) -> bool {
    exists|k: int| 0 <= k <= p.len() && #[trigger] depth(p, k) < 0
}

/// No prefix closes more loops than it opens, yet some loop is left open.
pub open spec fn has_unmatched_start(p: Seq<Instruction>) -> bool {
    !has_unmatched_end(p) && depth(p, p.len() as int) > 0
}

/// Every bracket of `p` has a partner.
pub open spec fn is_balanced(p: Seq<Instruction>) -> bool {
    !has_unmatched_end(p) && depth(p, p.len() as int) == 0
}

/// The `[` at `i` and the `]` at `j` enclose each other: `j` is the first
/// place after `i` where the nesting depth falls back to what it was before `i`.
pub open spec fn is_matching_pair(p: Seq<Instruction>, i: int, j: int) -> bool {
    &&& 0 <= i < j < p.len()
    &&& p[i] == Instruction::LoopStart
    &&& p[j] == Instruction::LoopEnd
    &&& depth(p, j + 1) == depth(p, i)
    &&& forall|k: int| i < k <= j ==> #[trigger] depth(p, k) > depth(p, i)
}

/// `map` is the jump table of `p`: one entry per instruction, the partner's
/// index at each bracket, and nothing elsewhere.
pub open spec fn is_jump_table(p: Seq<Instruction>, map: Seq<Option<usize>>) -> bool {
    &&& map.len() == p.len()
    &&& forall|i: int|
        0 <= i < p.len() ==> (#[trigger] map[i] is Some <==> is_bracket(p[i]))
    &&& forall|i: int|
        0 <= i < p.len() && p[i] == Instruction::LoopStart ==> (#[trigger] map[i] matches Some(j)
            && is_matching_pair(p, i, j as int))
    &&& forall|j: int|
        0 <= j < p.len() && p[j] == Instruction::LoopEnd ==> (#[trigger] map[j] matches Some(i)
            && is_matching_pair(p, i as int, j))
}

/// Pairs every `[` of `commands` with its `]`, scanning once with a stack of
/// open `[` positions. Fails with `UnmatchedLoopEnd` at the first `]` that
/// has nothing to close, and with `UnmatchedLoopStart` when the scan ends
/// with loops still open.
pub fn build_bracket_map(commands: &[Instruction]) -> (r: Result<Vec<Option<usize>>, BracketError>)
    ensures
        match r {
            Ok(map) => is_balanced(commands@) && is_jump_table(commands@, map@),
            Err(BracketError::UnmatchedLoopEnd) => has_unmatched_end(commands@),
            Err(BracketError::UnmatchedLoopStart) => has_unmatched_start(commands@),
        },
{
    let ghost p = commands@;
    let n = commands.len();
    let mut map: Vec<Option<usize>> = Vec::new();
    let mut t: usize = 0;
    while t < n
        invariant
            t <= n == p.len(),
            map@.len() == t,
            forall|u: int| 0 <= u < t ==> #[trigger] map@[u] is None,
        decreases n - t,
    {
        map.push(None);
        t += 1;
    }
    let mut stack: Vec<usize> = Vec::new();
    let mut i: usize = 0;
    while i < n
        invariant
            i <= n == p.len(),
            p == commands@,
            map@.len() == n,
            stack@.len() == depth(p, i as int),
            forall|m: int| 0 <= m <= i ==> #[trigger] depth(p, m) >= 0,
            forall|d: int|
                #![trigger stack@[d]]
                0 <= d < stack@.len() ==> {
                    &&& stack@[d] < i
                    &&& p[stack@[d] as int] == Instruction::LoopStart
                    &&& depth(p, stack@[d] as int) == d
                    &&& forall|m: int| stack@[d] < m <= i ==> #[trigger] depth(p, m) > d
                },
            forall|u: int| i <= u < n ==> #[trigger] map@[u] is None,
            forall|u: int| 0 <= u < i && !is_bracket(p[u]) ==> #[trigger] map@[u] is None,
            forall|u: int|
                0 <= u < i && p[u] == Instruction::LoopEnd ==> (#[trigger] map@[u] matches Some(
                    s,
                ) && is_matching_pair(p, s as int, u)),
            forall|u: int|
                0 <= u < i && p[u] == Instruction::LoopStart ==> ((#[trigger] map@[u] matches Some(
                    j,
                ) && j < i && is_matching_pair(p, u, j as int)) || (map@[u] is None && depth(p, u)
                    < stack@.len() && stack@[depth(p, u)] == u)),
        decreases n - i,
    {
        assert(depth(p, i + 1) == depth(p, i as int) + depth_delta(p[i as int]));
        match commands[i] {
            Instruction::LoopStart => {
                stack.push(i);
            },
            Instruction::LoopEnd => {
                match stack.pop() {
                    Some(start) => {
                        map.set(start, Some(i));
                        map.set(i, Some(start));
                    },
                    None => {
                        assert(depth(p, i + 1) < 0);
                        return Err(BracketError::UnmatchedLoopEnd);
                    },
                }
            },
            _ => {},
        }
        i += 1;
    }
    if stack.len() > 0 {
        return Err(BracketError::UnmatchedLoopStart);
    }
    Ok(map)
}

/// A `[` has at most one matching `]`, and a `]` at most one matching `[`.
pub proof fn lemma_matching_pair_unique(p: Seq<Instruction>, i: int, j: int, i2: int, j2: int)
    requires
        is_matching_pair(p, i, j),
        is_matching_pair(p, i2, j2),
        i == i2 || j == j2,
    ensures
        i == i2 && j == j2,
{
    if i < i2 {
        assert(depth(p, i2) > depth(p, i));
    } else if i2 < i {
        assert(depth(p, i) > depth(p, i2));
    } else if j < j2 {
        assert(depth(p, j + 1) > depth(p, i));
    } else if j2 < j {
        assert(depth(p, j2 + 1) > depth(p, i));
    }
}

/// The jump table is an involution on bracket positions: following it twice
/// from any bracket comes back to that bracket. Its pairs nest properly: a
/// pair that opens inside another also closes inside it.
pub proof fn lemma_jump_table_involution(p: Seq<Instruction>, map: Seq<Option<usize>>)
    requires
        is_jump_table(p, map),
    ensures
        forall|i: int|
            0 <= i < p.len() && is_bracket(p[i]) ==> (#[trigger] map[i] matches Some(j) && 0 <= j
                < p.len() && is_bracket(p[j as int]) && map[j as int] == Some(i as usize)),
        forall|i: int, i2: int|
            #![trigger map[i], map[i2]]
            0 <= i < i2 < p.len() && p[i] == Instruction::LoopStart && p[i2]
                == Instruction::LoopStart && i2 < map[i]->0 ==> map[i2]->0 < map[i]->0,
{
    assert forall|i: int| 0 <= i < p.len() && is_bracket(p[i]) implies (#[trigger] map[i] matches Some(
        j,
    ) && 0 <= j < p.len() && is_bracket(p[j as int]) && map[j as int] == Some(i as usize)) by {
        if p[i] == Instruction::LoopStart {
            let j = map[i]->0 as int;
            let i2 = map[j]->0 as int;
            lemma_matching_pair_unique(p, i, j, i2, j);
        } else {
            let i2 = map[i]->0 as int;
            let j2 = map[i2]->0 as int;
            lemma_matching_pair_unique(p, i2, i, i2, j2);
        }
    }
    assert forall|i: int, i2: int|
        #![trigger map[i], map[i2]]
        0 <= i < i2 < p.len() && p[i] == Instruction::LoopStart && p[i2] == Instruction::LoopStart
            && i2 < map[i]->0 implies map[i2]->0 < map[i]->0 by {
        let j = map[i]->0 as int;
        let j2 = map[i2]->0 as int;
        assert(depth(p, i2) > depth(p, i));
        if j2 == j {
            lemma_matching_pair_unique(p, i, j, i2, j2);
        } else if j2 > j {
            assert(depth(p, j + 1) > depth(p, i2));
        }
    }
}

/// Depths of `a + [x] + b` against those of `a + b`.
proof fn lemma_depth_insert(a: Seq<Instruction>, b: Seq<Instruction>, x: Instruction, k: int)
    requires
        0 <= k <= a.len() + b.len() + 1,
    ensures
        k <= a.len() ==> depth(a.push(x) + b, k) == depth(a + b, k),
        k > a.len() ==> depth(a.push(x) + b, k) == depth(a + b, k - 1) + depth_delta(x),
    decreases k,
{
    let q = a.push(x) + b;
    let r = a + b;
    if k > 0 {
        lemma_depth_insert(a, b, x, k - 1);
        if k > a.len() + 1 {
            assert(q[k - 1] == r[k - 2]);
        } else if k <= a.len() {
            assert(q[k - 1] == r[k - 1]);
        }
    }
}

/// One `]` added anywhere to a balanced program leaves a `]` with nothing to close.
pub proof fn lemma_extra_loop_end(a: Seq<Instruction>, b: Seq<Instruction>)
    requires
        is_balanced(a + b),
    ensures
        has_unmatched_end(a.push(Instruction::LoopEnd) + b),
{
    let q = a.push(Instruction::LoopEnd) + b;
    lemma_depth_insert(a, b, Instruction::LoopEnd, q.len() as int);
    assert(depth(q, q.len() as int) < 0);
}

/// One `[` added anywhere to a balanced program leaves a loop open and
/// nothing else wrong.
pub proof fn lemma_extra_loop_start(a: Seq<Instruction>, b: Seq<Instruction>)
    requires
        is_balanced(a + b),
    ensures
        has_unmatched_start(a.push(Instruction::LoopStart) + b),
{
    let q = a.push(Instruction::LoopStart) + b;
    let r = a + b;
    assert forall|k: int| 0 <= k <= q.len() implies #[trigger] depth(q, k) >= 0 by {
        lemma_depth_insert(a, b, Instruction::LoopStart, k);
        if k <= a.len() {
            assert(!(depth(r, k) < 0));
        } else {
            assert(!(depth(r, k - 1) < 0));
        }
    }
    lemma_depth_insert(a, b, Instruction::LoopStart, q.len() as int);
}

} // verus!
