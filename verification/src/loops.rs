//! The loops of a function: which end belongs to which loop.

use vstd::prelude::*;
use crate::statement::{Stmt, StmtKind};

verus! {

/// The loops that are open at some point of a function, innermost last, and
/// the partner of each statement that has one.
pub ghost struct Pairing {
    pub open: Seq<usize>,
    pub table: Seq<Option<usize>>,
}

pub open spec fn kinds_of(stmts: Seq<Stmt>) -> Seq<StmtKind> {
    stmts.map_values(|s: Stmt| s.kind)
}

/// The pairing after the first `n` statements: each end of a loop is paired
/// with the innermost loop that is open where it stands. An end of a loop
/// with no loop open is a fault, and the position of the first such end is
/// the result.
pub open spec fn pair_loops(kinds: Seq<StmtKind>, n: nat) -> Result<Pairing, usize>
    decreases n,
{
    if n == 0 || n > kinds.len() {
        Ok(Pairing { open: Seq::empty(), table: Seq::new(kinds.len(), |i: int| None::<usize>) })
    } else {
        match pair_loops(kinds, (n - 1) as nat) {
            Err(at) => Err(at),
            Ok(p) => {
                let at = (n - 1) as usize;
                match kinds[n - 1] {
                    StmtKind::Loop => Ok(Pairing { open: p.open.push(at), table: p.table }),
                    StmtKind::EndLoop => if p.open.len() == 0 {
                        Err(at)
                    } else {
                        Ok(
                            Pairing {
                                open: p.open.drop_last(),
                                table: p.table.update(p.open.last() as int, Some(at)).update(
                                    at as int,
                                    Some(p.open.last()),
                                ),
                            },
                        )
                    },
                    _ => Ok(p),
                }
            },
        }
    }
}

/// For each statement its partner: for a loop its end, for an end its loop.
/// A loop that is never ended has none. An end without a loop is a fault.
pub open spec fn loop_table(kinds: Seq<StmtKind>) -> Result<Seq<Option<usize>>, usize> {
    match pair_loops(kinds, kinds.len()) {
        Ok(p) => Ok(p.table),
        Err(at) => Err(at),
    }
}

/// Every partner in the table is the position of a statement.
pub open spec fn table_fits(table: Seq<Option<usize>>, n: nat) -> bool {
    &&& table.len() == n
    &&& forall|i: int| 0 <= i < n ==> ((#[trigger] table[i]) matches Some(j) ==> j < n)
}

/// A fault among the first `n` statements is the fault of any longer run of
/// statements.
pub proof fn lemma_pair_loops_fault(kinds: Seq<StmtKind>, n: nat, m: nat)
    requires
        n <= m <= kinds.len(),
        pair_loops(kinds, n) is Err,
    ensures
        pair_loops(kinds, m) == pair_loops(kinds, n),
    decreases m,
{
    if n < m {
        lemma_pair_loops_fault(kinds, n, (m - 1) as nat);
    }
}

/// How many loops are open after the first `n` statements: the loops among
/// them less the ends of loops among them.
pub open spec fn depth(kinds: Seq<StmtKind>, n: int) -> int
    decreases n,
{
    if n <= 0 || n > kinds.len() {
        0
    } else {
        depth(kinds, n - 1) + match kinds[n - 1] {
            StmtKind::Loop => 1int,
            StmtKind::EndLoop => -1int,
            _ => 0int,
        }
    }
}

/// The statement at `end` ends the loop that begins at `begin`: between them
/// more loops are open than before `begin`, and after `end` as many.
pub open spec fn encloses(kinds: Seq<StmtKind>, begin: int, end: int) -> bool {
    &&& 0 <= begin < end < kinds.len()
    &&& kinds[begin] == StmtKind::Loop
    &&& kinds[end] == StmtKind::EndLoop
    &&& depth(kinds, end + 1) == depth(kinds, begin)
    &&& forall|m: int| begin < m <= end ==> depth(kinds, m) > depth(kinds, begin)
}

/// The table pairs exactly the loops with their ends: a loop has its end
/// for partner and the end has the loop; every end of a loop has a partner;
/// a loop without partner is never ended; no other statement has one.
pub open spec fn pairs_loops(kinds: Seq<StmtKind>, table: Seq<Option<usize>>) -> bool {
    &&& table.len() == kinds.len()
    &&& forall|i: int|
        0 <= i < kinds.len() ==> match #[trigger] table[i] {
            Some(j) => j < kinds.len() && table[j as int] == Some(i as usize) && (encloses(
                kinds,
                i,
                j as int,
            ) || encloses(kinds, j as int, i)),
            None => kinds[i] != StmtKind::EndLoop && (kinds[i] == StmtKind::Loop ==> forall|
                m: int,
            |
                i < m <= kinds.len() ==> depth(kinds, m) > depth(kinds, i)),
        }
}

/// What holds of the pairing after the first `n` statements.
spec fn pairing_holds(kinds: Seq<StmtKind>, n: int, p: Pairing) -> bool {
    &&& p.table.len() == kinds.len()
    &&& p.open.len() == depth(kinds, n)
    &&& forall|k: int|
        0 <= k < p.open.len() ==> {
            let b = #[trigger] p.open[k];
            &&& b < n
            &&& kinds[b as int] == StmtKind::Loop
            &&& depth(kinds, b as int) == k
            &&& p.table[b as int] is None
            &&& forall|m: int| b < m <= n ==> depth(kinds, m) > k
        }
    &&& forall|i: int|
        0 <= i < kinds.len() ==> match #[trigger] p.table[i] {
            Some(j) => i < n && j < n && p.table[j as int] == Some(i as usize) && (encloses(
                kinds,
                i,
                j as int,
            ) || encloses(kinds, j as int, i)),
            None => i < n ==> kinds[i] != StmtKind::EndLoop && (kinds[i] == StmtKind::Loop
                ==> exists|k: int| 0 <= k < p.open.len() && p.open[k] == i),
        }
}

/// The pairing of the first `n` statements, step by step.
proof fn lemma_pair_loops(kinds: Seq<StmtKind>, n: int)
    requires
        0 <= n <= kinds.len(),
        kinds.len() <= usize::MAX,
    ensures
        forall|m: int| 0 <= m <= n && m <= first_fault(kinds, n) ==> depth(kinds, m) >= 0,
        match pair_loops(kinds, n as nat) {
            Ok(p) => pairing_holds(kinds, n, p) && first_fault(kinds, n) == n,
            Err(at) => at < n && kinds[at as int] == StmtKind::EndLoop && depth(kinds, at as int)
                == 0 && first_fault(kinds, n) == at,
        },
    decreases n,
{
    if n > 0 {
        lemma_pair_loops(kinds, n - 1);
        match pair_loops(kinds, (n - 1) as nat) {
            Err(at) => {},
            Ok(p) => {
                let at = (n - 1) as usize;
                match kinds[n - 1] {
                    StmtKind::Loop => {
                        let q = Pairing { open: p.open.push(at), table: p.table };
                        assert forall|i: int| 0 <= i < kinds.len() implies match #[trigger] q.table[i] {
                            Some(j) => i < n && j < n && q.table[j as int] == Some(i as usize) && (
                            encloses(kinds, i, j as int) || encloses(kinds, j as int, i)),
                            None => i < n ==> kinds[i] != StmtKind::EndLoop && (kinds[i]
                                == StmtKind::Loop ==> exists|k: int|
                                0 <= k < q.open.len() && q.open[k] == i),
                        } by {
                            match p.table[i] {
                                Some(_) => {},
                                None => {
                                    if i < n - 1 && kinds[i] == StmtKind::Loop {
                                        let k = choose|k: int|
                                            0 <= k < p.open.len() && p.open[k] == i;
                                        assert(q.open[k] == i);
                                    } else if i == n - 1 {
                                        assert(q.open[p.open.len() as int] == i);
                                    }
                                },
                            }
                        }
                    },
                    StmtKind::EndLoop => {
                        if p.open.len() > 0 {
                            let last = p.open.len() - 1;
                            let b = p.open[last];
                            let q = Pairing {
                                open: p.open.drop_last(),
                                table: p.table.update(b as int, Some(at)).update(
                                    at as int,
                                    Some(b),
                                ),
                            };
                            assert forall|i: int| 0 <= i < kinds.len() implies match #[trigger] q.table[i] {
                                Some(j) => i < n && j < n && q.table[j as int] == Some(i as usize)
                                    && (encloses(kinds, i, j as int) || encloses(
                                    kinds,
                                    j as int,
                                    i,
                                )),
                                None => i < n ==> kinds[i] != StmtKind::EndLoop && (kinds[i]
                                    == StmtKind::Loop ==> exists|k: int|
                                    0 <= k < q.open.len() && q.open[k] == i),
                            } by {
                                if i != at && i != b {
                                    match p.table[i] {
                                        Some(_) => {},
                                        None => {
                                            if i < n - 1 && kinds[i] == StmtKind::Loop {
                                                let k = choose|k: int|
                                                    0 <= k < p.open.len() && p.open[k] == i;
                                                assert(q.open[k] == i);
                                            }
                                        },
                                    }
                                }
                            }
                        }
                    },
                    _ => {
                    },
                }
            },
        }
    }
}

/// Some end of a loop stands where no loop is open: up to some statement,
/// more loops are ended than begun.
pub open spec fn has_unpaired_end(kinds: Seq<StmtKind>) -> bool {
    exists|m: int| 0 <= m <= kinds.len() && #[trigger] depth(kinds, m) < 0
}

/// The position of the first end of a loop among the first `n` statements
/// that has no loop open before it; `n` where there is none.
pub open spec fn first_fault(kinds: Seq<StmtKind>, n: int) -> int
    decreases n,
{
    if n <= 0 || n > kinds.len() {
        0
    } else {
        let before = first_fault(kinds, n - 1);
        if before < n - 1 {
            before
        } else if kinds[n - 1] == StmtKind::EndLoop && depth(kinds, n - 1) == 0 {
            n - 1
        } else {
            n
        }
    }
}

/// An end of a loop without a loop is found exactly where some statement
/// leaves fewer loops open than none: the fault is the first statement that
/// does so, an end of a loop that stands where no loop is open.
pub proof fn lemma_fault_is_first_unpaired_end(kinds: Seq<StmtKind>)
    requires
        kinds.len() <= usize::MAX,
    ensures
        match loop_table(kinds) {
            Err(at) => {
                &&& at < kinds.len()
                &&& kinds[at as int] == StmtKind::EndLoop
                &&& depth(kinds, at as int) == 0
                &&& depth(kinds, at + 1) < 0
                &&& forall|m: int| 0 <= m <= at ==> depth(kinds, m) >= 0
            },
            Ok(_) => forall|m: int| 0 <= m <= kinds.len() ==> depth(kinds, m) >= 0,
        },
        loop_table(kinds) is Err <==> has_unpaired_end(kinds),
{
    lemma_pair_loops(kinds, kinds.len() as int);
}

/// Where no end of a loop lacks its loop, the table pairs exactly the loops
/// with their ends, so that no jump goes anywhere but from a loop past its
/// own end or from an end back to its own loop.
pub proof fn lemma_table_pairs_loops(kinds: Seq<StmtKind>)
    requires
        kinds.len() <= usize::MAX,
    ensures
        loop_table(kinds) matches Ok(table) ==> pairs_loops(kinds, table),
{
    let n = kinds.len() as int;
    lemma_pair_loops(kinds, n);
}

} // verus!
