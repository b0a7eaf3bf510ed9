use vstd::prelude::*;

use crate::column::strictly_sorted;

verus! {

/// A persistence diagram: birth/death index pairs and the unpaired indices.
/// Both lists are kept in increasing order (pairs ordered by death index), so
/// two diagrams are equal as sets exactly when they are equal as lists.
#[derive(Clone, Debug, PartialEq, Eq)]
pub struct PersistenceDiagram {
    pub paired: Vec<(usize, usize)>,
    pub unpaired: Vec<usize>,
}

/// Whether index `i` occurs as the birth of some pair of the diagram.
pub open spec fn paired_as_birth(dgm: PersistenceDiagram, i: usize) -> bool {
    exists|d: usize| dgm.paired@.contains((i, d))
}

/// Whether index `i` occurs as the death of some pair of the diagram.
pub open spec fn paired_as_death(dgm: PersistenceDiagram, i: usize) -> bool {
    exists|l: usize| dgm.paired@.contains((l, i))
}

/// The diagram that a final pivot state describes: a pair (l, d) for every
/// column d whose pivot row is l, and as unpaired every index that occurs in
/// no pair in either role.
pub open spec fn extracted_from(dgm: PersistenceDiagram, pivots: Seq<Option<usize>>) -> bool {
    &&& forall|l: usize, d: usize|
        #[trigger] dgm.paired@.contains((l, d)) <==> (d < pivots.len() && pivots[d as int]
            == Some(l))
    &&& forall|t1: int, t2: int|
        0 <= t1 < t2 < dgm.paired@.len() ==> dgm.paired@[t1].1 < dgm.paired@[t2].1
    &&& strictly_sorted(dgm.unpaired@)
    &&& forall|i: usize|
        #[trigger] dgm.unpaired@.contains(i) <==> (i < pivots.len() && !paired_as_birth(dgm, i)
            && !paired_as_death(dgm, i))
}

/// Reads the persistence pairing off a final pivot state: `pivots[d]` is the
/// pivot row of column `d` after reduction, or `None` for a cycle column.
pub fn diagram_from_pivots(pivots: &Vec<Option<usize>>) -> (dgm: PersistenceDiagram)
    ensures
        extracted_from(dgm, pivots@),
{
    let n = pivots.len();
    let mut paired: Vec<(usize, usize)> = Vec::new();
    let mut j: usize = 0;
    while j < n
        invariant
            j <= n,
            n == pivots@.len(),
            forall|l: usize, d: usize|
                #[trigger] paired@.contains((l, d)) <==> (d < j && pivots@[d as int] == Some(l)),
            forall|t1: int, t2: int|
                0 <= t1 < t2 < paired@.len() ==> paired@[t1].1 < paired@[t2].1,
            forall|t: int| 0 <= t < paired@.len() ==> paired@[t].1 < j,
        decreases n - j,
    {
        let ghost old_p = paired@;
        match pivots[j] {
            Some(l) => {
                paired.push((l, j));
                proof {
                    assert(paired@ =~= old_p.push((l, j)));
                    assert forall|l2: usize, d2: usize| #[trigger]
                        paired@.contains((l2, d2)) <==> (d2 < j + 1 && pivots@[d2 as int] == Some(
                            l2,
                        )) by {
                        vstd::seq_lib::lemma_seq_contains_after_push(old_p, (l, j), (l2, d2));
                    }
                }
            },
            None => {
                proof {
                    assert forall|l2: usize, d2: usize| #[trigger]
                        paired@.contains((l2, d2)) <==> (d2 < j + 1 && pivots@[d2 as int] == Some(
                            l2,
                        )) by {
                        if d2 == j {
                            assert(!(d2 < j));
                            assert(pivots@[d2 as int] is None);
                        }
                    }
                }
            },
        }
        j = j + 1;
    }
    // Mark every index that occurs in some pair, in either role.
    let mut seen: Vec<bool> = Vec::new();
    while seen.len() < n
        invariant
            seen@.len() <= n,
            forall|t: int| 0 <= t < seen@.len() ==> seen@[t] == false,
        decreases n - seen@.len(),
    {
        seen.push(false);
    }
    let mut j: usize = 0;
    while j < n
        invariant
            j <= n,
            n == pivots@.len(),
            seen@.len() == n,
            forall|l: usize, d: usize|
                #[trigger] paired@.contains((l, d)) <==> (d < n && pivots@[d as int] == Some(l)),
            forall|i: int|
                0 <= i < n ==> ((#[trigger] seen@[i]) <==> ((i < j && pivots@[i] is Some) || (
                exists|d: int| 0 <= d < j && pivots@[d] == Some(i as usize)))),
        decreases n - j,
    {
        match pivots[j] {
            Some(l) => {
                let ghost seen0 = seen@;
                seen[j] = true;
                if l < n {
                    seen[l] = true;
                }
                proof {
                    assert forall|i: int|
                        0 <= i < n implies ((#[trigger] seen@[i]) <==> ((i < j + 1 && pivots@[i]
                        is Some) || (exists|d: int|
                        0 <= d < j + 1 && pivots@[d] == Some(i as usize)))) by {
                        if i == j || (l < n && i == l) {
                            if i == l {
                                assert(pivots@[j as int] == Some(i as usize));
                                assert(0 <= j < j + 1 && pivots@[j as int] == Some(i as usize));
                            }
                        } else {
                            assert(seen@[i] == seen0[i]);
                            assert forall|d: int|
                                0 <= d < j + 1 && pivots@[d] == Some(i as usize) implies 0 <= d
                                < j by {
                                if d == j {
                                    assert(l == i);
                                }
                            }
                        }
                    }
                }
            },
            None => {
                proof {
                    assert forall|i: int|
                        0 <= i < n implies ((#[trigger] seen@[i]) <==> ((i < j + 1 && pivots@[i]
                        is Some) || (exists|d: int|
                        0 <= d < j + 1 && pivots@[d] == Some(i as usize)))) by {
                        assert forall|d: int|
                            0 <= d < j + 1 && pivots@[d] == Some(i as usize) implies 0 <= d < j by {
                            if d == j {
                                assert(pivots@[d] is None);
                            }
                        }
                        if i == j {
                            assert(pivots@[i] is None);
                        }
                    }
                }
            },
        }
        j = j + 1;
    }
    // Everything not marked is unpaired.
    let mut unpaired: Vec<usize> = Vec::new();
    let mut i: usize = 0;
    while i < n
        invariant
            i <= n,
            n == pivots@.len(),
            seen@.len() == n,
            forall|t: int|
                0 <= t < n ==> ((#[trigger] seen@[t]) <==> ((pivots@[t] is Some) || (exists|d: int|
                    0 <= d < n && pivots@[d] == Some(t as usize)))),
            strictly_sorted(unpaired@),
            forall|t: int| 0 <= t < unpaired@.len() ==> unpaired@[t] < i,
            forall|u: usize|
                #[trigger] unpaired@.contains(u) <==> (u < i && !seen@[u as int]),
        decreases n - i,
    {
        let ghost old_u = unpaired@;
        if !seen[i] {
            unpaired.push(i);
            proof {
                assert(unpaired@ =~= old_u.push(i));
                assert forall|u: usize| #[trigger]
                    unpaired@.contains(u) <==> (u < i + 1 && !seen@[u as int]) by {
                    vstd::seq_lib::lemma_seq_contains_after_push(old_u, i, u);
                }
            }
        } else {
            proof {
                assert forall|u: usize| #[trigger]
                    unpaired@.contains(u) <==> (u < i + 1 && !seen@[u as int]) by {
                    if u == i {
                        assert(!old_u.contains(u));
                    }
                }
            }
        }
        i = i + 1;
    }
    let dgm = PersistenceDiagram { paired, unpaired };
    proof {
        assert forall|u: usize| #[trigger]
            dgm.unpaired@.contains(u) <==> (u < n && !paired_as_birth(dgm, u) && !paired_as_death(
                dgm,
                u,
            )) by {
            if u < n {
                assert(seen@[u as int] <==> ((pivots@[u as int] is Some) || (exists|d: int|
                    0 <= d < n && pivots@[d] == Some(u))));
                if pivots@[u as int] is Some {
                    let l = pivots@[u as int]->Some_0;
                    assert(dgm.paired@.contains((l, u)));
                    assert(paired_as_death(dgm, u));
                }
                if paired_as_death(dgm, u) {
                    let l = choose|l: usize| dgm.paired@.contains((l, u));
                    assert(pivots@[u as int] == Some(l));
                }
                if exists|d: int| 0 <= d < n && pivots@[d] == Some(u) {
                    let d = choose|d: int| 0 <= d < n && pivots@[d] == Some(u);
                    assert(dgm.paired@.contains((u, d as usize)));
                    assert(paired_as_birth(dgm, u));
                }
                if paired_as_birth(dgm, u) {
                    let d = choose|d: usize| dgm.paired@.contains((u, d));
                    assert(0 <= d < n && pivots@[d as int] == Some(u));
                }
            }
        }
    }
    dgm
}

/// Index partition: when the pivot state describes a completed reduction —
/// every pivot row is a valid index whose own column is a cycle — every index
/// appears in exactly one of {paired as birth, paired as death, unpaired}.
pub proof fn lemma_index_partition(pivots: Seq<Option<usize>>, dgm: PersistenceDiagram)
    requires
        extracted_from(dgm, pivots),
        forall|d: int|
            0 <= d < pivots.len() && (#[trigger] pivots[d]) is Some ==> pivots[d]->Some_0
                < pivots.len() && pivots[pivots[d]->Some_0 as int] is None,
    ensures
        forall|i: usize|
            i < pivots.len() ==> {
                let birth = #[trigger] paired_as_birth(dgm, i);
                let death = paired_as_death(dgm, i);
                let unpaired = dgm.unpaired@.contains(i);
                (birth && !death && !unpaired) || (!birth && death && !unpaired) || (!birth
                    && !death && unpaired)
            },
{
    assert forall|i: usize| i < pivots.len() implies {
        let birth = #[trigger] paired_as_birth(dgm, i);
        let death = paired_as_death(dgm, i);
        let unpaired = dgm.unpaired@.contains(i);
        (birth && !death && !unpaired) || (!birth && death && !unpaired) || (!birth && !death
            && unpaired)
    } by {
        if paired_as_birth(dgm, i) && paired_as_death(dgm, i) {
            let d = choose|d: usize| dgm.paired@.contains((i, d));
            assert(pivots[d as int] == Some(i));
            assert(pivots[i as int] is None);
            let l = choose|l: usize| dgm.paired@.contains((l, i));
            assert(pivots[i as int] == Some(l));
        }
    }
}

} // verus!
