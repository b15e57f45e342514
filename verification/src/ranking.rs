//! Ranking of technique results from fastest to slowest.

use vstd::prelude::*;
use crate::performance::{Ratio, TechniqueResult};

verus! {

/// Whether quotient `a` is strictly larger than quotient `b`.
pub open spec fn faster(a: Ratio, b: Ratio) -> bool {
    a.numerator * b.denominator > b.numerator * a.denominator
}

/// Whether quotients `a` and `b` are equal.
pub open spec fn as_fast(a: Ratio, b: Ratio) -> bool {
    a.numerator * b.denominator == b.numerator * a.denominator
}

/// Whether row `a` stands before row `b` in the ranking: its relative
/// performance is larger, or it is equal and `a` came first.
pub open spec fn ranks_before(results: Seq<TechniqueResult>, a: int, b: int) -> bool {
    faster(results[a].performance, results[b].performance) || (as_fast(
        results[a].performance,
        results[b].performance,
    ) && a < b)
}

/// Whether `order` lists the rows of `results` by descending relative
/// performance, rows of equal performance in their given order.
pub open spec fn is_ranking(order: Seq<usize>, results: Seq<TechniqueResult>) -> bool {
    &&& order.len() == results.len()
    &&& forall|k: int| 0 <= k < order.len() ==> #[trigger] order[k] < results.len()
    &&& forall|k: int, l: int|
        0 <= k < l < order.len() ==> ranks_before(
            results,
            #[trigger] order[k] as int,
            #[trigger] order[l] as int,
        )
}

/// Whether `names` are the technique names of `results` taken in `order`.
pub open spec fn names_in_order(
    names: Seq<String>,
    results: Seq<TechniqueResult>,
    order: Seq<usize>,
) -> bool {
    &&& names.len() == order.len()
    &&& forall|k: int|
        0 <= k < names.len() ==> (#[trigger] names[k])@ == results[order[k] as int].technique_name@
}

/// Whether all rows were measured against one baseline: their relative
/// performances share one numerator, which is not zero.
pub open spec fn shared_baseline(results: Seq<TechniqueResult>) -> bool {
    forall|i: int, j: int|
        0 <= i < results.len() && 0 <= j < results.len() ==> #[trigger] results[i].performance.numerator
            == #[trigger] results[j].performance.numerator && results[i].performance.numerator > 0
}

/// Whether row `a` stands before row `b` when rows are ordered by the
/// denominator of their relative performance, rows of equal denominator in
/// their given order.
pub open spec fn smaller_share_first(results: Seq<TechniqueResult>, a: int, b: int) -> bool {
    results[a].performance.denominator < results[b].performance.denominator || (
    results[a].performance.denominator == results[b].performance.denominator && a < b)
}

/// With one numerator, the smaller denominator is the larger quotient.
pub proof fn lemma_shared_numerator(a: Ratio, b: Ratio)
    requires
        a.numerator == b.numerator,
        a.numerator > 0,
    ensures
        a.denominator < b.denominator ==> faster(a, b),
        a.denominator == b.denominator ==> as_fast(a, b),
{
    if a.denominator < b.denominator {
        assert(a.numerator * b.denominator > b.numerator * a.denominator) by (nonlinear_arith)
            requires
                a.numerator == b.numerator,
                a.numerator > 0,
                a.denominator < b.denominator,
        ;
    }
}

/// Positions of the rows by descending relative performance, ties in their
/// given order.
///
/// The rows must have been measured against one baseline. Each row is put
/// in its place among those that came before it.
pub fn rank_by_performance(results: &Vec<TechniqueResult>) -> (order: Vec<usize>)
    requires
        shared_baseline(results@),
    ensures
        is_ranking(order@, results@),
{
    let mut order: Vec<usize> = Vec::new();
    let mut index: usize = 0;
    while index < results.len()
        invariant
            index <= results.len(),
            order.len() == index,
            forall|k: int| 0 <= k < order.len() ==> #[trigger] order[k] < index,
            forall|k: int, l: int|
                0 <= k < l < order.len() ==> smaller_share_first(
                    results@,
                    #[trigger] order[k] as int,
                    #[trigger] order[l] as int,
                ),
        decreases results.len() - index,
    {
        let share = results[index].performance.denominator;
        let mut place: usize = 0;
        while place < order.len() && results[order[place]].performance.denominator <= share
            invariant
                place <= order.len(),
                order.len() == index,
                index < results.len(),
                forall|k: int| 0 <= k < order.len() ==> #[trigger] order[k] < index,
                forall|k: int|
                    0 <= k < place ==> results[#[trigger] order[k] as int].performance.denominator
                        <= share,
            decreases order.len() - place,
        {
            place = place + 1;
        }
        let ghost shorter = order@;
        order.insert(place, index);
        proof {
            assert forall|k: int, l: int| 0 <= k < l < order.len() implies smaller_share_first(
                results@,
                #[trigger] order[k] as int,
                #[trigger] order[l] as int,
            ) by {
                if l < place {
                    assert(order[k] == shorter[k] && order[l] == shorter[l]);
                } else if l == place {
                    assert(order[k] == shorter[k]);
                } else if k < place {
                    assert(order[k] == shorter[k] && order[l] == shorter[l - 1]);
                } else if k == place {
                    assert(order[l] == shorter[l - 1]);
                    if l - 1 > place {
                        assert(smaller_share_first(
                            results@,
                            shorter[place as int] as int,
                            shorter[l - 1] as int,
                        ));
                    }
                } else {
                    assert(order[k] == shorter[k - 1] && order[l] == shorter[l - 1]);
                }
            }
            assert forall|k: int| 0 <= k < order.len() implies #[trigger] order[k] < index + 1 by {
                if k < place {
                    assert(order[k] == shorter[k]);
                } else if k > place {
                    assert(order[k] == shorter[k - 1]);
                }
            }
        }
        index = index + 1;
    }
    proof {
        assert forall|k: int, l: int| 0 <= k < l < order@.len() implies ranks_before(
            results@,
            #[trigger] order@[k] as int,
            #[trigger] order@[l] as int,
        ) by {
            assert(smaller_share_first(results@, order@[k] as int, order@[l] as int));
            lemma_shared_numerator(
                results@[order@[k] as int].performance,
                results@[order@[l] as int].performance,
            );
        }
    }
    order
}

/// Technique names by descending relative performance, ties in their given
/// order.
pub fn best_performance(results: &Vec<TechniqueResult>) -> (names: Vec<String>)
    requires
        shared_baseline(results@),
    ensures
        exists|order: Seq<usize>|
            is_ranking(order, results@) && names_in_order(names@, results@, order),
{
    let order = rank_by_performance(results);
    let mut names: Vec<String> = Vec::new();
    let mut place: usize = 0;
    while place < order.len()
        invariant
            place <= order.len(),
            names.len() == place,
            is_ranking(order@, results@),
            forall|k: int|
                0 <= k < place ==> (#[trigger] names[k])@
                    == results[order[k] as int].technique_name@,
        decreases order.len() - place,
    {
        assert(order@[place as int] < results.len());
        names.push(results[order[place]].technique_name.clone());
        place = place + 1;
    }
    assert(names_in_order(names@, results@, order@));
    names
}

} // verus!
