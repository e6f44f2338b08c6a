//! Putting payments in the alphabetical order of their names, without
//! disturbing the order of payments that share a name.

use crate::payment::Payment;
use crate::text::{
    lemma_text_le_antisymmetric, lemma_text_le_reflexive, lemma_text_le_total,
    lemma_text_le_transitive, str_le, text_le,
};
use vstd::prelude::*;
use vstd::seq_lib::{to_multiset_insert, to_multiset_remove};

verus! {

/// The test that picks the payments of one name out of a list.
pub open spec fn named(name: Seq<char>) -> spec_fn(Payment) -> bool {
    |p: Payment| p.name@ == name
}

/// Whether the names never go back in the alphabet from one payment to a
/// later one.
pub open spec fn sorted_by_name(s: Seq<Payment>) -> bool {
    forall|i: int, j: int|
        #![trigger s[i], s[j]]
        0 <= i <= j < s.len() ==> text_le(s[i].name@, s[j].name@)
}

/// Whether two lists hold, for every name, the same payments of that name
/// in the same order.
pub open spec fn same_within_names(a: Seq<Payment>, b: Seq<Payment>) -> bool {
    forall|name: Seq<char>| #[trigger] a.filter(named(name)) == b.filter(named(name))
}

/// Whether `sorted` is `given` put in the order of the names, with payments
/// of one name left in the order in which they were given.
pub open spec fn is_stable_sort_of(sorted: Seq<Payment>, given: Seq<Payment>) -> bool {
    sorted_by_name(sorted) && same_within_names(sorted, given)
}

/// Whether no two payments of the list share a name.
pub open spec fn distinct_names(s: Seq<Payment>) -> bool {
    forall|i: int, j: int|
        #![trigger s[i], s[j]]
        0 <= i < j < s.len() ==> s[i].name@ != s[j].name@
}

/// Moving one item of a list to the left, over items that a test tells
/// apart from it, does not change what the test picks out of the list.
proof fn lemma_move_keeps_filter<T>(s: Seq<T>, j: int, i: int, pred: spec_fn(T) -> bool)
    requires
        0 <= j <= i < s.len(),
        pred(s[i]) ==> forall|k: int| j <= k < i ==> !pred(#[trigger] s[k]),
    ensures
        s.remove(i).insert(j, s[i]).filter(pred) == s.filter(pred),
{
    let a = s.subrange(0, j);
    let b = s.subrange(j, i);
    let x = seq![s[i]];
    let c = s.subrange(i + 1, s.len() as int);
    assert(s =~= ((a + b) + x) + c);
    assert(s.remove(i).insert(j, s[i]) =~= ((a + x) + b) + c);
    Seq::filter_distributes_over_add((a + b) + x, c, pred);
    Seq::filter_distributes_over_add(a + b, x, pred);
    Seq::filter_distributes_over_add(a, b, pred);
    Seq::filter_distributes_over_add((a + x) + b, c, pred);
    Seq::filter_distributes_over_add(a + x, b, pred);
    Seq::filter_distributes_over_add(a, x, pred);
    if pred(s[i]) {
        assert(b.all(|t: T| !pred(t))) by {
            assert forall|k: int| 0 <= k < b.len() implies !pred(#[trigger] b[k]) by {
                assert(b[k] == s[j + k]);
            }
        }
        b.lemma_all_neg_filter_empty(pred);
        assert(a.filter(pred) + b.filter(pred) =~= a.filter(pred));
        assert((a.filter(pred) + x.filter(pred)) + b.filter(pred) =~= a.filter(pred) + x.filter(
            pred,
        ));
    } else {
        assert(x.all(|t: T| !pred(t)));
        x.lemma_all_neg_filter_empty(pred);
        assert((a.filter(pred) + b.filter(pred)) + x.filter(pred) =~= a.filter(pred) + b.filter(
            pred,
        ));
        assert(a.filter(pred) + x.filter(pred) =~= a.filter(pred));
    }
}

/// A list with a payment of some name holds something of that name, and an
/// empty list holds nothing of any name.
proof fn lemma_named_nonempty(s: Seq<Payment>, i: int)
    requires
        0 <= i < s.len(),
    ensures
        s.filter(named(s[i].name@)).len() > 0,
{
    s.lemma_filter_contains(named(s[i].name@), i);
}

/// What a list holds of a name is taken from the list and bears that name.
proof fn lemma_named_member(s: Seq<Payment>, name: Seq<char>, k: int) -> (i: int)
    requires
        0 <= k < s.filter(named(name)).len(),
    ensures
        0 <= i < s.len(),
        s[i] == s.filter(named(name))[k],
        s[i].name@ == name,
{
    let kept = s.filter(named(name));
    s.lemma_filter_pred(named(name), k);
    assert(kept.contains(kept[k]));
    s.lemma_filter_contains_rev(named(name), kept[k]);
    choose|i: int| 0 <= i < s.len() && s[i] == kept[k]
}

/// A list in the order of the names is settled by what it holds of each
/// name: two such lists that agree name by name are the same list.
pub proof fn lemma_sorted_settled_by_names(a: Seq<Payment>, b: Seq<Payment>)
    requires
        sorted_by_name(a),
        sorted_by_name(b),
        same_within_names(a, b),
    ensures
        a == b,
    decreases a.len(),
{
    if a.len() == 0 {
        if b.len() > 0 {
            lemma_named_nonempty(b, 0);
            a.lemma_filter_len(named(b[0].name@));
            assert(a.filter(named(b[0].name@)) == b.filter(named(b[0].name@)));
        }
        assert(a =~= b);
    } else {
        if b.len() == 0 {
            lemma_named_nonempty(a, 0);
            b.lemma_filter_len(named(a[0].name@));
            assert(a.filter(named(a[0].name@)) == b.filter(named(a[0].name@)));
        }
        let la = a.last();
        let lb = b.last();
        let na = la.name@;
        let nb = lb.name@;
        // The last names are the same: each occurs in the other list, and
        // nothing in a sorted list comes after its last name.
        lemma_named_nonempty(b, b.len() - 1);
        assert(a.filter(named(nb)) == b.filter(named(nb)));
        let ia = lemma_named_member(a, nb, 0);
        assert(text_le(a[ia].name@, a[a.len() - 1].name@));
        lemma_named_nonempty(a, a.len() - 1);
        assert(a.filter(named(na)) == b.filter(named(na)));
        let ib = lemma_named_member(b, na, 0);
        assert(text_le(b[ib].name@, b[b.len() - 1].name@));
        lemma_text_le_antisymmetric(na, nb);
        // So the last payments are the same, and what stands before them
        // agrees name by name.
        let a0 = a.drop_last();
        let b0 = b.drop_last();
        assert(a =~= a0.push(la));
        assert(b =~= b0.push(lb));
        a0.lemma_filter_push(la, named(na));
        b0.lemma_filter_push(lb, named(na));
        assert(a0.filter(named(na)).push(la) == b0.filter(named(na)).push(lb));
        assert(a0.filter(named(na)).push(la).last() == la);
        assert(b0.filter(named(na)).push(lb).last() == lb);
        assert(la == lb);
        assert forall|name: Seq<char>| #[trigger]
            a0.filter(named(name)) == b0.filter(named(name)) by {
            a0.lemma_filter_push(la, named(name));
            b0.lemma_filter_push(lb, named(name));
            assert(a.filter(named(name)) == b.filter(named(name)));
            if name == na {
                assert(a0.filter(named(name)) =~= a0.filter(named(name)).push(la).drop_last());
                assert(b0.filter(named(name)) =~= b0.filter(named(name)).push(lb).drop_last());
            }
        }
        assert(sorted_by_name(a0)) by {
            assert forall|i: int, j: int| 0 <= i <= j < a0.len() implies text_le(
                #[trigger] a0[i].name@,
                #[trigger] a0[j].name@,
            ) by {
                assert(text_le(a[i].name@, a[j].name@));
            }
        }
        assert(sorted_by_name(b0)) by {
            assert forall|i: int, j: int| 0 <= i <= j < b0.len() implies text_le(
                #[trigger] b0[i].name@,
                #[trigger] b0[j].name@,
            ) by {
                assert(text_le(b[i].name@, b[j].name@));
            }
        }
        lemma_sorted_settled_by_names(a0, b0);
    }
}

/// Sorting has one outcome: two lists that are both a given list put in
/// the order of the names, each keeping the given order within every name,
/// are the same list.
pub proof fn lemma_stable_sort_unique(a: Seq<Payment>, b: Seq<Payment>, given: Seq<Payment>)
    requires
        is_stable_sort_of(a, given),
        is_stable_sort_of(b, given),
    ensures
        a == b,
{
    assert forall|name: Seq<char>| #[trigger] a.filter(named(name)) == b.filter(named(name)) by {
        assert(a.filter(named(name)) == given.filter(named(name)));
        assert(b.filter(named(name)) == given.filter(named(name)));
    }
    lemma_sorted_settled_by_names(a, b);
}

/// Sorting what is sorted changes nothing: a list put in order, and put in
/// order once more, is the list that the first sorting gave.
pub proof fn lemma_sorting_twice_changes_nothing(
    given: Seq<Payment>,
    once: Seq<Payment>,
    twice: Seq<Payment>,
)
    requires
        is_stable_sort_of(once, given),
        is_stable_sort_of(twice, once),
    ensures
        twice == once,
{
    lemma_sorted_settled_by_names(twice, once);
}

/// Of a list without a repeated name, what it holds of a name is the one
/// payment of that name, or nothing.
proof fn lemma_distinct_named(s: Seq<Payment>, name: Seq<char>)
    requires
        distinct_names(s),
    ensures
        s.filter(named(name)).len() <= 1,
        forall|i: int|
            0 <= i < s.len() && (#[trigger] s[i]).name@ == name ==> s.filter(named(name)) == seq![
                s[i],
            ],
    decreases s.len(),
{
    reveal(Seq::filter);
    if s.len() > 0 {
        let rest = s.drop_last();
        assert(distinct_names(rest)) by {
            assert forall|i: int, j: int| 0 <= i < j < rest.len() implies (#[trigger] rest[i]).name@
                != (#[trigger] rest[j]).name@ by {
                assert(s[i].name@ != s[j].name@);
            }
        }
        lemma_distinct_named(rest, name);
        if s.last().name@ == name {
            if rest.filter(named(name)).len() > 0 {
                let i = lemma_named_member(rest, name, 0);
                assert(s[i].name@ != s[s.len() - 1].name@);
            }
            assert(s.filter(named(name)) =~= seq![s.last()]);
            assert forall|i: int| 0 <= i < s.len() && (#[trigger] s[i]).name@ == name implies i
                == s.len() - 1 by {
                if i < s.len() - 1 {
                    assert(s[i].name@ != s[s.len() - 1].name@);
                }
            }
        } else {
            assert forall|i: int| 0 <= i < s.len() && (#[trigger] s[i]).name@ == name implies s.filter(
                named(name),
            ) == seq![s[i]] by {
                assert(rest[i] == s[i]);
            }
        }
    }
}

/// A list that holds the same payments as one without a repeated name has
/// no repeated name either.
proof fn lemma_distinct_names_carry_over(first: Seq<Payment>, second: Seq<Payment>)
    requires
        distinct_names(first),
        first.to_multiset() == second.to_multiset(),
    ensures
        distinct_names(second),
{
    broadcast use vstd::seq_lib::to_multiset_contains;

    assert(first.no_duplicates()) by {
        assert forall|i: int, j: int|
            0 <= i < first.len() && 0 <= j < first.len() && i != j implies first[i] != first[j] by {
            if i < j {
                assert(first[i].name@ != first[j].name@);
            } else {
                assert(first[j].name@ != first[i].name@);
            }
        }
    }
    first.lemma_multiset_has_no_duplicates();
    second.lemma_multiset_has_no_duplicates_conv();
    assert forall|i: int, j: int| 0 <= i < j < second.len() implies (#[trigger] second[i]).name@ != (
    #[trigger] second[j]).name@ by {
        let p = second[i];
        let q = second[j];
        assert(p != q);
        assert(second.contains(p));
        assert(second.contains(q));
        assert(first.to_multiset().count(p) > 0);
        assert(first.to_multiset().count(q) > 0);
        assert(first.contains(p));
        assert(first.contains(q));
        let fi = choose|k: int| 0 <= k < first.len() && first[k] == p;
        let fj = choose|k: int| 0 <= k < first.len() && first[k] == q;
        if fi < fj {
            assert(first[fi].name@ != first[fj].name@);
        } else {
            assert(first[fj].name@ != first[fi].name@);
        }
    }
}

/// Where no name is repeated, the order in which the payments are given
/// does not matter: two lists of the same payments sort to the same list.
pub proof fn lemma_sort_ignores_given_order(
    first: Seq<Payment>,
    second: Seq<Payment>,
    first_sorted: Seq<Payment>,
    second_sorted: Seq<Payment>,
)
    requires
        distinct_names(first),
        first.to_multiset() == second.to_multiset(),
        is_stable_sort_of(first_sorted, first),
        is_stable_sort_of(second_sorted, second),
    ensures
        first_sorted == second_sorted,
{
    broadcast use vstd::seq_lib::to_multiset_contains;

    lemma_distinct_names_carry_over(first, second);
    assert forall|name: Seq<char>| #[trigger]
        first_sorted.filter(named(name)) == second_sorted.filter(named(name)) by {
        assert(first_sorted.filter(named(name)) == first.filter(named(name)));
        assert(second_sorted.filter(named(name)) == second.filter(named(name)));
        lemma_distinct_named(first, name);
        lemma_distinct_named(second, name);
        let f = first.filter(named(name));
        let g = second.filter(named(name));
        if f.len() > 0 {
            let i = lemma_named_member(first, name, 0);
            let p = first[i];
            assert(first.contains(p));
            assert(second.to_multiset().count(p) > 0);
            assert(second.contains(p));
            let j = choose|k: int| 0 <= k < second.len() && second[k] == p;
            assert(second[j].name@ == name);
            assert(f == seq![p]);
            assert(g == seq![p]);
        } else if g.len() > 0 {
            let j = lemma_named_member(second, name, 0);
            let q = second[j];
            assert(second.contains(q));
            assert(first.to_multiset().count(q) > 0);
            assert(first.contains(q));
            let i = choose|k: int| 0 <= k < first.len() && first[k] == q;
            assert(first[i].name@ == name);
        } else {
            assert(f =~= g);
        }
    }
    lemma_sorted_settled_by_names(first_sorted, second_sorted);
}

/// Whether the name of `a` comes no later in the alphabet than that of `b`.
fn name_le(a: &Payment, b: &Payment) -> (r: bool)
    ensures
        r == text_le(a.name@, b.name@),
{
    str_le(a.name.as_str(), b.name.as_str())
}

/// Puts the payments in the alphabetical order of their names. Payments of
/// the same name keep the order in which they stood, and no payment is
/// added, lost or changed.
pub fn sort_by_name(payments: &mut Vec<Payment>)
    ensures
        is_stable_sort_of(final(payments)@, old(payments)@),
        final(payments)@.to_multiset() == old(payments)@.to_multiset(),
        final(payments)@.len() == old(payments)@.len(),
{
    let ghost given = payments@;
    let n: usize = payments.len();
    let mut i: usize = 0;
    while i < n
        invariant
            i <= n,
            n == payments@.len(),
            sorted_by_name(payments@.take(i as int)),
            same_within_names(payments@, given),
            payments@.to_multiset() == given.to_multiset(),
        decreases n - i,
    {
        let mut j: usize = i;
        while j > 0 && !name_le(&payments[j - 1], &payments[i])
            invariant
                j <= i < n,
                n == payments@.len(),
                forall|k: int| j <= k < i ==> !text_le(#[trigger] payments@[k].name@, payments@[i as int].name@),
            decreases j,
        {
            j = j - 1;
        }
        let ghost before = payments@;
        let moved = payments.remove(i);
        payments.insert(j, moved);
        proof {
            let after = payments@;
            let x = before[i as int];
            assert(after == before.remove(i as int).insert(j as int, x));
            to_multiset_remove(before, i as int);
            to_multiset_insert(before.remove(i as int), j as int, x);
            before.to_multiset_ensures();
            assert(before.to_multiset().count(x) > 0);
            assert(after.to_multiset() =~= before.to_multiset()) by {
                broadcast use vstd::multiset::group_multiset_axioms;

            }
            assert forall|name: Seq<char>| #[trigger]
                after.filter(named(name)) == given.filter(named(name)) by {
                assert(before.filter(named(name)) == given.filter(named(name)));
                if named(name)(x) {
                    assert forall|k: int| j <= k < i implies !named(name)(#[trigger] before[k]) by {
                        lemma_text_le_reflexive(x.name@);
                    }
                }
                lemma_move_keeps_filter(before, j as int, i as int, named(name));
            }
            let head = after.take(i + 1);
            let old_head = before.take(i as int);
            assert forall|p: int, q: int| 0 <= p <= q < head.len() implies text_le(
                #[trigger] head[p].name@,
                #[trigger] head[q].name@,
            ) by {
                if q < j {
                    assert(text_le(old_head[p].name@, old_head[q].name@));
                } else if q == j {
                    if p < j {
                        assert(text_le(old_head[p].name@, old_head[j - 1].name@));
                        lemma_text_le_transitive(
                            before[p].name@,
                            before[j - 1].name@,
                            x.name@,
                        );
                    } else {
                        lemma_text_le_reflexive(x.name@);
                    }
                } else {
                    if p < j {
                        assert(text_le(old_head[p].name@, old_head[q - 1].name@));
                    } else if p == j {
                        lemma_text_le_total(before[q - 1].name@, x.name@);
                    } else {
                        assert(text_le(old_head[p - 1].name@, old_head[q - 1].name@));
                    }
                }
            }
        }
        i = i + 1;
    }
    assert(payments@.take(i as int) =~= payments@);
}

} // verus!
