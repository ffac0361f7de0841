//! Reducing the results of the jobs to one.

use vstd::prelude::*;

verus! {

/// What takes in results one after the other.
pub trait Reduce<T>: Sized {
    /// Takes in one more.
    fn reduce(self, element: T) -> Self;
}

/// `r` is what taking `elem` into `acc`, or starting with `elem`, can give.
pub open spec fn reduces<O1, O2: From<O1> + Reduce<O1>>(acc: Option<O2>, elem: O1, r: O2) -> bool {
    match acc {
        Some(acc) => call_ensures(<O2 as Reduce<O1>>::reduce, (acc, elem), r),
        None => call_ensures(<O2 as From<O1>>::from, (elem,), r),
    }
}

/// `r` is what taking `elem`, itself a reduced result, into `acc` can give.
pub open spec fn combines<O: Reduce<O>>(acc: Option<O>, elem: O, r: O) -> bool {
    match acc {
        Some(acc) => call_ensures(<O as Reduce<O>>::reduce, (acc, elem), r),
        None => r == elem,
    }
}

/// `r` is what a thread that holds `acc` can hold when it has taken in `elem`.
pub open spec fn takes_in<O1, O2: From<O1> + Reduce<O1>>(
    acc: Option<O2>,
    elem: O1,
    r: Option<O2>,
) -> bool {
    r is Some && reduces(acc, elem, r.unwrap())
}

/// What a thread holds while it takes in the elements: nothing at first, and after
/// each element the result of taking it in.
pub open spec fn fold_steps<O1, O2: From<O1> + Reduce<O1>>(
    elems: Seq<O1>,
    held: Seq<Option<O2>>,
) -> bool {
    &&& held.len() == elems.len() + 1
    &&& held[0] is None
    &&& forall|i: int|
        #![trigger elems[i]]
        0 <= i < elems.len() ==> takes_in(held[i], elems[i], held[i + 1])
}

/// `r` is what taking in the elements one after the other can give.
pub open spec fn folded<O1, O2: From<O1> + Reduce<O1>>(elems: Seq<O1>, r: Option<O2>) -> bool {
    exists|held: Seq<Option<O2>>| #[trigger] fold_steps(elems, held) && held.last() == r
}

/// What is held while the partial results come together: nothing at first, and after
/// each partial result what taking it in gives. A partial result of nothing is passed over.
pub open spec fn merge_steps<O: Reduce<O>>(partials: Seq<Option<O>>, held: Seq<Option<O>>) -> bool {
    &&& held.len() == partials.len() + 1
    &&& held[0] is None
    &&& forall|i: int|
        #![trigger partials[i]]
        0 <= i < partials.len() ==> match partials[i] {
            Some(elem) => held[i + 1] is Some && combines(held[i], elem, held[i + 1].unwrap()),
            None => held[i + 1] == held[i],
        }
}

/// `r` is what taking in the partial results one after the other can give.
pub open spec fn merged<O: Reduce<O>>(partials: Seq<Option<O>>, r: Option<O>) -> bool {
    exists|held: Seq<Option<O>>| #[trigger] merge_steps(partials, held) && held.last() == r
}

/// Takes `elem` into `acc`, or starts with it.
pub fn reduce<O1, O2: From<O1> + Reduce<O1>>(acc: Option<O2>, elem: O1) -> (r: O2)
    ensures
        reduces(acc, elem, r),
{
    match acc {
        Some(acc) => acc.reduce(elem),
        None => O2::from(elem),
    }
}

/// Takes `elem`, itself a reduced result, into `acc`, or starts with it.
pub fn reduce_end<O: Reduce<O>>(acc: Option<O>, elem: O) -> (r: O)
    ensures
        combines(acc, elem, r),
{
    match acc {
        Some(acc) => acc.reduce(elem),
        None => elem,
    }
}

/// Takes one more result into the partial result of a thread.
pub fn accumulate<O1, O2: From<O1> + Reduce<O1>>(acc: Option<O2>, elem: O1) -> (r: Option<O2>)
    ensures
        takes_in(acc, elem, r),
        forall|elems: Seq<O1>| folded(elems, acc) ==> folded(#[trigger] elems.push(elem), r),
{
    let reduced = reduce(acc, elem);
    let r = Some(reduced);
    proof {
        assert forall|elems: Seq<O1>| folded(elems, acc) implies folded(
            #[trigger] elems.push(elem),
            r,
        ) by {
            let held = choose|held: Seq<Option<O2>>| #[trigger]
                fold_steps(elems, held) && held.last() == acc;
            let more = elems.push(elem);
            let next = held.push(r);
            assert forall|i: int| #![trigger more[i]] 0 <= i < more.len() implies takes_in(
                next[i],
                more[i],
                next[i + 1],
            ) by {
                if i < elems.len() {
                    assert(more[i] == elems[i]);
                }
            }
            assert(fold_steps(more, next));
        }
    }
    r
}

/// Takes the partial results of all threads together.
pub fn merge<O: Reduce<O>>(partials: Vec<Option<O>>) -> (r: Option<O>)
    ensures
        merged(partials@, r),
{
    let ghost all = partials@;
    let mut acc: Option<O> = None;
    let ghost mut held: Seq<Option<O>> = seq![None];
    for partial in it: partials
        invariant
            it.seq() == all,
            merge_steps(all.take(it.index() as int), held),
            held.last() == acc,
    {
        let ghost n = it.index() as int;
        let ghost before = all.take(n);
        let ghost part = all.take(n + 1);
        if let Some(elem) = partial {
            acc = Some(reduce_end(acc, elem));
        }
        proof {
            let next = held.push(acc);
            assert forall|i: int| #![trigger part[i]] 0 <= i < part.len() implies match part[i] {
                Some(elem) => next[i + 1] is Some && combines(
                    next[i],
                    elem,
                    next[i + 1].unwrap(),
                ),
                None => next[i + 1] == next[i],
            } by {
                if i < n {
                    assert(part[i] == before[i]);
                }
            }
            held = next;
        }
    }
    assert(all.take(all.len() as int) =~= all);
    acc
}

/// The numbers, or whatever the elements stand for, put together by `op`.
pub open spec fn total<M>(values: Seq<M>, op: spec_fn(M, M) -> M) -> Option<M> {
    values.fold_left(None, |acc: Option<M>, v: M| put_in(acc, v, op))
}

/// `v` put into `acc` by `op`, or alone.
pub open spec fn put_in<M>(acc: Option<M>, v: M, op: spec_fn(M, M) -> M) -> Option<M> {
    match acc {
        Some(acc) => Some(op(acc, v)),
        None => Some(v),
    }
}

/// Two totals put together by `op`.
pub open spec fn put_together<M>(a: Option<M>, b: Option<M>, op: spec_fn(M, M) -> M) -> Option<M> {
    match b {
        Some(b) => put_in(a, b, op),
        None => a,
    }
}

/// What `r` stands for.
pub open spec fn value_of<O, M>(r: Option<O>, value: spec_fn(O) -> M) -> Option<M> {
    match r {
        Some(r) => Some(value(r)),
        None => None,
    }
}

/// The groups, one after the other.
pub open spec fn ungrouped<T>(groups: Seq<Seq<T>>) -> Seq<T>
    decreases groups.len(),
{
    if groups.len() == 0 {
        seq![]
    } else {
        ungrouped(groups.drop_last()) + groups.last()
    }
}

/// `op` takes three operands in either grouping.
pub open spec fn associates<M>(op: spec_fn(M, M) -> M, x: M, y: M, z: M) -> bool {
    op(op(x, y), z) == op(x, op(y, z))
}

/// `op` takes two operands in either order.
pub open spec fn commutes<M>(op: spec_fn(M, M) -> M, x: M, y: M) -> bool {
    op(x, y) == op(y, x)
}

/// `op` takes any three operands in either grouping.
pub open spec fn associative<M>(op: spec_fn(M, M) -> M) -> bool {
    forall|x: M, y: M, z: M| #[trigger] associates(op, x, y, z)
}

/// `op` is associative and commutative.
pub open spec fn order_free<M>(op: spec_fn(M, M) -> M) -> bool {
    &&& associative(op)
    &&& forall|x: M, y: M| #[trigger] commutes(op, x, y)
}

/// Reducing adds up by `op` what the elements and the reduced results stand for.
pub open spec fn adds_up<O1, O2: From<O1> + Reduce<O1> + Reduce<O2>, M>(
    single: spec_fn(O1) -> M,
    value: spec_fn(O2) -> M,
    op: spec_fn(M, M) -> M,
) -> bool {
    &&& forall|acc: Option<O2>, elem: O1, r: O2| #[trigger]
        reduces(acc, elem, r) ==> Some(value(r)) == put_in(
            value_of(acc, value),
            single(elem),
            op,
        )
    &&& forall|acc: Option<O2>, elem: O2, r: O2| #[trigger]
        combines(acc, elem, r) ==> Some(value(r)) == put_in(value_of(acc, value), value(elem), op)
}

/// A partial result is nothing if and only if there is no element.
pub proof fn law_no_partial_result_iff_no_element<O1, O2: From<O1> + Reduce<O1> + Reduce<O2>>(
    elems: Seq<O1>,
    r: Option<O2>,
)
    requires
        folded(elems, r),
    ensures
        r is None <==> elems.len() == 0,
{
    let held = choose|held: Seq<Option<O2>>| #[trigger]
        fold_steps(elems, held) && held.last() == r;
    if elems.len() > 0 {
        assert(takes_in(held[elems.len() - 1], elems[elems.len() - 1], r));
    }
}

/// The result is nothing if and only if no thread took in an element.
pub proof fn law_no_result_iff_no_element<O1, O2: From<O1> + Reduce<O1> + Reduce<O2>>(
    groups: Seq<Seq<O1>>,
    partials: Seq<Option<O2>>,
    r: Option<O2>,
)
    requires
        groups.len() == partials.len(),
        forall|i: int| 0 <= i < groups.len() ==> folded(groups[i], #[trigger] partials[i]),
        merged(partials, r),
    ensures
        r is None <==> ungrouped(groups).len() == 0,
{
    let held = choose|held: Seq<Option<O2>>| #[trigger]
        merge_steps(partials, held) && held.last() == r;
    lemma_held_is_nothing(groups, partials, held, groups.len() as int);
    assert(groups.take(groups.len() as int) =~= groups);
}

proof fn lemma_held_is_nothing<O1, O2: From<O1> + Reduce<O1> + Reduce<O2>>(
    groups: Seq<Seq<O1>>,
    partials: Seq<Option<O2>>,
    held: Seq<Option<O2>>,
    n: int,
)
    requires
        groups.len() == partials.len(),
        forall|i: int| 0 <= i < groups.len() ==> folded(groups[i], #[trigger] partials[i]),
        merge_steps(partials, held),
        0 <= n <= groups.len(),
    ensures
        held[n] is None <==> ungrouped(groups.take(n)).len() == 0,
    decreases n,
{
    if n > 0 {
        lemma_held_is_nothing(groups, partials, held, n - 1);
        assert(groups.take(n).drop_last() =~= groups.take(n - 1));
        assert(folded(groups[n - 1], partials[n - 1]));
        law_no_partial_result_iff_no_element(groups[n - 1], partials[n - 1]);
    }
}

/// A partial result stands for the total of its elements.
pub proof fn law_partial_result_is_the_total<O1, O2: From<O1> + Reduce<O1> + Reduce<O2>, M>(
    elems: Seq<O1>,
    r: Option<O2>,
    single: spec_fn(O1) -> M,
    value: spec_fn(O2) -> M,
    op: spec_fn(M, M) -> M,
)
    requires
        adds_up(single, value, op),
        folded(elems, r),
    ensures
        value_of(r, value) == total(elems.map_values(single), op),
{
    let held = choose|held: Seq<Option<O2>>| #[trigger]
        fold_steps(elems, held) && held.last() == r;
    lemma_held_is_the_total(elems, held, elems.len() as int, single, value, op);
    assert(elems.take(elems.len() as int) =~= elems);
}

proof fn lemma_held_is_the_total<O1, O2: From<O1> + Reduce<O1> + Reduce<O2>, M>(
    elems: Seq<O1>,
    held: Seq<Option<O2>>,
    n: int,
    single: spec_fn(O1) -> M,
    value: spec_fn(O2) -> M,
    op: spec_fn(M, M) -> M,
)
    requires
        adds_up(single, value, op),
        fold_steps(elems, held),
        0 <= n <= elems.len(),
    ensures
        value_of(held[n], value) == total(elems.take(n).map_values(single), op),
    decreases n,
{
    let values = elems.take(n).map_values(single);
    if n > 0 {
        lemma_held_is_the_total(elems, held, n - 1, single, value, op);
        assert(values.drop_last() =~= elems.take(n - 1).map_values(single));
        assert(takes_in(held[n - 1], elems[n - 1], held[n]));
        assert(values.last() == single(elems[n - 1]));
    }
}

/// Where what is reduced adds up by an associative operation, the result stands for the
/// total of all elements, in the order in which the threads took them in.
pub proof fn law_result_is_the_total<O1, O2: From<O1> + Reduce<O1> + Reduce<O2>, M>(
    groups: Seq<Seq<O1>>,
    partials: Seq<Option<O2>>,
    r: Option<O2>,
    single: spec_fn(O1) -> M,
    value: spec_fn(O2) -> M,
    op: spec_fn(M, M) -> M,
)
    requires
        associative(op),
        adds_up(single, value, op),
        groups.len() == partials.len(),
        forall|i: int| 0 <= i < groups.len() ==> folded(groups[i], #[trigger] partials[i]),
        merged(partials, r),
    ensures
        value_of(r, value) == total(ungrouped(groups).map_values(single), op),
{
    let held = choose|held: Seq<Option<O2>>| #[trigger]
        merge_steps(partials, held) && held.last() == r;
    lemma_merged_is_the_total(groups, partials, held, groups.len() as int, single, value, op);
    assert(groups.take(groups.len() as int) =~= groups);
}

proof fn lemma_merged_is_the_total<O1, O2: From<O1> + Reduce<O1> + Reduce<O2>, M>(
    groups: Seq<Seq<O1>>,
    partials: Seq<Option<O2>>,
    held: Seq<Option<O2>>,
    n: int,
    single: spec_fn(O1) -> M,
    value: spec_fn(O2) -> M,
    op: spec_fn(M, M) -> M,
)
    requires
        associative(op),
        adds_up(single, value, op),
        groups.len() == partials.len(),
        forall|i: int| 0 <= i < groups.len() ==> folded(groups[i], #[trigger] partials[i]),
        merge_steps(partials, held),
        0 <= n <= groups.len(),
    ensures
        value_of(held[n], value) == total(ungrouped(groups.take(n)).map_values(single), op),
    decreases n,
{
    let part = groups.take(n);
    if n > 0 {
        lemma_merged_is_the_total(groups, partials, held, n - 1, single, value, op);
        assert(part.drop_last() =~= groups.take(n - 1));
        let elems = groups[n - 1];
        let partial = partials[n - 1];
        assert(folded(elems, partial));
        law_partial_result_is_the_total(elems, partial, single, value, op);
        let a = ungrouped(groups.take(n - 1)).map_values(single);
        let b = elems.map_values(single);
        lemma_total_of_both(a, b, op);
        assert(ungrouped(part).map_values(single) =~= a + b);
        match partial {
            Some(elem) => {
                assert(combines(held[n - 1], elem, held[n].unwrap()));
            },
            None => {},
        }
    } else {
        assert(ungrouped(part).map_values(single) =~= seq![]);
    }
}

/// The total of two lists is their totals put together.
proof fn lemma_total_of_both<M>(a: Seq<M>, b: Seq<M>, op: spec_fn(M, M) -> M)
    requires
        associative(op),
    ensures
        total(a + b, op) == put_together(total(a, op), total(b, op), op),
    decreases b.len(),
{
    if b.len() == 0 {
        assert(a + b =~= a);
    } else {
        let init = b.drop_last();
        let last = b.last();
        lemma_total_of_both(a, init, op);
        assert((a + b).drop_last() =~= a + init);
        match (total(a, op), total(init, op)) {
            (Some(x), Some(y)) => {
                assert(associates(op, x, y, last));
            },
            _ => {},
        }
    }
}

/// The result of a run does not depend on the schedule: where what is reduced adds up by
/// an associative and commutative operation, two runs with the same elements end in
/// results that stand for the same, however the threads shared the elements out and in
/// whatever order the partial results came together.
pub proof fn law_schedule_does_not_matter<O1, O2: From<O1> + Reduce<O1> + Reduce<O2>, M>(
    groups1: Seq<Seq<O1>>,
    partials1: Seq<Option<O2>>,
    r1: Option<O2>,
    groups2: Seq<Seq<O1>>,
    partials2: Seq<Option<O2>>,
    r2: Option<O2>,
    single: spec_fn(O1) -> M,
    value: spec_fn(O2) -> M,
    op: spec_fn(M, M) -> M,
)
    requires
        order_free(op),
        adds_up(single, value, op),
        groups1.len() == partials1.len(),
        forall|i: int| 0 <= i < groups1.len() ==> folded(groups1[i], #[trigger] partials1[i]),
        merged(partials1, r1),
        groups2.len() == partials2.len(),
        forall|i: int| 0 <= i < groups2.len() ==> folded(groups2[i], #[trigger] partials2[i]),
        merged(partials2, r2),
        ungrouped(groups1).to_multiset() == ungrouped(groups2).to_multiset(),
    ensures
        value_of(r1, value) == value_of(r2, value),
{
    law_result_is_the_total(groups1, partials1, r1, single, value, op);
    law_result_is_the_total(groups2, partials2, r2, single, value, op);
    let s1 = ungrouped(groups1);
    let s2 = ungrouped(groups2);
    let g = |acc: Option<M>, e: O1| put_in(acc, single(e), op);
    assert(vstd::seq_lib::commutative_foldl(g)) by {
        assert forall|x: O1, y: O1, v: Option<M>| #[trigger] g(g(v, x), y) == g(g(v, y), x) by {
            match v {
                Some(a) => {
                    assert(associates(op, a, single(x), single(y)));
                    assert(associates(op, a, single(y), single(x)));
                    assert(commutes(op, single(x), single(y)));
                },
                None => {
                    assert(commutes(op, single(x), single(y)));
                },
            }
        }
    }
    vstd::seq_lib::lemma_fold_left_permutation(s1, s2, g, None);
    lemma_fold_of_mapped(s1, single, op);
    lemma_fold_of_mapped(s2, single, op);
}

proof fn lemma_fold_of_mapped<O1, M>(s: Seq<O1>, single: spec_fn(O1) -> M, op: spec_fn(M, M) -> M)
    ensures
        total(s.map_values(single), op) == s.fold_left(
            None,
            |acc: Option<M>, e: O1| put_in(acc, single(e), op),
        ),
    decreases s.len(),
{
    if s.len() > 0 {
        lemma_fold_of_mapped(s.drop_last(), single, op);
        assert(s.map_values(single).drop_last() =~= s.drop_last().map_values(single));
    }
}

/// Taking an element into what is held is reducing what is held by it; the first element is
/// converted, and the first partial result is taken as it is. There is something held
/// afterwards in any case.
pub proof fn law_taking_in_is_reducing<O1, O2: From<O1> + Reduce<O1> + Reduce<O2>>(
    acc: Option<O2>,
    held: O2,
    elem: O1,
    partial: O2,
    r: O2,
)
    ensures
        reduces(Some(held), elem, r) <==> call_ensures(
            <O2 as Reduce<O1>>::reduce,
            (held, elem),
            r,
        ),
        reduces(None, elem, r) <==> call_ensures(<O2 as From<O1>>::from, (elem,), r),
        takes_in(acc, elem, Some(r)) <==> reduces(acc, elem, r),
        !takes_in(acc, elem, None),
        combines(Some(held), partial, r) <==> call_ensures(
            <O2 as Reduce<O2>>::reduce,
            (held, partial),
            r,
        ),
        combines(None, partial, r) <==> r == partial,
{
}

/// A thread holds nothing before its first element, and after each further element what
/// taking that element into what it held can give: no element is left out, however many
/// there are.
pub proof fn law_thread_takes_in_every_element<O1, O2: From<O1> + Reduce<O1> + Reduce<O2>>(
    elems: Seq<O1>,
    elem: O1,
    r: Option<O2>,
)
    ensures
        folded(Seq::<O1>::empty(), r) <==> r is None,
        folded(elems.push(elem), r) <==> exists|acc: Option<O2>| #[trigger]
            folded(elems, acc) && takes_in(acc, elem, r),
{
    let nothing: Seq<Option<O2>> = seq![None];
    assert(fold_steps(Seq::<O1>::empty(), nothing));
    let more = elems.push(elem);
    if folded(more, r) {
        let held = choose|held: Seq<Option<O2>>| #[trigger]
            fold_steps(more, held) && held.last() == r;
        let before = held.drop_last();
        assert forall|i: int| #![trigger elems[i]] 0 <= i < elems.len() implies takes_in(
            before[i],
            elems[i],
            before[i + 1],
        ) by {
            assert(more[i] == elems[i]);
        }
        assert(fold_steps(elems, before));
        assert(folded(elems, before.last()));
        assert(more[elems.len() as int] == elem);
    }
    if exists|acc: Option<O2>| #[trigger] folded(elems, acc) && takes_in(acc, elem, r) {
        let acc = choose|acc: Option<O2>| #[trigger] folded(elems, acc) && takes_in(acc, elem, r);
        let held = choose|held: Seq<Option<O2>>| #[trigger]
            fold_steps(elems, held) && held.last() == acc;
        let next = held.push(r);
        assert forall|i: int| #![trigger more[i]] 0 <= i < more.len() implies takes_in(
            next[i],
            more[i],
            next[i + 1],
        ) by {
            if i < elems.len() {
                assert(more[i] == elems[i]);
            }
        }
        assert(fold_steps(more, next));
    }
}

/// Partial results come together one by one: no partial result that is something is left
/// out, however many there are, and those that are nothing change nothing.
pub proof fn law_every_partial_result_is_taken_in<O: Reduce<O>>(
    partials: Seq<Option<O>>,
    elem: O,
    r: Option<O>,
)
    ensures
        merged(Seq::<Option<O>>::empty(), r) <==> r is None,
        merged(partials.push(None), r) <==> merged(partials, r),
        merged(partials.push(Some(elem)), r) <==> r is Some && exists|acc: Option<O>| #[trigger]
            merged(partials, acc) && combines(acc, elem, r.unwrap()),
{
    let nothing: Seq<Option<O>> = seq![None];
    assert(merge_steps(Seq::<Option<O>>::empty(), nothing));
    let n = partials.len() as int;
    let passed = partials.push(None);
    let more = partials.push(Some(elem));
    if merged(passed, r) {
        let held = choose|held: Seq<Option<O>>| #[trigger]
            merge_steps(passed, held) && held.last() == r;
        lemma_merge_steps_before(partials, None, held);
        assert(passed[n] is None);
    }
    if merged(partials, r) {
        let held = choose|held: Seq<Option<O>>| #[trigger]
            merge_steps(partials, held) && held.last() == r;
        lemma_merge_steps_after(partials, None, held, r);
    }
    if merged(more, r) {
        let held = choose|held: Seq<Option<O>>| #[trigger]
            merge_steps(more, held) && held.last() == r;
        lemma_merge_steps_before(partials, Some(elem), held);
        assert(more[n] == Some(elem));
        assert(merged(partials, held.drop_last().last()));
    }
    if r is Some && exists|acc: Option<O>| #[trigger]
        merged(partials, acc) && combines(acc, elem, r.unwrap()) {
        let acc = choose|acc: Option<O>| #[trigger]
            merged(partials, acc) && combines(acc, elem, r.unwrap());
        let held = choose|held: Seq<Option<O>>| #[trigger]
            merge_steps(partials, held) && held.last() == acc;
        lemma_merge_steps_after(partials, Some(elem), held, r);
    }
}

proof fn lemma_merge_steps_before<O: Reduce<O>>(
    partials: Seq<Option<O>>,
    last: Option<O>,
    held: Seq<Option<O>>,
)
    requires
        merge_steps(partials.push(last), held),
    ensures
        merge_steps(partials, held.drop_last()),
{
    let more = partials.push(last);
    let before = held.drop_last();
    assert forall|i: int| #![trigger partials[i]] 0 <= i < partials.len() implies match partials[i] {
        Some(elem) => before[i + 1] is Some && combines(before[i], elem, before[i + 1].unwrap()),
        None => before[i + 1] == before[i],
    } by {
        assert(more[i] == partials[i]);
    }
}

proof fn lemma_merge_steps_after<O: Reduce<O>>(
    partials: Seq<Option<O>>,
    last: Option<O>,
    held: Seq<Option<O>>,
    r: Option<O>,
)
    requires
        merge_steps(partials, held),
        match last {
            Some(elem) => r is Some && combines(held.last(), elem, r.unwrap()),
            None => r == held.last(),
        },
    ensures
        merged(partials.push(last), r),
{
    let more = partials.push(last);
    let next = held.push(r);
    assert forall|i: int| #![trigger more[i]] 0 <= i < more.len() implies match more[i] {
        Some(elem) => next[i + 1] is Some && combines(next[i], elem, next[i + 1].unwrap()),
        None => next[i + 1] == next[i],
    } by {
        if i < partials.len() {
            assert(more[i] == partials[i]);
        }
    }
    assert(merge_steps(more, next));
}

/// The groups, one after the other, have all elements of all groups.
pub proof fn law_ungrouped_leaves_nothing_out<T>(groups: Seq<Seq<T>>)
    ensures
        ungrouped(groups) == groups.flatten(),
    decreases groups.len(),
{
    if groups.len() > 0 {
        law_ungrouped_leaves_nothing_out(groups.drop_last());
        groups.drop_last().lemma_flatten_push(groups.last());
        assert(groups.drop_last().push(groups.last()) =~= groups);
    }
}

/// Where results stand for numbers and reducing adds them, the result of a run stands for
/// the sum over all elements of all threads, however many there are of either.
pub proof fn law_result_is_the_sum<O1, O2: From<O1> + Reduce<O1> + Reduce<O2>>(
    groups: Seq<Seq<O1>>,
    partials: Seq<Option<O2>>,
    r: Option<O2>,
    single: spec_fn(O1) -> int,
    value: spec_fn(O2) -> int,
)
    requires
        forall|elem: O1, r: O2| #[trigger]
            call_ensures(<O2 as From<O1>>::from, (elem,), r) ==> value(r) == single(elem),
        forall|acc: O2, elem: O1, r: O2| #[trigger]
            call_ensures(<O2 as Reduce<O1>>::reduce, (acc, elem), r) ==> value(r) == value(acc)
                + single(elem),
        forall|acc: O2, elem: O2, r: O2| #[trigger]
            call_ensures(<O2 as Reduce<O2>>::reduce, (acc, elem), r) ==> value(r) == value(acc)
                + value(elem),
        groups.len() == partials.len(),
        forall|i: int| 0 <= i < groups.len() ==> folded(groups[i], #[trigger] partials[i]),
        merged(partials, r),
    ensures
        match r {
            Some(r) => value(r) == groups.flatten().fold_left(
                0,
                |sum: int, elem: O1| sum + single(elem),
            ),
            None => groups.flatten().len() == 0,
        },
{
    let op = |x: int, y: int| x + y;
    assert(associative(op));
    assert(adds_up(single, value, op));
    law_result_is_the_total(groups, partials, r, single, value, op);
    law_no_result_iff_no_element(groups, partials, r);
    law_ungrouped_leaves_nothing_out(groups);
    lemma_total_is_the_sum(groups.flatten(), single);
}

proof fn lemma_total_is_the_sum<O1>(elems: Seq<O1>, single: spec_fn(O1) -> int)
    ensures
        elems.len() > 0 ==> total(elems.map_values(single), |x: int, y: int| x + y) == Some(
            elems.fold_left(0, |sum: int, elem: O1| sum + single(elem)),
        ),
    decreases elems.len(),
{
    let op = |x: int, y: int| x + y;
    let values = elems.map_values(single);
    if elems.len() > 0 {
        let init = elems.drop_last();
        lemma_total_is_the_sum(init, single);
        assert(values.drop_last() =~= init.map_values(single));
        if init.len() == 0 {
            assert(total(init.map_values(single), op) is None);
            assert(init.fold_left(0, |sum: int, elem: O1| sum + single(elem)) == 0);
        }
    }
}

} // verus!
