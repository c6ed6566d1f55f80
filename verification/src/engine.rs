//! The reference semantics of a run: what the engine as a whole computes.
//!
//! `model_run` is the mathematical model: starting from the pool's contents
//! it repeatedly takes the top item, transforms it, delivers the finished
//! derived items and requeues the rest, until the pool is empty. Because the
//! amount of work is not known up front — and need not be finite — the model
//! takes a fuel bound and reports `None` when the fuel runs out before
//! quiescence.
//!
//! `run_to_quiescence` executes that model with a single worker unit. The
//! finished-item laws proved here hold of the model, hence of anything that
//! agrees with it.

use vstd::prelude::*;
use vstd::seq_lib::group_filter_ensures;
use vstd::seq_lib::group_to_multiset_ensures;
use vstd::multiset::group_multiset_axioms;
use vstd::multiset::Multiset;

use crate::messages::BossMessage;
use crate::pool::WorkPool;
use crate::worker::{drain_next, finished_of, requeued_of, WorkerFun, WorkerState, WorkerUnit};

verus! {

/// The finished items a run of the engine delivers, starting from `pool`
/// (top of the stack last) and taking at most `fuel` items off the pool:
/// `None` when the work does not quiesce within `fuel` steps.
pub open spec fn model_run<I: Send + 'static, W: WorkerFun<I>>(
    fun: W,
    pool: Seq<I>,
    fuel: nat,
) -> Option<Seq<I>>
    decreases fuel,
{
    if pool.len() == 0 {
        Some(Seq::<I>::empty())
    } else if fuel == 0 {
        None
    } else {
        let widgets = fun.improve_spec(pool.last());
        match model_run(fun, pool.drop_last() + requeued_of(fun, widgets), (fuel - 1) as nat) {
            None => None,
            Some(rest) => Some(finished_of(fun, widgets) + rest),
        }
    }
}

/// Runs the engine with a single worker unit until the pool is empty, or
/// until it has processed `fuel` items without reaching quiescence (then
/// `None`). The finished items come back in delivery order and are exactly
/// what the model prescribes.
#[verifier::loop_isolation(false)]
pub fn run_to_quiescence<I: Send + 'static, W: WorkerFun<I>>(
    fun: &W,
    initial_items: Vec<I>,
    fuel: usize,
) -> (outcome: Option<Vec<I>>)
    ensures
        (outcome matches Some(delivered) ==> model_run(*fun, initial_items@, fuel as nat) == Some(
            delivered@,
        )),
        outcome is None ==> model_run(*fun, initial_items@, fuel as nat) is None,
{
    let ghost init = initial_items@;
    let mut pool = WorkPool::new(initial_items);
    let mut delivered: Vec<I> = Vec::new();
    let mut steps_left = fuel;
    let mut unit = WorkerUnit::new(0);
    let begin_report = unit.handle_command(Some(BossMessage::Go), false);
    proof {
        assert(begin_report is None);
        assert(delivered@ + Seq::<I>::empty() =~= delivered@);
    }
    loop
        invariant
            unit.state == WorkerState::Draining,
            match model_run(*fun, pool@, steps_left as nat) {
                None => model_run(*fun, init, fuel as nat) is None,
                Some(rest) => model_run(*fun, init, fuel as nat) == Some(delivered@ + rest),
            },
        decreases steps_left, pool@.len(),
    {
        if pool.is_empty() {
            proof {
                assert(model_run(*fun, pool@, steps_left as nat) == Some(Seq::<I>::empty()));
                assert(delivered@ + Seq::<I>::empty() =~= delivered@);
            }
            return Some(delivered);
        }
        if steps_left == 0 {
            proof {
                assert(model_run(*fun, pool@, 0nat) is None);
            }
            return None;
        }
        let ghost pool_before = pool@;
        let popped = pool.pop();
        let out = unit.drain_step(fun, popped, false);
        proof {
            assert(popped == Some(pool_before.last()));
            assert(drain_next(popped, false) == WorkerState::Draining);
        }
        pool.push_all(out.requeue);
        let mut just_finished = out.finished;
        let ghost delivered_before = delivered@;
        delivered.append(&mut just_finished);
        proof {
            let widgets = fun.improve_spec(pool_before.last());
            assert(pool@ == pool_before.drop_last() + requeued_of(*fun, widgets));
            match model_run(*fun, pool@, (steps_left - 1) as nat) {
                None => {
                    assert(model_run(*fun, pool_before, steps_left as nat) is None);
                },
                Some(rest) => {
                    assert(model_run(*fun, pool_before, steps_left as nat) == Some(
                        finished_of(*fun, widgets) + rest,
                    ));
                    assert(delivered_before + (finished_of(*fun, widgets) + rest) =~= delivered@
                        + rest);
                },
            }
        }
        steps_left = steps_left - 1;
    }
}

/// As `model_run`, but also reporting the fuel to spare at quiescence: a
/// run takes one unit of fuel per item it pops.
pub open spec fn model_run_with_spare<I: Send + 'static, W: WorkerFun<I>>(
    fun: W,
    pool: Seq<I>,
    fuel: nat,
) -> Option<(Seq<I>, nat)>
    decreases fuel,
{
    if pool.len() == 0 {
        Some((Seq::<I>::empty(), fuel))
    } else if fuel == 0 {
        None
    } else {
        let widgets = fun.improve_spec(pool.last());
        match model_run_with_spare(
            fun,
            pool.drop_last() + requeued_of(fun, widgets),
            (fuel - 1) as nat,
        ) {
            None => None,
            Some(done) => Some((finished_of(fun, widgets) + done.0, done.1)),
        }
    }
}

/// `model_run` is `model_run_with_spare` without the spare fuel.
pub proof fn lemma_model_run_with_spare_agrees<I: Send + 'static, W: WorkerFun<I>>(
    fun: W,
    pool: Seq<I>,
    fuel: nat,
)
    ensures
        match model_run_with_spare(fun, pool, fuel) {
            None => model_run(fun, pool, fuel) is None,
            Some(done) => model_run(fun, pool, fuel) == Some(done.0),
        },
    decreases fuel,
{
    if pool.len() == 0 {
    } else if fuel == 0 {
    } else {
        let widgets = fun.improve_spec(pool.last());
        lemma_model_run_with_spare_agrees(
            fun,
            pool.drop_last() + requeued_of(fun, widgets),
            (fuel - 1) as nat,
        );
    }
}

/// The spare fuel never exceeds what the run was given.
pub proof fn lemma_spare_at_most_fuel<I: Send + 'static, W: WorkerFun<I>>(
    fun: W,
    pool: Seq<I>,
    fuel: nat,
)
    ensures
        model_run_with_spare(fun, pool, fuel) matches Some(done) ==> done.1 <= fuel,
    decreases fuel,
{
    if pool.len() == 0 {
    } else if fuel == 0 {
    } else {
        let widgets = fun.improve_spec(pool.last());
        lemma_spare_at_most_fuel(
            fun,
            pool.drop_last() + requeued_of(fun, widgets),
            (fuel - 1) as nat,
        );
    }
}

/// A LIFO run handles the back segment of the pool — and everything that
/// segment spawns — before it touches the front segment. So a run over
/// `front + back` is a run over `back` alone, followed by a run over
/// `front` alone on the fuel to spare.
pub proof fn lemma_run_splits<I: Send + 'static, W: WorkerFun<I>>(
    fun: W,
    front: Seq<I>,
    back: Seq<I>,
    fuel: nat,
)
    ensures
        model_run_with_spare(fun, front + back, fuel) == (match model_run_with_spare(
            fun,
            back,
            fuel,
        ) {
            None => None::<(Seq<I>, nat)>,
            Some(done_back) => match model_run_with_spare(fun, front, done_back.1) {
                None => None::<(Seq<I>, nat)>,
                Some(done_front) => Some((done_back.0 + done_front.0, done_front.1)),
            },
        }),
    decreases fuel,
{
    if back.len() == 0 {
        assert(front + back =~= front);
        match model_run_with_spare(fun, front, fuel) {
            None => {},
            Some(done_front) => {
                assert(Seq::<I>::empty() + done_front.0 =~= done_front.0);
            },
        }
    } else if fuel == 0 {
        assert((front + back).len() > 0);
    } else {
        let widgets = fun.improve_spec(back.last());
        let remainder = back.drop_last() + requeued_of(fun, widgets);
        assert((front + back).last() == back.last());
        assert((front + back).drop_last() + requeued_of(fun, widgets) =~= front + remainder) by {
            assert((front + back).drop_last() =~= front + back.drop_last());
        }
        lemma_run_splits(fun, front, remainder, (fuel - 1) as nat);
        match model_run_with_spare(fun, remainder, (fuel - 1) as nat) {
            None => {},
            Some(done_rem) => {
                match model_run_with_spare(fun, front, done_rem.1) {
                    None => {},
                    Some(done_front) => {
                        assert(finished_of(fun, widgets) + (done_rem.0 + done_front.0) =~= (
                        finished_of(fun, widgets) + done_rem.0) + done_front.0);
                    },
                }
            },
        }
    }
}

/// Spare fuel is slack: granting more fuel up front changes nothing about
/// a completing run but the spare it reports.
pub proof fn lemma_run_fuel_slack<I: Send + 'static, W: WorkerFun<I>>(
    fun: W,
    pool: Seq<I>,
    fuel: nat,
    extra: nat,
)
    ensures
        match model_run_with_spare(fun, pool, fuel) {
            None => true,
            Some(done) => model_run_with_spare(fun, pool, fuel + extra) == Some(
                (done.0, (done.1 + extra) as nat),
            ),
        },
    decreases fuel,
{
    if pool.len() == 0 {
    } else if fuel == 0 {
    } else {
        let widgets = fun.improve_spec(pool.last());
        lemma_run_fuel_slack(
            fun,
            pool.drop_last() + requeued_of(fun, widgets),
            (fuel - 1) as nat,
            extra,
        );
        assert((fuel + extra - 1) as nat == (fuel - 1) as nat + extra);
    }
}

/// Each pending item resolved on its own: the multiset a run delivers for
/// the item alone, summed across the pool. `None` when some single
/// resolution needs more than `fuel` steps.
pub open spec fn independent_resolutions<I: Send + 'static, W: WorkerFun<I>>(
    fun: W,
    pool: Seq<I>,
    fuel: nat,
) -> Option<Multiset<I>>
    decreases pool.len(),
{
    if pool.len() == 0 {
        Some(Multiset::<I>::empty())
    } else {
        match model_run(fun, seq![pool.last()], fuel) {
            None => None,
            Some(delivered) => match independent_resolutions(fun, pool.drop_last(), fuel) {
                None => None,
                Some(rest) => Some(delivered.to_multiset().add(rest)),
            },
        }
    }
}

/// Scheduling independence, at the model's level: what a completed run
/// delivers is, as a multiset, the sum of each pending item's independent
/// resolution. The pool's order — and with it the order in which the items'
/// derivation trees are interleaved — affects only the delivery order,
/// never what is delivered.
pub proof fn lemma_run_resolves_items_independently<I: Send + 'static, W: WorkerFun<I>>(
    fun: W,
    pool: Seq<I>,
    fuel: nat,
    delivered: Seq<I>,
)
    requires
        model_run(fun, pool, fuel) == Some(delivered),
    ensures
        independent_resolutions(fun, pool, fuel) == Some(delivered.to_multiset()),
    decreases pool.len(),
{
    broadcast use group_to_multiset_ensures;
    broadcast use group_multiset_axioms;

    lemma_model_run_with_spare_agrees(fun, pool, fuel);
    if pool.len() == 0 {
        assert(delivered =~= Seq::<I>::empty());
        assert forall|y: I| delivered.to_multiset().count(y) == Multiset::<I>::empty().count(
            y,
        ) by {
            assert(!delivered.contains(y));
        }
        assert(delivered.to_multiset() =~= Multiset::<I>::empty());
    } else {
        let front = pool.drop_last();
        let back = seq![pool.last()];
        assert(front + back =~= pool);
        lemma_run_splits(fun, front, back, fuel);
        match model_run_with_spare(fun, back, fuel) {
            None => {
                assert(false);
            },
            Some(done_back) => {
                match model_run_with_spare(fun, front, done_back.1) {
                    None => {
                        assert(false);
                    },
                    Some(done_front) => {
                        assert(delivered == done_back.0 + done_front.0);
                        lemma_model_run_with_spare_agrees(fun, back, fuel);
                        assert(model_run(fun, back, fuel) == Some(done_back.0));
                        lemma_spare_at_most_fuel(fun, back, fuel);
                        lemma_run_fuel_slack(fun, front, done_back.1, (fuel - done_back.1) as nat);
                        assert(model_run_with_spare(fun, front, fuel) matches Some(d)
                            && d.0 == done_front.0);
                        lemma_model_run_with_spare_agrees(fun, front, fuel);
                        assert(model_run(fun, front, fuel) == Some(done_front.0));
                        lemma_run_resolves_items_independently(fun, front, fuel, done_front.0);
                        vstd::seq_lib::lemma_multiset_commutative(done_back.0, done_front.0);
                        assert(delivered.to_multiset() == done_back.0.to_multiset().add(
                            done_front.0.to_multiset(),
                        ));
                    },
                }
            },
        }
    }
}

/// Independent resolutions only need enough fuel: granting more changes
/// nothing.
pub proof fn lemma_resolutions_fuel_slack<I: Send + 'static, W: WorkerFun<I>>(
    fun: W,
    pool: Seq<I>,
    fuel: nat,
    extra: nat,
    total: Multiset<I>,
)
    requires
        independent_resolutions(fun, pool, fuel) == Some(total),
    ensures
        independent_resolutions(fun, pool, fuel + extra) == Some(total),
    decreases pool.len(),
{
    if pool.len() == 0 {
    } else {
        let back = seq![pool.last()];
        match model_run(fun, back, fuel) {
            None => {
                assert(false);
            },
            Some(one) => {
                lemma_model_run_with_spare_agrees(fun, back, fuel);
                lemma_run_fuel_slack(fun, back, fuel, extra);
                lemma_model_run_with_spare_agrees(fun, back, fuel + extra);
                assert(model_run(fun, back, fuel + extra) == Some(one));
                match independent_resolutions(fun, pool.drop_last(), fuel) {
                    None => {
                        assert(false);
                    },
                    Some(rest) => {
                        lemma_resolutions_fuel_slack(fun, pool.drop_last(), fuel, extra, rest);
                    },
                }
            },
        }
    }
}

/// The sum of independent resolutions does not care where in the pool an
/// item stands: any one item can be split off the total.
pub proof fn lemma_resolutions_extract<I: Send + 'static, W: WorkerFun<I>>(
    fun: W,
    pool: Seq<I>,
    fuel: nat,
    j: int,
    total: Multiset<I>,
)
    requires
        0 <= j < pool.len(),
        independent_resolutions(fun, pool, fuel) == Some(total),
    ensures
        exists|one: Seq<I>, rest: Multiset<I>|
            model_run(fun, seq![pool[j]], fuel) == Some(one) && independent_resolutions(
                fun,
                pool.remove(j),
                fuel,
            ) == Some(rest) && total == one.to_multiset().add(rest),
    decreases pool.len(),
{
    broadcast use group_multiset_axioms;

    let back = seq![pool.last()];
    match model_run(fun, back, fuel) {
        None => {
            assert(false);
        },
        Some(one_last) => {
            match independent_resolutions(fun, pool.drop_last(), fuel) {
                None => {
                    assert(false);
                },
                Some(rest_front) => {
                    if j == pool.len() - 1 {
                        assert(pool.remove(j) =~= pool.drop_last());
                        assert(model_run(fun, seq![pool[j]], fuel) == Some(one_last)
                            && independent_resolutions(fun, pool.remove(j), fuel) == Some(
                            rest_front,
                        ) && total == one_last.to_multiset().add(rest_front));
                    } else {
                        lemma_resolutions_extract(fun, pool.drop_last(), fuel, j, rest_front);
                        let (one_j, rest_j) = choose|one: Seq<I>, rest: Multiset<I>|
                            model_run(fun, seq![pool.drop_last()[j]], fuel) == Some(one)
                                && independent_resolutions(fun, pool.drop_last().remove(j), fuel)
                                == Some(rest) && rest_front == one.to_multiset().add(rest);
                        assert(pool.drop_last()[j] == pool[j]);
                        let shorter = pool.remove(j);
                        assert(shorter.len() == pool.len() - 1);
                        assert(shorter.last() == pool.last());
                        assert(shorter.drop_last() =~= pool.drop_last().remove(j));
                        let rest = one_last.to_multiset().add(rest_j);
                        assert(independent_resolutions(fun, shorter, fuel) == Some(rest));
                        assert(total == one_j.to_multiset().add(rest)) by {
                            assert forall|y: I|
                                total.count(y) == one_j.to_multiset().add(rest).count(y) by {
                                assert(total.count(y) == one_last.to_multiset().count(y)
                                    + rest_front.count(y));
                            }
                            assert(total =~= one_j.to_multiset().add(rest));
                        }
                    }
                },
            }
        },
    }
}

/// The sum of independent resolutions depends only on which items are
/// pending, never on their order in the pool.
pub proof fn lemma_resolutions_permutation_invariant<I: Send + 'static, W: WorkerFun<I>>(
    fun: W,
    pool1: Seq<I>,
    pool2: Seq<I>,
    fuel: nat,
    m1: Multiset<I>,
    m2: Multiset<I>,
)
    requires
        pool1.to_multiset() == pool2.to_multiset(),
        independent_resolutions(fun, pool1, fuel) == Some(m1),
        independent_resolutions(fun, pool2, fuel) == Some(m2),
    ensures
        m1 == m2,
    decreases pool1.len(),
{
    broadcast use group_to_multiset_ensures;
    broadcast use group_multiset_axioms;

    if pool1.len() == 0 {
        assert(pool1.to_multiset().len() == pool1.len());
        assert(pool2.to_multiset().len() == pool2.len());
        assert(pool2.len() == 0);
        assert(m1 == m2);
    } else {
        let x = pool1.last();
        assert(pool1.contains(x));
        assert(pool2.to_multiset().count(x) > 0);
        assert(pool2.contains(x));
        let j = choose|j: int| 0 <= j < pool2.len() && pool2[j] == x;
        lemma_resolutions_extract(fun, pool2, fuel, j, m2);
        let (one2, rest2) = choose|one: Seq<I>, rest: Multiset<I>|
            model_run(fun, seq![pool2[j]], fuel) == Some(one) && independent_resolutions(
                fun,
                pool2.remove(j),
                fuel,
            ) == Some(rest) && m2 == one.to_multiset().add(rest);
        match model_run(fun, seq![x], fuel) {
            None => {
                assert(false);
            },
            Some(one1) => {
                assert(seq![pool2[j]] =~= seq![x]);
                assert(one1 == one2);
                match independent_resolutions(fun, pool1.drop_last(), fuel) {
                    None => {
                        assert(false);
                    },
                    Some(rest1) => {
                        assert(pool1.drop_last().to_multiset() == pool2.remove(j).to_multiset())
                            by {
                            assert(pool1 =~= pool1.drop_last().push(x));
                            assert(pool1.to_multiset() == pool1.drop_last().to_multiset().insert(
                                x,
                            ));
                            assert(pool2.remove(j).to_multiset() == pool2.to_multiset().remove(x));
                            assert(pool1.drop_last().to_multiset() =~= pool1.to_multiset().remove(
                                x,
                            ));
                        }
                        lemma_resolutions_permutation_invariant(
                            fun,
                            pool1.drop_last(),
                            pool2.remove(j),
                            fuel,
                            rest1,
                            rest2,
                        );
                        assert(m1 == one1.to_multiset().add(rest1));
                    },
                }
            },
        }
    }
}

/// Worker-count and scheduling independence, as far as the model reaches:
/// two completed runs from pools holding the same items — in any order,
/// with any fuel that suffices — deliver the same multiset of finished
/// items. Delivery order is all that a schedule can change.
pub proof fn lemma_same_items_same_delivery<I: Send + 'static, W: WorkerFun<I>>(
    fun: W,
    pool1: Seq<I>,
    pool2: Seq<I>,
    fuel1: nat,
    fuel2: nat,
    out1: Seq<I>,
    out2: Seq<I>,
)
    requires
        pool1.to_multiset() == pool2.to_multiset(),
        model_run(fun, pool1, fuel1) == Some(out1),
        model_run(fun, pool2, fuel2) == Some(out2),
    ensures
        out1.to_multiset() == out2.to_multiset(),
{
    lemma_run_resolves_items_independently(fun, pool1, fuel1, out1);
    lemma_run_resolves_items_independently(fun, pool2, fuel2, out2);
    lemma_resolutions_fuel_slack(fun, pool1, fuel1, fuel2, out1.to_multiset());
    lemma_resolutions_fuel_slack(fun, pool2, fuel2, fuel1, out2.to_multiset());
    assert(fuel1 + fuel2 == fuel2 + fuel1);
    lemma_resolutions_permutation_invariant(
        fun,
        pool1,
        pool2,
        fuel1 + fuel2,
        out1.to_multiset(),
        out2.to_multiset(),
    );
}

/// Quiescence under an unproductive transformation: if `improve` never
/// derives anything, a run with fuel for each pending item completes —
/// every item is taken off the pool exactly once — and delivers nothing.
pub proof fn lemma_empty_improvement_quiesces<I: Send + 'static, W: WorkerFun<I>>(
    fun: W,
    pool: Seq<I>,
    fuel: nat,
)
    requires
        forall|x: I| #[trigger] fun.improve_spec(x) == Seq::<I>::empty(),
        fuel >= pool.len(),
    ensures
        model_run(fun, pool, fuel) == Some(Seq::<I>::empty()),
    decreases pool.len(),
{
    if pool.len() == 0 {
    } else {
        let widgets = fun.improve_spec(pool.last());
        assert(finished_of(fun, widgets) =~= Seq::<I>::empty());
        assert(requeued_of(fun, widgets) =~= Seq::<I>::empty());
        assert(pool.drop_last() + requeued_of(fun, widgets) =~= pool.drop_last());
        lemma_empty_improvement_quiesces(fun, pool.drop_last(), (fuel - 1) as nat);
        assert(finished_of(fun, widgets) + Seq::<I>::empty() =~= Seq::<I>::empty());
    }
}

/// The converse bound: under an unproductive transformation every pending
/// item still has to be taken off the pool once, so with fuel for fewer
/// items than are pending the run does not complete.
pub proof fn lemma_empty_improvement_needs_a_step_each<I: Send + 'static, W: WorkerFun<I>>(
    fun: W,
    pool: Seq<I>,
    fuel: nat,
)
    requires
        forall|x: I| #[trigger] fun.improve_spec(x) == Seq::<I>::empty(),
        fuel < pool.len(),
    ensures
        model_run(fun, pool, fuel) is None,
    decreases pool.len(),
{
    if fuel == 0 {
    } else {
        let widgets = fun.improve_spec(pool.last());
        assert(requeued_of(fun, widgets) =~= Seq::<I>::empty());
        assert(pool.drop_last() + requeued_of(fun, widgets) =~= pool.drop_last());
        lemma_empty_improvement_needs_a_step_each(fun, pool.drop_last(), (fuel - 1) as nat);
    }
}

/// Conservation, one transformation step: routing loses and invents nothing.
/// The finished items and the requeued items together are, as a multiset,
/// exactly the derived items the transformation produced.
pub proof fn lemma_routing_conserves<I: Send + 'static, W: WorkerFun<I>>(fun: W, widgets: Seq<I>)
    ensures
        finished_of(fun, widgets).to_multiset().add(requeued_of(fun, widgets).to_multiset())
            =~= widgets.to_multiset(),
    decreases widgets.len(),
{
    broadcast use group_to_multiset_ensures;
    broadcast use group_multiset_axioms;

    if widgets.len() == 0 {
        assert(finished_of(fun, widgets) =~= Seq::<I>::empty());
        assert(requeued_of(fun, widgets) =~= Seq::<I>::empty());
        assert forall|y: I|
            finished_of(fun, widgets).to_multiset().add(
                requeued_of(fun, widgets).to_multiset(),
            ).count(y) == widgets.to_multiset().count(y) by {
            assert(!widgets.contains(y));
        }
    } else {
        let prefix = widgets.drop_last();
        let x = widgets.last();
        assert(widgets =~= prefix.push(x));
        crate::worker::lemma_routing_step(fun, prefix, x);
        lemma_routing_conserves(fun, prefix);
        assert forall|y: I|
            finished_of(fun, widgets).to_multiset().add(
                requeued_of(fun, widgets).to_multiset(),
            ).count(y) == widgets.to_multiset().count(y) by {
            assert(widgets.to_multiset() =~= prefix.to_multiset().insert(x));
            if fun.inspect_spec(x) {
                assert(finished_of(fun, widgets).to_multiset() =~= finished_of(
                    fun,
                    prefix,
                ).to_multiset().insert(x));
            } else {
                assert(requeued_of(fun, widgets).to_multiset() =~= requeued_of(
                    fun,
                    prefix,
                ).to_multiset().insert(x));
            }
            assert(finished_of(fun, prefix).to_multiset().add(
                requeued_of(fun, prefix).to_multiset(),
            ).count(y) == prefix.to_multiset().count(y));
        }
    }
}

/// Every item a completed run delivers passes inspection: nothing reaches
/// the result stream unless the predicate judged it finished.
pub proof fn lemma_run_emits_only_finished<I: Send + 'static, W: WorkerFun<I>>(
    fun: W,
    pool: Seq<I>,
    fuel: nat,
)
    ensures
        model_run(fun, pool, fuel) matches Some(emitted) ==> forall|j: int|
            0 <= j < emitted.len() ==> fun.inspect_spec(#[trigger] emitted[j]),
    decreases fuel,
{
    broadcast use group_filter_ensures;

    if pool.len() == 0 {
    } else if fuel == 0 {
    } else {
        let widgets = fun.improve_spec(pool.last());
        let tail_pool = pool.drop_last() + requeued_of(fun, widgets);
        lemma_run_emits_only_finished(fun, tail_pool, (fuel - 1) as nat);
        match model_run(fun, tail_pool, (fuel - 1) as nat) {
            None => {},
            Some(rest) => {
                let fin = finished_of(fun, widgets);
                assert forall|j: int| 0 <= j < (fin + rest).len() implies fun.inspect_spec(
                    #[trigger] (fin + rest)[j],
                ) by {
                    if j < fin.len() {
                        assert((fin + rest)[j] == fin[j]);
                        assert(fun.inspect_spec(fin[j]));
                    } else {
                        assert((fin + rest)[j] == rest[j - fin.len()]);
                    }
                }
            },
        }
    }
}

} // verus!
