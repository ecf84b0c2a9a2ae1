//! Aggregation and orchestration: the shared result of a harvest run, the
//! computing core of one per-URL task, and the folding of task outcomes
//! into the final aggregates.
//!
//! Concurrency lives outside the library: worker tasks hand their terminal
//! [`TaskOutcome`] to a single owner, which applies them here one at a
//! time. The lemmas at the end show that the aggregates depend only on
//! which outcomes arrived, not on the order the scheduler produced.

use vstd::prelude::*;
use vstd::multiset::Multiset;
use vstd::seq_lib::lemma_multiset_commutative;
use vstd::seq_lib::lemma_fold_right_permutation;
use vstd::seq_lib::commutative_foldr;

use crate::page::{PageModel, PageNode};
use crate::recipe::{
    extract, page_image_url, page_main_ingredients, page_main_instructions, page_side_ingredients,
    page_side_instructions, page_side_title, page_times, page_title, ExtractError,
};
use crate::render::{
    image_part, main_part, render_fragment, side_part, side_title_part, spec_render, times_part,
    title_part,
};

verus! {

/// The two aggregate collections of one harvest run: the flat shopping
/// list and the rendered recipe fragments, each in completion order.
pub struct HarvestResult {
    pub ingredients: Vec<String>,
    pub recipe_fragments: Vec<String>,
}

/// Why one URL contributed nothing to the run: the fetch failed, or the
/// fetched page had no main title. The two are distinguished so the run's
/// log can tell them apart.
#[derive(Debug, Clone, Copy, PartialEq, Eq, Structural)]
pub enum HarvestFailure {
    Fetch,
    MissingTitle,
}

/// The terminal state of one per-URL task: either its contribution to the
/// two aggregates, or the reason it contributes nothing.
#[derive(Debug, PartialEq)]
pub enum TaskOutcome {
    Harvested { ingredients: Vec<String>, fragment: String },
    Failed { failure: HarvestFailure },
}

impl HarvestResult {
    /// A fresh, empty result, created at the start of a run.
    pub fn new() -> (r: HarvestResult)
        ensures
            r.ingredients@.len() == 0,
            r.recipe_fragments@.len() == 0,
    {
        HarvestResult { ingredients: Vec::new(), recipe_fragments: Vec::new() }
    }

    /// Append one task's ingredient items as one contiguous block: nothing
    /// is lost, reordered, or interleaved mid-call, and the fragments are
    /// untouched.
    pub fn append_ingredients(&mut self, items: Vec<String>)
        ensures
            final(self).ingredients@ == old(self).ingredients@ + items@,
            final(self).ingredients.deep_view() == old(self).ingredients.deep_view()
                + items.deep_view(),
            final(self).recipe_fragments == old(self).recipe_fragments,
    {
        let mut items = items;
        let ghost items_deep = items.deep_view();
        self.ingredients.append(&mut items);
        proof {
            assert(self.ingredients.deep_view() =~= old(self).ingredients.deep_view()
                + items_deep);
        }
    }

    /// Append one task's rendered fragment; the ingredient list is untouched.
    pub fn append_recipe(&mut self, fragment: String)
        ensures
            final(self).recipe_fragments@ == old(self).recipe_fragments@.push(fragment),
            final(self).recipe_fragments.deep_view() == old(self).recipe_fragments.deep_view().push(
                fragment@,
            ),
            final(self).ingredients == old(self).ingredients,
    {
        self.recipe_fragments.push(fragment);
        proof {
            assert(self.recipe_fragments.deep_view()
                =~= old(self).recipe_fragments.deep_view().push(fragment@));
        }
    }
}

/// The combined ingredient items one page contributes to the shopping
/// list: the main items, then the side items when the page has a side
/// title.
pub open spec fn page_all_ingredients(ns: Seq<PageNode>) -> Seq<Seq<char>> {
    page_main_ingredients(ns) + (if page_side_title(ns) is Some {
        page_side_ingredients(ns)
    } else {
        Seq::<Seq<char>>::empty()
    })
}

/// The fragment a page with a main title renders to.
pub open spec fn page_fragment(ns: Seq<PageNode>) -> Seq<char> {
    image_part(page_image_url(ns)) + title_part(page_title(ns).unwrap()) + side_title_part(
        page_side_title(ns),
    ) + times_part(page_times(ns)) + main_part(
        page_main_ingredients(ns),
        page_main_instructions(ns),
    ) + side_part(
        page_side_title(ns),
        (if page_side_title(ns) is Some {
            page_side_ingredients(ns)
        } else {
            Seq::<Seq<char>>::empty()
        }),
        (if page_side_title(ns) is Some {
            page_side_instructions(ns)
        } else {
            Seq::<Seq<char>>::empty()
        }),
    )
}

/// The computing core of one harvest task, once the page is fetched and
/// parsed: extract a recipe and render it. Succeeds exactly when the page
/// has a main title, and then yields the page's combined ingredient items
/// and its rendered fragment; a page without a main title yields
/// `ExtractError::MissingTitle` and nothing else.
pub fn harvest_page(page: &PageModel) -> (r: Result<(Vec<String>, String), ExtractError>)
    ensures
        r is Ok <==> page_title(page.nodes@) is Some,
        match r {
            Ok(pair) => pair.0.deep_view() == page_all_ingredients(page.nodes@) && pair.1@
                == page_fragment(page.nodes@),
            Err(e) => e == ExtractError::MissingTitle,
        },
{
    let rec = match extract(page) {
        Ok(rec) => rec,
        Err(e) => {
            return Err(e);
        },
    };
    let fragment = render_fragment(&rec);
    proof {
        assert(spec_render(rec) == page_fragment(page.nodes@));
    }
    let mut items = rec.main_ingredients;
    let mut side = rec.side_ingredients;
    let ghost items_deep = items.deep_view();
    let ghost side_deep = side.deep_view();
    items.append(&mut side);
    proof {
        assert(items.deep_view() =~= items_deep + side_deep);
        assert(items.deep_view() =~= page_all_ingredients(page.nodes@));
    }
    Ok((items, fragment))
}

/// Fold one task's terminal state into the aggregates: a harvested page
/// contributes its items and its fragment, a failed one contributes
/// nothing.
pub fn record_outcome(result: &mut HarvestResult, outcome: TaskOutcome)
    ensures
        match outcome {
            TaskOutcome::Harvested { ingredients, fragment } => {
                &&& final(result).ingredients.deep_view() == old(result).ingredients.deep_view()
                    + ingredients.deep_view()
                &&& final(result).recipe_fragments.deep_view() == old(
                    result,
                ).recipe_fragments.deep_view().push(fragment@)
            },
            TaskOutcome::Failed { .. } => *final(result) == *old(result),
        },
{
    match outcome {
        TaskOutcome::Harvested { ingredients, fragment } => {
            result.append_ingredients(ingredients);
            result.append_recipe(fragment);
        },
        TaskOutcome::Failed { .. } => {},
    }
}

/// The shopping-list items contributed by the successful outcomes, in
/// arrival order.
pub open spec fn successful_ingredients(outcomes: Seq<TaskOutcome>) -> Seq<Seq<char>>
    decreases outcomes.len(),
{
    if outcomes.len() == 0 {
        Seq::empty()
    } else {
        successful_ingredients(outcomes.drop_last()) + (match outcomes.last() {
            TaskOutcome::Harvested { ingredients, .. } => ingredients.deep_view(),
            TaskOutcome::Failed { .. } => Seq::<Seq<char>>::empty(),
        })
    }
}

/// The fragments contributed by the successful outcomes, in arrival order.
pub open spec fn successful_fragments(outcomes: Seq<TaskOutcome>) -> Seq<Seq<char>>
    decreases outcomes.len(),
{
    if outcomes.len() == 0 {
        Seq::empty()
    } else {
        successful_fragments(outcomes.drop_last()) + (match outcomes.last() {
            TaskOutcome::Harvested { fragment, .. } => seq![fragment@],
            TaskOutcome::Failed { .. } => Seq::<Seq<char>>::empty(),
        })
    }
}

/// How many of the outcomes succeeded.
pub open spec fn success_count(outcomes: Seq<TaskOutcome>) -> nat
    decreases outcomes.len(),
{
    if outcomes.len() == 0 {
        0nat
    } else {
        success_count(outcomes.drop_last()) + (match outcomes.last() {
            TaskOutcome::Harvested { .. } => 1nat,
            TaskOutcome::Failed { .. } => 0nat,
        })
    }
}

/// Fold a whole run's task outcomes into the final aggregates.
///
/// Both collections reflect exactly the successful outcomes' data, in
/// arrival order; failed tasks leave no trace. The run completes whatever
/// mixture of successes and failures arrives.
pub fn collect_outcomes(outcomes: Vec<TaskOutcome>) -> (r: HarvestResult)
    ensures
        r.ingredients.deep_view() == successful_ingredients(outcomes@),
        r.recipe_fragments.deep_view() == successful_fragments(outcomes@),
{
    let ghost all = outcomes@;
    let mut rest = outcomes;
    let mut result = HarvestResult::new();
    let ghost mut k: int = 0;
    proof {
        assert(all.take(0) =~= Seq::<TaskOutcome>::empty());
        assert(all.skip(0) =~= all);
        assert(result.ingredients.deep_view() =~= Seq::<Seq<char>>::empty());
        assert(result.recipe_fragments.deep_view() =~= Seq::<Seq<char>>::empty());
    }
    while rest.len() > 0
        invariant
            0 <= k <= all.len(),
            rest@ == all.skip(k),
            result.ingredients.deep_view() == successful_ingredients(all.take(k)),
            result.recipe_fragments.deep_view() == successful_fragments(all.take(k)),
        decreases rest@.len(),
    {
        let outcome = rest.remove(0);
        proof {
            assert(outcome == all[k]);
            assert(rest@ =~= all.skip(k + 1));
            assert(all.take(k + 1).drop_last() =~= all.take(k));
            assert(all.take(k + 1).last() == all[k]);
        }
        record_outcome(&mut result, outcome);
        proof {
            if outcome is Harvested {
                assert(successful_fragments(all.take(k + 1)) =~= successful_fragments(
                    all.take(k),
                ).push(all.take(k + 1).last()->Harvested_fragment@));
            } else {
                assert(successful_ingredients(all.take(k + 1)) =~= successful_ingredients(
                    all.take(k),
                ));
                assert(successful_fragments(all.take(k + 1)) =~= successful_fragments(
                    all.take(k),
                ));
            }
            k = k + 1;
        }
    }
    proof {
        assert(all.take(all.len() as int) =~= all);
    }
    result
}

/// One recipe document holds exactly one fragment per successful outcome.
pub proof fn lemma_one_fragment_per_success(outcomes: Seq<TaskOutcome>)
    ensures
        successful_fragments(outcomes).len() == success_count(outcomes),
    decreases outcomes.len(),
{
    if outcomes.len() > 0 {
        lemma_one_fragment_per_success(outcomes.drop_last());
    }
}

/// One serialized append call against a run's aggregates, as the
/// aggregator sees it: a whole multi-item ingredient block, or one
/// fragment. Concurrent tasks produce some interleaving (a sequence) of
/// these calls; which interleaving is the scheduler's choice.
pub enum AppendCall {
    Ingredients(Seq<Seq<char>>),
    Fragment(Seq<char>),
}

/// The aggregates after a sequence of append calls, applied in order, each
/// call atomic.
pub open spec fn apply_calls(
    ingredients: Seq<Seq<char>>,
    fragments: Seq<Seq<char>>,
    calls: Seq<AppendCall>,
) -> (Seq<Seq<char>>, Seq<Seq<char>>)
    decreases calls.len(),
{
    if calls.len() == 0 {
        (ingredients, fragments)
    } else {
        let prev = apply_calls(ingredients, fragments, calls.drop_last());
        match calls.last() {
            AppendCall::Ingredients(items) => (prev.0 + items, prev.1),
            AppendCall::Fragment(f) => (prev.0, prev.1.push(f)),
        }
    }
}

/// The ingredient items one call carries, as a multiset.
pub open spec fn call_ingredients(c: AppendCall) -> Multiset<Seq<char>> {
    match c {
        AppendCall::Ingredients(items) => items.to_multiset(),
        AppendCall::Fragment(_) => Multiset::empty(),
    }
}

/// The fragment one call carries, as a multiset.
pub open spec fn call_fragment(c: AppendCall) -> Multiset<Seq<char>> {
    match c {
        AppendCall::Ingredients(_) => Multiset::empty(),
        AppendCall::Fragment(f) => Multiset::empty().insert(f),
    }
}

/// The fold step that gathers ingredient items.
pub open spec fn ingredients_step() -> spec_fn(AppendCall, Multiset<Seq<char>>) -> Multiset<
    Seq<char>,
> {
    |c: AppendCall, acc: Multiset<Seq<char>>| acc.add(call_ingredients(c))
}

/// The fold step that gathers fragments.
pub open spec fn fragments_step() -> spec_fn(AppendCall, Multiset<Seq<char>>) -> Multiset<
    Seq<char>,
> {
    |c: AppendCall, acc: Multiset<Seq<char>>| acc.add(call_fragment(c))
}

/// Every ingredient item carried by any of the calls, as one multiset.
pub open spec fn calls_ingredients(calls: Seq<AppendCall>) -> Multiset<Seq<char>> {
    calls.fold_right(ingredients_step(), Multiset::empty())
}

/// Every fragment carried by any of the calls, as one multiset.
pub open spec fn calls_fragments(calls: Seq<AppendCall>) -> Multiset<Seq<char>> {
    calls.fold_right(fragments_step(), Multiset::empty())
}

proof fn lemma_fold_add_out<A>(
    s: Seq<A>,
    f: spec_fn(A, Multiset<Seq<char>>) -> Multiset<Seq<char>>,
    g: spec_fn(A) -> Multiset<Seq<char>>,
    v: Multiset<Seq<char>>,
    m: Multiset<Seq<char>>,
)
    requires
        forall|c: A, acc: Multiset<Seq<char>>| #[trigger] f(c, acc) == acc.add(g(c)),
    ensures
        s.fold_right(f, v.add(m)) == s.fold_right(f, v).add(m),
    decreases s.len(),
{
    if s.len() > 0 {
        let last = s.last();
        assert(f(last, v.add(m)) == v.add(m).add(g(last)));
        assert(v.add(m).add(g(last)) =~= v.add(g(last)).add(m));
        lemma_fold_add_out(s.drop_last(), f, g, v.add(g(last)), m);
        assert(f(last, v) == v.add(g(last)));
    }
}

/// No call's items are lost, duplicated, or mixed into another call's:
/// after any sequence of append calls the two aggregates hold, as
/// multisets, exactly what they started with plus the union of what the
/// calls carried.
pub proof fn lemma_aggregation_complete(
    ingredients: Seq<Seq<char>>,
    fragments: Seq<Seq<char>>,
    calls: Seq<AppendCall>,
)
    ensures
        apply_calls(ingredients, fragments, calls).0.to_multiset() == ingredients.to_multiset().add(
            calls_ingredients(calls),
        ),
        apply_calls(ingredients, fragments, calls).1.to_multiset() == fragments.to_multiset().add(
            calls_fragments(calls),
        ),
    decreases calls.len(),
{
    broadcast use vstd::seq_lib::group_to_multiset_ensures;

    let gi = |c: AppendCall| call_ingredients(c);
    let gf = |c: AppendCall| call_fragment(c);
    let fi = ingredients_step();
    let ff = fragments_step();
    assert(forall|c: AppendCall, acc: Multiset<Seq<char>>| #[trigger] fi(c, acc) == acc.add(
        gi(c),
    ));
    assert(forall|c: AppendCall, acc: Multiset<Seq<char>>| #[trigger] ff(c, acc) == acc.add(
        gf(c),
    ));
    if calls.len() == 0 {
        assert(ingredients.to_multiset().add(Multiset::<Seq<char>>::empty())
            =~= ingredients.to_multiset());
        assert(fragments.to_multiset().add(Multiset::<Seq<char>>::empty())
            =~= fragments.to_multiset());
    } else {
        let rest = calls.drop_last();
        let last = calls.last();
        lemma_aggregation_complete(ingredients, fragments, rest);
        let prev = apply_calls(ingredients, fragments, rest);
        assert(calls_ingredients(calls) == rest.fold_right(fi, Multiset::empty().add(gi(last))));
        lemma_fold_add_out(rest, fi, gi, Multiset::empty(), gi(last));
        assert(calls_ingredients(calls) == calls_ingredients(rest).add(gi(last)));
        assert(calls_fragments(calls) == rest.fold_right(ff, Multiset::empty().add(gf(last))));
        lemma_fold_add_out(rest, ff, gf, Multiset::empty(), gf(last));
        assert(calls_fragments(calls) == calls_fragments(rest).add(gf(last)));
        match last {
            AppendCall::Ingredients(items) => {
                lemma_multiset_commutative(prev.0, items);
                assert(prev.0.to_multiset().add(items.to_multiset())
                    =~= ingredients.to_multiset().add(calls_ingredients(calls)));
                assert(prev.1.to_multiset().add(Multiset::<Seq<char>>::empty()) =~= prev.1.to_multiset());
                assert(fragments.to_multiset().add(calls_fragments(rest)).add(gf(last))
                    =~= fragments.to_multiset().add(calls_fragments(calls)));
            },
            AppendCall::Fragment(f) => {
                assert(prev.1.push(f).to_multiset() =~= prev.1.to_multiset().insert(f));
                assert(prev.1.to_multiset().insert(f)
                    =~= fragments.to_multiset().add(calls_fragments(calls)));
                assert(prev.0.to_multiset().add(Multiset::<Seq<char>>::empty()) =~= prev.0.to_multiset());
                assert(ingredients.to_multiset().add(calls_ingredients(rest)).add(gi(last))
                    =~= ingredients.to_multiset().add(calls_ingredients(calls)));
            },
        }
    }
}

/// The union of the calls' contents does not depend on the interleaving:
/// two schedules made of the same calls carry the same items and the same
/// fragments. Together with `lemma_aggregation_complete`, the final
/// aggregates of a run are, as multisets, independent of the order in
/// which its tasks completed.
pub proof fn lemma_aggregation_order_insensitive(calls1: Seq<AppendCall>, calls2: Seq<AppendCall>)
    requires
        calls1.to_multiset() == calls2.to_multiset(),
    ensures
        calls_ingredients(calls1) == calls_ingredients(calls2),
        calls_fragments(calls1) == calls_fragments(calls2),
{
    let fi = ingredients_step();
    let ff = fragments_step();
    assert forall|x: AppendCall, y: AppendCall, v: Multiset<Seq<char>>|
        #[trigger] fi(x, fi(y, v)) == fi(y, fi(x, v)) by {
        assert(v.add(call_ingredients(y)).add(call_ingredients(x)) =~= v.add(
            call_ingredients(x),
        ).add(call_ingredients(y)));
    }
    assert forall|x: AppendCall, y: AppendCall, v: Multiset<Seq<char>>|
        #[trigger] ff(x, ff(y, v)) == ff(y, ff(x, v)) by {
        assert(v.add(call_fragment(y)).add(call_fragment(x)) =~= v.add(call_fragment(x)).add(
            call_fragment(y),
        ));
    }
    assert(commutative_foldr(fi));
    assert(commutative_foldr(ff));
    lemma_fold_right_permutation(calls1, calls2, fi, Multiset::<Seq<char>>::empty());
    lemma_fold_right_permutation(calls1, calls2, ff, Multiset::<Seq<char>>::empty());
}

/// The ingredient items one outcome contributes, as a multiset.
pub open spec fn outcome_ingredients(o: TaskOutcome) -> Multiset<Seq<char>> {
    match o {
        TaskOutcome::Harvested { ingredients, .. } => ingredients.deep_view().to_multiset(),
        TaskOutcome::Failed { .. } => Multiset::empty(),
    }
}

/// The fragment one outcome contributes, as a multiset.
pub open spec fn outcome_fragment(o: TaskOutcome) -> Multiset<Seq<char>> {
    match o {
        TaskOutcome::Harvested { fragment, .. } => Multiset::empty().insert(fragment@),
        TaskOutcome::Failed { .. } => Multiset::empty(),
    }
}

/// The fold step that gathers a run's ingredient items.
pub open spec fn outcome_ingredients_step() -> spec_fn(TaskOutcome, Multiset<Seq<char>>) -> Multiset<
    Seq<char>,
> {
    |o: TaskOutcome, acc: Multiset<Seq<char>>| acc.add(outcome_ingredients(o))
}

/// The fold step that gathers a run's fragments.
pub open spec fn outcome_fragments_step() -> spec_fn(TaskOutcome, Multiset<Seq<char>>) -> Multiset<
    Seq<char>,
> {
    |o: TaskOutcome, acc: Multiset<Seq<char>>| acc.add(outcome_fragment(o))
}

/// Every ingredient item the run's outcomes carry, as one multiset.
pub open spec fn outcomes_ingredients(outcomes: Seq<TaskOutcome>) -> Multiset<Seq<char>> {
    outcomes.fold_right(outcome_ingredients_step(), Multiset::empty())
}

/// Every fragment the run's outcomes carry, as one multiset.
pub open spec fn outcomes_fragments(outcomes: Seq<TaskOutcome>) -> Multiset<Seq<char>> {
    outcomes.fold_right(outcome_fragments_step(), Multiset::empty())
}

/// The aggregates a run collects hold, as multisets, exactly what its
/// successful outcomes carried: no outcome's items are lost or duplicated,
/// and failed outcomes leave no trace.
pub proof fn lemma_run_aggregates_complete(outcomes: Seq<TaskOutcome>)
    ensures
        successful_ingredients(outcomes).to_multiset() == outcomes_ingredients(outcomes),
        successful_fragments(outcomes).to_multiset() == outcomes_fragments(outcomes),
    decreases outcomes.len(),
{
    broadcast use vstd::seq_lib::group_to_multiset_ensures;

    let gi = |o: TaskOutcome| outcome_ingredients(o);
    let gf = |o: TaskOutcome| outcome_fragment(o);
    let fi = outcome_ingredients_step();
    let ff = outcome_fragments_step();
    assert(forall|o: TaskOutcome, acc: Multiset<Seq<char>>| #[trigger] fi(o, acc) == acc.add(
        gi(o),
    ));
    assert(forall|o: TaskOutcome, acc: Multiset<Seq<char>>| #[trigger] ff(o, acc) == acc.add(
        gf(o),
    ));
    if outcomes.len() == 0 {
        assert(successful_ingredients(outcomes).to_multiset() =~= Multiset::<Seq<char>>::empty());
        assert(successful_fragments(outcomes).to_multiset() =~= Multiset::<Seq<char>>::empty());
    } else {
        let rest = outcomes.drop_last();
        let last = outcomes.last();
        lemma_run_aggregates_complete(rest);
        assert(outcomes_ingredients(outcomes) == rest.fold_right(
            fi,
            Multiset::empty().add(gi(last)),
        ));
        lemma_fold_add_out(rest, fi, gi, Multiset::empty(), gi(last));
        assert(outcomes_ingredients(outcomes) == outcomes_ingredients(rest).add(gi(last)));
        assert(outcomes_fragments(outcomes) == rest.fold_right(
            ff,
            Multiset::empty().add(gf(last)),
        ));
        lemma_fold_add_out(rest, ff, gf, Multiset::empty(), gf(last));
        assert(outcomes_fragments(outcomes) == outcomes_fragments(rest).add(gf(last)));
        match last {
            TaskOutcome::Harvested { ingredients, fragment } => {
                lemma_multiset_commutative(successful_ingredients(rest), ingredients.deep_view());
                assert(successful_ingredients(outcomes).to_multiset() =~= outcomes_ingredients(
                    outcomes,
                ));
                assert(successful_fragments(outcomes) =~= successful_fragments(rest).push(
                    fragment@,
                ));
                assert(successful_fragments(outcomes).to_multiset() =~= outcomes_fragments(
                    outcomes,
                ));
            },
            TaskOutcome::Failed { .. } => {
                assert(successful_ingredients(outcomes) =~= successful_ingredients(rest));
                assert(successful_fragments(outcomes) =~= successful_fragments(rest));
                assert(outcomes_ingredients(outcomes) =~= outcomes_ingredients(rest));
                assert(outcomes_fragments(outcomes) =~= outcomes_fragments(rest));
            },
        }
    }
}

/// Task-completion order never changes what a run aggregates: two arrival
/// orders of the same outcomes collect the same shopping list and the same
/// fragments, as multisets.
pub proof fn lemma_run_order_insensitive(
    outcomes1: Seq<TaskOutcome>,
    outcomes2: Seq<TaskOutcome>,
)
    requires
        outcomes1.to_multiset() == outcomes2.to_multiset(),
    ensures
        successful_ingredients(outcomes1).to_multiset() == successful_ingredients(
            outcomes2,
        ).to_multiset(),
        successful_fragments(outcomes1).to_multiset() == successful_fragments(
            outcomes2,
        ).to_multiset(),
{
    let fi = outcome_ingredients_step();
    let ff = outcome_fragments_step();
    assert forall|x: TaskOutcome, y: TaskOutcome, v: Multiset<Seq<char>>|
        #[trigger] fi(x, fi(y, v)) == fi(y, fi(x, v)) by {
        assert(v.add(outcome_ingredients(y)).add(outcome_ingredients(x)) =~= v.add(
            outcome_ingredients(x),
        ).add(outcome_ingredients(y)));
    }
    assert forall|x: TaskOutcome, y: TaskOutcome, v: Multiset<Seq<char>>|
        #[trigger] ff(x, ff(y, v)) == ff(y, ff(x, v)) by {
        assert(v.add(outcome_fragment(y)).add(outcome_fragment(x)) =~= v.add(
            outcome_fragment(x),
        ).add(outcome_fragment(y)));
    }
    assert(commutative_foldr(fi));
    assert(commutative_foldr(ff));
    lemma_fold_right_permutation(outcomes1, outcomes2, fi, Multiset::<Seq<char>>::empty());
    lemma_fold_right_permutation(outcomes1, outcomes2, ff, Multiset::<Seq<char>>::empty());
    lemma_run_aggregates_complete(outcomes1);
    lemma_run_aggregates_complete(outcomes2);
}


/// The append calls one run's outcomes make against the aggregates, in
/// arrival order: each harvested outcome appends its ingredient block and
/// then its fragment, a failed one appends nothing.
pub open spec fn calls_of(outcomes: Seq<TaskOutcome>) -> Seq<AppendCall>
    decreases outcomes.len(),
{
    if outcomes.len() == 0 {
        Seq::empty()
    } else {
        calls_of(outcomes.drop_last()) + (match outcomes.last() {
            TaskOutcome::Harvested { ingredients, fragment } => seq![
                AppendCall::Ingredients(ingredients.deep_view()),
                AppendCall::Fragment(fragment@),
            ],
            TaskOutcome::Failed { .. } => Seq::<AppendCall>::empty(),
        })
    }
}

/// Folding a run's outcomes is one serialization of its append calls: the
/// aggregates `collect_outcomes` builds are exactly the aggregates that
/// the outcomes' calls, applied in arrival order, leave behind.
pub proof fn lemma_collect_serializes_calls(outcomes: Seq<TaskOutcome>)
    ensures
        apply_calls(Seq::empty(), Seq::empty(), calls_of(outcomes)) == (
            successful_ingredients(outcomes),
            successful_fragments(outcomes),
        ),
    decreases outcomes.len(),
{
    if outcomes.len() == 0 {
        assert(calls_of(outcomes) =~= Seq::<AppendCall>::empty());
        assert(successful_ingredients(outcomes) =~= Seq::<Seq<char>>::empty());
        assert(successful_fragments(outcomes) =~= Seq::<Seq<char>>::empty());
    } else {
        let rest = outcomes.drop_last();
        lemma_collect_serializes_calls(rest);
        let cs = calls_of(outcomes);
        match outcomes.last() {
            TaskOutcome::Harvested { ingredients, fragment } => {
                let ing_call = AppendCall::Ingredients(ingredients.deep_view());
                let frag_call = AppendCall::Fragment(fragment@);
                assert(cs.drop_last() =~= calls_of(rest).push(ing_call));
                assert(cs.last() == frag_call);
                assert(cs.drop_last().drop_last() =~= calls_of(rest));
                assert(cs.drop_last().last() == ing_call);
                let after_rest = apply_calls(Seq::empty(), Seq::empty(), calls_of(rest));
                let after_ing = apply_calls(Seq::empty(), Seq::empty(), cs.drop_last());
                assert(after_ing == (after_rest.0 + ingredients.deep_view(), after_rest.1));
                assert(apply_calls(Seq::empty(), Seq::empty(), cs) == (
                    after_ing.0,
                    after_ing.1.push(fragment@),
                ));
                assert(successful_ingredients(outcomes) == successful_ingredients(rest)
                    + ingredients.deep_view());
                assert(successful_fragments(outcomes) =~= successful_fragments(rest).push(
                    fragment@,
                ));
            },
            TaskOutcome::Failed { .. } => {
                assert(cs =~= calls_of(rest));
                assert(successful_ingredients(outcomes) =~= successful_ingredients(rest));
                assert(successful_fragments(outcomes) =~= successful_fragments(rest));
            },
        }
    }
}

} // verus!
