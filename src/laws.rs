//! What holds of the registry across several operations.
use crate::error::{creation_result, Error};
use crate::key::KeyView;
use crate::registry::{
    BindingModel,
    bound, keeps, resolution, settle_result, settled, Lifecycle, RegistryModel, Settled, Step,
};
use vstd::prelude::*;

verus! {

/// The registry after binding each `(key, lifecycle, recipe)` of `binds` in turn.
pub open spec fn bound_all<R, V>(
    m: RegistryModel<R, V>,
    binds: Seq<(KeyView, Lifecycle, R)>,
) -> RegistryModel<R, V>
    decreases binds.len(),
{
    if binds.len() == 0 {
        m
    } else {
        let b = binds.last();
        bound(bound_all(m, binds.drop_last()), b.0, b.1, b.2)
    }
}

/// One request for `key`, served one at a time: it is resolved, and where it
/// must construct, the recipe's outcome is `outcome` and is settled at once.
/// Gives the registry after the request and the step it was told to take.
pub open spec fn served<R, V, E>(
    m: RegistryModel<R, V>,
    key: KeyView,
    outcome: Result<V, E>,
) -> (RegistryModel<R, V>, Step<R, V>) {
    match resolution(m, key) {
        Step::Construct(_, _, stamp) => (settled(m, key, stamp, outcome), resolution(m, key)),
        s => (m, s),
    }
}

/// Requests for `key` served one after another; `outcomes[i]` is what the
/// recipe gives if request `i` runs it. Gives the final registry and the step
/// of each request.
pub open spec fn served_all<R, V, E>(
    m: RegistryModel<R, V>,
    key: KeyView,
    outcomes: Seq<Result<V, E>>,
) -> (RegistryModel<R, V>, Seq<Step<R, V>>)
    decreases outcomes.len(),
{
    if outcomes.len() == 0 {
        (m, Seq::empty())
    } else {
        let before = served_all(m, key, outcomes.drop_last());
        let after = served(before.0, key, outcomes.last());
        (after.0, before.1.push(after.1))
    }
}

/// A key that no bind has named is not bound: a request for it is told that
/// there is no binding.
pub proof fn law_unbound_key_has_no_binding<R, V>(
    binds: Seq<(KeyView, Lifecycle, R)>,
    key: KeyView,
)
    requires
        forall|i: int| 0 <= i < binds.len() ==> (#[trigger] binds[i]).0 != key,
    ensures
        !bound_all(Map::<KeyView, BindingModel<R, V>>::empty(), binds).contains_key(key),
        resolution(bound_all(Map::<KeyView, BindingModel<R, V>>::empty(), binds), key)
            == Step::<R, V>::NoBinding,
    decreases binds.len(),
{
    if binds.len() > 0 {
        let rest = binds.drop_last();
        assert forall|i: int| 0 <= i < rest.len() implies (#[trigger] rest[i]).0 != key by {
            assert(rest[i] == binds[i]);
        }
        law_unbound_key_has_no_binding::<R, V>(rest, key);
        assert(binds.last() == binds[binds.len() - 1]);
    }
}

/// Requests for a singleton whose cell is empty, served one at a time, where
/// the first construction succeeds: the first request runs the recipe and
/// every later one is given that same value; the recipe runs exactly once.
pub proof fn law_singleton_constructs_once<R, V, E>(
    m: RegistryModel<R, V>,
    key: KeyView,
    outcomes: Seq<Result<V, E>>,
)
    requires
        m.contains_key(key),
        m[key].lifecycle == Lifecycle::Singleton,
        m[key].cached is None,
        outcomes.len() >= 1,
        outcomes[0] is Ok,
    ensures
        ({
            let (after, steps) = served_all(m, key, outcomes);
            let v = outcomes[0]->Ok_0;
            &&& steps.len() == outcomes.len()
            &&& steps[0] == Step::<R, V>::Construct(Lifecycle::Singleton, m[key].recipe, m[key].stamp)
            &&& forall|i: int| 1 <= i < steps.len() ==> steps[i] == Step::<R, V>::Cached(v)
            &&& after == m.insert(
                key,
                BindingModel {
                    lifecycle: Lifecycle::Singleton,
                    recipe: m[key].recipe,
                    cached: Some(v),
                    stamp: m[key].stamp,
                },
            )
            &&& settle_result(m, key, m[key].stamp, outcomes[0]) == Ok::<Settled<V>, Error<E>>(
                Settled::Kept,
            )
        }),
    decreases outcomes.len(),
{
    let v = outcomes[0]->Ok_0;
    let filled = m.insert(
        key,
        BindingModel {
            lifecycle: Lifecycle::Singleton,
            recipe: m[key].recipe,
            cached: Some(v),
            stamp: m[key].stamp,
        },
    );
    if outcomes.len() == 1 {
        let rest = outcomes.drop_last();
        assert(rest.len() == 0);
        assert(outcomes.last() == outcomes[0]);
        assert(served_all(m, key, rest) == (m, Seq::<Step<R, V>>::empty()));
        assert(keeps(m, key, m[key].stamp));
        assert(settled(m, key, m[key].stamp, outcomes[0]) == filled);
    } else {
        let rest = outcomes.drop_last();
        assert(rest[0] == outcomes[0]);
        law_singleton_constructs_once(m, key, rest);
        let before = served_all(m, key, rest);
        assert(before.0 == filled);
        assert(resolution(filled, key) == Step::<R, V>::Cached(v));
        let steps = served_all(m, key, outcomes).1;
        assert(steps == before.1.push(Step::<R, V>::Cached(v)));
        assert forall|i: int| 1 <= i < steps.len() implies steps[i] == Step::<R, V>::Cached(v) by {
            if i < before.1.len() {
                assert(steps[i] == before.1[i]);
            }
        }
    }
}

/// Requests for a transient binding each run the recipe, whatever it gives,
/// and leave the registry as it was.
pub proof fn law_transient_constructs_every_time<R, V, E>(
    m: RegistryModel<R, V>,
    key: KeyView,
    outcomes: Seq<Result<V, E>>,
)
    requires
        m.contains_key(key),
        m[key].lifecycle == Lifecycle::Transient,
    ensures
        ({
            let (after, steps) = served_all(m, key, outcomes);
            &&& after == m
            &&& steps.len() == outcomes.len()
            &&& forall|i: int|
                0 <= i < steps.len() ==> steps[i] == Step::<R, V>::Construct(
                    Lifecycle::Transient,
                    m[key].recipe,
                    m[key].stamp,
                )
        }),
    decreases outcomes.len(),
{
    if outcomes.len() > 0 {
        let rest = outcomes.drop_last();
        law_transient_constructs_every_time(m, key, rest);
        let before = served_all(m, key, rest);
        let steps = served_all(m, key, outcomes).1;
        assert forall|i: int| 0 <= i < steps.len() implies steps[i] == Step::<R, V>::Construct(
            Lifecycle::Transient,
            m[key].recipe,
            m[key].stamp,
        ) by {
            if i < before.1.len() {
                assert(steps[i] == before.1[i]);
            }
        }
    }
}

/// Binding a key again replaces what it did before: the next request runs the
/// new recipe, not a value the old binding cached, and a late success of the
/// old recipe is not kept.
pub proof fn law_rebind_replaces<R, V, E>(
    m: RegistryModel<R, V>,
    key: KeyView,
    lifecycle: Lifecycle,
    recipe: R,
    late: Result<V, E>,
)
    requires
        m.contains_key(key),
    ensures
        ({
            let m2 = bound(m, key, lifecycle, recipe);
            &&& resolution(m2, key) == Step::<R, V>::Construct(lifecycle, recipe, m2[key].stamp)
            &&& settled(m2, key, m[key].stamp, late) == m2
        }),
{
    let m2 = bound(m, key, lifecycle, recipe);
    assert(m2[key].stamp != m[key].stamp);
}

/// A failed construction is reported as `InstanceCreationFailed` around the
/// very error the recipe gave, and is not cached: the registry is unchanged,
/// so the next request for the key runs the recipe again.
pub proof fn law_failure_is_reported_and_not_cached<R, V, E>(
    m: RegistryModel<R, V>,
    key: KeyView,
    stamp: u64,
    e: E,
)
    ensures
        settle_result(m, key, stamp, Err::<V, E>(e)) == Err::<Settled<V>, Error<E>>(
            Error::InstanceCreationFailed(e),
        ),
        creation_result(Err::<V, E>(e)) == Err::<V, Error<E>>(Error::InstanceCreationFailed(e)),
        settled(m, key, stamp, Err::<V, E>(e)) == m,
        served(m, key, Err::<V, E>(e)).0 == m,
{
}

} // verus!
