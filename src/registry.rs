use crate::error::Error;
use crate::key::{BindingKey, KeyView};
use crate::lazy_cell::LazyCell;
use vstd::prelude::*;

verus! {

/// Whether a binding constructs afresh on every request or once for all.
#[derive(Debug, Clone, Copy, PartialEq, Eq, Structural)]
pub enum Lifecycle {
    Transient,
    Singleton,
}

/// What the registry knows of one binding: its lifecycle, its recipe, the
/// value its cell holds, and the stamp that tells it apart from the bindings
/// that held the same key before it.
pub struct BindingModel<R, V> {
    pub lifecycle: Lifecycle,
    pub recipe: R,
    pub cached: Option<V>,
    pub stamp: u64,
}

/// The registry as a map from key to binding.
pub type RegistryModel<R, V> = Map<KeyView, BindingModel<R, V>>;

/// What a request for a key is told to do.
pub enum Step<R, V> {
    /// Nothing is bound under the key.
    NoBinding,
    /// A singleton already holds this value.
    Cached(V),
    /// Run the recipe, then settle its outcome under the stamp.
    Construct(Lifecycle, R, u64),
}

/// The binding under `key`, if any.
pub open spec fn binding_at<R, V>(m: RegistryModel<R, V>, key: KeyView) -> Option<BindingModel<R, V>> {
    if m.contains_key(key) {
        Some(m[key])
    } else {
        None
    }
}

/// The stamp of a new binding: one past that of the binding it replaces, so
/// that a late outcome of the replaced recipe is never taken for its own.
pub open spec fn next_stamp<R, V>(prior: Option<BindingModel<R, V>>) -> u64 {
    match prior {
        Some(b) => if b.stamp == u64::MAX {
            0
        } else {
            (b.stamp + 1) as u64
        },
        None => 0,
    }
}

/// The registry after binding `recipe` under `key`: the new binding replaces
/// any earlier one, with an empty cell.
pub open spec fn bound<R, V>(
    m: RegistryModel<R, V>,
    key: KeyView,
    lifecycle: Lifecycle,
    recipe: R,
) -> RegistryModel<R, V> {
    m.insert(
        key,
        BindingModel { lifecycle, recipe, cached: None, stamp: next_stamp(binding_at(m, key)) },
    )
}

/// How a request for `key` is served.
pub open spec fn resolution<R, V>(m: RegistryModel<R, V>, key: KeyView) -> Step<R, V> {
    match binding_at(m, key) {
        None => Step::NoBinding,
        Some(b) => match (b.lifecycle, b.cached) {
            (Lifecycle::Singleton, Some(v)) => Step::Cached(v),
            _ => Step::Construct(b.lifecycle, b.recipe, b.stamp),
        },
    }
}

/// Whether a successful construction made under `stamp` is kept in the cell:
/// the key still holds that same singleton binding, and its cell is empty.
pub open spec fn keeps<R, V>(m: RegistryModel<R, V>, key: KeyView, stamp: u64) -> bool {
    &&& m.contains_key(key)
    &&& m[key].lifecycle == Lifecycle::Singleton
    &&& m[key].stamp == stamp
    &&& m[key].cached is None
}

/// The registry after the outcome of a construction made under `stamp` comes
/// back. A failure is never cached.
pub open spec fn settled<R, V, E>(
    m: RegistryModel<R, V>,
    key: KeyView,
    stamp: u64,
    outcome: Result<V, E>,
) -> RegistryModel<R, V> {
    match outcome {
        Ok(v) => if keeps(m, key, stamp) {
            m.insert(
                key,
                BindingModel {
                    lifecycle: m[key].lifecycle,
                    recipe: m[key].recipe,
                    cached: Some(v),
                    stamp: m[key].stamp,
                },
            )
        } else {
            m
        },
        Err(_) => m,
    }
}

/// What settling an outcome hands back to the requester.
#[derive(Debug, PartialEq, Eq)]
pub enum Settled<V> {
    /// The singleton's cell kept the value: read it back through `resolve`.
    Kept,
    /// The value is the requester's own.
    Handed(V),
}

pub open spec fn settle_result<R, V, E>(
    m: RegistryModel<R, V>,
    key: KeyView,
    stamp: u64,
    outcome: Result<V, E>,
) -> Result<Settled<V>, Error<E>> {
    match outcome {
        Ok(v) => if keeps(m, key, stamp) {
            Ok(Settled::Kept)
        } else {
            Ok(Settled::Handed(v))
        },
        Err(e) => Err(Error::InstanceCreationFailed(e)),
    }
}

/// The answer of `Registry::resolve`, borrowing from the registry.
pub enum Resolution<'a, R, V> {
    NoBinding,
    Cached(&'a V),
    Construct { lifecycle: Lifecycle, recipe: &'a R, stamp: u64 },
}

impl<'a, R, V> Resolution<'a, R, V> {
    pub open spec fn view(&self) -> Step<R, V> {
        match *self {
            Resolution::NoBinding => Step::NoBinding,
            Resolution::Cached(v) => Step::Cached(*v),
            Resolution::Construct { lifecycle, recipe, stamp } => Step::Construct(
                lifecycle,
                *recipe,
                stamp,
            ),
        }
    }
}

struct Entry<R, V> {
    key: BindingKey,
    lifecycle: Lifecycle,
    recipe: R,
    cell: LazyCell<V>,
    stamp: u64,
}

impl<R, V> Entry<R, V> {
    closed spec fn model(&self) -> BindingModel<R, V> {
        BindingModel {
            lifecycle: self.lifecycle,
            recipe: self.recipe,
            cached: self.cell@,
            stamp: self.stamp,
        }
    }
}

closed spec fn unique_keys<R, V>(s: Seq<Entry<R, V>>) -> bool {
    forall|i: int, j: int|
        0 <= i < s.len() && 0 <= j < s.len() && i != j ==> s[i].key@ != s[j].key@
}

closed spec fn holds_key<R, V>(s: Seq<Entry<R, V>>, k: KeyView) -> bool {
    exists|i: int| 0 <= i < s.len() && s[i].key@ == k
}

closed spec fn model_of<R, V>(s: Seq<Entry<R, V>>) -> RegistryModel<R, V> {
    Map::new(
        |k: KeyView| holds_key(s, k),
        |k: KeyView| s[choose|i: int| 0 <= i < s.len() && s[i].key@ == k].model(),
    )
}

proof fn lemma_at<R, V>(s: Seq<Entry<R, V>>, i: int)
    requires
        unique_keys(s),
        0 <= i < s.len(),
    ensures
        model_of(s).contains_key(s[i].key@),
        model_of(s)[s[i].key@] == s[i].model(),
{
    let k = s[i].key@;
    assert(holds_key(s, k));
    let j = choose|j: int| 0 <= j < s.len() && s[j].key@ == k;
    assert(j == i);
}

proof fn lemma_push<R, V>(s: Seq<Entry<R, V>>, e: Entry<R, V>)
    requires
        unique_keys(s),
        !holds_key(s, e.key@),
    ensures
        unique_keys(s.push(e)),
        model_of(s.push(e)) == model_of(s).insert(e.key@, e.model()),
{
    let t = s.push(e);
    assert forall|i: int, j: int|
        0 <= i < t.len() && 0 <= j < t.len() && i != j implies t[i].key@ != t[j].key@ by {
        if i == s.len() {
            assert(!(s[j].key@ == e.key@));
        } else if j == s.len() {
            assert(!(s[i].key@ == e.key@));
        }
    }
    assert forall|k: KeyView| #[trigger] holds_key(t, k) == (k == e.key@ || holds_key(s, k)) by {
        if holds_key(s, k) {
            let i = choose|i: int| 0 <= i < s.len() && s[i].key@ == k;
            assert(t[i] == s[i]);
        }
        if holds_key(t, k) && k != e.key@ {
            let i = choose|i: int| 0 <= i < t.len() && t[i].key@ == k;
            assert(s[i] == t[i]);
        }
        if k == e.key@ {
            assert(t[s.len() as int] == e);
        }
    }
    assert forall|k: KeyView| #[trigger] model_of(t).contains_key(k) implies model_of(t)[k]
        == model_of(s).insert(e.key@, e.model())[k] by {
        if k == e.key@ {
            lemma_at(t, s.len() as int);
        } else {
            let i = choose|i: int| 0 <= i < t.len() && t[i].key@ == k;
            lemma_at(t, i);
            assert(s[i] == t[i]);
            lemma_at(s, i);
        }
    }
    assert(model_of(t) =~= model_of(s).insert(e.key@, e.model()));
}

proof fn lemma_remove<R, V>(s: Seq<Entry<R, V>>, i: int)
    requires
        unique_keys(s),
        0 <= i < s.len(),
    ensures
        unique_keys(s.remove(i)),
        !holds_key(s.remove(i), s[i].key@),
        model_of(s.remove(i)) == model_of(s).remove(s[i].key@),
{
    let t = s.remove(i);
    let gone = s[i].key@;
    assert forall|a: int, b: int|
        0 <= a < t.len() && 0 <= b < t.len() && a != b implies t[a].key@ != t[b].key@ by {
        let a2 = if a < i { a } else { a + 1 };
        let b2 = if b < i { b } else { b + 1 };
        assert(t[a] == s[a2] && t[b] == s[b2]);
    }
    assert forall|k: KeyView| #[trigger] holds_key(t, k) == (k != gone && holds_key(s, k)) by {
        if holds_key(t, k) {
            let a = choose|a: int| 0 <= a < t.len() && t[a].key@ == k;
            let a2 = if a < i { a } else { a + 1 };
            assert(t[a] == s[a2]);
        }
        if k != gone && holds_key(s, k) {
            let a = choose|a: int| 0 <= a < s.len() && s[a].key@ == k;
            let a2 = if a < i { a } else { a - 1 };
            assert(t[a2] == s[a]);
        }
    }
    assert(!holds_key(t, gone));
    assert forall|k: KeyView| #[trigger] model_of(t).contains_key(k) implies model_of(t)[k]
        == model_of(s).remove(gone)[k] by {
        let a = choose|a: int| 0 <= a < t.len() && t[a].key@ == k;
        let a2 = if a < i { a } else { a + 1 };
        assert(t[a] == s[a2]);
        lemma_at(t, a);
        lemma_at(s, a2);
    }
    assert(model_of(t) =~= model_of(s).remove(gone));
}

/// The registry of bindings: at most one binding per key, the last one bound.
pub struct Registry<R, V> {
    entries: Vec<Entry<R, V>>,
}

impl<R, V> Registry<R, V> {
    /// Keys are unique among the entries.
    pub closed spec fn wf(&self) -> bool {
        unique_keys(self.entries@)
    }

    pub closed spec fn view(&self) -> RegistryModel<R, V> {
        model_of(self.entries@)
    }

    /// An empty registry.
    pub fn new() -> (r: Self)
        ensures
            r.wf(),
            r@ == Map::<KeyView, BindingModel<R, V>>::empty(),
    {
        let r = Registry { entries: Vec::new() };
        assert(r@ =~= Map::<KeyView, BindingModel<R, V>>::empty());
        r
    }

    fn find(&self, key: &BindingKey) -> (r: Option<usize>)
        ensures
            r matches Some(i) ==> i < self.entries@.len() && self.entries@[i as int].key@ == key@,
            r is None ==> !holds_key(self.entries@, key@),
    {
        let mut i: usize = 0;
        while i < self.entries.len()
            invariant
                0 <= i <= self.entries@.len(),
                forall|j: int| 0 <= j < i ==> self.entries@[j].key@ != key@,
            decreases self.entries@.len() - i,
        {
            if self.entries[i].key.same(key) {
                return Some(i);
            }
            i += 1;
        }
        None
    }

    /// Binds `recipe` under `key` with the given lifecycle. A binding already
    /// under the key is dropped, its cell with it.
    pub fn bind(&mut self, key: BindingKey, lifecycle: Lifecycle, recipe: R)
        requires
            old(self).wf(),
        ensures
            final(self).wf(),
            final(self)@ == bound(old(self)@, key@, lifecycle, recipe),
    {
        let ghost k = key@;
        let stamp: u64 = match self.find(&key) {
            Some(i) => {
                proof {
                    lemma_at(self.entries@, i as int);
                    lemma_remove(self.entries@, i as int);
                }
                let prior = self.entries.remove(i);
                if prior.stamp == u64::MAX {
                    0
                } else {
                    prior.stamp + 1
                }
            },
            None => 0,
        };
        let entry = Entry { key, lifecycle, recipe, cell: LazyCell::new(), stamp };
        proof {
            lemma_push(self.entries@, entry);
        }
        self.entries.push(entry);
        assert(final(self)@ =~= bound(old(self)@, k, lifecycle, recipe));
    }

    /// Tells a request for `key` what to do: report that nothing is bound,
    /// take the singleton's cached value, or run the recipe.
    pub fn resolve(&self, key: &BindingKey) -> (r: Resolution<'_, R, V>)
        requires
            self.wf(),
        ensures
            r@ == resolution(self@, key@),
    {
        match self.find(key) {
            None => Resolution::NoBinding,
            Some(i) => {
                proof {
                    lemma_at(self.entries@, i as int);
                }
                let e = &self.entries[i];
                match e.lifecycle {
                    Lifecycle::Singleton => match e.cell.get() {
                        Some(v) => Resolution::Cached(v),
                        None => Resolution::Construct {
                            lifecycle: e.lifecycle,
                            recipe: &e.recipe,
                            stamp: e.stamp,
                        },
                    },
                    Lifecycle::Transient => Resolution::Construct {
                        lifecycle: e.lifecycle,
                        recipe: &e.recipe,
                        stamp: e.stamp,
                    },
                }
            },
        }
    }

    /// Whether a success made under `stamp` would still be kept: `key` holds
    /// that same singleton binding and its cell is empty. A request that
    /// waited for its turn to construct asks this before it runs the recipe.
    pub fn awaits(&self, key: &BindingKey, stamp: u64) -> (r: bool)
        requires
            self.wf(),
        ensures
            r == keeps(self@, key@, stamp),
    {
        match self.find(key) {
            None => false,
            Some(i) => {
                proof {
                    lemma_at(self.entries@, i as int);
                }
                let e = &self.entries[i];
                e.lifecycle == Lifecycle::Singleton && e.stamp == stamp && e.cell.get().is_none()
            },
        }
    }

    /// Takes back the outcome of a construction made under `stamp` for `key`.
    /// A success is kept when the key still holds that singleton binding with
    /// an empty cell, and is otherwise handed back; a failure is reported as
    /// `InstanceCreationFailed` around the same error and leaves the registry
    /// as it was, so the next request constructs again.
    pub fn settle<E>(&mut self, key: &BindingKey, stamp: u64, outcome: Result<V, E>) -> (r: Result<
        Settled<V>,
        Error<E>,
    >)
        requires
            old(self).wf(),
        ensures
            final(self).wf(),
            final(self)@ == settled(old(self)@, key@, stamp, outcome),
            r == settle_result(old(self)@, key@, stamp, outcome),
    {
        match outcome {
            Err(e) => Err(Error::InstanceCreationFailed(e)),
            Ok(v) => match self.find(key) {
                None => Ok(Settled::Handed(v)),
                Some(i) => {
                    proof {
                        lemma_at(self.entries@, i as int);
                    }
                    if self.awaits(key, stamp) {
                        proof {
                            lemma_remove(self.entries@, i as int);
                        }
                        let mut entry = self.entries.remove(i);
                        entry.cell.fill(v);
                        proof {
                            lemma_push(self.entries@, entry);
                        }
                        self.entries.push(entry);
                        assert(final(self)@ =~= settled(old(self)@, key@, stamp, outcome));
                        Ok(Settled::Kept)
                    } else {
                        Ok(Settled::Handed(v))
                    }
                },
            },
        }
    }
}

} // verus!
