//! Functions over what each subgraph provides for an element.

use crate::index_map::{put, IndexedMap, Sources};
use vstd::prelude::*;

verus! {

/// Whether the mapped entries have the keys of the sources, in their order, and items that the
/// function returns for theirs.
pub open spec fn is_mapped<T, U, F: Fn(&Option<T>) -> Option<U>>(
    sources: Seq<(usize, Option<T>)>,
    mapped: Seq<(usize, Option<U>)>,
    f: F,
) -> bool {
    &&& mapped.len() == sources.len()
    &&& forall|i: int|
        0 <= i < sources.len() ==> (#[trigger] mapped[i]).0 == sources[i].0 && call_ensures(
            f,
            (&sources[i].1,),
            mapped[i].1,
        )
}

/// Applies a function to what each subgraph provides.
pub fn map_sources<T, U, F>(sources: &Sources<T>, f: F) -> (mapped: Sources<U>) where
    F: Fn(&Option<T>) -> Option<U>,

    requires
        sources.well_formed(),
        forall|source: Option<T>| call_requires(f, (&source,)),
    ensures
        mapped.well_formed(),
        is_mapped(sources@, mapped@, f),
{
    let mut mapped: Sources<U> = IndexedMap::new();
    let mut i: usize = 0;
    while i < sources.len()
        invariant
            i <= sources@.len(),
            sources.well_formed(),
            mapped.well_formed(),
            forall|source: Option<T>| call_requires(f, (&source,)),
            is_mapped(sources@.take(i as int), mapped@, f),
        decreases sources@.len() - i,
    {
        let item = f(sources.item_at(i));
        let key = sources.key_at(i);
        proof {
            sources.lemma_keys_are_distinct();
            assert forall|j: int| 0 <= j < mapped@.len() implies (#[trigger] mapped@[j]).0
                != key by {
                assert(sources@.take(i as int)[j] == sources@[j]);
            }
            assert(put(mapped@, key, item) == mapped@.push((key, item)));
            let all = sources@.take(i + 1);
            assert forall|j: int| 0 <= j <= i implies (#[trigger] mapped@.push((key, item))[j]).0
                == all[j].0 && call_ensures(f, (&all[j].1,), mapped@.push((key, item))[j].1) by {
                if j < i {
                    assert(sources@.take(i as int)[j] == all[j]);
                    assert(mapped@[j].0 == all[j].0);
                }
            }
        }
        mapped.insert(key, item);
        i += 1;
    }
    assert(sources@.take(sources@.len() as int) =~= sources@);
    mapped
}

/// Whether what some subgraph provides satisfies the predicate.
pub fn some_sources<T, F>(sources: &Sources<T>, predicate: F) -> (some: bool) where
    F: Fn(&Option<T>, usize) -> bool,

    requires
        sources.well_formed(),
        forall|source: Option<T>, key: usize| call_requires(predicate, (&source, key)),
    ensures
        some ==> exists|i: int|
            0 <= i < sources@.len() && call_ensures(
                predicate,
                (&(#[trigger] sources@[i]).1, sources@[i].0),
                true,
            ),
        !some ==> forall|i: int|
            0 <= i < sources@.len() ==> call_ensures(
                predicate,
                (&(#[trigger] sources@[i]).1, sources@[i].0),
                false,
            ),
{
    let mut i: usize = 0;
    while i < sources.len()
        invariant
            i <= sources@.len(),
            sources.well_formed(),
            forall|source: Option<T>, key: usize| call_requires(predicate, (&source, key)),
            forall|j: int|
                0 <= j < i ==> call_ensures(
                    predicate,
                    (&(#[trigger] sources@[j]).1, sources@[j].0),
                    false,
                ),
        decreases sources@.len() - i,
    {
        if predicate(sources.item_at(i), sources.key_at(i)) {
            return true;
        }
        i += 1;
    }
    false
}

/// Mapped sources have the keys of the sources, one for one, and for each source an item that the
/// function returns for what it provides.
pub proof fn law_each_source_is_mapped<T, U, F: Fn(&Option<T>) -> Option<U>>(
    sources: Seq<(usize, Option<T>)>,
    mapped: Seq<(usize, Option<U>)>,
    f: F,
    i: int,
)
    requires
        is_mapped(sources, mapped, f),
        0 <= i < sources.len(),
    ensures
        i < mapped.len(),
        mapped[i].0 == sources[i].0,
        call_ensures(f, (&sources[i].1,), mapped[i].1),
        mapped.len() == sources.len(),
{
    assert(mapped[i].0 == sources[i].0);
}

} // verus!
