//! Tool path blocks and their grouping by layer.
//!
//! The pieces of a path (strokes between points) are computed from float coordinates, so a
//! block is generic over the type of its pieces; what is decided here is which block goes
//! to which layer.
use vstd::prelude::*;
use std::collections::HashMap;
use super::state::{State, StateView};

verus! {

broadcast use vstd::std_specs::hash::group_hash_axioms;

/// The path pieces of one block of instructions, with the lines and print state it came
/// from.
pub struct PathModul<P> {
    pub paths: Vec<P>,
    pub line_range: (usize, usize),
    pub state: State,
}

impl<P> PathModul<P> {
    pub fn new(points: Vec<P>, line_range: (usize, usize), state: State) -> (r: Self)
        ensures
            r.paths@ == points@,
            r.line_range == line_range,
            r.state@ == state@,
    {
        PathModul { paths: points, line_range, state }
    }
}

/// The layer a block is drawn in: the layer of its state, or 0 where none is set.
pub open spec fn layer_key(s: StateView) -> usize {
    match s.layer {
        Some(l) => l,
        None => 0,
    }
}

/// The blocks of `ms` that belong to layer `key`, in their order.
pub open spec fn of_layer<P>(ms: Seq<PathModul<P>>, key: usize) -> Seq<PathModul<P>>
    decreases ms.len(),
{
    if ms.len() == 0 {
        seq![]
    } else {
        let rest = of_layer(ms.drop_last(), key);
        if layer_key(ms.last().state@) == key {
            rest.push(ms.last())
        } else {
            rest
        }
    }
}

/// Groups the blocks by layer: each layer that some block belongs to maps to its blocks, in
/// the order they came.
pub fn layers_of<P>(moduls: Vec<PathModul<P>>) -> (r: HashMap<usize, Vec<PathModul<P>>>)
    ensures
        forall|key: usize| #[trigger] r@.contains_key(key) <==> of_layer(moduls@, key).len() > 0,
        forall|key: usize| #[trigger] r@.contains_key(key) ==> r@[key]@ == of_layer(moduls@, key),
{
    let ghost all = moduls@;
    let mut layers: HashMap<usize, Vec<PathModul<P>>> = HashMap::new();
    for m in it: moduls.into_iter()
        invariant
            it.seq() == all,
            forall|key: usize| #[trigger]
                layers@.contains_key(key) <==> of_layer(all.take(it.index() as int), key).len()
                    > 0,
            forall|key: usize| #[trigger]
                layers@.contains_key(key) ==> layers@[key]@ == of_layer(
                    all.take(it.index() as int),
                    key,
                ),
    {
        let ghost i = it.index();
        let ghost done = all.take(i as int);
        let ghost next = all.take(i + 1);
        assert(next.drop_last() =~= done);
        assert(next.last() == m);
        let layer = match m.state.layer {
            Some(l) => l,
            None => 0,
        };
        let group = match layers.remove(&layer) {
            Some(mut group) => {
                group.push(m);
                group
            },
            None => {
                let mut group = Vec::new();
                group.push(m);
                group
            },
        };
        layers.insert(layer, group);
        proof {
            assert forall|key: usize| key != layer implies of_layer(next, key) == of_layer(
                done,
                key,
            ) by {}
            assert(of_layer(next, layer) == of_layer(done, layer).push(m));
            assert(of_layer(done, layer).len() == 0 ==> of_layer(done, layer) =~= Seq::<
                PathModul<P>,
            >::empty());
        }
    }
    proof {
        assert(all.take(all.len() as int) =~= all);
    }
    layers
}

} // verus!
