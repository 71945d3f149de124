//! Models: meshes with their vertices, placed into a buffer at some offset.
use vstd::prelude::*;
use super::buffer::BufferLocation;
use super::mesh::{MeshHandle, MeshTree};

verus! {

/// A part of a model: where it lies in the model's vertices, its parts, and, for an
/// interactive part, the box it is hit in and the context that handles its interaction.
#[derive(Debug)]
pub enum SubModel<B, C> {
    Static { sub_meshes: Vec<SubModel<B, C>>, location: BufferLocation },
    Interactive {
        sub_meshes: Vec<SubModel<B, C>>,
        location: BufferLocation,
        raw_box: B,
        context: C,
    },
}

/// A model: its vertices, its parts and where it lies in its vertices.
#[derive(Debug)]
pub enum Model<T, B, C> {
    Static { vertices: Vec<T>, sub_meshes: Vec<SubModel<B, C>>, location: BufferLocation },
    Interactive {
        vertices: Vec<T>,
        sub_meshes: Vec<SubModel<B, C>>,
        location: BufferLocation,
        raw_box: B,
        context: C,
    },
}

/// A location moved `offset` vertices on.
pub open spec fn shift_location(l: BufferLocation, offset: usize) -> BufferLocation {
    BufferLocation { offset: (l.offset + offset) as usize, size: l.size }
}

/// A tree with every location moved `offset` vertices on.
pub open spec fn shifted<B, C>(t: MeshTree<B, C>, offset: usize) -> MeshTree<B, C>
    decreases t,
{
    match t {
        MeshTree::Static { location, sub_meshes } => MeshTree::Static {
            location: shift_location(location, offset),
            sub_meshes: Seq::new(
                sub_meshes.len(),
                |i: int|
                    if 0 <= i < sub_meshes.len() {
                        shifted(sub_meshes[i], offset)
                    } else {
                        arbitrary()
                    },
            ),
        },
        MeshTree::Interactive { location, sub_meshes, raw_box, context } => MeshTree::Interactive {
            location: shift_location(location, offset),
            sub_meshes: Seq::new(
                sub_meshes.len(),
                |i: int|
                    if 0 <= i < sub_meshes.len() {
                        shifted(sub_meshes[i], offset)
                    } else {
                        arbitrary()
                    },
            ),
            raw_box,
            context,
        },
    }
}

/// Whether moving every location of a tree `offset` vertices on stays within `usize`.
pub open spec fn shift_fits<B, C>(t: MeshTree<B, C>, offset: usize) -> bool
    decreases t,
{
    match t {
        MeshTree::Static { location, sub_meshes } => location.offset + offset <= usize::MAX
            && forall|i: int|
            0 <= i < sub_meshes.len() ==> shift_fits(#[trigger] sub_meshes[i], offset),
        MeshTree::Interactive { location, sub_meshes, .. } => location.offset + offset
            <= usize::MAX && forall|i: int|
            0 <= i < sub_meshes.len() ==> shift_fits(#[trigger] sub_meshes[i], offset),
    }
}

impl<B, C> SubModel<B, C> {
    /// The part as a tree.
    pub open spec fn tree(&self) -> MeshTree<B, C>
        decreases self,
    {
        match self {
            SubModel::Static { sub_meshes, location } => MeshTree::Static {
                location: *location,
                sub_meshes: Seq::new(
                    sub_meshes@.len(),
                    |i: int|
                        if 0 <= i < sub_meshes@.len() {
                            sub_meshes@[i].tree()
                        } else {
                            arbitrary()
                        },
                ),
            },
            SubModel::Interactive { sub_meshes, location, raw_box, context } => {
                MeshTree::Interactive {
                    location: *location,
                    sub_meshes: Seq::new(
                        sub_meshes@.len(),
                        |i: int|
                            if 0 <= i < sub_meshes@.len() {
                                sub_meshes@[i].tree()
                            } else {
                                arbitrary()
                            },
                    ),
                    raw_box: *raw_box,
                    context: *context,
                }
            },
        }
    }

    pub fn location(&self) -> (r: &BufferLocation)
        ensures
            *r == super::mesh::tree_location(self.tree()),
    {
        match self {
            SubModel::Static { location, .. } => location,
            SubModel::Interactive { location, .. } => location,
        }
    }

    /// The box an interactive part is hit in.
    pub fn hitbox(&self) -> (r: Option<&B>)
        ensures
            match self.tree() {
                MeshTree::Static { .. } => r is None,
                MeshTree::Interactive { raw_box, .. } => r == Some(&raw_box),
            },
    {
        match self {
            SubModel::Static { .. } => None,
            SubModel::Interactive { raw_box, .. } => Some(raw_box),
        }
    }
}


/// The handles of some parts moved `offset` vertices on, in their order.
fn sub_handles<B, C>(sub_meshes: Vec<SubModel<B, C>>, offset: usize) -> (r: Vec<MeshHandle<B, C>>)
    requires
        forall|i: int|
            0 <= i < sub_meshes@.len() ==> shift_fits(#[trigger] sub_meshes@[i].tree(), offset),
    ensures
        r@.len() == sub_meshes@.len(),
        forall|i: int|
            0 <= i < r@.len() ==> #[trigger] r@[i].tree() == shifted(sub_meshes@[i].tree(), offset),
    decreases sub_meshes, 0nat,
{
    let ghost all = sub_meshes@;
    let mut handles: Vec<MeshHandle<B, C>> = Vec::new();
    for child in it: sub_meshes.into_iter()
        invariant
            it.seq() == all,
            handles@.len() == it.index(),
            forall|i: int| 0 <= i < all.len() ==> shift_fits(#[trigger] all[i].tree(), offset),
            forall|i: int|
                0 <= i < handles@.len() ==> #[trigger] handles@[i].tree() == shifted(
                    all[i].tree(),
                    offset,
                ),
    {
        proof {
            assert(decreases_to!(sub_meshes => child));
            assert(child == all[it.index() as int]);
        }
        let handle = child.into_handle(offset);
        handles.push(handle);
    }
    handles
}

proof fn lemma_shifted_children<B, C>(
    hs: Seq<MeshHandle<B, C>>,
    subs: Seq<SubModel<B, C>>,
    offset: usize,
)
    requires
        hs.len() == subs.len(),
        forall|i: int| 0 <= i < hs.len() ==> #[trigger] hs[i].tree() == shifted(subs[i].tree(), offset),
    ensures
        Seq::new(
            hs.len(),
            |i: int|
                if 0 <= i < hs.len() {
                    hs[i].tree()
                } else {
                    arbitrary()
                },
        ) =~= Seq::new(
            subs.len(),
            |i: int|
                if 0 <= i < subs.len() {
                    shifted(subs[i].tree(), offset)
                } else {
                    arbitrary()
                },
        ),
{
}

impl<B, C> SubModel<B, C> {
    /// The handle of the part placed `offset` vertices into a buffer: every location moved
    /// that far on.
    pub fn into_handle(self, offset: usize) -> (r: MeshHandle<B, C>)
        requires
            shift_fits(self.tree(), offset),
        ensures
            r.tree() == shifted(self.tree(), offset),
        decreases self, 1nat,
    {
        let ghost whole = self;
        let ghost t = self.tree();
        match self {
            SubModel::Static { sub_meshes, location } => {
                let ghost subs = sub_meshes@;
                proof {
                    assert(t->Static_sub_meshes.len() == subs.len());
                    assert forall|i: int| 0 <= i < subs.len() implies shift_fits(
                        #[trigger] subs[i].tree(),
                        offset,
                    ) by {
                        assert(t->Static_sub_meshes[i] == subs[i].tree());
                    }
                }
                let handles = sub_handles(sub_meshes, offset);
                let r = MeshHandle::Static {
                    location: BufferLocation { offset: location.offset + offset, size: location.size },
                    sub_meshes: handles,
                };
                proof {
                    lemma_shifted_children(r->Static_sub_meshes@, subs, offset);
                    assert(r.tree() is Static);
                    assert(whole.tree() is Static);
                    let st = shifted(whole.tree(), offset);
                    let wt = whole.tree();
                    assert(wt->Static_sub_meshes.len() == subs.len());
                    assert(st->Static_sub_meshes.len() == subs.len());
                    assert(r.tree()->Static_sub_meshes.len() == subs.len());
                    assert forall|i: int| 0 <= i < subs.len() implies st->Static_sub_meshes[i]
                        == r.tree()->Static_sub_meshes[i] by {
                        assert(wt->Static_sub_meshes[i] == subs[i].tree());
                        assert(st->Static_sub_meshes[i] == shifted(wt->Static_sub_meshes[i], offset));
                        assert(r.tree()->Static_sub_meshes[i] == r->Static_sub_meshes@[i].tree());
                    }
                    assert(st->Static_sub_meshes =~= r.tree()->Static_sub_meshes);
                    assert(r.tree() =~= st);
                }
                r
            },
            SubModel::Interactive { sub_meshes, location, raw_box, context } => {
                let ghost subs = sub_meshes@;
                proof {
                    assert(t->Interactive_sub_meshes.len() == subs.len());
                    assert forall|i: int| 0 <= i < subs.len() implies shift_fits(
                        #[trigger] subs[i].tree(),
                        offset,
                    ) by {
                        assert(t->Interactive_sub_meshes[i] == subs[i].tree());
                    }
                }
                let handles = sub_handles(sub_meshes, offset);
                let r = MeshHandle::Interactive {
                    location: BufferLocation { offset: location.offset + offset, size: location.size },
                    sub_meshes: handles,
                    raw_box,
                    context,
                };
                proof {
                    lemma_shifted_children(r->Interactive_sub_meshes@, subs, offset);
                    assert(r.tree() is Interactive);
                    assert(whole.tree() is Interactive);
                    let st = shifted(whole.tree(), offset);
                    let wt = whole.tree();
                    assert(wt->Interactive_sub_meshes.len() == subs.len());
                    assert(st->Interactive_sub_meshes.len() == subs.len());
                    assert(r.tree()->Interactive_sub_meshes.len() == subs.len());
                    assert forall|i: int| 0 <= i < subs.len() implies st->Interactive_sub_meshes[i]
                        == r.tree()->Interactive_sub_meshes[i] by {
                        assert(wt->Interactive_sub_meshes[i] == subs[i].tree());
                        assert(st->Interactive_sub_meshes[i] == shifted(wt->Interactive_sub_meshes[i], offset));
                        assert(r.tree()->Interactive_sub_meshes[i] == r->Interactive_sub_meshes@[i].tree());
                    }
                    assert(st->Interactive_sub_meshes =~= r.tree()->Interactive_sub_meshes);
                    assert(r.tree() =~= st);
                }
                r
            },
        }
    }
}


impl<T, B, C> Model<T, B, C> {
    /// The model's parts as a tree, without its vertices.
    pub open spec fn tree(&self) -> MeshTree<B, C> {
        match self {
            Model::Static { sub_meshes, location, .. } => MeshTree::Static {
                location: *location,
                sub_meshes: Seq::new(sub_meshes@.len(), |i: int| sub_meshes@[i].tree()),
            },
            Model::Interactive { sub_meshes, location, raw_box, context, .. } => {
                MeshTree::Interactive {
                    location: *location,
                    sub_meshes: Seq::new(sub_meshes@.len(), |i: int| sub_meshes@[i].tree()),
                    raw_box: *raw_box,
                    context: *context,
                }
            },
        }
    }

    pub fn location(&self) -> (r: &BufferLocation)
        ensures
            *r == super::mesh::tree_location(self.tree()),
    {
        match self {
            Model::Static { location, .. } => location,
            Model::Interactive { location, .. } => location,
        }
    }

    /// The handle of the model placed `offset` vertices into a buffer: every location moved
    /// that far on.
    pub fn into_handle(self, offset: usize) -> (r: MeshHandle<B, C>)
        requires
            shift_fits(self.tree(), offset),
        ensures
            r.tree() == shifted(self.tree(), offset),
    {
        let ghost whole = self;
        let ghost t = self.tree();
        match self {
            Model::Static { sub_meshes, location, .. } => {
                let ghost subs = sub_meshes@;
                proof {
                    assert forall|i: int| 0 <= i < subs.len() implies shift_fits(
                        #[trigger] subs[i].tree(),
                        offset,
                    ) by {
                        assert(t->Static_sub_meshes[i] == subs[i].tree());
                    }
                }
                let handles = sub_handles(sub_meshes, offset);
                let r = MeshHandle::Static {
                    location: BufferLocation { offset: location.offset + offset, size: location.size },
                    sub_meshes: handles,
                };
                proof {
                    let st = shifted(t, offset);
                    assert forall|i: int| 0 <= i < subs.len() implies st->Static_sub_meshes[i]
                        == r.tree()->Static_sub_meshes[i] by {
                        assert(t->Static_sub_meshes[i] == subs[i].tree());
                        assert(r.tree()->Static_sub_meshes[i] == r->Static_sub_meshes@[i].tree());
                    }
                    assert(st->Static_sub_meshes =~= r.tree()->Static_sub_meshes);
                    assert(r.tree() =~= st);
                }
                r
            },
            Model::Interactive { sub_meshes, location, raw_box, context, .. } => {
                let ghost subs = sub_meshes@;
                proof {
                    assert forall|i: int| 0 <= i < subs.len() implies shift_fits(
                        #[trigger] subs[i].tree(),
                        offset,
                    ) by {
                        assert(t->Interactive_sub_meshes[i] == subs[i].tree());
                    }
                }
                let handles = sub_handles(sub_meshes, offset);
                let r = MeshHandle::Interactive {
                    location: BufferLocation { offset: location.offset + offset, size: location.size },
                    sub_meshes: handles,
                    raw_box,
                    context,
                };
                proof {
                    let st = shifted(t, offset);
                    assert forall|i: int| 0 <= i < subs.len() implies st->Interactive_sub_meshes[i]
                        == r.tree()->Interactive_sub_meshes[i] by {
                        assert(t->Interactive_sub_meshes[i] == subs[i].tree());
                        assert(r.tree()->Interactive_sub_meshes[i]
                            == r->Interactive_sub_meshes@[i].tree());
                    }
                    assert(st->Interactive_sub_meshes =~= r.tree()->Interactive_sub_meshes);
                    assert(r.tree() =~= st);
                }
                r
            },
        }
    }
}

} // verus!
