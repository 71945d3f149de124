//! Meshes as trees of parts, each part at a location of a vertex buffer.
//!
//! An interactive part carries the box it is hit in and the context that handles its
//! interaction; both are values of their own types here, which the code that draws and picks
//! meshes chooses.
use vstd::prelude::*;
use super::buffer::BufferLocation;

verus! {

/// A mesh tree as a value: each part with its location, its parts, and, for an interactive
/// part, its box and context.
#[verifier::ext_equal]
pub enum MeshTree<B, C> {
    Static { location: BufferLocation, sub_meshes: Seq<MeshTree<B, C>> },
    Interactive {
        location: BufferLocation,
        sub_meshes: Seq<MeshTree<B, C>>,
        raw_box: B,
        context: C,
    },
}

pub open spec fn tree_location<B, C>(t: MeshTree<B, C>) -> BufferLocation {
    match t {
        MeshTree::Static { location, .. } => location,
        MeshTree::Interactive { location, .. } => location,
    }
}

/// A part of a mesh as the CPU holds it.
#[derive(Debug)]
pub enum CpuSubMesh<B, C> {
    Static { sub_meshes: Vec<CpuSubMesh<B, C>>, location: BufferLocation },
    Interactive {
        sub_meshes: Vec<CpuSubMesh<B, C>>,
        location: BufferLocation,
        raw_box: B,
        context: C,
    },
}

/// A mesh with its vertices as the CPU holds it.
#[derive(Debug)]
pub enum CpuMesh<T, B, C> {
    Static { vertices: Vec<T>, sub_meshes: Vec<CpuSubMesh<B, C>>, location: BufferLocation },
    Interactive {
        vertices: Vec<T>,
        sub_meshes: Vec<CpuSubMesh<B, C>>,
        location: BufferLocation,
        raw_box: B,
        context: C,
    },
}

/// A mesh that has been written to a buffer: where it and its parts lie.
#[derive(Debug)]
pub enum MeshHandle<B, C> {
    Static { location: BufferLocation, sub_meshes: Vec<MeshHandle<B, C>> },
    Interactive {
        location: BufferLocation,
        sub_meshes: Vec<MeshHandle<B, C>>,
        raw_box: B,
        context: C,
    },
}

/// Something that holds the vertices of a mesh.
pub trait CpuMeshTrait<V> {
    fn vertices(&self) -> &Vec<V>;
}

impl<B, C> CpuSubMesh<B, C> {
    /// The part as a tree.
    pub open spec fn tree(&self) -> MeshTree<B, C>
        decreases self,
    {
        match self {
            CpuSubMesh::Static { sub_meshes, location } => MeshTree::Static {
                location: *location,
                sub_meshes: Seq::new(
                    sub_meshes@.len(),
                    |i: int|
                        if 0 <= i < sub_meshes@.len() {
                            sub_meshes@[i].tree()
                        } else {
                            arbitrary()
                        },
                ),
            },
            CpuSubMesh::Interactive { sub_meshes, location, raw_box, context } => {
                MeshTree::Interactive {
                    location: *location,
                    sub_meshes: Seq::new(
                        sub_meshes@.len(),
                        |i: int|
                            if 0 <= i < sub_meshes@.len() {
                                sub_meshes@[i].tree()
                            } else {
                                arbitrary()
                            },
                    ),
                    raw_box: *raw_box,
                    context: *context,
                }
            },
        }
    }

    pub fn location(&self) -> (r: &BufferLocation)
        ensures
            *r == tree_location(self.tree()),
    {
        match self {
            CpuSubMesh::Static { location, .. } => location,
            CpuSubMesh::Interactive { location, .. } => location,
        }
    }
}


impl<T, B, C> CpuMesh<T, B, C> {
    /// The mesh's parts as a tree, without its vertices.
    pub open spec fn tree(&self) -> MeshTree<B, C> {
        match self {
            CpuMesh::Static { sub_meshes, location, .. } => MeshTree::Static {
                location: *location,
                sub_meshes: Seq::new(sub_meshes@.len(), |i: int| sub_meshes@[i].tree()),
            },
            CpuMesh::Interactive { sub_meshes, location, raw_box, context, .. } => {
                MeshTree::Interactive {
                    location: *location,
                    sub_meshes: Seq::new(sub_meshes@.len(), |i: int| sub_meshes@[i].tree()),
                    raw_box: *raw_box,
                    context: *context,
                }
            },
        }
    }

    pub fn location(&self) -> (r: &BufferLocation)
        ensures
            *r == tree_location(self.tree()),
    {
        match self {
            CpuMesh::Static { location, .. } => location,
            CpuMesh::Interactive { location, .. } => location,
        }
    }
}

impl<B, C> MeshHandle<B, C> {
    /// The handle as a tree.
    pub open spec fn tree(&self) -> MeshTree<B, C>
        decreases self,
    {
        match self {
            MeshHandle::Static { location, sub_meshes } => MeshTree::Static {
                location: *location,
                sub_meshes: Seq::new(
                    sub_meshes@.len(),
                    |i: int|
                        if 0 <= i < sub_meshes@.len() {
                            sub_meshes@[i].tree()
                        } else {
                            arbitrary()
                        },
                ),
            },
            MeshHandle::Interactive { location, sub_meshes, raw_box, context } => {
                MeshTree::Interactive {
                    location: *location,
                    sub_meshes: Seq::new(
                        sub_meshes@.len(),
                        |i: int|
                            if 0 <= i < sub_meshes@.len() {
                                sub_meshes@[i].tree()
                            } else {
                                arbitrary()
                            },
                    ),
                    raw_box: *raw_box,
                    context: *context,
                }
            },
        }
    }

    pub fn location(&self) -> (r: &BufferLocation)
        ensures
            *r == tree_location(self.tree()),
    {
        match self {
            MeshHandle::Static { location, .. } => location,
            MeshHandle::Interactive { location, .. } => location,
        }
    }

    /// The handles of some parts, in their order.
    fn from_sub_meshes(sub_meshes: Vec<CpuSubMesh<B, C>>) -> (r: Vec<MeshHandle<B, C>>)
        ensures
            r@.len() == sub_meshes@.len(),
            forall|i: int| 0 <= i < r@.len() ==> #[trigger] r@[i].tree() == sub_meshes@[i].tree(),
        decreases sub_meshes, 0nat,
    {
        let ghost all = sub_meshes@;
        let mut handles: Vec<MeshHandle<B, C>> = Vec::new();
        for child in it: sub_meshes.into_iter()
            invariant
                it.seq() == all,
                handles@.len() == it.index(),
                forall|i: int|
                    0 <= i < handles@.len() ==> #[trigger] handles@[i].tree() == all[i].tree(),
        {
            proof {
                assert(decreases_to!(sub_meshes => child));
            }
            let handle = MeshHandle::from_sub_mesh(child);
            handles.push(handle);
        }
        handles
    }

    /// The handle of a part: the same tree of locations, boxes and contexts.
    pub fn from_sub_mesh(mesh: CpuSubMesh<B, C>) -> (r: MeshHandle<B, C>)
        ensures
            r.tree() == mesh.tree(),
        decreases mesh, 1nat,
    {
        let ghost whole = mesh;
        match mesh {
            CpuSubMesh::Static { sub_meshes, location } => {
                let ghost subs = sub_meshes@;
                let handles = MeshHandle::from_sub_meshes(sub_meshes);
                let r = MeshHandle::Static { location, sub_meshes: handles };
                proof {
                    let hs = r->Static_sub_meshes@;
                    let a = Seq::new(
                        hs.len(),
                        |i: int|
                            if 0 <= i < hs.len() {
                                hs[i].tree()
                            } else {
                                arbitrary()
                            },
                    );
                    let c = Seq::new(
                        subs.len(),
                        |i: int|
                            if 0 <= i < subs.len() {
                                subs[i].tree()
                            } else {
                                arbitrary()
                            },
                    );
                    assert(a =~= c);
                    assert(r.tree() is Static);
                    assert(r.tree()->Static_sub_meshes =~= a);
                    assert(whole is Static);
                    assert(whole->Static_sub_meshes@ == subs);
                    assert(whole.tree() is Static);
                    assert(whole.tree()->Static_sub_meshes =~= c);
                    assert(r.tree() =~= whole.tree());
                }
                r
            },
            CpuSubMesh::Interactive { sub_meshes, location, raw_box, context } => {
                let ghost subs = sub_meshes@;
                let handles = MeshHandle::from_sub_meshes(sub_meshes);
                let r = MeshHandle::Interactive { location, sub_meshes: handles, raw_box, context };
                proof {
                    let hs = r->Interactive_sub_meshes@;
                    let a = Seq::new(
                        hs.len(),
                        |i: int|
                            if 0 <= i < hs.len() {
                                hs[i].tree()
                            } else {
                                arbitrary()
                            },
                    );
                    let c = Seq::new(
                        subs.len(),
                        |i: int|
                            if 0 <= i < subs.len() {
                                subs[i].tree()
                            } else {
                                arbitrary()
                            },
                    );
                    assert(a =~= c);
                    assert(r.tree() is Interactive);
                    assert(r.tree()->Interactive_sub_meshes =~= a);
                    assert(whole is Interactive);
                    assert(whole->Interactive_sub_meshes@ == subs);
                    assert(whole.tree() is Interactive);
                    assert(whole.tree()->Interactive_sub_meshes =~= c);
                    assert(r.tree() =~= whole.tree());
                }
                r
            },
        }
    }

    /// The handle of a mesh: the same tree of locations, boxes and contexts.
    pub fn from_mesh<T>(mesh: CpuMesh<T, B, C>) -> (r: MeshHandle<B, C>)
        ensures
            r.tree() == mesh.tree(),
    {
        let ghost whole = mesh;
        match mesh {
            CpuMesh::Static { sub_meshes, location, .. } => {
                let ghost subs = sub_meshes@;
                let handles = MeshHandle::from_sub_meshes(sub_meshes);
                let r = MeshHandle::Static { location, sub_meshes: handles };
                proof {
                    let hs = r->Static_sub_meshes@;
                    let a = Seq::new(
                        hs.len(),
                        |i: int|
                            if 0 <= i < hs.len() {
                                hs[i].tree()
                            } else {
                                arbitrary()
                            },
                    );
                    let c = Seq::new(subs.len(), |i: int| subs[i].tree());
                    assert(a =~= c);
                    assert(r.tree() is Static);
                    assert(r.tree()->Static_sub_meshes =~= a);
                    assert(whole.tree()->Static_sub_meshes =~= c);
                    assert(r.tree() =~= whole.tree());
                }
                r
            },
            CpuMesh::Interactive { sub_meshes, location, raw_box, context, .. } => {
                let ghost subs = sub_meshes@;
                let handles = MeshHandle::from_sub_meshes(sub_meshes);
                let r = MeshHandle::Interactive { location, sub_meshes: handles, raw_box, context };
                proof {
                    let hs = r->Interactive_sub_meshes@;
                    let a = Seq::new(
                        hs.len(),
                        |i: int|
                            if 0 <= i < hs.len() {
                                hs[i].tree()
                            } else {
                                arbitrary()
                            },
                    );
                    let c = Seq::new(subs.len(), |i: int| subs[i].tree());
                    assert(a =~= c);
                    assert(r.tree() is Interactive);
                    assert(r.tree()->Interactive_sub_meshes =~= a);
                    assert(whole.tree()->Interactive_sub_meshes =~= c);
                    assert(r.tree() =~= whole.tree());
                }
                r
            },
        }
    }
}

} // verus!
