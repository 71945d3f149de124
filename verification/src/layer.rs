//! The parts of a layer mesh: which runs of its vertices belong to which block of G-code.
//!
//! Triangles are appended to a layer mesh three vertices at a time. A part mesh is closed
//! when a block's piece is done and a main mesh when the block is done; each covers the
//! vertices appended since the previous one of its kind was closed.
use vstd::prelude::*;
use crate::gcode::state::{State, StateView};

verus! {

/// The vertices from `start` up to, not including, `end` of a layer mesh.
#[derive(Debug, Clone, Copy, PartialEq, Eq, Structural)]
pub struct MeshRange {
    pub start: usize,
    pub end: usize,
}

/// The meshes of one block of a layer: its main mesh, once closed, and its part meshes.
#[derive(Debug)]
pub struct LayerPart {
    pub main: Option<MeshRange>,
    state: State,
    line_range: (usize, usize),
    child_meshes: Vec<MeshRange>,
}

pub struct LayerPartView {
    pub main: Option<MeshRange>,
    pub state: StateView,
    pub line_range: (usize, usize),
    pub child_meshes: Seq<MeshRange>,
}

impl View for LayerPart {
    type V = LayerPartView;

    closed spec fn view(&self) -> LayerPartView {
        LayerPartView {
            main: self.main,
            state: self.state@,
            line_range: self.line_range,
            child_meshes: self.child_meshes@,
        }
    }
}

impl LayerPart {
    pub fn new(state: State, line_range: (usize, usize)) -> (r: Self)
        ensures
            r@ == (LayerPartView {
                main: None,
                state: state@,
                line_range,
                child_meshes: seq![],
            }),
    {
        LayerPart { main: None, state, line_range, child_meshes: Vec::new() }
    }

    pub fn push_child(&mut self, child: MeshRange)
        ensures
            final(self)@ == (LayerPartView {
                child_meshes: old(self)@.child_meshes.push(child),
                ..old(self)@
            }),
    {
        self.child_meshes.push(child);
    }

    pub fn child_meshes(&self) -> (r: &Vec<MeshRange>)
        ensures
            r@ == self@.child_meshes,
    {
        &self.child_meshes
    }

    pub fn state(&self) -> (r: &State)
        ensures
            r@ == self@.state,
    {
        &self.state
    }

    pub fn line_range(&self) -> (r: (usize, usize))
        ensures
            r == self@.line_range,
    {
        self.line_range
    }
}

/// Counts the vertices appended to a layer mesh and closes its part and main meshes.
pub struct PartCoordinator {
    offset_start: usize,
    offset_end: usize,
    offset_part_start: usize,
    offset_part_end: usize,
    child_models: Vec<LayerPart>,
}

pub struct CoordinatorView {
    pub offset_start: usize,
    pub offset_end: usize,
    pub offset_part_start: usize,
    pub offset_part_end: usize,
    pub parts: Seq<LayerPartView>,
}

impl View for PartCoordinator {
    type V = CoordinatorView;

    closed spec fn view(&self) -> CoordinatorView {
        CoordinatorView {
            offset_start: self.offset_start,
            offset_end: self.offset_end,
            offset_part_start: self.offset_part_start,
            offset_part_end: self.offset_part_end,
            parts: Seq::new(self.child_models@.len(), |i: int| self.child_models@[i]@),
        }
    }
}

/// The part meshes of all blocks, in the order they were closed.
pub open spec fn all_part_meshes(parts: Seq<LayerPartView>) -> Seq<MeshRange>
    decreases parts.len(),
{
    if parts.len() == 0 {
        seq![]
    } else {
        all_part_meshes(parts.drop_last()) + parts.last().child_meshes
    }
}

/// Ranges that follow one another from `from` on, each starting where the previous ended,
/// the last ending at `to`.
pub open spec fn chained(ranges: Seq<MeshRange>, from: int, to: int) -> bool {
    &&& ranges.len() == 0 ==> from == to
    &&& ranges.len() > 0 ==> ranges[0].start == from && ranges.last().end == to
    &&& forall|k: int| 0 <= k < ranges.len() ==> (#[trigger] ranges[k]).start <= ranges[k].end
    &&& forall|k: int| 0 < k < ranges.len() ==> #[trigger] ranges[k].start == ranges[k - 1].end
}

/// What the counters keep: the part meshes closed so far follow one another from vertex 0 up
/// to the start of the open part mesh, and both kinds of mesh count the same vertices.
pub open spec fn coordinator_wf(v: CoordinatorView) -> bool {
    &&& v.offset_start <= v.offset_end
    &&& v.offset_part_start <= v.offset_part_end
    &&& v.offset_part_end == v.offset_end
    &&& chained(all_part_meshes(v.parts), 0, v.offset_part_start as int)
}

proof fn lemma_all_part_meshes_push_child(parts: Seq<LayerPartView>, child: MeshRange)
    requires
        parts.len() > 0,
    ensures
        all_part_meshes(
            parts.update(
                parts.len() - 1,
                LayerPartView {
                    child_meshes: parts.last().child_meshes.push(child),
                    ..parts.last()
                },
            ),
        ) == all_part_meshes(parts).push(child),
{
    let updated = parts.update(
        parts.len() - 1,
        LayerPartView { child_meshes: parts.last().child_meshes.push(child), ..parts.last() },
    );
    assert(updated.drop_last() =~= parts.drop_last());
}

proof fn lemma_all_part_meshes_set_main(parts: Seq<LayerPartView>, main: MeshRange)
    requires
        parts.len() > 0,
    ensures
        all_part_meshes(
            parts.update(parts.len() - 1, LayerPartView { main: Some(main), ..parts.last() }),
        ) == all_part_meshes(parts),
{
    let updated = parts.update(parts.len() - 1, LayerPartView { main: Some(main), ..parts.last() });
    assert(updated.drop_last() =~= parts.drop_last());
}

proof fn lemma_all_part_meshes_new_part(parts: Seq<LayerPartView>, part: LayerPartView)
    requires
        part.child_meshes.len() == 0,
    ensures
        all_part_meshes(parts.push(part)) == all_part_meshes(parts),
{
    assert(parts.push(part).drop_last() =~= parts);
    assert(all_part_meshes(parts) + part.child_meshes =~= all_part_meshes(parts));
}

impl PartCoordinator {
    /// Nothing counted and no block yet.
    pub fn new() -> (r: Self)
        ensures
            r@.offset_start == 0,
            r@.offset_end == 0,
            r@.offset_part_start == 0,
            r@.offset_part_end == 0,
            r@.parts == Seq::<LayerPartView>::empty(),
            coordinator_wf(r@),
    {
        let r = PartCoordinator {
            offset_start: 0,
            offset_end: 0,
            offset_part_start: 0,
            offset_part_end: 0,
            child_models: Vec::new(),
        };
        assert(r@.parts =~= Seq::<LayerPartView>::empty());
        r
    }

    /// Counts the three vertices of a triangle appended to the layer mesh.
    pub fn add_triangle(&mut self)
        requires
            coordinator_wf(old(self)@),
            old(self)@.offset_end + 3 <= usize::MAX,
        ensures
            final(self)@ == (CoordinatorView {
                offset_end: (old(self)@.offset_end + 3) as usize,
                offset_part_end: (old(self)@.offset_part_end + 3) as usize,
                ..old(self)@
            }),
            coordinator_wf(final(self)@),
    {
        self.offset_end = self.offset_end + 3;
        self.offset_part_end = self.offset_part_end + 3;
    }

    /// Closes the open part mesh: the vertices counted since the last part mesh was closed
    /// become a part mesh of the last block, which is opened with `state` and `line_range`
    /// where there is no block yet.
    pub fn next_part_meshref(&mut self, state: State, line_range: (usize, usize)) -> (r: Result<
        (),
        (),
    >)
        requires
            coordinator_wf(old(self)@),
        ensures
            r is Ok,
            coordinator_wf(final(self)@),
            final(self)@.offset_start == old(self)@.offset_start,
            final(self)@.offset_end == old(self)@.offset_end,
            final(self)@.offset_part_start == old(self)@.offset_part_end,
            final(self)@.offset_part_end == old(self)@.offset_part_end,
            ({
                let opened = if old(self)@.parts.len() == 0 {
                    seq![
                        LayerPartView {
                            main: None,
                            state: state@,
                            line_range,
                            child_meshes: seq![],
                        },
                    ]
                } else {
                    old(self)@.parts
                };
                final(self)@.parts == opened.update(
                    opened.len() - 1,
                    LayerPartView {
                        child_meshes: opened.last().child_meshes.push(
                            MeshRange {
                                start: old(self)@.offset_part_start,
                                end: old(self)@.offset_part_end,
                            },
                        ),
                        ..opened.last()
                    },
                )
            }),
    {
        let start = self.offset_part_start;
        let end = self.offset_part_end;
        self.offset_part_start = end;
        let ghost before = self@.parts;
        if self.child_models.len() == 0 {
            self.child_models.push(LayerPart::new(state, line_range));
            proof {
                lemma_all_part_meshes_new_part(before, self@.parts.last());
                assert(self@.parts =~= before.push(self@.parts.last()));
            }
        }
        let ghost opened = self@.parts;
        let last = self.child_models.len() - 1;
        let mut part = self.child_models.remove(last);
        part.push_child(MeshRange { start, end });
        self.child_models.push(part);
        proof {
            let updated = opened.update(
                opened.len() - 1,
                LayerPartView {
                    child_meshes: opened.last().child_meshes.push(MeshRange { start, end }),
                    ..opened.last()
                },
            );
            assert(self@.parts =~= updated);
            lemma_all_part_meshes_push_child(opened, MeshRange { start, end });
            let all = all_part_meshes(updated);
            assert(all.last() == MeshRange { start, end });
            assert forall|k: int| 0 < k < all.len() implies #[trigger] all[k].start == all[k
                - 1].end by {
                if k < all.len() - 1 {
                    assert(all[k] == all_part_meshes(opened)[k]);
                    assert(all[k - 1] == all_part_meshes(opened)[k - 1]);
                }
            }
            assert forall|k: int| 0 <= k < all.len() implies (#[trigger] all[k]).start
                <= all[k].end by {
                if k < all.len() - 1 {
                    assert(all[k] == all_part_meshes(opened)[k]);
                }
            }
        }
        Ok(())
    }

    /// Closes the main mesh of the last block: the vertices counted since the last main mesh
    /// was closed. There must be a block.
    pub fn finish(&mut self) -> (r: Result<(), ()>)
        requires
            coordinator_wf(old(self)@),
            old(self)@.parts.len() > 0,
        ensures
            r is Ok,
            coordinator_wf(final(self)@),
            final(self)@.offset_start == old(self)@.offset_end,
            final(self)@.offset_end == old(self)@.offset_end,
            final(self)@.offset_part_start == old(self)@.offset_part_start,
            final(self)@.offset_part_end == old(self)@.offset_part_end,
            final(self)@.parts == old(self)@.parts.update(
                old(self)@.parts.len() - 1,
                LayerPartView {
                    main: Some(
                        MeshRange { start: old(self)@.offset_start, end: old(self)@.offset_end },
                    ),
                    ..old(self)@.parts.last()
                },
            ),
    {
        let start = self.offset_start;
        let end = self.offset_end;
        self.offset_start = end;
        let ghost before = self@.parts;
        let last = self.child_models.len() - 1;
        let mut part = self.child_models.remove(last);
        part.main = Some(MeshRange { start, end });
        self.child_models.push(part);
        proof {
            let updated = before.update(
                before.len() - 1,
                LayerPartView { main: Some(MeshRange { start, end }), ..before.last() },
            );
            assert(self@.parts =~= updated);
            lemma_all_part_meshes_set_main(before, MeshRange { start, end });
        }
        Ok(())
    }

    /// The number of vertices counted in the layer mesh so far.
    pub fn vertex_count(&self) -> (r: usize)
        ensures
            r == self@.offset_end,
    {
        self.offset_end
    }

    /// The blocks of the layer, with their meshes.
    pub fn child_models(&self) -> (r: &Vec<LayerPart>)
        ensures
            r@.len() == self@.parts.len(),
            forall|i: int| 0 <= i < r@.len() ==> #[trigger] r@[i]@ == self@.parts[i],
    {
        &self.child_models
    }
}

} // verus!
