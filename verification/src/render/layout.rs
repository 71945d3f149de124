//! Fixed layouts of the widget and wire buffers: which named part of a buffer lies where.
use vstd::prelude::*;
use crate::text::{chars_of, eq_str};

verus! {

/// A named part of a buffer: its first vertex and its number of vertices.
#[derive(Debug, Clone, Copy, PartialEq, Eq, Structural)]
pub struct BufferAllocation {
    pub offset: usize,
    pub size: usize,
}

/// The vertex after the last one of an allocation.
pub open spec fn allocation_end(a: BufferAllocation) -> int {
    a.offset + a.size
}

/// The layout of the wire buffer: the hover box, then the selection box, each drawn with
/// `box_vertices` vertices, then the four vertices of the debug ray.
pub open spec fn wire_allocation(box_vertices: usize, id: Seq<char>) -> Option<BufferAllocation> {
    if id == "hover_box"@ {
        Some(BufferAllocation { offset: 0, size: box_vertices })
    } else if id == "select_box"@ {
        Some(BufferAllocation { offset: box_vertices, size: box_vertices })
    } else if id == "ray_debug"@ {
        Some(BufferAllocation { offset: (2 * box_vertices) as usize, size: 4 })
    } else {
        None
    }
}

/// The layout of the widget buffer: the hover box, then the selection box, each drawn with
/// `box_vertices` vertices.
pub open spec fn widget_allocation(box_vertices: usize, id: Seq<char>) -> Option<
    BufferAllocation,
> {
    if id == "hover_box"@ {
        Some(BufferAllocation { offset: 0, size: box_vertices })
    } else if id == "select_box"@ {
        Some(BufferAllocation { offset: box_vertices, size: box_vertices })
    } else {
        None
    }
}

/// The wire buffer's layout, for boxes drawn with a given number of line vertices.
#[derive(Debug)]
pub struct WireAllocator {
    box_vertices: usize,
}

impl WireAllocator {
    pub closed spec fn box_vertices_view(&self) -> usize {
        self.box_vertices
    }

    pub fn new(box_vertices: usize) -> (r: Self)
        requires
            2 * box_vertices + 4 <= usize::MAX,
        ensures
            r.box_vertices_view() == box_vertices,
    {
        WireAllocator { box_vertices }
    }

    /// The part of the buffer named `id`, if there is one.
    pub fn get(&self, id: &str) -> (r: Option<BufferAllocation>)
        requires
            2 * self.box_vertices_view() + 4 <= usize::MAX,
        ensures
            r == wire_allocation(self.box_vertices_view(), id@),
    {
        let name = chars_of(id);
        let n = self.box_vertices;
        if eq_str(&name, "hover_box") {
            Some(BufferAllocation { offset: 0, size: n })
        } else if eq_str(&name, "select_box") {
            Some(BufferAllocation { offset: n, size: n })
        } else if eq_str(&name, "ray_debug") {
            Some(BufferAllocation { offset: n + n, size: 4 })
        } else {
            None
        }
    }

    /// The number of vertices the buffer holds: both boxes and the debug ray.
    pub fn size(&self) -> (r: usize)
        requires
            2 * self.box_vertices_view() + 4 <= usize::MAX,
        ensures
            r == 2 * self.box_vertices_view() + 4,
    {
        self.box_vertices + self.box_vertices + 4
    }
}

/// The widget buffer's layout, for boxes drawn with a given number of triangle vertices.
#[derive(Debug)]
pub struct WidgetAllocator {
    box_vertices: usize,
}

impl WidgetAllocator {
    pub closed spec fn box_vertices_view(&self) -> usize {
        self.box_vertices
    }

    pub fn new(box_vertices: usize) -> (r: Self)
        requires
            2 * box_vertices <= usize::MAX,
        ensures
            r.box_vertices_view() == box_vertices,
    {
        WidgetAllocator { box_vertices }
    }

    /// The part of the buffer named `id`, if there is one.
    pub fn get(&self, id: &str) -> (r: Option<BufferAllocation>)
        ensures
            r == widget_allocation(self.box_vertices_view(), id@),
    {
        let name = chars_of(id);
        let n = self.box_vertices;
        if eq_str(&name, "hover_box") {
            Some(BufferAllocation { offset: 0, size: n })
        } else if eq_str(&name, "select_box") {
            Some(BufferAllocation { offset: n, size: n })
        } else {
            None
        }
    }

    /// The number of vertices the buffer holds: both boxes.
    pub fn size(&self) -> (r: usize)
        requires
            2 * self.box_vertices_view() <= usize::MAX,
        ensures
            r == 2 * self.box_vertices_view(),
    {
        self.box_vertices + self.box_vertices
    }
}

/// Law: the wire buffer has exactly three named parts, the hover box, the selection box and
/// the debug ray; they follow one another without gaps or overlap, each lies within the
/// buffer, and together they fill it exactly.
pub proof fn law_wire_layout_tiles(box_vertices: usize)
    requires
        2 * box_vertices + 4 <= usize::MAX,
    ensures
        ({
            let h = wire_allocation(box_vertices, "hover_box"@);
            let s = wire_allocation(box_vertices, "select_box"@);
            let r = wire_allocation(box_vertices, "ray_debug"@);
            &&& h is Some && s is Some && r is Some
            &&& h->0.offset == 0
            &&& s->0.offset == allocation_end(h->0)
            &&& r->0.offset == allocation_end(s->0)
            &&& allocation_end(r->0) == 2 * box_vertices + 4
        }),
        forall|id: Seq<char>|
            (#[trigger] wire_allocation(box_vertices, id)) is Some <==> (id == "hover_box"@ || id
                == "select_box"@ || id == "ray_debug"@),
        forall|id: Seq<char>|
            #[trigger] wire_allocation(box_vertices, id) matches Some(a) ==> allocation_end(a)
                <= 2 * box_vertices + 4,
{
    reveal_strlit("hover_box");
    reveal_strlit("select_box");
    reveal_strlit("ray_debug");
    assert("select_box"@[0] != "hover_box"@[0]);
    assert("ray_debug"@[0] != "hover_box"@[0]);
    assert("ray_debug"@[0] != "select_box"@[0]);
}

/// Law: the widget buffer has exactly two named parts, the hover box and the selection box;
/// they follow one another without gaps or overlap, each lies within the buffer, and
/// together they fill it exactly.
pub proof fn law_widget_layout_tiles(box_vertices: usize)
    requires
        2 * box_vertices <= usize::MAX,
    ensures
        ({
            let h = widget_allocation(box_vertices, "hover_box"@);
            let s = widget_allocation(box_vertices, "select_box"@);
            &&& h is Some && s is Some
            &&& h->0.offset == 0
            &&& s->0.offset == allocation_end(h->0)
            &&& allocation_end(s->0) == 2 * box_vertices
        }),
        forall|id: Seq<char>|
            (#[trigger] widget_allocation(box_vertices, id)) is Some <==> (id == "hover_box"@ || id
                == "select_box"@),
        forall|id: Seq<char>|
            #[trigger] widget_allocation(box_vertices, id) matches Some(a) ==> allocation_end(a)
                <= 2 * box_vertices,
{
    reveal_strlit("hover_box");
    reveal_strlit("select_box");
    assert("select_box"@[0] != "hover_box"@[0]);
}

/// The layout of the widget vertex buffer with its two box parts of twelve vertices each.
pub struct WidgetBufferLayout;

impl WidgetBufferLayout {
    /// The part of the widget buffer that holds the hover box.
    pub fn hover_box_allocation() -> (r: BufferAllocation)
        ensures
            r == (BufferAllocation { offset: 0, size: 12 }),
    {
        BufferAllocation { offset: 0, size: 12 }
    }

    /// The part of the widget buffer that holds the selection box, right after the hover box.
    pub fn select_box_allocation() -> (r: BufferAllocation)
        ensures
            r == (BufferAllocation { offset: 12, size: 12 }),
    {
        BufferAllocation { offset: 12, size: 12 }
    }
}

} // verus!
