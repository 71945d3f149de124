use fiberslice::render::buffer::{BufferCopy, BufferLocation, BufferRange, DynamicBuffer, RawDynamicBuffer};
use fiberslice::render::layout::{BufferAllocation, WidgetAllocator, WidgetBufferLayout, WireAllocator};
use fiberslice::render::mesh::{CpuMesh, CpuSubMesh, MeshHandle};
use fiberslice::render::model::{Model, SubModel};

#[test]
fn location_becomes_a_range() {
    match BufferRange::from_location(BufferLocation { offset: 4, size: 6 }) {
        BufferRange::Range(r) => assert_eq!(r, 4..10),
        _ => panic!("expected a range"),
    }
}

#[test]
fn mirror_write_read_and_change() {
    let mut buffer = DynamicBuffer::new_init(&[1u32, 2, 3, 4, 5]);
    assert_eq!(buffer.render_range(), 0..5);
    buffer.write(1, &[20, 30]);
    assert_eq!(buffer.vertices(), &vec![1, 20, 30, 4, 5]);
    assert_eq!(buffer.read(BufferRange::Full).unwrap(), &[1, 20, 30, 4, 5]);
    assert_eq!(buffer.read(BufferRange::OffsetFull(3)).unwrap(), &[4, 5]);
    assert_eq!(buffer.read(BufferRange::Range(1..3)).unwrap(), &[20, 30]);
    buffer.change(BufferRange::Range(0..2), |v: &mut u32| *v += 100);
    assert_eq!(buffer.vertices(), &vec![101, 120, 30, 4, 5]);
    buffer.change(BufferRange::OffsetFull(4), |v: &mut u32| *v = 0);
    assert_eq!(buffer.vertices(), &vec![101, 120, 30, 4, 0]);
    buffer.change(BufferRange::OffsetFull(9), |v: &mut u32| *v = 1);
    buffer.change(BufferRange::Range(3..1), |v: &mut u32| *v = 1);
    assert_eq!(buffer.vertices(), &vec![101, 120, 30, 4, 0]);
    buffer.update_range(1..3);
    assert_eq!(buffer.render_range(), 1..3);
    buffer.renew(8);
    assert!(buffer.vertices().is_empty());
    assert_eq!(buffer.render_range(), 0..8);
    buffer.renew_init(&[7, 8]);
    assert_eq!(buffer.vertices(), &vec![7, 8]);
    assert_eq!(buffer.render_range(), 0..2);
    let empty: DynamicBuffer<u32> = DynamicBuffer::new(10, 0..0);
    assert!(empty.vertices().is_empty());
}

#[test]
fn growing_and_shrinking_a_buffer() {
    let (mut buffer, bytes) = RawDynamicBuffer::new::<[f32; 3]>(4, "Paths");
    assert_eq!(bytes, 48);
    assert_eq!(buffer.size(), 4);
    assert_eq!(buffer.label(), "Paths");

    let plan = buffer.allocate::<[f32; 3]>(2);
    assert_eq!(plan.new_bytes, 72);
    assert_eq!(plan.copies, vec![BufferCopy { from: 0, to: 0, len: 48 }]);
    assert_eq!(plan.write_at, None);
    assert_eq!(buffer.size(), 6);
    assert_eq!(buffer.render_range(), 0..6);

    let plan = buffer.append::<[f32; 3]>(3);
    assert_eq!(plan.new_bytes, 108);
    assert_eq!(plan.write_at, Some(72));
    assert_eq!(buffer.size(), 9);

    let plan = buffer.free::<[f32; 3]>(2, 3);
    assert_eq!(plan.new_bytes, 72);
    assert_eq!(
        plan.copies,
        vec![
            BufferCopy { from: 0, to: 0, len: 24 },
            BufferCopy { from: 60, to: 24, len: 48 },
        ]
    );
    assert_eq!(buffer.size(), 6);
    assert_eq!(buffer.render_range(), 0..6);
    assert_eq!(buffer.write_offset::<[f32; 3]>(5), 60);

    let init = RawDynamicBuffer::new_init(7, "Env");
    assert_eq!(init.size(), 7);
    assert_eq!(init.render_range(), 0..7);
}

#[test]
fn buffer_layouts() {
    let wire = WireAllocator::new(24);
    assert_eq!(wire.get("hover_box"), Some(BufferAllocation { offset: 0, size: 24 }));
    assert_eq!(wire.get("select_box"), Some(BufferAllocation { offset: 24, size: 24 }));
    assert_eq!(wire.get("ray_debug"), Some(BufferAllocation { offset: 48, size: 4 }));
    assert_eq!(wire.get("other"), None);
    assert_eq!(wire.size(), 52);

    let widgets = WidgetAllocator::new(36);
    assert_eq!(widgets.get("hover_box"), Some(BufferAllocation { offset: 0, size: 36 }));
    assert_eq!(widgets.get("select_box"), Some(BufferAllocation { offset: 36, size: 36 }));
    assert_eq!(widgets.get("ray_debug"), None);
    assert_eq!(widgets.size(), 72);

    assert_eq!(WidgetBufferLayout::hover_box_allocation(), BufferAllocation { offset: 0, size: 12 });
    assert_eq!(WidgetBufferLayout::select_box_allocation(), BufferAllocation { offset: 12, size: 12 });
}

#[test]
fn mesh_handles_keep_the_tree() {
    let leaf: CpuSubMesh<u8, &str> = CpuSubMesh::Interactive {
        sub_meshes: Vec::new(),
        location: BufferLocation { offset: 3, size: 3 },
        raw_box: 7,
        context: "leaf",
    };
    let part = CpuSubMesh::Static {
        sub_meshes: vec![leaf],
        location: BufferLocation { offset: 0, size: 6 },
    };
    assert_eq!(*part.location(), BufferLocation { offset: 0, size: 6 });
    let mesh: CpuMesh<u32, u8, &str> = CpuMesh::Static {
        vertices: vec![0; 6],
        sub_meshes: vec![part],
        location: BufferLocation { offset: 10, size: 6 },
    };
    assert_eq!(*mesh.location(), BufferLocation { offset: 10, size: 6 });
    let handle = MeshHandle::from_mesh(mesh);
    assert_eq!(*handle.location(), BufferLocation { offset: 10, size: 6 });
    match handle {
        MeshHandle::Static { sub_meshes, .. } => {
            assert_eq!(sub_meshes.len(), 1);
            match &sub_meshes[0] {
                MeshHandle::Static { sub_meshes, location } => {
                    assert_eq!(*location, BufferLocation { offset: 0, size: 6 });
                    match &sub_meshes[0] {
                        MeshHandle::Interactive { location, raw_box, context, sub_meshes } => {
                            assert_eq!(*location, BufferLocation { offset: 3, size: 3 });
                            assert_eq!(*raw_box, 7);
                            assert_eq!(*context, "leaf");
                            assert!(sub_meshes.is_empty());
                        }
                        _ => panic!("expected an interactive leaf"),
                    }
                }
                _ => panic!("expected a static part"),
            }
        }
        _ => panic!("expected a static mesh"),
    }
}

#[test]
fn model_handles_are_moved_by_the_offset() {
    let part: SubModel<u8, u8> = SubModel::Interactive {
        sub_meshes: vec![SubModel::Static {
            sub_meshes: Vec::new(),
            location: BufferLocation { offset: 2, size: 1 },
        }],
        location: BufferLocation { offset: 1, size: 3 },
        raw_box: 4,
        context: 5,
    };
    assert_eq!(part.hitbox(), Some(&4));
    assert_eq!(*part.location(), BufferLocation { offset: 1, size: 3 });
    let model: Model<f32, u8, u8> = Model::Static {
        vertices: vec![0.0; 4],
        sub_meshes: vec![part],
        location: BufferLocation { offset: 0, size: 4 },
    };
    assert_eq!(*model.location(), BufferLocation { offset: 0, size: 4 });
    let handle = model.into_handle(100);
    assert_eq!(*handle.location(), BufferLocation { offset: 100, size: 4 });
    match handle {
        MeshHandle::Static { sub_meshes, .. } => match &sub_meshes[0] {
            MeshHandle::Interactive { location, sub_meshes, raw_box, context } => {
                assert_eq!(*location, BufferLocation { offset: 101, size: 3 });
                assert_eq!((*raw_box, *context), (4, 5));
                assert_eq!(*sub_meshes[0].location(), BufferLocation { offset: 102, size: 1 });
            }
            _ => panic!("expected an interactive part"),
        },
        _ => panic!("expected a static model"),
    }
    let plain: SubModel<u8, u8> = SubModel::Static { sub_meshes: Vec::new(), location: BufferLocation { offset: 0, size: 0 } };
    assert_eq!(plain.hitbox(), None);
}

#[test]
fn freeing_what_was_appended_gives_the_buffer_back() {
    let (mut buffer, _) = RawDynamicBuffer::new::<u16>(3, "Parts");
    let grow = buffer.append::<u16>(2);
    assert_eq!(grow.copies, vec![BufferCopy { from: 0, to: 0, len: 6 }]);
    assert_eq!(grow.write_at, Some(6));
    let shrink = buffer.free::<u16>(3, 2);
    assert_eq!(shrink.new_bytes, 6);
    assert_eq!(
        shrink.copies,
        vec![BufferCopy { from: 0, to: 0, len: 6 }, BufferCopy { from: 10, to: 6, len: 0 }]
    );
    assert_eq!(buffer.size(), 3);
    assert_eq!(buffer.render_range(), 0..3);
}
