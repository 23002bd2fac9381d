use gloom_rs::gl_model::{BufferTarget, DataSource, GlCommand};
use gloom_rs::vao::{create_vao_plan, create_vao_plan_for, SLOT_COUNT, VAO_SLOT};

#[test]
fn plan_for_one_triangle() {
    // 3 vertices of 3 floats, 3 indices, 3 colours of 4 floats, 3 normals of 3 floats.
    let plan = create_vao_plan(36, 12, 48, 36);
    assert_eq!(plan.len(), 20);
    assert_eq!(plan[0], GlCommand::GenVertexArray { slot: VAO_SLOT });
    assert_eq!(plan[1], GlCommand::BindVertexArray { slot: VAO_SLOT });
    assert_eq!(
        plan[4],
        GlCommand::BufferData { target: BufferTarget::Array, source: DataSource::Vertices, byte_size: 36 }
    );
    assert_eq!(plan[5], GlCommand::VertexAttribPointer { index: 0, components: 3 });
    assert_eq!(plan[6], GlCommand::EnableVertexAttribArray { index: 0 });
    assert_eq!(plan[8], GlCommand::BindBuffer { target: BufferTarget::ElementArray, slot: 2 });
    assert_eq!(
        plan[9],
        GlCommand::BufferData { target: BufferTarget::ElementArray, source: DataSource::Indices, byte_size: 12 }
    );
    assert_eq!(
        plan[12],
        GlCommand::BufferData { target: BufferTarget::Array, source: DataSource::Colours, byte_size: 48 }
    );
    assert_eq!(plan[13], GlCommand::VertexAttribPointer { index: 1, components: 4 });
    assert_eq!(plan[14], GlCommand::EnableVertexAttribArray { index: 1 });
    assert_eq!(
        plan[17],
        GlCommand::BufferData { target: BufferTarget::Array, source: DataSource::Normals, byte_size: 36 }
    );
    assert_eq!(plan[18], GlCommand::VertexAttribPointer { index: 3, components: 3 });
    assert_eq!(plan[19], GlCommand::EnableVertexAttribArray { index: 3 });
}

#[test]
fn every_buffer_is_bound_before_it_is_filled() {
    let plan = create_vao_plan(0, 0, 0, 0);
    let mut generated: Vec<usize> = Vec::new();
    let mut bound_array: Option<usize> = None;
    for c in plan.iter() {
        match *c {
            GlCommand::GenBuffer { slot } | GlCommand::GenVertexArray { slot } => {
                assert!(!generated.contains(&slot));
                generated.push(slot);
            }
            GlCommand::BindBuffer { target: BufferTarget::Array, slot } => {
                assert!(generated.contains(&slot));
                bound_array = Some(slot);
            }
            GlCommand::VertexAttribPointer { .. } => assert!(bound_array.is_some()),
            _ => {}
        }
    }
    assert_eq!(generated.len(), 5);
}

#[test]
fn plan_for_arrays_uses_their_byte_sizes() {
    let vertices: Vec<f32> = vec![0.0; 9];
    let indices: Vec<u32> = vec![0, 1, 2];
    let colours: Vec<f32> = vec![1.0; 12];
    let normals: Vec<f32> = vec![0.0; 9];
    let plan = create_vao_plan_for(&vertices, &indices, &colours, &normals);
    assert_eq!(plan, create_vao_plan(36, 12, 48, 36));
    assert_eq!(
        plan[9],
        GlCommand::BufferData { target: BufferTarget::ElementArray, source: DataSource::Indices, byte_size: 12 }
    );
}

#[test]
fn every_setup_uses_the_same_slots() {
    let first = create_vao_plan(12, 12, 16, 12);
    let second = create_vao_plan(24, 24, 32, 24);
    let slots = |plan: &Vec<GlCommand>| -> Vec<usize> {
        plan.iter()
            .filter_map(|c| match *c {
                GlCommand::GenBuffer { slot } | GlCommand::GenVertexArray { slot } => Some(slot),
                _ => None,
            })
            .collect()
    };
    assert_eq!(slots(&first), vec![0, 1, 2, 3, 4]);
    assert_eq!(slots(&second), vec![0, 1, 2, 3, 4]);
    assert_eq!(SLOT_COUNT, 5);
}
