use age::renderer::{
    vertex_attributes, CommandBuffer, DrawCommand, IndexFormat, IndexedDraw, PassOp, VertexBufferLayout,
    VertexFormat, VertexType,
};

fn draw(target: u64, pipeline: u64, group: Option<u64>, start: u32, end: u32) -> DrawCommand<u8> {
    DrawCommand {
        clear_color: None,
        target,
        bind_groups: [group, None],
        pipeline,
        push_constant_data: None,
        vertex_buffers: [Some(100), None],
        vertices: start..end,
        indexed_draw: None,
    }
}

#[test]
fn frame_sets_only_the_bindings_that_change() {
    let mut buf: CommandBuffer<u8> = CommandBuffer::new();
    let mut first = draw(1, 10, Some(20), 0, 3);
    first.clear_color = Some(7);
    buf.push(first);
    buf.push(draw(1, 10, Some(21), 3, 6));
    buf.push(draw(1, 10, Some(21), 6, 9));
    let ops = buf.end_frame();
    assert_eq!(
        ops,
        vec![
            PassOp::BeginPass { target: 1, clear: Some(7) },
            PassOp::SetPipeline { pipeline: 10 },
            PassOp::SetBindGroup { slot: 0, group: 20 },
            PassOp::SetVertexBuffer { slot: 0, buffer: 100 },
            PassOp::Draw { vertices: 0..3 },
            PassOp::SetBindGroup { slot: 0, group: 21 },
            PassOp::Draw { vertices: 3..6 },
            PassOp::Draw { vertices: 6..9 },
        ]
    );
    assert!(buf.commands().is_empty());
}

#[test]
fn frame_begins_a_pass_on_a_new_target_or_a_clear() {
    let mut buf: CommandBuffer<u8> = CommandBuffer::new();
    buf.push(draw(1, 10, None, 0, 3));
    buf.push(draw(2, 10, None, 0, 3));
    let mut cleared = draw(2, 11, None, 0, 3);
    cleared.clear_color = Some(0);
    buf.push(cleared);
    let ops = buf.end_frame();
    assert_eq!(
        ops,
        vec![
            PassOp::BeginPass { target: 1, clear: None },
            PassOp::SetPipeline { pipeline: 10 },
            PassOp::SetVertexBuffer { slot: 0, buffer: 100 },
            PassOp::Draw { vertices: 0..3 },
            PassOp::BeginPass { target: 2, clear: None },
            PassOp::Draw { vertices: 0..3 },
            PassOp::BeginPass { target: 2, clear: Some(0) },
            PassOp::SetPipeline { pipeline: 11 },
            PassOp::Draw { vertices: 0..3 },
        ]
    );
}

#[test]
fn frame_binds_an_index_buffer_once_and_passes_push_constants() {
    let mut buf: CommandBuffer<u8> = CommandBuffer::new();
    for i in 0..2u32 {
        let mut cmd = draw(1, 10, None, 0, 0);
        cmd.vertex_buffers = [None, None];
        cmd.push_constant_data = Some(vec![i as u8]);
        cmd.indexed_draw = Some(IndexedDraw {
            buffer: 50,
            format: IndexFormat::Uint16,
            indices: (i * 6)..(i * 6 + 6),
        });
        buf.push(cmd);
    }
    let ops = buf.end_frame();
    assert_eq!(
        ops,
        vec![
            PassOp::BeginPass { target: 1, clear: None },
            PassOp::SetPipeline { pipeline: 10 },
            PassOp::SetPushConstants { command: 0 },
            PassOp::SetIndexBuffer { buffer: 50, format: IndexFormat::Uint16 },
            PassOp::DrawIndexed { indices: 0..6 },
            PassOp::SetPushConstants { command: 1 },
            PassOp::DrawIndexed { indices: 6..12 },
        ]
    );
}

#[test]
fn a_slot_left_empty_is_not_set() {
    let mut buf: CommandBuffer<u8> = CommandBuffer::new();
    buf.push(draw(1, 10, Some(20), 0, 3));
    buf.push(draw(1, 10, None, 3, 6));
    buf.push(draw(1, 10, Some(20), 6, 9));
    let ops = buf.end_frame();
    assert_eq!(
        ops,
        vec![
            PassOp::BeginPass { target: 1, clear: None },
            PassOp::SetPipeline { pipeline: 10 },
            PassOp::SetBindGroup { slot: 0, group: 20 },
            PassOp::SetVertexBuffer { slot: 0, buffer: 100 },
            PassOp::Draw { vertices: 0..3 },
            PassOp::Draw { vertices: 3..6 },
            PassOp::SetBindGroup { slot: 0, group: 20 },
            PassOp::Draw { vertices: 6..9 },
        ]
    );
}

#[test]
fn an_empty_frame_asks_nothing() {
    let mut buf: CommandBuffer<u8> = CommandBuffer::new();
    assert!(buf.end_frame().is_empty());
}

#[test]
fn vertex_attributes_are_numbered_across_buffers() {
    let buffers = [
        VertexBufferLayout {
            stride: 16,
            ty: VertexType::Vertex,
            formats: &[VertexFormat::Float32x2],
        },
        VertexBufferLayout {
            stride: 16,
            ty: VertexType::Vertex,
            formats: &[VertexFormat::Float32x2, VertexFormat::Float32x2],
        },
    ];
    let (attributes, ranges) = vertex_attributes(&buffers);
    assert_eq!(attributes.len(), 3);
    let offsets: Vec<u64> = attributes.iter().map(|a| a.offset).collect();
    let locations: Vec<u32> = attributes.iter().map(|a| a.shader_location).collect();
    assert_eq!(offsets, vec![0, 8, 16]);
    assert_eq!(locations, vec![0, 1, 2]);
    assert_eq!(ranges, vec![0..1, 1..2]);
}
