use vstd::prelude::*;

use std::ops::Range;

verus! {

/// `value` rounded up to the next multiple of `alignment`.
pub open spec fn aligned_up(value: int, alignment: int) -> int {
    if value % alignment == 0 {
        value
    } else {
        value + (alignment - value % alignment)
    }
}

/// Rounds `value` up to the next multiple of `alignment`, as
/// `wgpu::util::align_to` does.
pub fn align_to(value: usize, alignment: usize) -> (r: usize)
    requires
        alignment > 0,
        aligned_up(value as int, alignment as int) <= usize::MAX,
    ensures
        r == aligned_up(value as int, alignment as int),
        r % alignment == 0,
        value <= r < value + alignment,
{
    let rem = value % alignment;
    if rem == 0 {
        value
    } else {
        proof {
            vstd::arithmetic::div_mod::lemma_fundamental_div_mod(value as int, alignment as int);
            vstd::arithmetic::div_mod::lemma_mod_multiples_vanish(
                (value / alignment) as int + 1,
                0,
                alignment as int,
            );
            assert(value + (alignment - rem) == alignment * (value / alignment + 1)) by (nonlinear_arith)
                requires
                    value == alignment * (value / alignment) + rem,
            ;
            vstd::arithmetic::div_mod::lemma_mod_multiples_basic((value / alignment) as int + 1, alignment as int);
        }
        value + (alignment - rem)
    }
}

/// What a binding of a bind group layout holds.
#[derive(Debug, Clone)]
pub enum BindingType {
    Sampler,
    Texture { sample_count: u32 },
    Uniform { min_size: u64 },
}

/// What a buffer is used for.
#[derive(Debug, Clone, Copy, PartialEq, Eq, Hash, Structural)]
pub enum BufferType {
    Index,
    Uniform,
    Vertex,
}

/// How a sampler treats coordinates outside a texture.
#[derive(Debug, Clone, Copy, PartialEq, Eq, Hash, Structural)]
pub enum AddressMode {
    ClampToEdge,
    Repeat,
}

/// How a sampler filters between texels.
#[derive(Debug, Clone, Copy, PartialEq, Eq, Hash, Structural)]
pub enum FilterMode {
    Linear,
    Nearest,
}

/// The pixel formats of textures.
#[derive(Debug, Clone, Copy, PartialEq, Eq, Hash, Structural)]
pub enum TextureFormat {
    Bgra8Unorm,
    Bgra8UnormSrgb,
    Rgba8Unorm,
    Rgba8UnormSrgb,
}

/// How vertices of a buffer are stepped through.
#[derive(Debug, Clone, Copy, PartialEq, Eq, Hash, Structural)]
pub enum VertexType {
    Vertex,
}

/// The formats of vertex attributes.
#[derive(Debug, Clone, Copy, PartialEq, Eq, Hash, Structural)]
pub enum VertexFormat {
    Float32x2,
}

/// The formats of indices.
#[derive(Debug, Clone, Copy, PartialEq, Eq, Hash, Structural)]
pub enum IndexFormat {
    Uint16,
    Uint32,
}

/// What a bind group layout is made of.
pub struct BindGroupLayoutInfo<'info> {
    pub label: Option<&'info str>,
    pub entries: &'info [BindingType],
}

/// What a buffer is made of.
pub struct BufferInfo<'info> {
    pub label: Option<&'info str>,
    pub size: u64,
    pub ty: BufferType,
}

/// What a sampler is made of.
pub struct SamplerInfo<'info> {
    pub label: Option<&'info str>,
    pub address_mode_u: AddressMode,
    pub address_mode_v: AddressMode,
    pub mag_filter: FilterMode,
    pub min_filter: FilterMode,
}

impl<'info> core::default::Default for SamplerInfo<'info> {
    /// A sampler labelled "default" that clamps to the edge and takes the
    /// nearest texel.
    fn default() -> (info: Self)
        ensures
            info.label is Some,
            info.address_mode_u == AddressMode::ClampToEdge,
            info.address_mode_v == AddressMode::ClampToEdge,
            info.mag_filter == FilterMode::Nearest,
            info.min_filter == FilterMode::Nearest,
    {
        Self {
            label: Some("default"),
            address_mode_u: AddressMode::ClampToEdge,
            address_mode_v: AddressMode::ClampToEdge,
            mag_filter: FilterMode::Nearest,
            min_filter: FilterMode::Nearest,
        }
    }
}

/// What a shader is made of.
pub struct ShaderInfo<'info> {
    pub label: Option<&'info str>,
    pub src: &'info str,
}

/// What a texture view is made of.
pub struct TextureViewInfo<'info> {
    pub label: Option<&'info str>,
}

impl<'info> core::default::Default for TextureViewInfo<'info> {
    fn default() -> (info: Self)
        ensures
            info.label is None,
    {
        Self { label: None }
    }
}

/// What a texture is made of.
pub struct TextureInfo<'info> {
    pub label: Option<&'info str>,
    pub width: u32,
    pub height: u32,
    pub format: TextureFormat,
    pub renderable: bool,
    pub sample_count: u32,
}

impl<'info> core::default::Default for TextureInfo<'info> {
    /// An unlabelled one by one BGRA texture that is not rendered to and
    /// takes one sample.
    fn default() -> (info: Self)
        ensures
            info.label is None,
            info.width == 1,
            info.height == 1,
            info.format == TextureFormat::Bgra8Unorm,
            !info.renderable,
            info.sample_count == 1,
    {
        Self {
            label: None,
            width: 1,
            height: 1,
            format: TextureFormat::Bgra8Unorm,
            renderable: false,
            sample_count: 1,
        }
    }
}

/// How a vertex buffer is laid out.
#[derive(Debug, Clone)]
pub struct VertexBufferLayout {
    pub stride: u64,
    pub ty: VertexType,
    pub formats: &'static [VertexFormat],
}

} // verus!
verus! {

impl TextureFormat {
    /// The bytes of one pixel: four for each of the formats, as `wgpu`
    /// documents their block copy size.
    pub fn bytes_per_pixel(&self) -> (n: u32)
        ensures
            n == 4,
    {
        4
    }
}

impl VertexFormat {
    /// The bytes of one vertex attribute: two 32-bit floats.
    pub fn size(&self) -> (n: u64)
        ensures
            n == 8,
    {
        8
    }
}

/// The largest number of bind groups a draw uses.
pub const MAX_BIND_GROUPS: usize = 2;

/// The largest number of vertex buffers a draw uses.
pub const MAX_VERTEX_BUFFERS: usize = 2;

/// An indexed draw: the index buffer, the format of its indices and the
/// indices to draw.
pub struct IndexedDraw {
    pub buffer: u64,
    pub format: IndexFormat,
    pub indices: Range<u32>,
}

/// A draw that a frame records: the resources it uses, named by their ids,
/// and what to draw. `C` is the colour a target is cleared to.
pub struct DrawCommand<C> {
    pub clear_color: Option<C>,
    pub target: u64,
    pub bind_groups: [Option<u64>; MAX_BIND_GROUPS],
    pub pipeline: u64,
    pub push_constant_data: Option<Vec<u8>>,
    pub vertex_buffers: [Option<u64>; MAX_VERTEX_BUFFERS],
    pub vertices: Range<u32>,
    pub indexed_draw: Option<IndexedDraw>,
}

/// What the end of a frame asks of the device's command encoder, in order.
#[derive(Debug, PartialEq)]
pub enum PassOp<C> {
    /// Begin a render pass onto the target, cleared to the colour where
    /// there is one, else keeping what it holds.
    BeginPass { target: u64, clear: Option<C> },
    SetPipeline { pipeline: u64 },
    SetBindGroup { slot: usize, group: u64 },
    /// Set the push constants to the data of the command with this index.
    SetPushConstants { command: usize },
    SetVertexBuffer { slot: usize, buffer: u64 },
    SetIndexBuffer { buffer: u64, format: IndexFormat },
    DrawIndexed { indices: Range<u32> },
    Draw { vertices: Range<u32> },
}

/// The bindings that the end of a frame takes as current: the target of
/// the pass, the pipeline, the bind groups and vertex buffers of each slot,
/// and the index buffer.
pub struct PassState {
    pub target: Option<u64>,
    pub pipeline: Option<u64>,
    pub bind_groups: Seq<Option<u64>>,
    pub vertex_buffers: Seq<Option<u64>>,
    pub index_buffer: Option<u64>,
}

/// Nothing bound yet.
pub open spec fn empty_pass_state() -> PassState {
    PassState {
        target: None,
        pipeline: None,
        bind_groups: seq![None, None],
        vertex_buffers: seq![None, None],
        index_buffer: None,
    }
}

/// The bind group to set in `slot`: only where it changes, and is one.
pub open spec fn bind_group_op<C>(cur: Option<u64>, want: Option<u64>, slot: usize) -> Seq<PassOp<C>> {
    match want {
        Some(group) => if cur != want {
            seq![PassOp::SetBindGroup { slot, group }]
        } else {
            seq![]
        },
        None => seq![],
    }
}

/// The vertex buffer to set in `slot`: only where it changes, and is one.
pub open spec fn vertex_buffer_op<C>(cur: Option<u64>, want: Option<u64>, slot: usize) -> Seq<PassOp<C>> {
    match want {
        Some(buffer) => if cur != want {
            seq![PassOp::SetVertexBuffer { slot, buffer }]
        } else {
            seq![]
        },
        None => seq![],
    }
}

/// A new pass where the target changes or the command clears it.
pub open spec fn begin_op<C>(s: PassState, cmd: DrawCommand<C>) -> Seq<PassOp<C>> {
    if s.target != Some(cmd.target) || cmd.clear_color is Some {
        seq![PassOp::BeginPass { target: cmd.target, clear: cmd.clear_color }]
    } else {
        seq![]
    }
}

/// The pipeline, where it changes.
pub open spec fn pipeline_op<C>(s: PassState, cmd: DrawCommand<C>) -> Seq<PassOp<C>> {
    if s.pipeline != Some(cmd.pipeline) {
        seq![PassOp::SetPipeline { pipeline: cmd.pipeline }]
    } else {
        seq![]
    }
}

/// The push constants of command `k`, where it has them.
pub open spec fn push_op<C>(cmd: DrawCommand<C>, k: int) -> Seq<PassOp<C>> {
    if cmd.push_constant_data is Some {
        seq![PassOp::SetPushConstants { command: k as usize }]
    } else {
        seq![]
    }
}

/// The draw: an indexed one, after its index buffer where that changes, or
/// a plain one.
pub open spec fn draw_ops<C>(s: PassState, cmd: DrawCommand<C>) -> Seq<PassOp<C>> {
    match cmd.indexed_draw {
        Some(d) => if s.index_buffer != Some(d.buffer) {
            seq![PassOp::SetIndexBuffer { buffer: d.buffer, format: d.format }, PassOp::DrawIndexed { indices: d.indices }]
        } else {
            seq![PassOp::DrawIndexed { indices: d.indices }]
        },
        None => seq![PassOp::Draw { vertices: cmd.vertices }],
    }
}

/// The bindings after command `cmd`: its own, but for the index buffer of a
/// plain draw, which stays.
pub open spec fn state_after<C>(s: PassState, cmd: DrawCommand<C>) -> PassState {
    PassState {
        target: Some(cmd.target),
        pipeline: Some(cmd.pipeline),
        bind_groups: cmd.bind_groups@,
        vertex_buffers: cmd.vertex_buffers@,
        index_buffer: match cmd.indexed_draw {
            Some(d) => Some(d.buffer),
            None => s.index_buffer,
        },
    }
}

/// `ops` followed by the operations for command `k` from the current
/// bindings `s`: a new pass where the target changes or the command clears
/// it, then each binding that changes, the push constants where the command
/// has them, and the draw.
pub open spec fn append_command_ops<C>(ops: Seq<PassOp<C>>, s: PassState, cmd: DrawCommand<C>, k: int) -> Seq<PassOp<C>> {
    ops + begin_op(s, cmd) + pipeline_op(s, cmd) + bind_group_op(s.bind_groups[0], cmd.bind_groups@[0], 0)
        + bind_group_op(s.bind_groups[1], cmd.bind_groups@[1], 1) + push_op(cmd, k) + vertex_buffer_op(
        s.vertex_buffers[0],
        cmd.vertex_buffers@[0],
        0,
    ) + vertex_buffer_op(s.vertex_buffers[1], cmd.vertex_buffers@[1], 1) + draw_ops(s, cmd)
}

/// The operations for the commands, in order, with the bindings after them.
pub open spec fn frame_ops<C>(cmds: Seq<DrawCommand<C>>) -> (PassState, Seq<PassOp<C>>)
    decreases cmds.len(),
{
    if cmds.len() == 0 {
        (empty_pass_state(), seq![])
    } else {
        let (s, ops) = frame_ops(cmds.drop_last());
        (state_after(s, cmds.last()), append_command_ops(ops, s, cmds.last(), cmds.len() - 1))
    }
}

} // verus!
verus! {

/// Whether two bindings are the same.
fn same_binding(a: Option<u64>, b: Option<u64>) -> (r: bool)
    ensures
        r == (a == b),
{
    match (a, b) {
        (Some(x), Some(y)) => x == y,
        (None, None) => true,
        _ => false,
    }
}

/// Records the bind group of `slot` and sets it where it changes and is one.
fn update_bind_group<C>(ops: &mut Vec<PassOp<C>>, cur: &mut Vec<Option<u64>>, slot: usize, want: Option<u64>)
    requires
        old(cur)@.len() == 2,
        slot < 2,
    ensures
        final(ops)@ == old(ops)@ + bind_group_op(old(cur)@[slot as int], want, slot),
        final(cur)@ == old(cur)@.update(slot as int, want),
{
    if !same_binding(cur[slot], want) {
        if let Some(group) = want {
            ops.push(PassOp::SetBindGroup { slot, group });
        }
    }
    cur.set(slot, want);
    proof {
        let expected = bind_group_op::<C>(old(cur)@[slot as int], want, slot);
        assert(final(ops)@ =~= old(ops)@ + expected);
    }
}

/// Records the vertex buffer of `slot` and sets it where it changes and is
/// one.
fn update_vertex_buffer<C>(ops: &mut Vec<PassOp<C>>, cur: &mut Vec<Option<u64>>, slot: usize, want: Option<u64>)
    requires
        old(cur)@.len() == 2,
        slot < 2,
    ensures
        final(ops)@ == old(ops)@ + vertex_buffer_op(old(cur)@[slot as int], want, slot),
        final(cur)@ == old(cur)@.update(slot as int, want),
{
    if !same_binding(cur[slot], want) {
        if let Some(buffer) = want {
            ops.push(PassOp::SetVertexBuffer { slot, buffer });
        }
    }
    cur.set(slot, want);
    proof {
        let expected = vertex_buffer_op::<C>(old(cur)@[slot as int], want, slot);
        assert(final(ops)@ =~= old(ops)@ + expected);
    }
}

/// The bindings that planning takes as current.
struct Bindings {
    target: Option<u64>,
    pipeline: Option<u64>,
    groups: Vec<Option<u64>>,
    buffers: Vec<Option<u64>>,
    index_buffer: Option<u64>,
}

impl Bindings {
    spec fn state(&self) -> PassState {
        PassState {
            target: self.target,
            pipeline: self.pipeline,
            bind_groups: self.groups@,
            vertex_buffers: self.buffers@,
            index_buffer: self.index_buffer,
        }
    }
}

/// Appends a new pass where the target changes or the command clears it,
/// and the pipeline where it changes; records both.
fn plan_pass<C: Copy>(
    ops: &mut Vec<PassOp<C>>,
    target: &mut Option<u64>,
    pipeline: &mut Option<u64>,
    cmd: &DrawCommand<C>,
    Ghost(s): Ghost<PassState>,
)
    requires
        s.target == *old(target),
        s.pipeline == *old(pipeline),
    ensures
        final(ops)@ == old(ops)@ + begin_op(s, *cmd) + pipeline_op(s, *cmd),
        *final(target) == Some(cmd.target),
        *final(pipeline) == Some(cmd.pipeline),
{
    let ghost before = ops@;
    let retarget = match *target {
        Some(t) => t != cmd.target,
        None => true,
    };
    if retarget || cmd.clear_color.is_some() {
        ops.push(PassOp::BeginPass { target: cmd.target, clear: cmd.clear_color });
    }
    *target = Some(cmd.target);
    let ghost after_begin = ops@;
    assert(after_begin =~= before + begin_op(s, *cmd));
    let repipe = match *pipeline {
        Some(p) => p != cmd.pipeline,
        None => true,
    };
    if repipe {
        ops.push(PassOp::SetPipeline { pipeline: cmd.pipeline });
    }
    *pipeline = Some(cmd.pipeline);
    assert(ops@ =~= after_begin + pipeline_op(s, *cmd));
}

/// Appends the draw of the command, after its index buffer where that
/// changes; records the index buffer.
fn plan_draw<C: Copy>(
    ops: &mut Vec<PassOp<C>>,
    index_buffer: &mut Option<u64>,
    cmd: &DrawCommand<C>,
    Ghost(s): Ghost<PassState>,
)
    requires
        s.index_buffer == *old(index_buffer),
    ensures
        final(ops)@ == old(ops)@ + draw_ops(s, *cmd),
        *final(index_buffer) == state_after(s, *cmd).index_buffer,
{
    let ghost before = ops@;
    match &cmd.indexed_draw {
        Some(d) => {
            let rebind = match *index_buffer {
                Some(ib) => ib != d.buffer,
                None => true,
            };
            if rebind {
                ops.push(PassOp::SetIndexBuffer { buffer: d.buffer, format: d.format });
            }
            *index_buffer = Some(d.buffer);
            ops.push(PassOp::DrawIndexed { indices: d.indices.start..d.indices.end });
        },
        None => {
            ops.push(PassOp::Draw { vertices: cmd.vertices.start..cmd.vertices.end });
        },
    }
    assert(ops@ =~= before + draw_ops(s, *cmd));
}

/// Appends the operations for command `k` and moves the bindings on.
fn plan_command<C: Copy>(ops: &mut Vec<PassOp<C>>, b: &mut Bindings, cmd: &DrawCommand<C>, k: usize)
    requires
        old(b).groups@.len() == 2,
        old(b).buffers@.len() == 2,
    ensures
        final(ops)@ == append_command_ops(old(ops)@, old(b).state(), *cmd, k as int),
        final(b).state() == state_after(old(b).state(), *cmd),
        final(b).groups@.len() == 2,
        final(b).buffers@.len() == 2,
{
    let ghost s = b.state();
    plan_pass(ops, &mut b.target, &mut b.pipeline, cmd, Ghost(s));
    update_bind_group(ops, &mut b.groups, 0, cmd.bind_groups[0]);
    update_bind_group(ops, &mut b.groups, 1, cmd.bind_groups[1]);
    assert(b.groups@ =~= cmd.bind_groups@);
    if cmd.push_constant_data.is_some() {
        ops.push(PassOp::SetPushConstants { command: k });
    }
    update_vertex_buffer(ops, &mut b.buffers, 0, cmd.vertex_buffers[0]);
    update_vertex_buffer(ops, &mut b.buffers, 1, cmd.vertex_buffers[1]);
    assert(b.buffers@ =~= cmd.vertex_buffers@);
    plan_draw(ops, &mut b.index_buffer, cmd, Ghost(s));
}

/// What the end of a frame asks of the command encoder for the recorded
/// draws: each draw in order, each preceded by a new pass where its target
/// changes or it clears the target, and by the bindings that change.
pub fn plan_frame<C: Copy>(commands: &[DrawCommand<C>]) -> (ops: Vec<PassOp<C>>)
    ensures
        ops@ == frame_ops(commands@).1,
{
    let n = commands.len();
    let mut ops: Vec<PassOp<C>> = Vec::new();
    let mut b = Bindings {
        target: None,
        pipeline: None,
        groups: vec![None, None],
        buffers: vec![None, None],
        index_buffer: None,
    };
    let mut k: usize = 0;
    proof {
        assert(b.state().bind_groups =~= seq![None, None]);
        assert(b.state().vertex_buffers =~= seq![None, None]);
        assert(commands@.take(0) =~= Seq::<DrawCommand<C>>::empty());
    }
    while k < n
        invariant
            0 <= k <= n,
            n == commands@.len(),
            b.groups@.len() == 2,
            b.buffers@.len() == 2,
            frame_ops(commands@.take(k as int)).0 == b.state(),
            ops@ == frame_ops(commands@.take(k as int)).1,
        decreases n - k,
    {
        proof {
            assert(commands@.take(k + 1).drop_last() =~= commands@.take(k as int));
            assert(commands@.take(k + 1).last() == commands@[k as int]);
        }
        plan_command(&mut ops, &mut b, &commands[k], k);
        k = k + 1;
    }
    proof {
        assert(commands@.take(n as int) =~= commands@);
    }
    ops
}

/// The draws that a frame records.
pub struct CommandBuffer<C> {
    commands: Vec<DrawCommand<C>>,
}

impl<C: Copy> CommandBuffer<C> {
    /// The draws recorded so far, in order.
    pub closed spec fn commands_spec(&self) -> Seq<DrawCommand<C>> {
        self.commands@
    }

    /// An empty command buffer.
    pub fn new() -> (b: Self)
        ensures
            b.commands_spec() == Seq::<DrawCommand<C>>::empty(),
    {
        CommandBuffer { commands: Vec::new() }
    }

    /// Records a draw after the others.
    pub fn push(&mut self, draw: DrawCommand<C>)
        ensures
            final(self).commands_spec() == old(self).commands_spec().push(draw),
    {
        self.commands.push(draw);
    }

    /// Forgets the draws recorded.
    pub fn clear(&mut self)
        ensures
            final(self).commands_spec() == Seq::<DrawCommand<C>>::empty(),
    {
        self.commands.clear();
    }

    /// The draws recorded so far, in order.
    pub fn commands(&self) -> (c: &[DrawCommand<C>])
        ensures
            c@ == self.commands_spec(),
    {
        self.commands.as_slice()
    }

    /// Ends the frame: what the encoder is asked to do for the recorded
    /// draws, after which the buffer is empty.
    pub fn end_frame(&mut self) -> (ops: Vec<PassOp<C>>)
        ensures
            ops@ == frame_ops(old(self).commands_spec()).1,
            final(self).commands_spec() == Seq::<DrawCommand<C>>::empty(),
    {
        let ops = plan_frame(self.commands.as_slice());
        self.commands.clear();
        ops
    }
}

} // verus!
verus! {

/// The bindings after one operation: each binding operation sets what it
/// names; the others bind nothing.
pub open spec fn apply_op<C>(s: PassState, op: PassOp<C>) -> PassState {
    match op {
        PassOp::BeginPass { target, .. } => PassState { target: Some(target), ..s },
        PassOp::SetPipeline { pipeline } => PassState { pipeline: Some(pipeline), ..s },
        PassOp::SetBindGroup { slot, group } => PassState {
            bind_groups: s.bind_groups.update(slot as int, Some(group)),
            ..s
        },
        PassOp::SetVertexBuffer { slot, buffer } => PassState {
            vertex_buffers: s.vertex_buffers.update(slot as int, Some(buffer)),
            ..s
        },
        PassOp::SetIndexBuffer { buffer, .. } => PassState { index_buffer: Some(buffer), ..s },
        _ => s,
    }
}

/// The bindings after the operations, in order, from `s`.
pub open spec fn replay<C>(s: PassState, ops: Seq<PassOp<C>>) -> PassState
    decreases ops.len(),
{
    if ops.len() == 0 {
        s
    } else {
        apply_op(replay(s, ops.drop_last()), ops.last())
    }
}

/// Whether the bindings `r` that operations made are those that planning
/// tracks in `p`: the same target, pipeline and index buffer, and in each
/// slot where `p` has a bind group or vertex buffer, that one.
pub open spec fn tracks(r: PassState, p: PassState) -> bool {
    &&& r.target == p.target
    &&& r.pipeline == p.pipeline
    &&& r.index_buffer == p.index_buffer
    &&& r.bind_groups.len() == 2
    &&& r.vertex_buffers.len() == 2
    &&& p.bind_groups.len() == 2
    &&& p.vertex_buffers.len() == 2
    &&& forall|i: int| 0 <= i < 2 && (#[trigger] p.bind_groups[i]) is Some ==> r.bind_groups[i] == p.bind_groups[i]
    &&& forall|i: int|
        0 <= i < 2 && (#[trigger] p.vertex_buffers[i]) is Some ==> r.vertex_buffers[i] == p.vertex_buffers[i]
}

/// The draw operation of a command.
pub open spec fn draw_of<C>(cmd: DrawCommand<C>) -> PassOp<C> {
    match cmd.indexed_draw {
        Some(d) => PassOp::DrawIndexed { indices: d.indices },
        None => PassOp::Draw { vertices: cmd.vertices },
    }
}

/// Whether the bindings `r` are what command `cmd` draws with: its target
/// and pipeline, the bind groups and vertex buffers it names, and the index
/// buffer of an indexed draw.
pub open spec fn binds_for<C>(r: PassState, cmd: DrawCommand<C>) -> bool {
    &&& r.target == Some(cmd.target)
    &&& r.pipeline == Some(cmd.pipeline)
    &&& forall|i: int|
        0 <= i < 2 && (#[trigger] cmd.bind_groups@[i]) is Some ==> r.bind_groups[i] == cmd.bind_groups@[i]
    &&& forall|i: int|
        0 <= i < 2 && (#[trigger] cmd.vertex_buffers@[i]) is Some ==> r.vertex_buffers[i] == cmd.vertex_buffers@[i]
    &&& cmd.indexed_draw matches Some(d) ==> r.index_buffer == Some(d.buffer)
}

proof fn lemma_replay_append<C>(s: PassState, a: Seq<PassOp<C>>, b: Seq<PassOp<C>>)
    ensures
        replay(s, a + b) == replay(replay(s, a), b),
    decreases b.len(),
{
    if b.len() == 0 {
        assert(a + b =~= a);
    } else {
        assert((a + b).drop_last() =~= a + b.drop_last());
        assert((a + b).last() == b.last());
        lemma_replay_append(s, a, b.drop_last());
    }
}

proof fn lemma_replay_short<C>(s: PassState, op: PassOp<C>)
    ensures
        replay(s, Seq::<PassOp<C>>::empty()) == s,
        replay(s, seq![op]) == apply_op(s, op),
{
    assert(seq![op].drop_last() =~= Seq::<PassOp<C>>::empty());
}

} // verus!
verus! {

proof fn lemma_replay_piece<C>(s: PassState, piece: Seq<PassOp<C>>)
    requires
        piece.len() <= 1,
    ensures
        replay(s, piece) == (if piece.len() == 0 {
            s
        } else {
            apply_op(s, piece[0])
        }),
{
    if piece.len() == 0 {
        assert(piece =~= Seq::<PassOp<C>>::empty());
        lemma_replay_short(s, PassOp::<C>::SetPushConstants { command: 0 });
    } else {
        assert(piece =~= seq![piece[0]]);
        lemma_replay_short(s, piece[0]);
    }
}

proof fn lemma_replay_step<C>(e: PassState, xs: Seq<PassOp<C>>, piece: Seq<PassOp<C>>)
    requires
        piece.len() <= 1,
    ensures
        replay(e, xs + piece) == (if piece.len() == 0 {
            replay(e, xs)
        } else {
            apply_op(replay(e, xs), piece[0])
        }),
{
    lemma_replay_append(e, xs, piece);
    lemma_replay_piece(replay(e, xs), piece);
}

/// The new pass and the pipeline of a command, from bindings that planning
/// tracks, bind its target and pipeline and leave the rest.
proof fn lemma_pass_replay<C>(e: PassState, ops: Seq<PassOp<C>>, p: PassState, cmd: DrawCommand<C>)
    requires
        tracks(replay(e, ops), p),
    ensures
        ({
            let r = replay(e, ops + begin_op(p, cmd) + pipeline_op(p, cmd));
            let r0 = replay(e, ops);
            &&& r.target == Some(cmd.target)
            &&& r.pipeline == Some(cmd.pipeline)
            &&& r.bind_groups == r0.bind_groups
            &&& r.vertex_buffers == r0.vertex_buffers
            &&& r.index_buffer == r0.index_buffer
        }),
{
    lemma_replay_step(e, ops, begin_op(p, cmd));
    lemma_replay_step(e, ops + begin_op(p, cmd), pipeline_op(p, cmd));
}

/// The bind group of slot `i` from bindings `xs` made: set where it
/// changes and is one; where it is one, bound afterwards.
proof fn lemma_group_replay<C>(e: PassState, xs: Seq<PassOp<C>>, cur: Option<u64>, want: Option<u64>, i: usize)
    requires
        i < 2,
        replay(e, xs).bind_groups.len() == 2,
        want is Some && cur == want ==> replay(e, xs).bind_groups[i as int] == want,
    ensures
        ({
            let r = replay(e, xs + bind_group_op::<C>(cur, want, i));
            let r0 = replay(e, xs);
            &&& r.target == r0.target
            &&& r.pipeline == r0.pipeline
            &&& r.vertex_buffers == r0.vertex_buffers
            &&& r.index_buffer == r0.index_buffer
            &&& r.bind_groups.len() == 2
            &&& forall|j: int| 0 <= j < 2 && j != i ==> r.bind_groups[j] == r0.bind_groups[j]
            &&& want is Some ==> r.bind_groups[i as int] == want
        }),
{
    lemma_replay_step(e, xs, bind_group_op::<C>(cur, want, i));
}

/// The vertex buffer of slot `i` from bindings `xs` made: set where it
/// changes and is one; where it is one, bound afterwards.
proof fn lemma_buffer_replay<C>(e: PassState, xs: Seq<PassOp<C>>, cur: Option<u64>, want: Option<u64>, i: usize)
    requires
        i < 2,
        replay(e, xs).vertex_buffers.len() == 2,
        want is Some && cur == want ==> replay(e, xs).vertex_buffers[i as int] == want,
    ensures
        ({
            let r = replay(e, xs + vertex_buffer_op::<C>(cur, want, i));
            let r0 = replay(e, xs);
            &&& r.target == r0.target
            &&& r.pipeline == r0.pipeline
            &&& r.bind_groups == r0.bind_groups
            &&& r.index_buffer == r0.index_buffer
            &&& r.vertex_buffers.len() == 2
            &&& forall|j: int| 0 <= j < 2 && j != i ==> r.vertex_buffers[j] == r0.vertex_buffers[j]
            &&& want is Some ==> r.vertex_buffers[i as int] == want
        }),
{
    lemma_replay_step(e, xs, vertex_buffer_op::<C>(cur, want, i));
}

/// The draw of a command: before it, its index buffer is bound where the
/// draw is indexed; it binds nothing itself.
proof fn lemma_draw_replay<C>(e: PassState, xs: Seq<PassOp<C>>, p: PassState, cmd: DrawCommand<C>)
    requires
        replay(e, xs).index_buffer == p.index_buffer,
    ensures
        ({
            let all = xs + draw_ops(p, cmd);
            let r0 = replay(e, xs);
            let r = replay(e, all.drop_last());
            &&& all.len() > xs.len()
            &&& all.last() == draw_of(cmd)
            &&& all.drop_last() == xs + draw_ops(p, cmd).drop_last()
            &&& replay(e, all) == r
            &&& r.target == r0.target
            &&& r.pipeline == r0.pipeline
            &&& r.bind_groups == r0.bind_groups
            &&& r.vertex_buffers == r0.vertex_buffers
            &&& r.index_buffer == state_after(p, cmd).index_buffer
        }),
{
    let d = draw_ops(p, cmd);
    let all = xs + d;
    assert(all.drop_last() =~= xs + d.drop_last());
    lemma_replay_step(e, xs, d.drop_last());
}

/// Replaying the operations of one command, from bindings that planning
/// tracks: before its draw they are what the command draws with, and after
/// it planning still tracks them.
proof fn lemma_command_replay<C>(e: PassState, ops: Seq<PassOp<C>>, p: PassState, cmd: DrawCommand<C>, k: int)
    requires
        tracks(replay(e, ops), p),
    ensures
        ({
            let all = append_command_ops(ops, p, cmd, k);
            &&& all.len() > ops.len()
            &&& all.last() == draw_of(cmd)
            &&& binds_for(replay(e, all.drop_last()), cmd)
            &&& tracks(replay(e, all), state_after(p, cmd))
            &&& all.subrange(0, ops.len() as int) == ops
        }),
{
    let x2 = ops + begin_op(p, cmd) + pipeline_op(p, cmd);
    lemma_pass_replay(e, ops, p, cmd);
    let x3 = x2 + bind_group_op::<C>(p.bind_groups[0], cmd.bind_groups@[0], 0);
    lemma_group_replay::<C>(e, x2, p.bind_groups[0], cmd.bind_groups@[0], 0);
    let x4 = x3 + bind_group_op::<C>(p.bind_groups[1], cmd.bind_groups@[1], 1);
    lemma_group_replay::<C>(e, x3, p.bind_groups[1], cmd.bind_groups@[1], 1);
    let x5 = x4 + push_op(cmd, k);
    lemma_replay_step(e, x4, push_op(cmd, k));
    let x6 = x5 + vertex_buffer_op::<C>(p.vertex_buffers[0], cmd.vertex_buffers@[0], 0);
    lemma_buffer_replay::<C>(e, x5, p.vertex_buffers[0], cmd.vertex_buffers@[0], 0);
    let x7 = x6 + vertex_buffer_op::<C>(p.vertex_buffers[1], cmd.vertex_buffers@[1], 1);
    lemma_buffer_replay::<C>(e, x6, p.vertex_buffers[1], cmd.vertex_buffers@[1], 1);
    lemma_draw_replay(e, x7, p, cmd);
    let all = x7 + draw_ops(p, cmd);
    assert(all == append_command_ops(ops, p, cmd, k));
    let r = replay(e, all.drop_last());
    assert(binds_for(r, cmd));
    assert(tracks(replay(e, all), state_after(p, cmd)));
    assert(all.subrange(0, ops.len() as int) =~= ops);
}

} // verus!
verus! {

/// The operations for the first `m` commands begin those for all of them.
proof fn lemma_frame_prefix<C>(cmds: Seq<DrawCommand<C>>, m: int)
    requires
        0 <= m <= cmds.len(),
    ensures
        frame_ops(cmds.take(m)).1.len() <= frame_ops(cmds).1.len(),
        frame_ops(cmds).1.take(frame_ops(cmds.take(m)).1.len() as int) == frame_ops(cmds.take(m)).1,
    decreases cmds.len(),
{
    if m == cmds.len() {
        assert(cmds.take(m) =~= cmds);
        assert(frame_ops(cmds).1.take(frame_ops(cmds).1.len() as int) =~= frame_ops(cmds).1);
    } else {
        let prev = cmds.drop_last();
        assert(prev.take(m) =~= cmds.take(m));
        lemma_frame_prefix(prev, m);
        let (s, ops) = frame_ops(prev);
        let all = frame_ops(cmds).1;
        assert(all == append_command_ops(ops, s, cmds.last(), cmds.len() - 1));
        let inner = frame_ops(cmds.take(m)).1;
        assert(all.take(inner.len() as int) =~= ops.take(inner.len() as int));
    }
}

/// The bindings that planning a frame keeps track of are the bindings that
/// its operations make: the same target, pipeline and index buffer, and the
/// same bind group and vertex buffer in each slot where the tracked one is
/// set. Planning thus begins a pass, sets a pipeline and sets an index
/// buffer only where the one bound differs.
pub proof fn lemma_frame_tracks_bindings<C>(cmds: Seq<DrawCommand<C>>)
    ensures
        tracks(replay(empty_pass_state(), frame_ops(cmds).1), frame_ops(cmds).0),
    decreases cmds.len(),
{
    if cmds.len() == 0 {
        lemma_replay_short(empty_pass_state(), PassOp::<C>::SetPushConstants { command: 0 });
        assert(frame_ops(cmds).1 =~= Seq::<PassOp<C>>::empty());
    } else {
        let prev = cmds.drop_last();
        lemma_frame_tracks_bindings(prev);
        let (s, ops) = frame_ops(prev);
        lemma_command_replay(empty_pass_state(), ops, s, cmds.last(), cmds.len() - 1);
    }
}

/// Each command is drawn with what it names: the operations for the
/// commands up to command `k` end with its draw and begin the operations of
/// the whole frame, and before that draw they have bound its target, its
/// pipeline, the bind groups and vertex buffers it names, and, for an
/// indexed draw, its index buffer.
pub proof fn lemma_frame_binds_each_draw<C>(cmds: Seq<DrawCommand<C>>, k: int)
    requires
        0 <= k < cmds.len(),
    ensures
        ({
            let upto = frame_ops(cmds.take(k + 1)).1;
            &&& upto.len() > 0
            &&& upto.last() == draw_of(cmds[k])
            &&& frame_ops(cmds).1.take(upto.len() as int) == upto
            &&& binds_for(replay(empty_pass_state(), upto.drop_last()), cmds[k])
        }),
{
    let upto_cmds = cmds.take(k + 1);
    assert(upto_cmds.drop_last() =~= cmds.take(k));
    assert(upto_cmds.last() == cmds[k]);
    lemma_frame_tracks_bindings(cmds.take(k));
    let (s, ops) = frame_ops(cmds.take(k));
    lemma_command_replay(empty_pass_state(), ops, s, cmds[k], k);
    lemma_frame_prefix(cmds, k + 1);
}

/// The operations that planning emits for command `k` of a frame: those
/// for the first `k + 1` commands, after those for the first `k`.
pub open spec fn command_ops<C>(cmds: Seq<DrawCommand<C>>, k: int) -> Seq<PassOp<C>> {
    let before = frame_ops(cmds.take(k)).1;
    let upto = frame_ops(cmds.take(k + 1)).1;
    upto.subrange(before.len() as int, upto.len() as int)
}

/// Whether none of the operations sets an index buffer.
spec fn sets_no_index_buffer<C>(ops: Seq<PassOp<C>>) -> bool {
    forall|j: int| 0 <= j < ops.len() ==> !(#[trigger] ops[j] is SetIndexBuffer)
}

proof fn lemma_no_index_concat<C>(a: Seq<PassOp<C>>, b: Seq<PassOp<C>>)
    requires
        sets_no_index_buffer(a),
        sets_no_index_buffer(b),
    ensures
        sets_no_index_buffer(a + b),
{
    assert forall|j: int| 0 <= j < (a + b).len() implies !(#[trigger] (a + b)[j] is SetIndexBuffer) by {
        if j < a.len() {
            assert((a + b)[j] == a[j]);
        } else {
            assert((a + b)[j] == b[j - a.len()]);
        }
    }
}

proof fn lemma_no_index_short<C>(ops: Seq<PassOp<C>>)
    requires
        ops.len() <= 1,
        ops.len() == 1 ==> !(ops[0] is SetIndexBuffer),
    ensures
        sets_no_index_buffer(ops),
{
}

/// An index buffer is bound with the format of the draw that uses it: every
/// operation that sets an index buffer among those planned for command `k`
/// is for an indexed draw of that command, and names that draw's own buffer
/// and index format. Those operations stand in the frame's operations right
/// after the operations of the commands before `k`.
pub proof fn lemma_index_buffer_format<C>(cmds: Seq<DrawCommand<C>>, k: int, i: int)
    requires
        0 <= k < cmds.len(),
        0 <= i < command_ops(cmds, k).len(),
    ensures
        frame_ops(cmds.take(k)).1.len() + i < frame_ops(cmds).1.len(),
        frame_ops(cmds).1[frame_ops(cmds.take(k)).1.len() + i] == command_ops(cmds, k)[i],
        command_ops(cmds, k)[i] matches PassOp::SetIndexBuffer { buffer, format } ==> cmds[k].indexed_draw matches Some(
            d,
        ) && buffer == d.buffer && format == d.format,
{
    let upto_cmds = cmds.take(k + 1);
    assert(upto_cmds.drop_last() =~= cmds.take(k));
    assert(upto_cmds.last() == cmds[k]);
    let (s, before) = frame_ops(cmds.take(k));
    let cmd = cmds[k];
    let upto = frame_ops(upto_cmds).1;
    assert(upto == append_command_ops(before, s, cmd, k));
    let p1 = begin_op::<C>(s, cmd);
    let p2 = pipeline_op::<C>(s, cmd);
    let p3 = bind_group_op::<C>(s.bind_groups[0], cmd.bind_groups@[0], 0);
    let p4 = bind_group_op::<C>(s.bind_groups[1], cmd.bind_groups@[1], 1);
    let p5 = push_op::<C>(cmd, k);
    let p6 = vertex_buffer_op::<C>(s.vertex_buffers[0], cmd.vertex_buffers@[0], 0);
    let p7 = vertex_buffer_op::<C>(s.vertex_buffers[1], cmd.vertex_buffers@[1], 1);
    let dr = draw_ops::<C>(s, cmd);
    lemma_no_index_short(p1);
    lemma_no_index_short(p2);
    lemma_no_index_short(p3);
    lemma_no_index_short(p4);
    lemma_no_index_short(p5);
    lemma_no_index_short(p6);
    lemma_no_index_short(p7);
    lemma_no_index_concat(p1, p2);
    lemma_no_index_concat(p1 + p2, p3);
    lemma_no_index_concat(p1 + p2 + p3, p4);
    lemma_no_index_concat(p1 + p2 + p3 + p4, p5);
    lemma_no_index_concat(p1 + p2 + p3 + p4 + p5, p6);
    lemma_no_index_concat(p1 + p2 + p3 + p4 + p5 + p6, p7);
    let piece = p1 + p2 + p3 + p4 + p5 + p6 + p7;
    assert(upto =~= before + (piece + dr));
    let ops = command_ops(cmds, k);
    assert(ops =~= piece + dr);
    if i < piece.len() {
        assert(ops[i] == piece[i]);
    } else {
        assert(ops[i] == dr[i - piece.len()]);
    }
    lemma_frame_prefix(cmds, k + 1);
    assert(frame_ops(cmds).1[before.len() + i] == upto[before.len() + i]);
}

} // verus!
verus! {

/// A vertex attribute of a pipeline: its format, its byte offset, and the
/// shader location it feeds.
#[derive(Debug, Clone, Copy, PartialEq, Eq)]
pub struct VertexAttribute {
    pub format: VertexFormat,
    pub offset: u64,
    pub shader_location: u32,
}

/// The formats of all the buffers, one buffer after the other.
pub open spec fn all_formats(buffers: Seq<VertexBufferLayout>) -> Seq<VertexFormat>
    decreases buffers.len(),
{
    if buffers.len() == 0 {
        Seq::empty()
    } else {
        all_formats(buffers.drop_last()) + buffers.last().formats@
    }
}

/// The attributes for the formats: the `k`-th at offset `8 * k` (every
/// format is eight bytes) and shader location `k`.
pub open spec fn attributes_for(formats: Seq<VertexFormat>) -> Seq<VertexAttribute> {
    Seq::new(
        formats.len(),
        |k: int| VertexAttribute { format: formats[k], offset: (8 * k) as u64, shader_location: k as u32 },
    )
}

/// The attributes and, for each buffer, the range of them it takes, as a
/// render pipeline is made from vertex buffer layouts: attributes are
/// numbered and laid out one after the other across all buffers, and the
/// range of buffer `i` runs from the number of attributes before it up to
/// its own number of attributes. Where that range would run backwards the
/// pipeline cannot be made.
pub fn vertex_attributes(buffers: &[VertexBufferLayout]) -> (r: (Vec<VertexAttribute>, Vec<Range<usize>>))
    requires
        forall|i: int|
            0 <= i < buffers@.len() ==> all_formats(buffers@.take(i)).len() <= (#[trigger] buffers@[i]).formats@.len(),
        all_formats(buffers@).len() <= u32::MAX,
    ensures
        r.0@ == attributes_for(all_formats(buffers@)),
        r.1@.len() == buffers@.len(),
        forall|i: int|
            0 <= i < buffers@.len() ==> (#[trigger] r.1@[i]).start == all_formats(buffers@.take(i)).len()
                && r.1@[i].end == buffers@[i].formats@.len(),
{
    let n = buffers.len();
    let mut attributes: Vec<VertexAttribute> = Vec::new();
    let mut ranges: Vec<Range<usize>> = Vec::new();
    let mut offset: u64 = 0;
    let mut shader_location: u32 = 0;
    let mut i: usize = 0;
    proof {
        assert(buffers@.take(0) =~= Seq::<VertexBufferLayout>::empty());
    }
    while i < n
        invariant
            0 <= i <= n,
            n == buffers@.len(),
            forall|k: int|
                0 <= k < buffers@.len() ==> all_formats(buffers@.take(k)).len() <= (#[trigger] buffers@[k]).formats@.len(),
            all_formats(buffers@).len() <= u32::MAX,
            attributes@ == attributes_for(all_formats(buffers@.take(i as int))),
            offset == 8 * attributes@.len(),
            shader_location == attributes@.len(),
            ranges@.len() == i,
            forall|k: int|
                0 <= k < i ==> (#[trigger] ranges@[k]).start == all_formats(buffers@.take(k)).len() && ranges@[k].end
                    == buffers@[k].formats@.len(),
        decreases n - i,
    {
        let formats = buffers[i].formats;
        let ghost before = all_formats(buffers@.take(i as int));
        proof {
            assert(buffers@.take(i + 1).drop_last() =~= buffers@.take(i as int));
            assert(buffers@.take(i + 1).last() == buffers@[i as int]);
            lemma_all_formats_prefix(buffers@, i + 1);
        }
        let start = attributes.len();
        let mut j: usize = 0;
        while j < formats.len()
            invariant
                0 <= j <= formats@.len(),
                formats@ == buffers@[i as int].formats@,
                before == all_formats(buffers@.take(i as int)),
                before.len() + formats@.len() <= u32::MAX,
                attributes@ == attributes_for(before + formats@.take(j as int)),
                offset == 8 * attributes@.len(),
                shader_location == attributes@.len(),
            decreases formats@.len() - j,
        {
            let ghost prev = before + formats@.take(j as int);
            attributes.push(VertexAttribute { format: formats[j], offset, shader_location });
            proof {
                assert(before + formats@.take(j + 1) =~= prev.push(formats@[j as int]));
                assert(attributes@ =~= attributes_for(before + formats@.take(j + 1)));
            }
            offset = offset + 8;
            shader_location = shader_location + 1;
            j = j + 1;
        }
        proof {
            assert(formats@.take(j as int) =~= formats@);
        }
        ranges.push(start..formats.len());
        proof {
            assert(ranges@[i as int].start == before.len());
        }
        i = i + 1;
    }
    proof {
        assert(buffers@.take(n as int) =~= buffers@);
    }
    (attributes, ranges)
}

/// The formats of the first `m` buffers are no more than those of all.
proof fn lemma_all_formats_prefix(buffers: Seq<VertexBufferLayout>, m: int)
    requires
        0 <= m <= buffers.len(),
    ensures
        all_formats(buffers.take(m)).len() <= all_formats(buffers).len(),
    decreases buffers.len(),
{
    if m == buffers.len() {
        assert(buffers.take(m) =~= buffers);
    } else {
        assert(buffers.drop_last().take(m) =~= buffers.take(m));
        lemma_all_formats_prefix(buffers.drop_last(), m);
    }
}

} // verus!
