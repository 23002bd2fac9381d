use vstd::prelude::*;

verus! {

/// The binding point a buffer object is bound to.
#[derive(Clone, Copy, Debug, PartialEq, Eq)]
pub enum BufferTarget {
    /// `GL_ARRAY_BUFFER`: the buffer that vertex attribute pointers read from.
    Array,
    /// `GL_ELEMENT_ARRAY_BUFFER`: the index buffer, which is part of the bound vertex array's state.
    ElementArray,
}

/// Which of the mesh's arrays a buffer upload copies to the GPU.
#[derive(Clone, Copy, Debug, PartialEq, Eq)]
pub enum DataSource {
    Vertices,
    Indices,
    Colours,
    Normals,
}

/// One OpenGL call of the kind that setting up a vertex array object makes.
/// Object names that OpenGL hands out are referred to by `slot`: the executor
/// keeps the name generated for each slot and passes it where the slot is used.
#[derive(Clone, Copy, Debug, PartialEq, Eq)]
pub enum GlCommand {
    /// `glGenVertexArrays(1, &mut names[slot])`
    GenVertexArray { slot: usize },
    /// `glBindVertexArray(names[slot])`
    BindVertexArray { slot: usize },
    /// `glGenBuffers(1, &mut names[slot])`
    GenBuffer { slot: usize },
    /// `glBindBuffer(target, names[slot])`
    BindBuffer { target: BufferTarget, slot: usize },
    /// `glBufferData(target, byte_size, pointer to source, GL_STATIC_DRAW)`
    BufferData { target: BufferTarget, source: DataSource, byte_size: isize },
    /// `glVertexAttribPointer(index, components, GL_FLOAT, GL_FALSE, 0, null)`:
    /// tightly packed floats read from the start of the bound array buffer.
    VertexAttribPointer { index: u32, components: i32 },
    /// `glEnableVertexAttribArray(index)`
    EnableVertexAttribArray { index: u32 },
}

/// The number of vertex attribute locations that every OpenGL implementation offers.
pub open spec fn min_vertex_attribs() -> u32 {
    16
}

/// The part of OpenGL's state that vertex array setup reads and writes.
/// Objects are known by the names OpenGL hands out; a setup refers to the
/// names it generated by its own slots.
pub struct GlState {
    /// A name that no object has had yet. OpenGL hands out names no object
    /// has; the model hands them out in increasing order, and the laws use
    /// only that a new name is unused.
    pub next_name: nat,
    /// The name generated for each slot of the running setup.
    pub names: Map<usize, nat>,
    /// Names of the vertex array objects.
    pub vertex_arrays: Set<nat>,
    /// Names of the buffer objects.
    pub buffers: Set<nat>,
    /// The vertex array object bound now.
    pub bound_vertex_array: Option<nat>,
    /// The buffer bound to `GL_ARRAY_BUFFER` now.
    pub bound_array_buffer: Option<nat>,
    /// What each buffer holds: the array it was filled from and its size in bytes.
    pub contents: Map<nat, (DataSource, int)>,
    /// The element (index) buffer recorded in each vertex array object.
    pub element_buffer: Map<nat, nat>,
    /// For a vertex array object and an attribute location: the buffer the
    /// attribute reads from and the number of floats per vertex.
    pub attribute_source: Map<(nat, u32), (nat, i32)>,
    /// Attribute locations enabled in each vertex array object.
    pub enabled: Set<(nat, u32)>,
    /// Whether some call so far was an error (OpenGL would have ignored it).
    pub failed: bool,
}

/// The state of a fresh context: nothing generated, nothing bound. Name 0
/// never names an object.
pub open spec fn initial_gl_state() -> GlState {
    GlState {
        next_name: 1,
        names: Map::empty(),
        vertex_arrays: Set::empty(),
        buffers: Set::empty(),
        bound_vertex_array: None,
        bound_array_buffer: None,
        contents: Map::empty(),
        element_buffer: Map::empty(),
        attribute_source: Map::empty(),
        enabled: Set::empty(),
        failed: false,
    }
}

/// The state after a call that OpenGL rejects.
pub open spec fn fail(s: GlState) -> GlState {
    GlState { failed: true, ..s }
}

/// The vertex array generated for `slot`, if any.
pub open spec fn vertex_array_in(s: GlState, slot: usize) -> Option<nat> {
    if s.names.contains_key(slot) && s.vertex_arrays.contains(s.names[slot]) {
        Some(s.names[slot])
    } else {
        None
    }
}

/// The buffer generated for `slot`, if any.
pub open spec fn buffer_in(s: GlState, slot: usize) -> Option<nat> {
    if s.names.contains_key(slot) && s.buffers.contains(s.names[slot]) {
        Some(s.names[slot])
    } else {
        None
    }
}

/// What one call does to the state.
pub open spec fn gl_step(s: GlState, c: GlCommand) -> GlState {
    match c {
        GlCommand::GenVertexArray { slot } => GlState {
            next_name: s.next_name + 1,
            names: s.names.insert(slot, s.next_name),
            vertex_arrays: s.vertex_arrays.insert(s.next_name),
            ..s
        },
        GlCommand::BindVertexArray { slot } => match vertex_array_in(s, slot) {
            Some(v) => GlState { bound_vertex_array: Some(v), ..s },
            None => fail(s),
        },
        GlCommand::GenBuffer { slot } => GlState {
            next_name: s.next_name + 1,
            names: s.names.insert(slot, s.next_name),
            buffers: s.buffers.insert(s.next_name),
            ..s
        },
        GlCommand::BindBuffer { target, slot } => match buffer_in(s, slot) {
            None => fail(s),
            Some(b) => match target {
                BufferTarget::Array => GlState { bound_array_buffer: Some(b), ..s },
                BufferTarget::ElementArray => match s.bound_vertex_array {
                    Some(v) => GlState { element_buffer: s.element_buffer.insert(v, b), ..s },
                    None => fail(s),
                },
            },
        },
        GlCommand::BufferData { target, source, byte_size } => {
            let bound = match target {
                BufferTarget::Array => s.bound_array_buffer,
                BufferTarget::ElementArray => match s.bound_vertex_array {
                    Some(v) => if s.element_buffer.contains_key(v) {
                        Some(s.element_buffer[v])
                    } else {
                        None
                    },
                    None => None,
                },
            };
            match bound {
                Some(b) => if byte_size >= 0 {
                    GlState { contents: s.contents.insert(b, (source, byte_size as int)), ..s }
                } else {
                    fail(s)
                },
                None => fail(s),
            }
        },
        GlCommand::VertexAttribPointer { index, components } => {
            match (s.bound_vertex_array, s.bound_array_buffer) {
                (Some(v), Some(b)) => if index < min_vertex_attribs() && 1 <= components <= 4 {
                    GlState {
                        attribute_source: s.attribute_source.insert((v, index), (b, components)),
                        ..s
                    }
                } else {
                    fail(s)
                },
                _ => fail(s),
            }
        },
        GlCommand::EnableVertexAttribArray { index } => {
            match s.bound_vertex_array {
                Some(v) => if index < min_vertex_attribs() {
                    GlState { enabled: s.enabled.insert((v, index)), ..s }
                } else {
                    fail(s)
                },
                None => fail(s),
            }
        },
    }
}

/// The state after running `cmds` in order from `s`.
pub open spec fn gl_run(s: GlState, cmds: Seq<GlCommand>) -> GlState
    decreases cmds.len(),
{
    if cmds.len() == 0 {
        s
    } else {
        gl_step(gl_run(s, cmds.drop_last()), cmds.last())
    }
}

/// Running the first `k` calls is running the first `k - 1` and then the
/// `k`-th, for every `k` up to `n`.
pub proof fn lemma_gl_run_prefixes(s: GlState, cmds: Seq<GlCommand>, n: int)
    requires
        0 <= n <= cmds.len(),
    ensures
        gl_run(s, cmds.take(0)) == s,
        forall|k: int|
            1 <= k <= n ==> gl_run(s, #[trigger] cmds.take(k)) == gl_step(
                gl_run(s, cmds.take(k - 1)),
                cmds[k - 1],
            ),
    decreases n,
{
    assert(cmds.take(0) =~= Seq::<GlCommand>::empty());
    if n > 0 {
        lemma_gl_run_prefixes(s, cmds, n - 1);
        assert(cmds.take(n).drop_last() =~= cmds.take(n - 1));
    }
}

/// The state refers only to objects that were generated: every object's
/// name is below the next name and not 0, no name is both a vertex array and
/// a buffer, and every recorded attribute, enabled location, element
/// buffer, buffer content and binding names an object of the right kind.
pub open spec fn gl_consistent(s: GlState) -> bool {
    &&& s.next_name > 0
    &&& forall|x: nat| !(#[trigger] s.vertex_arrays.contains(x) && s.buffers.contains(x))
    &&& forall|x: nat| #[trigger] s.vertex_arrays.contains(x) ==> 0 < x < s.next_name
    &&& forall|x: nat| #[trigger] s.buffers.contains(x) ==> 0 < x < s.next_name
    &&& forall|k: (nat, u32)| #[trigger]
        s.attribute_source.contains_key(k) ==> s.vertex_arrays.contains(k.0) && s.buffers.contains(
            s.attribute_source[k].0,
        )
    &&& forall|k: (nat, u32)| #[trigger] s.enabled.contains(k) ==> s.vertex_arrays.contains(k.0)
    &&& forall|v: nat| #[trigger]
        s.element_buffer.contains_key(v) ==> s.vertex_arrays.contains(v) && s.buffers.contains(
            s.element_buffer[v],
        )
    &&& forall|b: nat| #[trigger] s.contents.contains_key(b) ==> s.buffers.contains(b)
    &&& (s.bound_vertex_array matches Some(v) ==> s.vertex_arrays.contains(v))
    &&& (s.bound_array_buffer matches Some(b) ==> s.buffers.contains(b))
}

/// A fresh context is consistent.
pub proof fn lemma_initial_consistent()
    ensures
        gl_consistent(initial_gl_state()),
{
}

/// Every call keeps the state consistent, and names are never taken back.
pub proof fn lemma_gl_step_consistent(s: GlState, c: GlCommand)
    requires
        gl_consistent(s),
    ensures
        gl_consistent(gl_step(s, c)),
        gl_step(s, c).next_name >= s.next_name,
{
    let t = gl_step(s, c);
    match c {
        GlCommand::GenVertexArray { slot } => {
            assert(!s.buffers.contains(s.next_name));
            assert forall|x: nat| !(#[trigger] t.vertex_arrays.contains(x) && t.buffers.contains(x)) by {
                if x != s.next_name {
                    assert(t.vertex_arrays.contains(x) == s.vertex_arrays.contains(x));
                }
            }
            assert forall|x: nat| #[trigger] t.vertex_arrays.contains(x) implies 0 < x < t.next_name by {
                if x != s.next_name {
                    assert(s.vertex_arrays.contains(x));
                }
            }
        },
        GlCommand::GenBuffer { slot } => {
            assert(!s.vertex_arrays.contains(s.next_name));
            assert forall|x: nat| !(#[trigger] t.vertex_arrays.contains(x) && t.buffers.contains(x)) by {
                if x != s.next_name {
                    assert(t.buffers.contains(x) == s.buffers.contains(x));
                }
            }
            assert forall|x: nat| #[trigger] t.buffers.contains(x) implies 0 < x < t.next_name by {
                if x != s.next_name {
                    assert(s.buffers.contains(x));
                }
            }
        },
        _ => {},
    }
}

/// Every run of calls keeps the state consistent.
pub proof fn lemma_gl_run_consistent(s: GlState, cmds: Seq<GlCommand>)
    requires
        gl_consistent(s),
    ensures
        gl_consistent(gl_run(s, cmds)),
    decreases cmds.len(),
{
    if cmds.len() > 0 {
        lemma_gl_run_consistent(s, cmds.drop_last());
        lemma_gl_step_consistent(gl_run(s, cmds.drop_last()), cmds.last());
    }
}

/// In state `s`, vertex array `vao` feeds attribute `index` with `components`
/// floats per vertex from a buffer that holds `byte_size` bytes of `source`,
/// and the attribute is enabled.
pub open spec fn attribute_reads(
    s: GlState,
    vao: nat,
    index: u32,
    source: DataSource,
    byte_size: int,
    components: i32,
) -> bool {
    &&& s.attribute_source.contains_key((vao, index))
    &&& s.attribute_source[(vao, index)].1 == components
    &&& s.contents.contains_key(s.attribute_source[(vao, index)].0)
    &&& s.contents[s.attribute_source[(vao, index)].0] == (source, byte_size)
    &&& s.enabled.contains((vao, index))
}

} // verus!
