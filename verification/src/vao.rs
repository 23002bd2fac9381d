use vstd::prelude::*;

use crate::gl_model::{
    attribute_reads, gl_consistent, gl_run, initial_gl_state, lemma_gl_run_consistent,
    lemma_gl_run_prefixes, BufferTarget, DataSource, GlCommand, GlState,
};
use crate::sizes::{byte_size_of_array, spec_byte_size};

verus! {

/// Slot of the vertex array object; the name generated for it is what the
/// setup returns.
pub const VAO_SLOT: usize = 0;

/// Slot of the buffer holding the vertex positions.
pub const VERTEX_BUFFER_SLOT: usize = 1;

/// Slot of the index buffer.
pub const INDEX_BUFFER_SLOT: usize = 2;

/// Slot of the buffer holding the vertex colours.
pub const COLOUR_BUFFER_SLOT: usize = 3;

/// Slot of the buffer holding the vertex normals.
pub const NORMAL_BUFFER_SLOT: usize = 4;

/// Number of slots a plan uses.
pub const SLOT_COUNT: usize = 5;

/// Attribute location of the vertex position (three floats).
pub const POSITION_LOCATION: u32 = 0;

/// Attribute location of the vertex colour (four floats, RGBA).
pub const COLOUR_LOCATION: u32 = 1;

/// Attribute location of the vertex normal (three floats).
pub const NORMAL_LOCATION: u32 = 3;

/// The calls that set up a vertex array object for a mesh, given the byte
/// sizes of its vertex, index, colour and normal arrays.
pub open spec fn spec_vao_plan(
    vertices_bytes: isize,
    indices_bytes: isize,
    colours_bytes: isize,
    normals_bytes: isize,
) -> Seq<GlCommand> {
    seq![
        GlCommand::GenVertexArray { slot: VAO_SLOT },
        GlCommand::BindVertexArray { slot: VAO_SLOT },
        GlCommand::GenBuffer { slot: VERTEX_BUFFER_SLOT },
        GlCommand::BindBuffer { target: BufferTarget::Array, slot: VERTEX_BUFFER_SLOT },
        GlCommand::BufferData {
            target: BufferTarget::Array,
            source: DataSource::Vertices,
            byte_size: vertices_bytes,
        },
        GlCommand::VertexAttribPointer { index: POSITION_LOCATION, components: 3 },
        GlCommand::EnableVertexAttribArray { index: POSITION_LOCATION },
        GlCommand::GenBuffer { slot: INDEX_BUFFER_SLOT },
        GlCommand::BindBuffer { target: BufferTarget::ElementArray, slot: INDEX_BUFFER_SLOT },
        GlCommand::BufferData {
            target: BufferTarget::ElementArray,
            source: DataSource::Indices,
            byte_size: indices_bytes,
        },
        GlCommand::GenBuffer { slot: COLOUR_BUFFER_SLOT },
        GlCommand::BindBuffer { target: BufferTarget::Array, slot: COLOUR_BUFFER_SLOT },
        GlCommand::BufferData {
            target: BufferTarget::Array,
            source: DataSource::Colours,
            byte_size: colours_bytes,
        },
        GlCommand::VertexAttribPointer { index: COLOUR_LOCATION, components: 4 },
        GlCommand::EnableVertexAttribArray { index: COLOUR_LOCATION },
        GlCommand::GenBuffer { slot: NORMAL_BUFFER_SLOT },
        GlCommand::BindBuffer { target: BufferTarget::Array, slot: NORMAL_BUFFER_SLOT },
        GlCommand::BufferData {
            target: BufferTarget::Array,
            source: DataSource::Normals,
            byte_size: normals_bytes,
        },
        GlCommand::VertexAttribPointer { index: NORMAL_LOCATION, components: 3 },
        GlCommand::EnableVertexAttribArray { index: NORMAL_LOCATION },
    ]
}

/// No byte size is negative.
pub open spec fn sizes_valid(
    vertices_bytes: isize,
    indices_bytes: isize,
    colours_bytes: isize,
    normals_bytes: isize,
) -> bool {
    vertices_bytes >= 0 && indices_bytes >= 0 && colours_bytes >= 0 && normals_bytes >= 0
}

/// In state `s`, vertex array `vao` holds the mesh: its index buffer holds
/// the indices, and positions, colours and normals are enabled at their
/// locations, each read from the buffer that holds that array; no other
/// attribute of `vao` is set up or enabled.
pub open spec fn vao_holds_mesh(
    s: GlState,
    vao: nat,
    vertices_bytes: int,
    indices_bytes: int,
    colours_bytes: int,
    normals_bytes: int,
) -> bool {
    &&& s.element_buffer.contains_key(vao)
    &&& s.contents.contains_key(s.element_buffer[vao])
    &&& s.contents[s.element_buffer[vao]] == (DataSource::Indices, indices_bytes)
    &&& attribute_reads(s, vao, POSITION_LOCATION, DataSource::Vertices, vertices_bytes, 3)
    &&& attribute_reads(s, vao, COLOUR_LOCATION, DataSource::Colours, colours_bytes, 4)
    &&& attribute_reads(s, vao, NORMAL_LOCATION, DataSource::Normals, normals_bytes, 3)
    &&& forall|i: u32| #[trigger]
        s.enabled.contains((vao, i)) ==> i == POSITION_LOCATION || i == COLOUR_LOCATION || i
            == NORMAL_LOCATION
    &&& forall|i: u32| #[trigger]
        s.attribute_source.contains_key((vao, i)) ==> i == POSITION_LOCATION || i
            == COLOUR_LOCATION || i == NORMAL_LOCATION
}

/// In state `s`, no call has failed, and vertex array `vao` is bound and
/// holds the mesh.
pub open spec fn vao_ready(
    s: GlState,
    vao: nat,
    vertices_bytes: int,
    indices_bytes: int,
    colours_bytes: int,
    normals_bytes: int,
) -> bool {
    &&& !s.failed
    &&& s.bound_vertex_array == Some(vao)
    &&& vao_holds_mesh(s, vao, vertices_bytes, indices_bytes, colours_bytes, normals_bytes)
}

/// The vertex array that a setup run from `s` created: the name generated
/// for its slot.
pub open spec fn setup_vao(t: GlState) -> nat {
    t.names[VAO_SLOT]
}

/// From `s` to `t`, one new vertex array and four new buffers were
/// generated, under names no earlier object had, and nothing recorded of the
/// objects that existed before changed: their attributes, enabled locations,
/// element buffers and buffer contents.
pub open spec fn keeps_earlier_objects(s: GlState, t: GlState) -> bool {
    let n = s.next_name;
    &&& t.next_name == n + 5
    &&& t.names[VAO_SLOT] == n
    &&& t.vertex_arrays == s.vertex_arrays.insert(n)
    &&& t.buffers == s.buffers.insert(n + 1).insert(n + 2).insert(n + 3).insert(n + 4)
    &&& forall|k: (nat, u32)|
        s.vertex_arrays.contains(k.0) ==> (#[trigger] t.attribute_source.contains_key(k)
            <==> s.attribute_source.contains_key(k))
    &&& forall|k: (nat, u32)|
        s.vertex_arrays.contains(k.0) && s.attribute_source.contains_key(k) ==> #[trigger]
        t.attribute_source[k] == s.attribute_source[k]
    &&& forall|k: (nat, u32)|
        s.vertex_arrays.contains(k.0) ==> (#[trigger] t.enabled.contains(k) <==> s.enabled.contains(k))
    &&& forall|v: nat|
        s.vertex_arrays.contains(v) ==> (#[trigger] t.element_buffer.contains_key(v)
            <==> s.element_buffer.contains_key(v))
    &&& forall|v: nat|
        s.vertex_arrays.contains(v) && s.element_buffer.contains_key(v) ==> #[trigger]
        t.element_buffer[v] == s.element_buffer[v]
    &&& forall|b: nat|
        s.buffers.contains(b) ==> (#[trigger] t.contents.contains_key(b) <==> s.contents.contains_key(b))
    &&& forall|b: nat|
        s.buffers.contains(b) && s.contents.contains_key(b) ==> #[trigger] t.contents[b]
            == s.contents[b]
}

/// `m` with `key` set to `value` where `ok`, else `m` as it was.
pub open spec fn put_if<K, V>(m: Map<K, V>, key: K, value: V, ok: bool) -> Map<K, V> {
    if ok {
        m.insert(key, value)
    } else {
        m
    }
}

/// The state a setup plan leaves when run from `s`, field by field: five
/// new names from `s.next_name` on, the vertex array bound with its three
/// attributes and its element buffer, each buffer filled where its byte size
/// is not negative, and failure where one is negative.
pub open spec fn setup_state(
    s: GlState,
    vertices_bytes: isize,
    indices_bytes: isize,
    colours_bytes: isize,
    normals_bytes: isize,
) -> GlState {
    let n = s.next_name;
    GlState {
        next_name: n + 5,
        names: s.names.insert(VAO_SLOT, n).insert(VERTEX_BUFFER_SLOT, n + 1).insert(
            INDEX_BUFFER_SLOT,
            n + 2,
        ).insert(COLOUR_BUFFER_SLOT, n + 3).insert(NORMAL_BUFFER_SLOT, n + 4),
        vertex_arrays: s.vertex_arrays.insert(n),
        buffers: s.buffers.insert(n + 1).insert(n + 2).insert(n + 3).insert(n + 4),
        bound_vertex_array: Some(n),
        bound_array_buffer: Some((n + 4) as nat),
        contents: put_if(
            put_if(
                put_if(
                    put_if(
                        s.contents,
                        (n + 1) as nat,
                        (DataSource::Vertices, vertices_bytes as int),
                        vertices_bytes >= 0,
                    ),
                    (n + 2) as nat,
                    (DataSource::Indices, indices_bytes as int),
                    indices_bytes >= 0,
                ),
                (n + 3) as nat,
                (DataSource::Colours, colours_bytes as int),
                colours_bytes >= 0,
            ),
            (n + 4) as nat,
            (DataSource::Normals, normals_bytes as int),
            normals_bytes >= 0,
        ),
        element_buffer: s.element_buffer.insert(n, (n + 2) as nat),
        attribute_source: s.attribute_source.insert(
            (n, POSITION_LOCATION),
            ((n + 1) as nat, 3i32),
        ).insert((n, COLOUR_LOCATION), ((n + 3) as nat, 4i32)).insert(
            (n, NORMAL_LOCATION),
            ((n + 4) as nat, 3i32),
        ),
        enabled: s.enabled.insert((n, POSITION_LOCATION)).insert((n, COLOUR_LOCATION)).insert(
            (n, NORMAL_LOCATION),
        ),
        failed: s.failed || !sizes_valid(vertices_bytes, indices_bytes, colours_bytes, normals_bytes),
    }
}

/// Running `a` and then `b` is running `a + b`.
proof fn lemma_gl_run_concat(s: GlState, a: Seq<GlCommand>, b: Seq<GlCommand>)
    ensures
        gl_run(s, a + b) == gl_run(gl_run(s, a), b),
    decreases b.len(),
{
    if b.len() == 0 {
        assert(a + b =~= a);
    } else {
        assert((a + b).drop_last() =~= a + b.drop_last());
        assert((a + b).last() == b.last());
        lemma_gl_run_concat(s, a, b.drop_last());
    }
}

/// The calls that create and bind the vertex array.
spec fn vao_calls() -> Seq<GlCommand> {
    seq![GlCommand::GenVertexArray { slot: VAO_SLOT }, GlCommand::BindVertexArray { slot: VAO_SLOT }]
}

/// The calls that create the buffer in `slot`, fill it with `size` bytes of
/// `source` and feed attribute `location` from it.
spec fn attribute_calls(
    slot: usize,
    source: DataSource,
    size: isize,
    location: u32,
    components: i32,
) -> Seq<GlCommand> {
    seq![
        GlCommand::GenBuffer { slot },
        GlCommand::BindBuffer { target: BufferTarget::Array, slot },
        GlCommand::BufferData { target: BufferTarget::Array, source, byte_size: size },
        GlCommand::VertexAttribPointer { index: location, components },
        GlCommand::EnableVertexAttribArray { index: location },
    ]
}

/// The calls that create the index buffer and fill it with `size` bytes.
spec fn index_calls(size: isize) -> Seq<GlCommand> {
    seq![
        GlCommand::GenBuffer { slot: INDEX_BUFFER_SLOT },
        GlCommand::BindBuffer { target: BufferTarget::ElementArray, slot: INDEX_BUFFER_SLOT },
        GlCommand::BufferData {
            target: BufferTarget::ElementArray,
            source: DataSource::Indices,
            byte_size: size,
        },
    ]
}

proof fn lemma_vao_calls(u: GlState)
    ensures
        gl_run(u, vao_calls()) == (GlState {
            next_name: u.next_name + 1,
            names: u.names.insert(VAO_SLOT, u.next_name),
            vertex_arrays: u.vertex_arrays.insert(u.next_name),
            bound_vertex_array: Some(u.next_name),
            ..u
        }),
{
    lemma_gl_run_prefixes(u, vao_calls(), 2);
    assert(vao_calls().take(2) =~= vao_calls());
}

proof fn lemma_attribute_calls(
    u: GlState,
    v: nat,
    slot: usize,
    source: DataSource,
    size: isize,
    location: u32,
    components: i32,
)
    requires
        u.bound_vertex_array == Some(v),
        location < 16,
        1 <= components <= 4,
    ensures
        gl_run(u, attribute_calls(slot, source, size, location, components)) == (GlState {
            next_name: u.next_name + 1,
            names: u.names.insert(slot, u.next_name),
            buffers: u.buffers.insert(u.next_name),
            bound_array_buffer: Some(u.next_name),
            contents: put_if(u.contents, u.next_name, (source, size as int), size >= 0),
            attribute_source: u.attribute_source.insert((v, location), (u.next_name, components)),
            enabled: u.enabled.insert((v, location)),
            failed: u.failed || size < 0,
            ..u
        }),
{
    let c = attribute_calls(slot, source, size, location, components);
    lemma_gl_run_prefixes(u, c, 5);
    assert(c.take(5) =~= c);
}

proof fn lemma_index_calls(u: GlState, v: nat, size: isize)
    requires
        u.bound_vertex_array == Some(v),
    ensures
        gl_run(u, index_calls(size)) == (GlState {
            next_name: u.next_name + 1,
            names: u.names.insert(INDEX_BUFFER_SLOT, u.next_name),
            buffers: u.buffers.insert(u.next_name),
            element_buffer: u.element_buffer.insert(v, u.next_name),
            contents: put_if(u.contents, u.next_name, (DataSource::Indices, size as int), size >= 0),
            failed: u.failed || size < 0,
            ..u
        }),
{
    let c = index_calls(size);
    lemma_gl_run_prefixes(u, c, 3);
    assert(c.take(3) =~= c);
}

/// Running a setup plan from any state gives `setup_state`.
pub proof fn lemma_run_setup(
    s: GlState,
    vertices_bytes: isize,
    indices_bytes: isize,
    colours_bytes: isize,
    normals_bytes: isize,
)
    ensures
        gl_run(s, spec_vao_plan(vertices_bytes, indices_bytes, colours_bytes, normals_bytes))
            == setup_state(s, vertices_bytes, indices_bytes, colours_bytes, normals_bytes),
{
    let n = s.next_name;
    let a = vao_calls();
    let b = attribute_calls(
        VERTEX_BUFFER_SLOT,
        DataSource::Vertices,
        vertices_bytes,
        POSITION_LOCATION,
        3,
    );
    let c = index_calls(indices_bytes);
    let d = attribute_calls(COLOUR_BUFFER_SLOT, DataSource::Colours, colours_bytes, COLOUR_LOCATION, 4);
    let e = attribute_calls(NORMAL_BUFFER_SLOT, DataSource::Normals, normals_bytes, NORMAL_LOCATION, 3);
    let p = spec_vao_plan(vertices_bytes, indices_bytes, colours_bytes, normals_bytes);
    assert(p =~= a + b + c + d + e);
    lemma_gl_run_concat(s, a + b + c + d, e);
    lemma_gl_run_concat(s, a + b + c, d);
    lemma_gl_run_concat(s, a + b, c);
    lemma_gl_run_concat(s, a, b);
    lemma_vao_calls(s);
    let s1 = gl_run(s, a);
    lemma_attribute_calls(s1, n, VERTEX_BUFFER_SLOT, DataSource::Vertices, vertices_bytes, POSITION_LOCATION, 3);
    let s2 = gl_run(s1, b);
    lemma_index_calls(s2, n, indices_bytes);
    let s3 = gl_run(s2, c);
    lemma_attribute_calls(s3, n, COLOUR_BUFFER_SLOT, DataSource::Colours, colours_bytes, COLOUR_LOCATION, 4);
    let s4 = gl_run(s3, d);
    lemma_attribute_calls(s4, n, NORMAL_BUFFER_SLOT, DataSource::Normals, normals_bytes, NORMAL_LOCATION, 3);
    let t = gl_run(s4, e);
    let x = setup_state(s, vertices_bytes, indices_bytes, colours_bytes, normals_bytes);
    assert(t.names =~= x.names);
    assert(t.vertex_arrays =~= x.vertex_arrays);
    assert(t.buffers =~= x.buffers);
    assert(t.contents =~= x.contents);
    assert(t.element_buffer =~= x.element_buffer);
    assert(t.attribute_source =~= x.attribute_source);
    assert(t.enabled =~= x.enabled);
    assert(t == x);
}

/// Running a setup plan from any consistent state, such as one left by
/// earlier setups: the new vertex array has a name no earlier vertex array
/// has, it is bound and holds the mesh exactly when no earlier call failed
/// and no byte size is negative, everything recorded of the earlier objects
/// stays as it was, and the state stays consistent.
pub proof fn lemma_vao_plan_from_any_state(
    s: GlState,
    vertices_bytes: isize,
    indices_bytes: isize,
    colours_bytes: isize,
    normals_bytes: isize,
)
    requires
        gl_consistent(s),
    ensures
        ({
            let t = gl_run(s, spec_vao_plan(vertices_bytes, indices_bytes, colours_bytes, normals_bytes));
            &&& !s.vertex_arrays.contains(setup_vao(t))
            &&& (!s.failed && sizes_valid(vertices_bytes, indices_bytes, colours_bytes, normals_bytes))
                ==> vao_ready(
                t,
                setup_vao(t),
                vertices_bytes as int,
                indices_bytes as int,
                colours_bytes as int,
                normals_bytes as int,
            )
            &&& (s.failed || !sizes_valid(vertices_bytes, indices_bytes, colours_bytes, normals_bytes))
                ==> t.failed
            &&& keeps_earlier_objects(s, t)
            &&& gl_consistent(t)
        }),
{
    let p = spec_vao_plan(vertices_bytes, indices_bytes, colours_bytes, normals_bytes);
    lemma_run_setup(s, vertices_bytes, indices_bytes, colours_bytes, normals_bytes);
    lemma_gl_run_consistent(s, p);
    let t = gl_run(s, p);
    let vao = s.next_name;
    assert(!s.vertex_arrays.contains(vao));
    assert forall|i: u32| #[trigger] t.enabled.contains((vao, i)) implies i == POSITION_LOCATION
        || i == COLOUR_LOCATION || i == NORMAL_LOCATION by {
        if !(i == POSITION_LOCATION || i == COLOUR_LOCATION || i == NORMAL_LOCATION) {
            assert(!s.enabled.contains((vao, i)));
        }
    }
    assert forall|i: u32| #[trigger] t.attribute_source.contains_key((vao, i)) implies i
        == POSITION_LOCATION || i == COLOUR_LOCATION || i == NORMAL_LOCATION by {
        if !(i == POSITION_LOCATION || i == COLOUR_LOCATION || i == NORMAL_LOCATION) {
            assert(!s.attribute_source.contains_key((vao, i)));
        }
    }
}

/// Two setups in one context, from a fresh context: the vertex arrays they
/// return differ, the second is bound and holds its mesh, and the first still
/// holds its own mesh, untouched by the second setup.
pub proof fn lemma_two_setups(sizes1: (isize, isize, isize, isize), sizes2: (isize, isize, isize, isize))
    requires
        sizes_valid(sizes1.0, sizes1.1, sizes1.2, sizes1.3),
        sizes_valid(sizes2.0, sizes2.1, sizes2.2, sizes2.3),
    ensures
        ({
            let s1 = gl_run(initial_gl_state(), spec_vao_plan(sizes1.0, sizes1.1, sizes1.2, sizes1.3));
            let s2 = gl_run(s1, spec_vao_plan(sizes2.0, sizes2.1, sizes2.2, sizes2.3));
            &&& setup_vao(s1) != setup_vao(s2)
            &&& vao_ready(
                s2,
                setup_vao(s2),
                sizes2.0 as int,
                sizes2.1 as int,
                sizes2.2 as int,
                sizes2.3 as int,
            )
            &&& vao_holds_mesh(
                s2,
                setup_vao(s1),
                sizes1.0 as int,
                sizes1.1 as int,
                sizes1.2 as int,
                sizes1.3 as int,
            )
        }),
{
    let s0 = initial_gl_state();
    lemma_vao_plan_from_any_state(s0, sizes1.0, sizes1.1, sizes1.2, sizes1.3);
    let s1 = gl_run(s0, spec_vao_plan(sizes1.0, sizes1.1, sizes1.2, sizes1.3));
    lemma_vao_plan_from_any_state(s1, sizes2.0, sizes2.1, sizes2.2, sizes2.3);
    let s2 = gl_run(s1, spec_vao_plan(sizes2.0, sizes2.1, sizes2.2, sizes2.3));
    let a = setup_vao(s1);
    assert(s1.vertex_arrays.contains(a));
    let pb = s1.attribute_source[(a, POSITION_LOCATION)].0;
    let cb = s1.attribute_source[(a, COLOUR_LOCATION)].0;
    let nb = s1.attribute_source[(a, NORMAL_LOCATION)].0;
    let eb = s1.element_buffer[a];
    assert(s1.buffers.contains(pb) && s1.buffers.contains(cb) && s1.buffers.contains(nb));
    assert(s1.buffers.contains(eb));
    assert(s2.attribute_source.contains_key((a, POSITION_LOCATION)));
    assert(s2.attribute_source.contains_key((a, COLOUR_LOCATION)));
    assert(s2.attribute_source.contains_key((a, NORMAL_LOCATION)));
    assert(s2.attribute_source[(a, POSITION_LOCATION)] == s1.attribute_source[(a, POSITION_LOCATION)]);
    assert(s2.attribute_source[(a, COLOUR_LOCATION)] == s1.attribute_source[(a, COLOUR_LOCATION)]);
    assert(s2.attribute_source[(a, NORMAL_LOCATION)] == s1.attribute_source[(a, NORMAL_LOCATION)]);
    assert(s2.element_buffer.contains_key(a));
    assert(s2.element_buffer[a] == s1.element_buffer[a]);
    assert(s2.contents[pb] == s1.contents[pb]);
    assert(s2.contents[cb] == s1.contents[cb]);
    assert(s2.contents[nb] == s1.contents[nb]);
    assert(s2.contents[eb] == s1.contents[eb]);
    assert(s2.enabled.contains((a, POSITION_LOCATION)));
    assert(s2.enabled.contains((a, COLOUR_LOCATION)));
    assert(s2.enabled.contains((a, NORMAL_LOCATION)));
    assert forall|i: u32| #[trigger] s2.enabled.contains((a, i)) implies i == POSITION_LOCATION
        || i == COLOUR_LOCATION || i == NORMAL_LOCATION by {
        assert(s1.enabled.contains((a, i)));
    }
    assert forall|i: u32| #[trigger] s2.attribute_source.contains_key((a, i)) implies i
        == POSITION_LOCATION || i == COLOUR_LOCATION || i == NORMAL_LOCATION by {
        assert(s1.attribute_source.contains_key((a, i)));
    }
}

/// The vertex array that a fresh context's setup leaves: `n` is the name of
/// the created vertex array, and it holds the mesh with nothing else set up.
pub open spec fn fresh_setup_result(
    plan: Seq<GlCommand>,
    vertices_bytes: isize,
    indices_bytes: isize,
    colours_bytes: isize,
    normals_bytes: isize,
) -> bool {
    let t = gl_run(initial_gl_state(), plan);
    let n = setup_vao(t);
    &&& sizes_valid(vertices_bytes, indices_bytes, colours_bytes, normals_bytes) ==> {
        &&& vao_ready(
            t,
            n,
            vertices_bytes as int,
            indices_bytes as int,
            colours_bytes as int,
            normals_bytes as int,
        )
        &&& t.enabled == set![(n, POSITION_LOCATION), (n, COLOUR_LOCATION), (n, NORMAL_LOCATION)]
        &&& t.attribute_source.dom() == set![
            (n, POSITION_LOCATION),
            (n, COLOUR_LOCATION),
            (n, NORMAL_LOCATION),
        ]
    }
    &&& !sizes_valid(vertices_bytes, indices_bytes, colours_bytes, normals_bytes) ==> t.failed
}

proof fn lemma_fresh_setup(
    vertices_bytes: isize,
    indices_bytes: isize,
    colours_bytes: isize,
    normals_bytes: isize,
)
    ensures
        fresh_setup_result(
            spec_vao_plan(vertices_bytes, indices_bytes, colours_bytes, normals_bytes),
            vertices_bytes,
            indices_bytes,
            colours_bytes,
            normals_bytes,
        ),
{
    let s0 = initial_gl_state();
    let p = spec_vao_plan(vertices_bytes, indices_bytes, colours_bytes, normals_bytes);
    lemma_vao_plan_from_any_state(s0, vertices_bytes, indices_bytes, colours_bytes, normals_bytes);
    let t = gl_run(s0, p);
    let n = setup_vao(t);
    if sizes_valid(vertices_bytes, indices_bytes, colours_bytes, normals_bytes) {
        let three = set![(n, POSITION_LOCATION), (n, COLOUR_LOCATION), (n, NORMAL_LOCATION)];
        assert forall|k: (nat, u32)| t.enabled.contains(k) <==> three.contains(k) by {
            if k.0 == n && t.enabled.contains(k) {
                assert(t.enabled.contains((n, k.1)));
            }
        }
        assert(t.enabled =~= three);
        assert forall|k: (nat, u32)| t.attribute_source.dom().contains(k) <==> three.contains(k) by {
            if k.0 == n && t.attribute_source.contains_key(k) {
                assert(t.attribute_source.contains_key((n, k.1)));
            }
        }
        assert(t.attribute_source.dom() =~= three);
    }
}

/// The OpenGL calls that create a vertex array object for a mesh whose
/// vertex, index, colour and normal arrays take the given numbers of bytes:
/// one buffer per array, positions at location 0 (3 floats), colours at
/// location 1 (4 floats), normals at location 3 (3 floats), the indices as the
/// element buffer. The name generated for `VAO_SLOT` is the result.
///
/// Run from a fresh context, the calls leave the vertex array bound and
/// ready to draw, with nothing else set up, exactly when no byte size is
/// negative. `lemma_vao_plan_from_any_state` says what they do in a context
/// that holds earlier objects, and `lemma_two_setups` what two setups do.
pub fn create_vao_plan(
    vertices_bytes: isize,
    indices_bytes: isize,
    colours_bytes: isize,
    normals_bytes: isize,
) -> (plan: Vec<GlCommand>)
    ensures
        plan@ == spec_vao_plan(vertices_bytes, indices_bytes, colours_bytes, normals_bytes),
        fresh_setup_result(plan@, vertices_bytes, indices_bytes, colours_bytes, normals_bytes),
{
    let mut plan: Vec<GlCommand> = Vec::new();
    // The vertex array object, bound first so that it records what follows.
    plan.push(GlCommand::GenVertexArray { slot: VAO_SLOT });
    plan.push(GlCommand::BindVertexArray { slot: VAO_SLOT });
    // Positions.
    plan.push(GlCommand::GenBuffer { slot: VERTEX_BUFFER_SLOT });
    plan.push(GlCommand::BindBuffer { target: BufferTarget::Array, slot: VERTEX_BUFFER_SLOT });
    plan.push(
        GlCommand::BufferData {
            target: BufferTarget::Array,
            source: DataSource::Vertices,
            byte_size: vertices_bytes,
        },
    );
    plan.push(GlCommand::VertexAttribPointer { index: POSITION_LOCATION, components: 3 });
    plan.push(GlCommand::EnableVertexAttribArray { index: POSITION_LOCATION });
    // Indices.
    plan.push(GlCommand::GenBuffer { slot: INDEX_BUFFER_SLOT });
    plan.push(GlCommand::BindBuffer { target: BufferTarget::ElementArray, slot: INDEX_BUFFER_SLOT });
    plan.push(
        GlCommand::BufferData {
            target: BufferTarget::ElementArray,
            source: DataSource::Indices,
            byte_size: indices_bytes,
        },
    );
    // Colours.
    plan.push(GlCommand::GenBuffer { slot: COLOUR_BUFFER_SLOT });
    plan.push(GlCommand::BindBuffer { target: BufferTarget::Array, slot: COLOUR_BUFFER_SLOT });
    plan.push(
        GlCommand::BufferData {
            target: BufferTarget::Array,
            source: DataSource::Colours,
            byte_size: colours_bytes,
        },
    );
    plan.push(GlCommand::VertexAttribPointer { index: COLOUR_LOCATION, components: 4 });
    plan.push(GlCommand::EnableVertexAttribArray { index: COLOUR_LOCATION });
    // Normals.
    plan.push(GlCommand::GenBuffer { slot: NORMAL_BUFFER_SLOT });
    plan.push(GlCommand::BindBuffer { target: BufferTarget::Array, slot: NORMAL_BUFFER_SLOT });
    plan.push(
        GlCommand::BufferData {
            target: BufferTarget::Array,
            source: DataSource::Normals,
            byte_size: normals_bytes,
        },
    );
    plan.push(GlCommand::VertexAttribPointer { index: NORMAL_LOCATION, components: 3 });
    plan.push(GlCommand::EnableVertexAttribArray { index: NORMAL_LOCATION });
    proof {
        assert(plan@ =~= spec_vao_plan(vertices_bytes, indices_bytes, colours_bytes, normals_bytes));
        lemma_fresh_setup(vertices_bytes, indices_bytes, colours_bytes, normals_bytes);
    }
    plan
}

/// The calls that set up a vertex array object for the given mesh arrays:
/// each buffer is filled with the byte size of the array it holds, as
/// `byte_size_of_array` gives it. From a fresh context they leave the vertex
/// array bound and ready to draw those arrays.
pub fn create_vao_plan_for<V, I, C, N>(
    vertices: &[V],
    indices: &[I],
    colours: &[C],
    normals: &[N],
) -> (plan: Vec<GlCommand>)
    requires
        spec_byte_size::<V>(vertices@.len()) <= isize::MAX,
        spec_byte_size::<I>(indices@.len()) <= isize::MAX,
        spec_byte_size::<C>(colours@.len()) <= isize::MAX,
        spec_byte_size::<N>(normals@.len()) <= isize::MAX,
    ensures
        plan@ == spec_vao_plan(
            spec_byte_size::<V>(vertices@.len()) as isize,
            spec_byte_size::<I>(indices@.len()) as isize,
            spec_byte_size::<C>(colours@.len()) as isize,
            spec_byte_size::<N>(normals@.len()) as isize,
        ),
        vao_ready(
            gl_run(initial_gl_state(), plan@),
            setup_vao(gl_run(initial_gl_state(), plan@)),
            spec_byte_size::<V>(vertices@.len()) as int,
            spec_byte_size::<I>(indices@.len()) as int,
            spec_byte_size::<C>(colours@.len()) as int,
            spec_byte_size::<N>(normals@.len()) as int,
        ),
{
    let vb: isize = byte_size_of_array(vertices);
    let ib: isize = byte_size_of_array(indices);
    let cb: isize = byte_size_of_array(colours);
    let nb: isize = byte_size_of_array(normals);
    create_vao_plan(vb, ib, cb, nb)
}

} // verus!
