//! Stormkeep's compiled map: trigger volumes and the binary formats of the
//! collision and render geometry.
use vstd::prelude::*;

verus! {

/// What a map trigger volume does to a player inside it.
#[derive(Clone, Copy, Debug, PartialEq, Eq, Structural)]
pub enum TriggerKind {
    Push,
    Teleport,
    Warp,
    Hurt,
}

/// The little-endian `u32` stored in `bytes` at byte offset `at`.
pub open spec fn le_u32(bytes: Seq<u8>, at: int) -> u32 {
    (bytes[at] as int + bytes[at + 1] as int * 256 + bytes[at + 2] as int * 65536 + bytes[at + 3] as int
        * 16777216) as u32
}

/// Reader for the one current map compiler output: consecutive little-endian
/// 32-bit words, read from the front.
pub struct BinaryReader<'a> {
    bytes: &'a [u8],
    cursor: usize,
}

impl<'a> BinaryReader<'a> {
    /// The bytes being read.
    pub closed spec fn data(&self) -> Seq<u8> {
        self.bytes@
    }

    /// The offset of the next unread byte.
    pub closed spec fn position(&self) -> int {
        self.cursor as int
    }

    pub fn new(bytes: &'a [u8]) -> (r: Self)
        ensures
            r.data() == bytes@,
            r.position() == 0,
    {
        BinaryReader { bytes, cursor: 0 }
    }

    /// Read the next little-endian `u32`.
    pub fn u32(&mut self) -> (value: u32)
        requires
            old(self).position() + 4 <= old(self).data().len(),
        ensures
            value == le_u32(old(self).data(), old(self).position()),
            final(self).data() == old(self).data(),
            final(self).position() == old(self).position() + 4,
    {
        let at = self.cursor;
        let value: u32 = self.bytes[at] as u32 + self.bytes[at + 1] as u32 * 256 + self.bytes[at + 2] as u32
            * 65536 + self.bytes[at + 3] as u32 * 16777216;
        self.cursor = at + 4;
        value
    }

    /// End reading; all data must have been consumed.
    pub fn finish(self)
        requires
            self.position() == self.data().len(),
    {
    }
}

/// The collision geometry: vertex coordinates as the bit patterns of `f32`
/// values, three per vertex, and triangles as three vertex indices each.
pub struct CollisionMesh {
    pub vertex_bits: Vec<u32>,
    pub indices: Vec<u32>,
}

/// Whether `bytes` holds a vertex count, a triangle count, that many vertices
/// (three words each) and that many triangles (three words each), and nothing more.
pub open spec fn collision_layout_ok(bytes: Seq<u8>) -> bool {
    &&& bytes.len() >= 8
    &&& bytes.len() == 8 + 12 * (le_u32(bytes, 0) as int + le_u32(bytes, 4) as int)
}

/// Decode the compiled collision geometry.  `None` when the bytes are not
/// exactly a header and the vertices and triangles it announces.
pub fn parse_collision(bytes: &[u8]) -> (mesh: Option<CollisionMesh>)
    ensures
        mesh is Some <==> collision_layout_ok(bytes@),
        mesh matches Some(m) ==> {
            let v = le_u32(bytes@, 0) as int;
            let t = le_u32(bytes@, 4) as int;
            &&& m.vertex_bits@.len() == 3 * v
            &&& m.indices@.len() == 3 * t
            &&& forall|i: int| 0 <= i < 3 * v ==> #[trigger] m.vertex_bits@[i] == le_u32(bytes@, 8 + 4 * i)
            &&& forall|i: int|
                0 <= i < 3 * t ==> #[trigger] m.indices@[i] == le_u32(bytes@, 8 + 12 * v + 4 * i)
        },
{
    let len = bytes.len();
    if len < 8 {
        return None;
    }
    let mut reader = BinaryReader::new(bytes);
    let vertices = reader.u32();
    let triangles = reader.u32();
    let expected: u128 = 8 + 12 * (vertices as u128 + triangles as u128);
    if len as u128 != expected {
        return None;
    }
    let vertex_words: usize = 3 * vertices as usize;
    let index_words: usize = 3 * triangles as usize;
    let mut vertex_bits: Vec<u32> = Vec::new();
    let mut i: usize = 0;
    while i < vertex_words
        invariant
            0 <= i <= vertex_words,
            vertex_words == 3 * vertices,
            index_words == 3 * triangles,
            vertices == le_u32(bytes@, 0),
            triangles == le_u32(bytes@, 4),
            len == bytes@.len(),
            len == 8 + 12 * (vertices as int + triangles as int),
            reader.data() == bytes@,
            reader.position() == 8 + 4 * i,
            vertex_bits@.len() == i,
            forall|m: int| 0 <= m < i ==> #[trigger] vertex_bits@[m] == le_u32(bytes@, 8 + 4 * m),
        decreases vertex_words - i,
    {
        let word = reader.u32();
        vertex_bits.push(word);
        i = i + 1;
    }
    let mut indices: Vec<u32> = Vec::new();
    let mut j: usize = 0;
    while j < index_words
        invariant
            0 <= j <= index_words,
            vertex_words == 3 * vertices,
            index_words == 3 * triangles,
            vertices == le_u32(bytes@, 0),
            triangles == le_u32(bytes@, 4),
            len == bytes@.len(),
            len == 8 + 12 * (vertices as int + triangles as int),
            reader.data() == bytes@,
            reader.position() == 8 + 12 * vertices + 4 * j,
            indices@.len() == j,
            forall|m: int|
                0 <= m < j ==> #[trigger] indices@[m] == le_u32(bytes@, 8 + 12 * vertices + 4 * m),
        decreases index_words - j,
    {
        let word = reader.u32();
        indices.push(word);
        j = j + 1;
    }
    reader.finish();
    Some(CollisionMesh { vertex_bits, indices })
}

/// Words of vertex data per render vertex: position (3), normal (3), texture
/// coordinates (2), lightmap coordinates (2) and color (4).
pub const RENDER_VERTEX_WORDS: usize = 14;

/// One render mesh: its material, its lightmap atlas (-1 for vertex lighting),
/// its vertices as `f32` bit patterns (`RENDER_VERTEX_WORDS` per vertex) and
/// its triangle-list indices.
pub struct RenderMesh {
    pub material: u32,
    pub lightmap: i32,
    pub vertex_bits: Vec<u32>,
    pub indices: Vec<u32>,
}

/// Vertex count of the mesh whose header starts at `at`.
pub open spec fn mesh_vertices(bytes: Seq<u8>, at: int) -> int {
    le_u32(bytes, at + 8) as int
}

/// Index count of the mesh whose header starts at `at`.
pub open spec fn mesh_indices(bytes: Seq<u8>, at: int) -> int {
    le_u32(bytes, at + 12) as int
}

/// Bytes taken by the mesh whose header starts at `at`.
pub open spec fn mesh_size(bytes: Seq<u8>, at: int) -> int {
    16 + 4 * (14 * mesh_vertices(bytes, at) + mesh_indices(bytes, at))
}

/// Whether `n` meshes starting at `at` lie within `bytes`, and all of them end
/// exactly at the end of `bytes`.
pub open spec fn meshes_fill(bytes: Seq<u8>, at: int, n: nat) -> bool
    decreases n,
{
    if n == 0 {
        at == bytes.len()
    } else {
        &&& at + 16 <= bytes.len()
        &&& at + mesh_size(bytes, at) <= bytes.len()
        &&& meshes_fill(bytes, at + mesh_size(bytes, at), (n - 1) as nat)
    }
}

/// The offset of mesh `k`'s header when meshes follow each other from `at`.
pub open spec fn mesh_offset(bytes: Seq<u8>, at: int, k: nat) -> int
    decreases k,
{
    if k == 0 {
        at
    } else {
        let prev = mesh_offset(bytes, at, (k - 1) as nat);
        prev + mesh_size(bytes, prev)
    }
}

/// Whether the render geometry is a mesh count followed by exactly that many meshes.
pub open spec fn render_layout_ok(bytes: Seq<u8>) -> bool {
    bytes.len() >= 4 && meshes_fill(bytes, 4, le_u32(bytes, 0) as nat)
}

/// `m` holds what the mesh whose header starts at `at` stores.
pub open spec fn mesh_decoded(bytes: Seq<u8>, at: int, m: RenderMesh) -> bool {
    let count = mesh_vertices(bytes, at);
    let index_count = mesh_indices(bytes, at);
    &&& m.material == le_u32(bytes, at)
    &&& m.lightmap == le_u32(bytes, at + 4) as i32
    &&& m.vertex_bits@.len() == 14 * count
    &&& m.indices@.len() == index_count
    &&& forall|i: int| 0 <= i < 14 * count ==> #[trigger] m.vertex_bits@[i] == le_u32(bytes, at + 16 + 4 * i)
    &&& forall|i: int|
        0 <= i < index_count ==> #[trigger] m.indices@[i] == le_u32(bytes, at + 16 + 56 * count + 4 * i)
}

/// Read the mesh whose header is next in `reader`, or nothing if it does not fit.
fn parse_mesh(reader: &mut BinaryReader) -> (mesh: Option<RenderMesh>)
    ensures
        final(reader).data() == old(reader).data(),
        mesh is Some <==> (old(reader).position() + 16 <= old(reader).data().len()
            && old(reader).position() + mesh_size(old(reader).data(), old(reader).position())
            <= old(reader).data().len()),
        mesh matches Some(m) ==> {
            &&& mesh_decoded(old(reader).data(), old(reader).position(), m)
            &&& final(reader).position() == old(reader).position() + mesh_size(
                old(reader).data(),
                old(reader).position(),
            )
        },
{
    let ghost bytes = reader.data();
    let ghost at = reader.position();
    let len = reader.bytes.len();
    if reader.cursor > len || len - reader.cursor < 16 {
        return None;
    }
    let material = reader.u32();
    let lightmap = reader.u32() as i32;
    let count = reader.u32();
    let index_count = reader.u32();
    let words: u128 = 14 * count as u128 + index_count as u128;
    if 4 * words > (len - reader.cursor) as u128 {
        return None;
    }
    let vertex_words: usize = 14 * count as usize;
    let mut vertex_bits: Vec<u32> = Vec::new();
    let mut i: usize = 0;
    while i < vertex_words
        invariant
            0 <= i <= vertex_words,
            vertex_words == 14 * count,
            count == mesh_vertices(bytes, at),
            index_count == mesh_indices(bytes, at),
            len == bytes.len(),
            at + mesh_size(bytes, at) <= len,
            reader.data() == bytes,
            reader.position() == at + 16 + 4 * i,
            vertex_bits@.len() == i,
            forall|m: int| 0 <= m < i ==> #[trigger] vertex_bits@[m] == le_u32(bytes, at + 16 + 4 * m),
        decreases vertex_words - i,
    {
        let word = reader.u32();
        vertex_bits.push(word);
        i = i + 1;
    }
    let index_words: usize = index_count as usize;
    let mut indices: Vec<u32> = Vec::new();
    let mut j: usize = 0;
    while j < index_words
        invariant
            0 <= j <= index_words,
            index_words == index_count,
            count == mesh_vertices(bytes, at),
            index_count == mesh_indices(bytes, at),
            len == bytes.len(),
            at + mesh_size(bytes, at) <= len,
            reader.data() == bytes,
            reader.position() == at + 16 + 56 * count + 4 * j,
            indices@.len() == j,
            forall|m: int|
                0 <= m < j ==> #[trigger] indices@[m] == le_u32(bytes, at + 16 + 56 * count + 4 * m),
        decreases index_words - j,
    {
        let word = reader.u32();
        indices.push(word);
        j = j + 1;
    }
    Some(RenderMesh { material, lightmap, vertex_bits, indices })
}

/// Decode the compiled render geometry: a mesh count, then each mesh's
/// material, lightmap, vertex count, index count, vertex words and indices.
/// `None` when the bytes are not exactly that.
pub fn parse_render(bytes: &[u8]) -> (meshes: Option<Vec<RenderMesh>>)
    ensures
        meshes is Some <==> render_layout_ok(bytes@),
        meshes matches Some(ms) ==> {
            &&& ms@.len() == le_u32(bytes@, 0)
            &&& forall|k: int|
                0 <= k < ms@.len() ==> mesh_decoded(
                    bytes@,
                    mesh_offset(bytes@, 4, k as nat),
                    #[trigger] ms@[k],
                )
        },
{
    if bytes.len() < 4 {
        return None;
    }
    let mut reader = BinaryReader::new(bytes);
    let n = reader.u32();
    let mut meshes: Vec<RenderMesh> = Vec::new();
    let mut k: u32 = 0;
    while k < n
        invariant
            0 <= k <= n,
            n == le_u32(bytes@, 0),
            bytes@.len() >= 4,
            reader.data() == bytes@,
            reader.position() == mesh_offset(bytes@, 4, k as nat),
            meshes@.len() == k,
            forall|m: int|
                0 <= m < k ==> mesh_decoded(bytes@, mesh_offset(bytes@, 4, m as nat), #[trigger] meshes@[m]),
            render_layout_ok(bytes@) <==> meshes_fill(bytes@, mesh_offset(bytes@, 4, k as nat), (n - k) as nat),
        decreases n - k,
    {
        let ghost at = reader.position();
        match parse_mesh(&mut reader) {
            Some(mesh) => {
                assert(mesh_offset(bytes@, 4, (k + 1) as nat) == at + mesh_size(bytes@, at));
                meshes.push(mesh);
            },
            None => {
                return None;
            },
        }
        k = k + 1;
    }
    if !(reader.cursor == reader.bytes.len()) {
        return None;
    }
    reader.finish();
    Some(meshes)
}

} // verus!
