use vstd::prelude::*;

verus! {

/// The little-endian `u32` stored at byte `at`.
pub open spec fn le_u32(b: Seq<u8>, at: int) -> u32 {
    (b[at] as int + 256 * b[at + 1] as int + 65536 * b[at + 2] as int + 16777216 * b[at
        + 3] as int) as u32
}

/// The little-endian `u16` stored at byte `at`.
pub open spec fn le_u16(b: Seq<u8>, at: int) -> u16 {
    (b[at] as int + 256 * b[at + 1] as int) as u16
}

/// The three little-endian words of the 12-byte record at byte `at`.
pub open spec fn le_triple(b: Seq<u8>, at: int) -> (u32, u32, u32) {
    (le_u32(b, at), le_u32(b, at + 4), le_u32(b, at + 8))
}

/// Byte length of the vertex block of a terrain file.
pub open spec fn ozt_vertex_bytes(b: Seq<u8>) -> int {
    le_u32(b, 0) as int
}

/// Offset of the index-size word.
pub open spec fn ozt_index_header(b: Seq<u8>) -> int {
    4 + ozt_vertex_bytes(b)
}

/// Number of 16-bit indices: half the index-size word, rounded down.
pub open spec fn ozt_index_count(b: Seq<u8>) -> int {
    (le_u32(b, ozt_index_header(b)) / 2) as int
}

/// Offset of the normal-size word.
pub open spec fn ozt_normal_header(b: Seq<u8>) -> int {
    ozt_index_header(b) + 4 + 2 * ozt_index_count(b)
}

/// Byte length of the face-normal block.
pub open spec fn ozt_normal_bytes(b: Seq<u8>) -> int {
    le_u32(b, ozt_normal_header(b)) as int
}

/// A terrain file: a byte count and that many bytes of vertex records (three
/// little-endian 32-bit words each), a byte count and half that many 16-bit
/// indices, a byte count and that many bytes of face-normal records. Record
/// blocks must be whole records; bytes after the normals are ignored.
pub open spec fn ozt_well_formed(b: Seq<u8>) -> bool {
    &&& b.len() >= 4
    &&& ozt_vertex_bytes(b) % 12 == 0
    &&& b.len() >= ozt_index_header(b) + 4
    &&& b.len() >= ozt_normal_header(b) + 4
    &&& ozt_normal_bytes(b) % 12 == 0
    &&& b.len() >= ozt_normal_header(b) + 4 + ozt_normal_bytes(b)
}

/// The collision mesh of a terrain file, with each coordinate kept as the bit
/// pattern of its 32-bit float.
pub struct OztData {
    pub vertex_bits: Vec<(u32, u32, u32)>,
    pub indices: Vec<u16>,
    pub normal_bits: Vec<(u32, u32, u32)>,
}

/// Reads the little-endian word at byte `at`.
pub fn read_le_u32(b: &[u8], at: usize) -> (r: u32)
    requires
        at + 4 <= b@.len(),
    ensures
        r == le_u32(b@, at as int),
{
    let v: u32 = b[at] as u32 + 256 * (b[at + 1] as u32) + 65536 * (b[at + 2] as u32) + 16777216
        * (b[at + 3] as u32);
    v
}

/// Reads the little-endian half-word at byte `at`.
pub fn read_le_u16(b: &[u8], at: usize) -> (r: u16)
    requires
        at + 2 <= b@.len(),
    ensures
        r == le_u16(b@, at as int),
{
    let v: u16 = b[at] as u16 + 256 * (b[at + 1] as u16);
    v
}

/// Reads `count` 12-byte records starting at byte `start`.
fn read_records(b: &[u8], start: usize, count: usize) -> (r: Vec<(u32, u32, u32)>)
    requires
        start + 12 * count <= b@.len(),
    ensures
        r@.len() == count,
        forall|k: int| 0 <= k < count ==> #[trigger] r@[k] == le_triple(b@, start + 12 * k),
{
    let mut r: Vec<(u32, u32, u32)> = Vec::with_capacity(count);
    let blen = b.len();
    let mut k: usize = 0;
    while k < count
        invariant
            blen == b@.len(),
            k <= count,
            start + 12 * count <= b@.len(),
            r@.len() == k,
            forall|j: int| 0 <= j < k ==> #[trigger] r@[j] == le_triple(b@, start + 12 * j),
        decreases count - k,
    {
        assert(12 * k + 12 <= 12 * count) by (nonlinear_arith)
            requires
                k < count,
        ;
        let at = start + 12 * k;
        let x = read_le_u32(b, at);
        let y = read_le_u32(b, at + 4);
        let z = read_le_u32(b, at + 8);
        r.push((x, y, z));
        k = k + 1;
    }
    r
}

/// Reads `count` little-endian half-words starting at byte `start`.
fn read_u16s(b: &[u8], start: usize, count: usize) -> (r: Vec<u16>)
    requires
        start + 2 * count <= b@.len(),
    ensures
        r@.len() == count,
        forall|k: int| 0 <= k < count ==> #[trigger] r@[k] == le_u16(b@, start + 2 * k),
{
    let mut r: Vec<u16> = Vec::with_capacity(count);
    let blen = b.len();
    let mut k: usize = 0;
    while k < count
        invariant
            blen == b@.len(),
            k <= count,
            start + 2 * count <= b@.len(),
            r@.len() == k,
            forall|j: int| 0 <= j < k ==> #[trigger] r@[j] == le_u16(b@, start + 2 * j),
        decreases count - k,
    {
        assert(2 * k + 2 <= 2 * count) by (nonlinear_arith)
            requires
                k < count,
        ;
        r.push(read_le_u16(b, start + 2 * k));
        k = k + 1;
    }
    r
}

/// Reads a terrain file; `None` exactly when it is not well formed.
pub fn parse_ozt(b: &[u8]) -> (r: Option<OztData>)
    ensures
        r is Some <==> ozt_well_formed(b@),
        r matches Some(d) ==> {
            &&& d.vertex_bits@.len() == ozt_vertex_bytes(b@) / 12
            &&& forall|k: int|
                0 <= k < d.vertex_bits@.len() ==> #[trigger] d.vertex_bits@[k] == le_triple(
                    b@,
                    4 + 12 * k,
                )
            &&& d.indices@.len() == ozt_index_count(b@)
            &&& forall|k: int|
                0 <= k < d.indices@.len() ==> #[trigger] d.indices@[k] == le_u16(
                    b@,
                    ozt_index_header(b@) + 4 + 2 * k,
                )
            &&& d.normal_bits@.len() == ozt_normal_bytes(b@) / 12
            &&& forall|k: int|
                0 <= k < d.normal_bits@.len() ==> #[trigger] d.normal_bits@[k] == le_triple(
                    b@,
                    ozt_normal_header(b@) + 4 + 12 * k,
                )
        },
{
    let len = b.len();
    if len < 4 {
        return None;
    }
    let vertex_bytes = read_le_u32(b, 0) as usize;
    if vertex_bytes % 12 != 0 || vertex_bytes > len - 4 || len - 4 - vertex_bytes < 4 {
        return None;
    }
    let index_header = 4 + vertex_bytes;
    let index_count = (read_le_u32(b, index_header) / 2) as usize;
    let rest = len - index_header - 4;
    if index_count > rest / 2 || rest - 2 * index_count < 4 {
        return None;
    }
    let normal_header = index_header + 4 + 2 * index_count;
    let normal_bytes = read_le_u32(b, normal_header) as usize;
    if normal_bytes % 12 != 0 || normal_bytes > len - normal_header - 4 {
        return None;
    }
    let vertex_bits = read_records(b, 4, vertex_bytes / 12);
    let indices = read_u16s(b, index_header + 4, index_count);
    let normal_bits = read_records(b, normal_header + 4, normal_bytes / 12);
    Some(OztData { vertex_bits, indices, normal_bits })
}

} // verus!
