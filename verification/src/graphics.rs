//! The simple graphics API's plain-data parts: memory kinds, texture
//! formats, memory-type selection and SPIR-V word decoding. Vulkan handles
//! are held as the integer values of the handles.
use vstd::prelude::*;
use crate::text::concat;

verus! {

broadcast use vstd::string::group_string_axioms;

/// Memory types for allocation
#[derive(Debug, Clone, Copy, PartialEq, Eq, Structural)]
pub enum MemoryType {
    /// CPU-mapped GPU memory (write-combined, fast for CPU writes, GPU reads)
    CpuMapped,
    /// GPU-only memory (optimal for textures, compressed layouts)
    GpuOnly,
    /// CPU-cached memory (for readback from GPU)
    CpuCached,
}

/// Simple error type for the API
#[derive(Debug)]
pub enum Error {
    Vulkan(String),
    OutOfMemory,
    InvalidArgument,
    Unsupported,
}

pub open spec fn error_text(e: Error) -> Seq<char> {
    match e {
        Error::Vulkan(m) => "Vulkan error: "@ + m@,
        Error::OutOfMemory => "Out of memory"@,
        Error::InvalidArgument => "Invalid argument"@,
        Error::Unsupported => "Unsupported feature"@,
    }
}

impl Error {
    /// The error's message, as `to_string()` gives it.
    pub fn message(&self) -> (r: String)
        ensures
            r@ == error_text(*self),
    {
        match self {
            Error::Vulkan(m) => concat("Vulkan error: ", m.as_str()),
            Error::OutOfMemory => String::from_str("Out of memory"),
            Error::InvalidArgument => String::from_str("Invalid argument"),
            Error::Unsupported => String::from_str("Unsupported feature"),
        }
    }
}

/// Texture format
#[derive(Debug, Clone, Copy, PartialEq, Eq, Structural)]
pub enum Format {
    Rgba8Unorm,
    Bgra8Unorm,
    Rgba32Float,
    Depth32Float,
}

/// `VkFormat` values.
pub const VK_FORMAT_R8G8B8A8_UNORM: u32 = 37;
pub const VK_FORMAT_B8G8R8A8_UNORM: u32 = 44;
pub const VK_FORMAT_R32G32B32A32_SFLOAT: u32 = 109;
pub const VK_FORMAT_D32_SFLOAT: u32 = 126;

pub open spec fn vk_format_of(f: Format) -> u32 {
    match f {
        Format::Rgba8Unorm => VK_FORMAT_R8G8B8A8_UNORM,
        Format::Bgra8Unorm => VK_FORMAT_B8G8R8A8_UNORM,
        Format::Rgba32Float => VK_FORMAT_R32G32B32A32_SFLOAT,
        Format::Depth32Float => VK_FORMAT_D32_SFLOAT,
    }
}

impl Format {
    /// The `VkFormat` value of the format.
    pub fn to_vk_format(&self) -> (r: u32)
        ensures
            r == vk_format_of(*self),
    {
        match self {
            Format::Rgba8Unorm => VK_FORMAT_R8G8B8A8_UNORM,
            Format::Bgra8Unorm => VK_FORMAT_B8G8R8A8_UNORM,
            Format::Rgba32Float => VK_FORMAT_R32G32B32A32_SFLOAT,
            Format::Depth32Float => VK_FORMAT_D32_SFLOAT,
        }
    }
}

/// `VkMemoryPropertyFlagBits` values.
pub const VK_MEMORY_PROPERTY_DEVICE_LOCAL_BIT: u32 = 0x1;
pub const VK_MEMORY_PROPERTY_HOST_VISIBLE_BIT: u32 = 0x2;
pub const VK_MEMORY_PROPERTY_HOST_COHERENT_BIT: u32 = 0x4;
pub const VK_MEMORY_PROPERTY_HOST_CACHED_BIT: u32 = 0x8;

/// The property flags a memory type must have to serve `t`.
pub open spec fn required_flags(t: MemoryType) -> u32 {
    match t {
        MemoryType::CpuMapped => VK_MEMORY_PROPERTY_HOST_VISIBLE_BIT | VK_MEMORY_PROPERTY_HOST_COHERENT_BIT,
        MemoryType::GpuOnly => VK_MEMORY_PROPERTY_DEVICE_LOCAL_BIT,
        MemoryType::CpuCached => VK_MEMORY_PROPERTY_HOST_VISIBLE_BIT | VK_MEMORY_PROPERTY_HOST_CACHED_BIT,
    }
}

/// A memory type with `properties` serves `t` when it has all the required flags.
pub open spec fn serves(properties: u32, t: MemoryType) -> bool {
    properties & required_flags(t) == required_flags(t)
}

/// Main context for the simple graphics API: the device handles and the
/// property flags of each memory type of the physical device, in order.
pub struct GraphicsContext {
    instance: u64,
    physical_device: u64,
    device: u64,
    graphics_queue: u64,
    present_queue: u64,
    command_pool: u64,
    memory_type_flags: Vec<u32>,
}

impl GraphicsContext {
    #[verifier::type_invariant]
    spec fn at_most_32_types(&self) -> bool {
        self.memory_type_flags@.len() <= 32
    }

    pub closed spec fn memory_types(&self) -> Seq<u32> {
        self.memory_type_flags@
    }

    /// Create a new graphics context from existing Vulkan objects and the
    /// property flags of the physical device's memory types (at most 32, as
    /// Vulkan reports them).
    pub fn new(
        instance: u64,
        physical_device: u64,
        device: u64,
        graphics_queue: u64,
        present_queue: u64,
        command_pool: u64,
        memory_type_flags: Vec<u32>,
    ) -> (r: Result<Self, Error>)
        ensures
            memory_type_flags@.len() <= 32 ==> (r matches Ok(c) && c.memory_types() == memory_type_flags@),
            memory_type_flags@.len() > 32 ==> r matches Err(Error::InvalidArgument),
    {
        if memory_type_flags.len() > 32 {
            return Err(Error::InvalidArgument);
        }
        Ok(GraphicsContext {
            instance,
            physical_device,
            device,
            graphics_queue,
            present_queue,
            command_pool,
            memory_type_flags,
        })
    }

    /// The index of the first memory type that serves `memory_type`.
    pub fn find_memory_type(&self, memory_type: MemoryType) -> (r: Result<u32, Error>)
        ensures
            match r {
                Ok(i) => i < self.memory_types().len() && serves(self.memory_types()[i as int], memory_type)
                    && forall|j: int| 0 <= j < i ==> !serves(#[trigger] self.memory_types()[j], memory_type),
                Err(e) => e is Unsupported && forall|j: int| 0 <= j < self.memory_types().len()
                    ==> !serves(#[trigger] self.memory_types()[j], memory_type),
            },
    {
        proof {
            use_type_invariant(self);
        }
        let property_flags = match memory_type {
            MemoryType::CpuMapped => VK_MEMORY_PROPERTY_HOST_VISIBLE_BIT | VK_MEMORY_PROPERTY_HOST_COHERENT_BIT,
            MemoryType::GpuOnly => VK_MEMORY_PROPERTY_DEVICE_LOCAL_BIT,
            MemoryType::CpuCached => VK_MEMORY_PROPERTY_HOST_VISIBLE_BIT | VK_MEMORY_PROPERTY_HOST_CACHED_BIT,
        };
        let mut i: usize = 0;
        while i < self.memory_type_flags.len()
            invariant
                i <= self.memory_type_flags@.len(),
                self.memory_type_flags@.len() <= u32::MAX,
                property_flags == required_flags(memory_type),
                forall|j: int| 0 <= j < i ==> !serves(#[trigger] self.memory_type_flags@[j], memory_type),
            decreases self.memory_type_flags@.len() - i,
        {
            let properties = self.memory_type_flags[i];
            if (properties & property_flags) == property_flags {
                return Ok(i as u32);
            }
            i = i + 1;
        }
        Err(Error::Unsupported)
    }
}

/// The little-endian 32-bit word of four bytes.
pub open spec fn le_word(b0: u8, b1: u8, b2: u8, b3: u8) -> int {
    b0 + 256 * b1 + 65536 * b2 + 16777216 * b3
}

/// The SPIR-V words of a shader file's bytes, little-endian, or the error
/// message when the length is not a multiple of four.
pub fn spirv_words(bytes: &[u8], path: &str) -> (r: Result<Vec<u32>, String>)
    ensures
        bytes@.len() % 4 != 0 ==> (r matches Err(m) && m@ == "SPIR-V file not u32-aligned: "@ + path@),
        bytes@.len() % 4 == 0 ==> (r matches Ok(w) && w@.len() == bytes@.len() / 4
            && forall|i: int| 0 <= i < w@.len() ==> #[trigger] w@[i] == le_word(
                bytes@[4 * i],
                bytes@[4 * i + 1],
                bytes@[4 * i + 2],
                bytes@[4 * i + 3],
            )),
{
    if bytes.len() % 4 != 0 {
        return Err(concat("SPIR-V file not u32-aligned: ", path));
    }
    let len = bytes.len();
    let n = len / 4;
    let mut words: Vec<u32> = Vec::new();
    let mut k: usize = 0;
    while k < n
        invariant
            n == bytes@.len() / 4,
            len == bytes@.len(),
            bytes@.len() % 4 == 0,
            k <= n,
            words@.len() == k,
            forall|i: int| 0 <= i < k ==> #[trigger] words@[i] == le_word(
                bytes@[4 * i],
                bytes@[4 * i + 1],
                bytes@[4 * i + 2],
                bytes@[4 * i + 3],
            ),
        decreases n - k,
    {
        assert(4 * k + 3 < len) by (nonlinear_arith)
            requires
                k < n,
                n == len / 4,
                len % 4 == 0,
        ;
        let base = 4 * k;
        let b0 = bytes[base];
        let b1 = bytes[base + 1];
        let b2 = bytes[base + 2];
        let b3 = bytes[base + 3];
        let w: u32 = b0 as u32 + 256 * (b1 as u32) + 65536 * (b2 as u32) + 16777216 * (b3 as u32);
        words.push(w);
        k = k + 1;
    }
    Ok(words)
}


/// The UI vertex colour word: red in the low byte, then green, blue and
/// alpha in the high byte.
pub open spec fn packed_color(r: u8, g: u8, b: u8, a: u8) -> int {
    a * 0x100_0000 + b * 0x1_0000 + g * 0x100 + r
}

/// Packs the colour of a UI vertex.
pub fn pack_color(r: u8, g: u8, b: u8, a: u8) -> (w: u32)
    ensures
        w as int == packed_color(r, g, b, a),
{
    let w: u32 = (a as u32) * 0x100_0000 + (b as u32) * 0x1_0000 + (g as u32) * 0x100 + (r as u32);
    w
}

/// A draw of the UI: `index_count` indices of the index buffer, from
/// `first_index`.
#[derive(Debug, Clone, Copy, PartialEq, Eq, Structural)]
pub struct DrawRange {
    pub first_index: u32,
    pub index_count: u32,
}

/// A count as the `u32` that `as u32` gives.
pub open spec fn low32(n: nat) -> u32 {
    (n % 0x1_0000_0000) as u32
}

/// Appends a mesh's indices to the index buffer, each moved past the
/// `vertex_base` vertices already in the vertex buffer, and gives the draw
/// that covers them.
pub fn append_mesh_indices(indices: &mut Vec<u32>, vertex_base: u32, mesh: &[u32]) -> (d: DrawRange)
    requires
        forall|i: int| 0 <= i < mesh@.len() ==> vertex_base + #[trigger] mesh@[i] <= u32::MAX,
    ensures
        final(indices)@.len() == old(indices)@.len() + mesh@.len(),
        final(indices)@.take(old(indices)@.len() as int) == old(indices)@,
        forall|i: int| 0 <= i < mesh@.len() ==> #[trigger] final(indices)@[old(indices)@.len() + i]
            == vertex_base + mesh@[i],
        d.first_index == low32(old(indices)@.len() as nat),
        d.index_count == low32(mesh@.len() as nat),
{
    let start: usize = indices.len();
    let first_index: u32 = ((start as u64) % 0x1_0000_0000u64) as u32;
    let count: u32 = ((mesh.len() as u64) % 0x1_0000_0000u64) as u32;
    let ghost before = indices@;
    let mut k: usize = 0;
    while k < mesh.len()
        invariant
            k <= mesh@.len(),
            start == before.len(),
            indices@.len() == before.len() + k,
            indices@.take(before.len() as int) == before,
            forall|i: int| 0 <= i < mesh@.len() ==> vertex_base + #[trigger] mesh@[i] <= u32::MAX,
            forall|i: int| 0 <= i < k ==> #[trigger] indices@[before.len() + i] == vertex_base + mesh@[i],
        decreases mesh@.len() - k,
    {
        let ghost prev = indices@;
        indices.push(vertex_base + mesh[k]);
        proof {
            assert(indices@.take(before.len() as int) =~= prev.take(before.len() as int));
            assert forall|i: int| 0 <= i < k + 1 implies #[trigger] indices@[before.len() + i] == vertex_base + mesh@[i] by {
                if i < k {
                    assert(indices@[before.len() + i] == prev[before.len() + i]);
                }
            }
        }
        k = k + 1;
    }
    DrawRange { first_index, index_count: count }
}


/// The meshes of a UI frame as vertex counts and index lists, by view.
pub open spec fn meshes_view(meshes: Seq<(usize, Vec<u32>)>) -> Seq<(nat, Seq<u32>)> {
    meshes.map_values(|m: (usize, Vec<u32>)| (m.0 as nat, m.1@))
}

/// A mesh's indices moved past `base` vertices.
pub open spec fn shifted_indices(base: u32, mesh: Seq<u32>) -> Seq<u32> {
    mesh.map_values(|x: u32| (base + x) as u32)
}

/// What batching the meshes into one vertex and one index buffer gives:
/// the vertex count, the index buffer and one draw per mesh that has
/// indices (meshes without indices are skipped, vertices and all).
pub open spec fn batched(meshes: Seq<(nat, Seq<u32>)>) -> (nat, Seq<u32>, Seq<DrawRange>)
    decreases meshes.len(),
{
    if meshes.len() == 0 {
        (0, Seq::empty(), Seq::empty())
    } else {
        let (v, idx, draws) = batched(meshes.drop_last());
        let (n, mi) = meshes.last();
        if mi.len() == 0 {
            (v, idx, draws)
        } else {
            (
                v + n,
                idx + shifted_indices(low32(v), mi),
                draws.push(DrawRange { first_index: low32(idx.len()), index_count: low32(mi.len()) }),
            )
        }
    }
}

/// Every shifted index fits in a `u32` (the sums are taken in 32 bits).
pub open spec fn batch_fits(meshes: Seq<(nat, Seq<u32>)>) -> bool
    decreases meshes.len(),
{
    if meshes.len() == 0 {
        true
    } else {
        let v = batched(meshes.drop_last()).0;
        let mi = meshes.last().1;
        batch_fits(meshes.drop_last()) && forall|i: int| 0 <= i < mi.len() ==> low32(v) + #[trigger] mi[i] <= u32::MAX
    }
}

proof fn lemma_batch_fits_prefix(meshes: Seq<(nat, Seq<u32>)>, k: int)
    requires
        batch_fits(meshes),
        0 <= k <= meshes.len(),
    ensures
        batch_fits(meshes.take(k)),
    decreases meshes.len(),
{
    if k < meshes.len() {
        lemma_batch_fits_prefix(meshes.drop_last(), k);
        assert(meshes.drop_last().take(k) =~= meshes.take(k));
    } else {
        assert(meshes.take(k) =~= meshes);
    }
}

/// Batches the meshes of a UI frame: the index buffer, each mesh's indices
/// moved past the vertices before it, and one draw per mesh with indices.
pub fn batch_meshes(meshes: &Vec<(usize, Vec<u32>)>) -> (r: (Vec<u32>, Vec<DrawRange>))
    requires
        batch_fits(meshes_view(meshes@)),
    ensures
        r.0@ == batched(meshes_view(meshes@)).1,
        r.1@ == batched(meshes_view(meshes@)).2,
{
    let ghost mv = meshes_view(meshes@);
    let mut indices: Vec<u32> = Vec::new();
    let mut draws: Vec<DrawRange> = Vec::new();
    let mut base: u32 = 0;
    let mut k: usize = 0;
    assert(mv.take(0) =~= Seq::<(nat, Seq<u32>)>::empty());
    while k < meshes.len()
        invariant
            k <= meshes@.len(),
            mv == meshes_view(meshes@),
            mv.len() == meshes@.len(),
            batch_fits(mv),
            base == low32(batched(mv.take(k as int)).0),
            indices@ == batched(mv.take(k as int)).1,
            draws@ == batched(mv.take(k as int)).2,
        decreases meshes@.len() - k,
    {
        let ghost prefix = mv.take(k as int);
        let ghost next = mv.take(k + 1);
        proof {
            assert(next.drop_last() =~= prefix);
            assert(next.last() == mv[k as int]);
            lemma_batch_fits_prefix(mv, k + 1);
        }
        let count: usize = meshes[k].0;
        let mesh = &meshes[k].1;
        proof {
            assert(mv[k as int] == (count as nat, mesh@));
            assert(batch_fits(next));
            assert(batched(next.drop_last()).0 == batched(prefix).0);
            assert forall|i: int| 0 <= i < mesh@.len() implies base + #[trigger] mesh@[i] <= u32::MAX by {
                assert(next.last().1[i] == mesh@[i]);
            }
        }
        if mesh.len() > 0 {
            let ghost before = indices@;
            let d = append_mesh_indices(&mut indices, base, mesh.as_slice());
            draws.push(d);
            proof {
                let sh = shifted_indices(base, mesh@);
                assert forall|i: int| 0 <= i < indices@.len() implies #[trigger] indices@[i] == (before + sh)[i] by {
                    if i < before.len() {
                        assert(indices@.take(before.len() as int)[i] == before[i]);
                    } else {
                        assert(indices@[before.len() + (i - before.len())] == base + mesh@[i - before.len()]);
                    }
                }
                assert(indices@ =~= before + sh);
            }
            let sum: u64 = (base as u64) + ((count as u64) % 0x1_0000_0000u64);
            base = (sum % 0x1_0000_0000u64) as u32;
            proof {
                let v = batched(prefix).0;
                vstd::arithmetic::div_mod::lemma_add_mod_noop(v as int, count as int, 0x1_0000_0000int);
                assert(v + count == batched(next).0);
            }
        }
        k = k + 1;
    }
    proof {
        assert(mv.take(meshes@.len() as int) =~= mv);
    }
    (indices, draws)
}

} // verus!
