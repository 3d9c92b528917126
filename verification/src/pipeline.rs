//! The shaders of the ray tracer, and the table by which the device finds them.

use crate::alignment::{align_up, aligned, law_aligned_is_the_next_multiple};
use vstd::arithmetic::power2::pow2;
use vstd::prelude::*;

verus! {

/// Stands for no shader in a group.
pub const SHADER_UNUSED: u32 = 0xFFFF_FFFF;

/// How deep rays may start further rays.
pub const MAX_RECURSION_DEPTH: u32 = 2;

/// The number of shader groups.
pub const GROUP_COUNT: u32 = 4;

/// The number of bytes that are pushed to the ray generation shader: two words.
pub const RT_PUSH_CONSTANTS_SIZE: u32 = 8;

/// What a shader is for.
#[derive(Clone, Copy, PartialEq, Eq, Structural, Debug)]
pub enum ShaderKind {
    Raygen,
    Miss,
    ShadowMiss,
    ClosestHit,
    AnyHit,
}

/// Shaders that belong together, by their places among the stages.
#[derive(Clone, Copy, PartialEq, Eq, Structural, Debug)]
pub struct ShaderGroup {
    /// Whether the group is for triangles that are hit, and not for anything else.
    pub hits_triangles: bool,
    pub general: u32,
    pub closest_hit: u32,
    pub any_hit: u32,
    pub intersection: u32,
}

impl ShaderGroup {
    /// A group of one shader that has nothing to do with triangles.
    pub open spec fn of_general(stage: u32) -> ShaderGroup {
        ShaderGroup {
            hits_triangles: false,
            general: stage,
            closest_hit: SHADER_UNUSED,
            any_hit: SHADER_UNUSED,
            intersection: SHADER_UNUSED,
        }
    }

    fn new_general(stage: u32) -> (out: ShaderGroup)
        ensures
            out == Self::of_general(stage),
    {
        ShaderGroup {
            hits_triangles: false,
            general: stage,
            closest_hit: SHADER_UNUSED,
            any_hit: SHADER_UNUSED,
            intersection: SHADER_UNUSED,
        }
    }
}

/// The stages and groups of the ray tracing pipeline.
pub struct RtPipelinePlan {
    pub stages: Vec<ShaderKind>,
    pub groups: Vec<ShaderGroup>,
}

/// The stages: the cutout shader comes last, where there is one.
pub open spec fn rt_stages(cutout: bool) -> Seq<ShaderKind> {
    let stages = seq![
        ShaderKind::Raygen,
        ShaderKind::Miss,
        ShaderKind::ShadowMiss,
        ShaderKind::ClosestHit,
    ];
    if cutout {
        stages.push(ShaderKind::AnyHit)
    } else {
        stages
    }
}

/// The groups: ray generation, the two shaders for rays that hit nothing, and triangles.
pub open spec fn rt_groups(cutout: bool) -> Seq<ShaderGroup> {
    seq![
        ShaderGroup::of_general(0),
        ShaderGroup::of_general(1),
        ShaderGroup::of_general(2),
        ShaderGroup {
            hits_triangles: true,
            general: SHADER_UNUSED,
            closest_hit: 3,
            any_hit: if cutout {
                4
            } else {
                SHADER_UNUSED
            },
            intersection: SHADER_UNUSED,
        },
    ]
}

/// Plans the ray tracing pipeline, with or without a shader that cuts holes into triangles.
pub fn create_rt_pipeline(cutout: bool) -> (out: RtPipelinePlan)
    ensures
        out.stages@ == rt_stages(cutout),
        out.groups@ == rt_groups(cutout),
{
    let mut stages: Vec<ShaderKind> = Vec::new();
    stages.push(ShaderKind::Raygen);
    stages.push(ShaderKind::Miss);
    stages.push(ShaderKind::ShadowMiss);
    stages.push(ShaderKind::ClosestHit);
    if cutout {
        stages.push(ShaderKind::AnyHit);
    }
    let any_hit: u32 = if cutout {
        4
    } else {
        SHADER_UNUSED
    };
    let mut groups: Vec<ShaderGroup> = Vec::new();
    groups.push(ShaderGroup::new_general(0));
    groups.push(ShaderGroup::new_general(1));
    groups.push(ShaderGroup::new_general(2));
    groups.push(
        ShaderGroup {
            hits_triangles: true,
            general: SHADER_UNUSED,
            closest_hit: 3,
            any_hit,
            intersection: SHADER_UNUSED,
        },
    );
    proof {
        assert(stages@ =~= rt_stages(cutout));
        assert(groups@ =~= rt_groups(cutout));
    }
    RtPipelinePlan { stages, groups }
}

/// Whether a place in a group is left empty or names a stage of the right kind.
pub open spec fn names_stage(stages: Seq<ShaderKind>, place: u32, kind: ShaderKind) -> bool {
    place < stages.len() && stages[place as int] == kind
}

/// Every group names stages that are there and of the kind that the group needs; each stage belongs
/// to a group, and there are as many groups as the table of shaders has entries.
pub proof fn law_groups_name_their_stages(cutout: bool)
    ensures
        rt_groups(cutout).len() == GROUP_COUNT,
        names_stage(rt_stages(cutout), rt_groups(cutout)[0].general, ShaderKind::Raygen),
        names_stage(rt_stages(cutout), rt_groups(cutout)[1].general, ShaderKind::Miss),
        names_stage(rt_stages(cutout), rt_groups(cutout)[2].general, ShaderKind::ShadowMiss),
        names_stage(rt_stages(cutout), rt_groups(cutout)[3].closest_hit, ShaderKind::ClosestHit),
        if cutout {
            names_stage(rt_stages(cutout), rt_groups(cutout)[3].any_hit, ShaderKind::AnyHit)
        } else {
            rt_groups(cutout)[3].any_hit == SHADER_UNUSED
        },
{
}

/// A stretch of the table: where it starts, how far its entries are apart, how long it is.
#[derive(Clone, Copy, PartialEq, Eq, Structural, Debug)]
pub struct SbtRegion {
    pub offset: u32,
    pub stride: u32,
    pub size: u32,
}

impl SbtRegion {
    /// Where the stretch ends.
    pub open spec fn end(self) -> int {
        self.offset + self.size
    }
}

/// The table of shaders: a stretch each for ray generation, for rays that hit nothing, and for
/// triangles, and where the handle of each group is put.
#[derive(Clone, Copy, PartialEq, Eq, Structural, Debug)]
pub struct SbtPlan {
    pub raygen: SbtRegion,
    pub miss: SbtRegion,
    pub hit: SbtRegion,
    /// The number of bytes of all handles together.
    pub handle_data_size: u32,
    /// The number of bytes of the table.
    pub size: u64,
}

/// What the device asks of the table.
#[derive(Clone, Copy, PartialEq, Eq, Structural, Debug)]
pub struct SbtLimits {
    pub handle_size: u32,
    pub handle_alignment: u32,
    pub base_alignment: u32,
}

impl SbtLimits {
    /// How far entries are apart.
    pub open spec fn stride(self) -> u32 {
        aligned(self.handle_size, self.handle_alignment)
    }

    /// Where the stretch for rays that hit nothing starts.
    pub open spec fn miss_offset(self) -> u32 {
        aligned(self.stride(), self.base_alignment)
    }

    /// Where the stretch for triangles starts.
    pub open spec fn hit_offset(self) -> u32 {
        aligned((self.miss_offset() + self.stride() * 2) as u32, self.base_alignment)
    }

    /// Every number on the way to the table stays within 32 bits.
    pub open spec fn fit(self) -> bool {
        &&& self.handle_alignment > 0
        &&& self.base_alignment > 0
        &&& self.handle_size * 4 <= u32::MAX
        &&& self.handle_size + self.handle_alignment - 1 <= u32::MAX
        &&& self.stride() * 2 <= u32::MAX
        &&& self.stride() + self.base_alignment - 1 <= u32::MAX
        &&& self.miss_offset() + self.stride() * 2 + self.base_alignment - 1 <= u32::MAX
        &&& self.hit_offset() + self.stride() <= u32::MAX
    }

    /// Whether every number on the way to the table stays within 32 bits.
    pub fn check(&self) -> (out: bool)
        ensures
            out == self.fit(),
    {
        let limit: u64 = u32::MAX as u64;
        if self.handle_alignment == 0 || self.base_alignment == 0 {
            return false;
        }
        if self.handle_size as u64 * 4 > limit || self.handle_size as u64
            + self.handle_alignment as u64 - 1 > limit {
            return false;
        }
        let stride: u32 = align_up(self.handle_size, self.handle_alignment);
        if stride as u64 * 2 > limit || stride as u64 + self.base_alignment as u64 - 1 > limit {
            return false;
        }
        let miss: u32 = align_up(stride, self.base_alignment);
        if miss as u64 + stride as u64 * 2 + self.base_alignment as u64 - 1 > limit {
            return false;
        }
        let hit: u32 = align_up(miss + stride * 2, self.base_alignment);
        hit as u64 + stride as u64 <= limit
    }
}

/// Plans the table of shaders.
pub fn create_shader_binding_table(limits: SbtLimits) -> (out: SbtPlan)
    requires
        limits.fit(),
    ensures
        out.raygen == (SbtRegion { offset: 0, stride: limits.stride(), size: limits.stride() }),
        out.miss == (SbtRegion {
            offset: limits.miss_offset(),
            stride: limits.stride(),
            size: (limits.stride() * 2) as u32,
        }),
        out.hit == (SbtRegion {
            offset: limits.hit_offset(),
            stride: limits.stride(),
            size: limits.stride(),
        }),
        out.handle_data_size == limits.handle_size * GROUP_COUNT,
        out.size == limits.hit_offset() + limits.stride(),
{
    let stride: u32 = align_up(limits.handle_size, limits.handle_alignment);
    let miss_offset: u32 = align_up(stride, limits.base_alignment);
    let hit_offset: u32 = align_up(miss_offset + stride * 2, limits.base_alignment);
    SbtPlan {
        raygen: SbtRegion { offset: 0, stride, size: stride },
        miss: SbtRegion { offset: miss_offset, stride, size: stride * 2 },
        hit: SbtRegion { offset: hit_offset, stride, size: stride },
        handle_data_size: limits.handle_size * GROUP_COUNT,
        size: (hit_offset + stride) as u64,
    }
}

/// Where the handle of a group is put: ray generation, the two for rays that hit nothing, triangles.
pub open spec fn handle_place(plan: SbtPlan, group: int) -> int {
    if group == 0 {
        plan.raygen.offset as int
    } else if group == 1 {
        plan.miss.offset as int
    } else if group == 2 {
        plan.miss.offset + plan.miss.stride
    } else {
        plan.hit.offset as int
    }
}

/// Where the handle of each group is put, in the order of the groups.
pub fn handle_places(plan: &SbtPlan) -> (out: [u32; 4])
    requires
        plan.miss.offset + plan.miss.stride <= u32::MAX,
    ensures
        forall|group: int| 0 <= group < 4 ==> #[trigger] out@[group] == handle_place(*plan, group),
{
    [plan.raygen.offset, plan.miss.offset, plan.miss.offset + plan.miss.stride, plan.hit.offset]
}

/// With alignments that are powers of two, the stretches of the table start where the device wants
/// them, lie one behind the other, and hold the handles of their groups.
pub proof fn law_table_of_shaders_is_sound(
    limits: SbtLimits,
    plan: SbtPlan,
    handle_exponent: nat,
    base_exponent: nat,
)
    requires
        limits.fit(),
        handle_exponent < 32,
        base_exponent < 32,
        limits.handle_alignment == pow2(handle_exponent),
        limits.base_alignment == pow2(base_exponent),
        plan.raygen == (SbtRegion { offset: 0, stride: limits.stride(), size: limits.stride() }),
        plan.miss == (SbtRegion {
            offset: limits.miss_offset(),
            stride: limits.stride(),
            size: (limits.stride() * 2) as u32,
        }),
        plan.hit == (SbtRegion {
            offset: limits.hit_offset(),
            stride: limits.stride(),
            size: limits.stride(),
        }),
        plan.size == limits.hit_offset() + limits.stride(),
    ensures
        plan.raygen.stride as int % limits.handle_alignment as int == 0,
        plan.miss.offset as int % limits.base_alignment as int == 0,
        plan.hit.offset as int % limits.base_alignment as int == 0,
        plan.raygen.end() <= plan.miss.offset,
        plan.miss.end() <= plan.hit.offset,
        plan.hit.end() == plan.size,
        limits.handle_size <= plan.raygen.stride,
        handle_place(plan, 0) + limits.handle_size <= plan.raygen.end(),
        plan.miss.offset <= handle_place(plan, 1),
        handle_place(plan, 1) + limits.handle_size <= handle_place(plan, 2),
        handle_place(plan, 2) + limits.handle_size <= plan.miss.end(),
        handle_place(plan, 3) + limits.handle_size <= plan.hit.end(),
{
    law_aligned_is_the_next_multiple(limits.handle_size, handle_exponent);
    law_aligned_is_the_next_multiple(limits.stride(), base_exponent);
    law_aligned_is_the_next_multiple(
        (limits.miss_offset() + limits.stride() * 2) as u32,
        base_exponent,
    );
}

/// Whatever a group does not name is left empty: only the last group is for triangles, it names no
/// general shader, and no group names a shader of its own for intersections. There is one stage for each
/// shader.
pub proof fn law_groups_name_nothing_else(cutout: bool)
    ensures
        SHADER_UNUSED == 0xFFFF_FFFF,
        GROUP_COUNT == 4,
        MAX_RECURSION_DEPTH == 2,
        RT_PUSH_CONSTANTS_SIZE == 8,
        rt_stages(cutout).len() == if cutout {
            5
        } else {
            4int
        },
        rt_stages(cutout).no_duplicates(),
        forall|i: int|
            0 <= i < rt_groups(cutout).len() ==> {
                let group = #[trigger] rt_groups(cutout)[i];
                &&& group.hits_triangles <==> i == 3
                &&& group.general == 0xFFFF_FFFF <==> i == 3
                &&& i < 3 ==> group.closest_hit == 0xFFFF_FFFF && group.any_hit == 0xFFFF_FFFF
                &&& group.intersection == 0xFFFF_FFFF
            },
{
}

/// The table wastes no room: each entry and each stretch starts at the first place that the device
/// allows, and the handles stand in the order of their groups.
pub proof fn law_table_of_shaders_is_tight(
    limits: SbtLimits,
    plan: SbtPlan,
    handle_exponent: nat,
    base_exponent: nat,
)
    requires
        limits.fit(),
        handle_exponent < 32,
        base_exponent < 32,
        limits.handle_alignment == pow2(handle_exponent),
        limits.base_alignment == pow2(base_exponent),
        plan.raygen == (SbtRegion { offset: 0, stride: limits.stride(), size: limits.stride() }),
        plan.miss == (SbtRegion {
            offset: limits.miss_offset(),
            stride: limits.stride(),
            size: (limits.stride() * 2) as u32,
        }),
        plan.hit == (SbtRegion {
            offset: limits.hit_offset(),
            stride: limits.stride(),
            size: limits.stride(),
        }),
    ensures
        limits.handle_size <= limits.stride() < limits.handle_size + limits.handle_alignment,
        plan.raygen.end() <= plan.miss.offset < plan.raygen.end() + limits.base_alignment,
        plan.miss.end() <= plan.hit.offset < plan.miss.end() + limits.base_alignment,
        handle_place(plan, 0) == 0,
        handle_place(plan, 1) == plan.miss.offset,
        handle_place(plan, 2) == plan.miss.offset + limits.stride(),
        handle_place(plan, 3) == plan.hit.offset,
{
    law_aligned_is_the_next_multiple(limits.handle_size, handle_exponent);
    law_aligned_is_the_next_multiple(limits.stride(), base_exponent);
    law_aligned_is_the_next_multiple(
        (limits.miss_offset() + limits.stride() * 2) as u32,
        base_exponent,
    );
}

/// Any table whose handles and alignments are not too large can be planned.
pub proof fn law_tables_of_usual_size_fit(
    limits: SbtLimits,
    handle_exponent: nat,
    base_exponent: nat,
)
    requires
        handle_exponent <= 26,
        base_exponent <= 26,
        limits.handle_size <= 0x400_0000,
        limits.handle_alignment == pow2(handle_exponent),
        limits.base_alignment == pow2(base_exponent),
    ensures
        limits.fit(),
{
    vstd::arithmetic::power2::lemma2_to64();
    vstd::arithmetic::power2::lemma_pow2_pos(handle_exponent);
    vstd::arithmetic::power2::lemma_pow2_pos(base_exponent);
    if handle_exponent < 26 {
        vstd::arithmetic::power2::lemma_pow2_strictly_increases(handle_exponent, 26);
    }
    if base_exponent < 26 {
        vstd::arithmetic::power2::lemma_pow2_strictly_increases(base_exponent, 26);
    }
    law_aligned_is_the_next_multiple(limits.handle_size, handle_exponent);
    law_aligned_is_the_next_multiple(limits.stride(), base_exponent);
    law_aligned_is_the_next_multiple(
        (limits.miss_offset() + limits.stride() * 2) as u32,
        base_exponent,
    );
}

} // verus!
