//! The ray-marched rendering of bricks: shading tiers, per-brick parameters and
//! the proxy box.

use crate::cli::{RaymarchTier, ShadingArg};
use crate::coord::BRICK_EDGE;
use crate::text::str_eq;
use vstd::prelude::*;

verus! {

/// Style and cost of the ray-marched shading.
#[derive(Clone, Copy, Debug, PartialEq, Eq, Structural)]
pub enum RaymarchShadingTier {
    /// Flat palette colour.
    Unlit,
    /// Diffuse light; what is used unless asked otherwise.
    Lambert,
    /// Diffuse light with the palette's surface properties.
    Pbr,
}

impl Default for RaymarchShadingTier {
    fn default() -> (r: Self)
        ensures
            r is Lambert,
    {
        RaymarchShadingTier::Lambert
    }
}

impl RaymarchShadingTier {
    /// The number that the shader knows the tier by.
    pub open spec fn number(self) -> u32 {
        match self {
            RaymarchShadingTier::Unlit => 0,
            RaymarchShadingTier::Lambert => 1,
            RaymarchShadingTier::Pbr => 2,
        }
    }

    /// The number that the shader knows the tier by.
    pub fn to_u32(self) -> (r: u32)
        ensures
            r == self.number(),
            self is Unlit ==> r == 0,
            self is Lambert ==> r == 1,
            self is Pbr ==> r == 2,
    {
        match self {
            RaymarchShadingTier::Unlit => 0,
            RaymarchShadingTier::Lambert => 1,
            RaymarchShadingTier::Pbr => 2,
        }
    }

    /// The tier of a name, in one of its spellings.
    pub open spec fn named(s: Seq<char>) -> Option<RaymarchShadingTier> {
        if s == "unlit"@ || s == "Unlit"@ {
            Some(RaymarchShadingTier::Unlit)
        } else if s == "lambert"@ || s == "Lambert"@ {
            Some(RaymarchShadingTier::Lambert)
        } else if s == "pbr"@ || s == "Pbr"@ || s == "PBR"@ {
            Some(RaymarchShadingTier::Pbr)
        } else {
            None
        }
    }

    /// The tier that an option or a scenario names.
    pub fn from_str(s: &str) -> (r: Option<Self>)
        ensures
            r == Self::named(s@),
            r == Some(RaymarchShadingTier::Unlit) <==> s@ == "unlit"@ || s@ == "Unlit"@,
            r == Some(RaymarchShadingTier::Lambert) <==> s@ == "lambert"@ || s@ == "Lambert"@,
            r == Some(RaymarchShadingTier::Pbr) <==> s@ == "pbr"@ || s@ == "Pbr"@ || s@ == "PBR"@,
    {
        proof {
            reveal_strlit("unlit");
            assert("unlit"@.len() == 5);
            reveal_strlit("Unlit");
            assert("Unlit"@.len() == 5);
            reveal_strlit("lambert");
            assert("lambert"@.len() == 7);
            reveal_strlit("Lambert");
            assert("Lambert"@.len() == 7);
            reveal_strlit("pbr");
            assert("pbr"@.len() == 3);
            reveal_strlit("Pbr");
            assert("Pbr"@.len() == 3);
            reveal_strlit("PBR");
            assert("PBR"@.len() == 3);
        }
        if str_eq(s, "unlit") || str_eq(s, "Unlit") {
            Some(RaymarchShadingTier::Unlit)
        } else if str_eq(s, "lambert") || str_eq(s, "Lambert") {
            Some(RaymarchShadingTier::Lambert)
        } else if str_eq(s, "pbr") || str_eq(s, "Pbr") || str_eq(s, "PBR") {
            Some(RaymarchShadingTier::Pbr)
        } else {
            None
        }
    }
}

/// The shader tells every two tiers apart.
pub proof fn tier_numbers_differ(a: RaymarchShadingTier, b: RaymarchShadingTier)
    ensures
        a.number() == b.number() <==> a == b,
{
}

/// A brick's voxel tree, flattened for the GPU.
#[derive(Clone, Debug)]
pub struct DagGpu {
    pub nodes: Vec<u32>,
    pub colors: Vec<u16>,
    /// Word offset of the root; an empty brick has none.
    pub root: Option<u32>,
}

impl DagGpu {
    /// There is nothing to draw.
    pub open spec fn spec_is_empty(&self) -> bool {
        self.root is None || self.nodes@.len() == 0
    }

    pub fn is_empty(&self) -> (r: bool)
        ensures
            r == self.spec_is_empty(),
            !r <==> self.root is Some && self.nodes@.len() > 0,
    {
        self.root.is_none() || self.nodes.len() == 0
    }
}

/// Per-brick parameters of the shader.
#[derive(Clone, Copy, Debug, PartialEq, Eq, Structural)]
pub struct RaymarchMeta {
    /// Word offset of the tree's root.
    pub root: u32,
    /// Voxels along the brick's edge.
    pub brick_edge: u32,
    /// [`RaymarchShadingTier::to_u32`].
    pub shading_tier: u32,
    pub flags: u32,
}

/// What a brick's material is made of, apart from the shared palette.
#[derive(Debug)]
pub struct RaymarchParts {
    pub nodes: Vec<u32>,
    /// The colours, one word each.
    pub colors: Vec<u32>,
    pub meta: RaymarchMeta,
}

/// The colours widened to one word each.
pub fn widen_colors(colors: &Vec<u16>) -> (r: Vec<u32>)
    ensures
        r@ == Seq::new(colors@.len(), |i: int| colors@[i] as u32),
{
    let mut out: Vec<u32> = Vec::new();
    let mut i: usize = 0;
    while i < colors.len()
        invariant
            i <= colors@.len(),
            out@.len() == i,
            forall|k: int| 0 <= k < i ==> #[trigger] out@[k] == colors@[k] as u32,
        decreases colors@.len() - i,
    {
        out.push(colors[i] as u32);
        i += 1;
    }
    proof {
        assert(out@ =~= Seq::new(colors@.len(), |i: int| colors@[i] as u32));
    }
    out
}

/// The parts of a brick's material; an empty brick has none.
pub fn build_raymarch_material(dag: DagGpu, tier: RaymarchShadingTier) -> (r: Option<RaymarchParts>)
    ensures
        r is None <==> dag.spec_is_empty(),
        r is Some <==> dag.root is Some && dag.nodes@.len() > 0,
        match r {
            Some(p) => {
                &&& p.nodes@ == dag.nodes@
                &&& p.colors@ == Seq::new(dag.colors@.len(), |i: int| dag.colors@[i] as u32)
                &&& p.meta == (RaymarchMeta {
                    root: dag.root->0,
                    brick_edge: 16,
                    shading_tier: tier.number(),
                    flags: 0,
                })
            },
            None => true,
        },
{
    if dag.is_empty() {
        return None;
    }
    let root: u32 = match dag.root {
        Some(root) => root,
        None => return None,
    };
    let colors: Vec<u32> = widen_colors(&dag.colors);
    let meta = RaymarchMeta {
        root,
        brick_edge: BRICK_EDGE as u32,
        shading_tier: tier.to_u32(),
        flags: 0,
    };
    Some(RaymarchParts { nodes: dag.nodes, colors, meta })
}

/// A triangle mesh in whole voxels.
#[derive(Debug)]
pub struct ProxyBox {
    /// The corners: x, y, z of each.
    pub positions: Vec<[u32; 3]>,
    /// Three corners per triangle.
    pub indices: Vec<u32>,
}

/// Corner `i` of a box: its edges run from 0 to `e`, around the lower face and
/// then around the upper one.
pub open spec fn corner(i: int, e: u32) -> (u32, u32, u32) {
    (
        if i % 4 == 1 || i % 4 == 2 {
            e
        } else {
            0
        },
        if i % 4 >= 2 {
            e
        } else {
            0
        },
        if i >= 4 {
            e
        } else {
            0
        },
    )
}

/// The corners of triangle `t` lie in one face of the box.
pub open spec fn lies_in_a_face(a: (u32, u32, u32), b: (u32, u32, u32), c: (u32, u32, u32)) -> bool {
    (a.0 == b.0 && b.0 == c.0) || (a.1 == b.1 && b.1 == c.1) || (a.2 == b.2 && b.2 == c.2)
}

/// The box that a brick is marched in: eight corners and two triangles for each
/// of the six faces.
pub fn brick_proxy_box() -> (r: ProxyBox)
    ensures
        r.positions@.len() == 8,
        forall|i: int|
            0 <= i < 8 ==> ((#[trigger] r.positions@[i])@[0], r.positions@[i]@[1], r.positions@[i]@[2])
                == corner(i, 16),
        r.indices@ == seq![
            0u32, 2, 1, 0, 3, 2, 4, 5, 6, 4, 6, 7, 0, 7, 3, 0, 4, 7, 1, 6, 2, 1, 5, 6, 0, 5, 1, 0, 4, 5, 3, 2, 6, 3, 6, 7,
        ],
        forall|t: int|
            0 <= t < 12 ==> lies_in_a_face(
                corner(#[trigger] r.indices@[3 * t] as int, 16),
                corner(r.indices@[3 * t + 1] as int, 16),
                corner(r.indices@[3 * t + 2] as int, 16),
            ),
{
    let e: u32 = BRICK_EDGE as u32;
    let positions: Vec<[u32; 3]> = vec![
        [0, 0, 0],
        [e, 0, 0],
        [e, e, 0],
        [0, e, 0],
        [0, 0, e],
        [e, 0, e],
        [e, e, e],
        [0, e, e],
    ];
    let indices: Vec<u32> = vec![
        0, 2, 1, 0, 3, 2, 4, 5, 6, 4, 6, 7, 0, 7, 3, 0, 4, 7, 1, 6, 2, 1, 5, 6, 0, 5, 1, 0, 4, 5, 3, 2, 6, 3, 6, 7,
    ];
    ProxyBox { positions, indices }
}

/// The tier of a run: bricks are ray-marched only where that is asked for, in
/// the tier that is asked for.
pub fn raymarch_tier(shading: ShadingArg, tier: RaymarchTier) -> (r: Option<RaymarchShadingTier>)
    ensures
        r == (match (shading, tier) {
            (ShadingArg::Raymarch, RaymarchTier::Unlit) => Some(RaymarchShadingTier::Unlit),
            (ShadingArg::Raymarch, RaymarchTier::Lambert) => Some(RaymarchShadingTier::Lambert),
            (ShadingArg::Raymarch, RaymarchTier::Pbr) => Some(RaymarchShadingTier::Pbr),
            _ => None,
        }),
{
    match shading {
        ShadingArg::Raymarch => match tier {
            RaymarchTier::Unlit => Some(RaymarchShadingTier::Unlit),
            RaymarchTier::Lambert => Some(RaymarchShadingTier::Lambert),
            RaymarchTier::Pbr => Some(RaymarchShadingTier::Pbr),
        },
        _ => None,
    }
}

/// The eight corners of a box are all the points whose coordinates are each 0 or
/// the edge; a corner of the upper face stands above the one of the lower face
/// four before it.
pub proof fn corners_are_those_of_a_box(e: u32, i: int)
    requires
        0 < e,
        0 <= i < 8,
    ensures
        corner(i, e).0 == 0 || corner(i, e).0 == e,
        corner(i, e).1 == 0 || corner(i, e).1 == e,
        corner(i, e).2 == (if i < 4 {
            0
        } else {
            e
        }),
        i < 4 ==> corner(i + 4, e).0 == corner(i, e).0 && corner(i + 4, e).1 == corner(i, e).1,
        forall|j: int| 0 <= j < 8 && j != i ==> #[trigger] corner(j, e) != corner(i, e),
{
}

} // verus!
