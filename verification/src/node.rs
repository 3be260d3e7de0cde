use vstd::prelude::*;
use crate::bits::near_zero;

verus! {

/// Entity-type tag of a node. `Unknown` is the creation default; the tag
/// selects which primitive the projector uses when no model source is set.
#[derive(Clone, Copy, PartialEq, Eq, Structural, Debug)]
pub enum EntityKind {
    Unknown,
    Cube,
    Sphere,
    Model,
}

/// RGBA color, each channel a single-precision bit pattern.
#[derive(Clone, Copy, PartialEq, Eq, Structural, Debug)]
pub struct Color {
    pub r: u32,
    pub g: u32,
    pub b: u32,
    pub a: u32,
}

/// 3-D dimensions, each component a single-precision bit pattern.
#[derive(Clone, Copy, PartialEq, Eq, Structural, Debug)]
pub struct Dimensions {
    pub x: u32,
    pub y: u32,
    pub z: u32,
}

/// Bit pattern of 1.0: the default value of every color channel, so a fresh
/// node is opaque white.
pub const ONE_BITS: u32 = 0x3F80_0000;

/// Bit pattern of 0.1: the default edge length of the small default cube.
pub const DEFAULT_DIM_BITS: u32 = 0x3DCC_CCCD;

impl Color {
    /// Opaque white, the creation default.
    pub open spec fn spec_white() -> Color {
        Color { r: ONE_BITS, g: ONE_BITS, b: ONE_BITS, a: ONE_BITS }
    }

    /// Executable form of [`Color::spec_white`].
    pub fn white() -> (c: Color)
        ensures
            c == Color::spec_white(),
    {
        Color { r: ONE_BITS, g: ONE_BITS, b: ONE_BITS, a: ONE_BITS }
    }
}

impl Dimensions {
    /// The small default cube assigned at creation.
    pub open spec fn spec_default_cube() -> Dimensions {
        Dimensions { x: DEFAULT_DIM_BITS, y: DEFAULT_DIM_BITS, z: DEFAULT_DIM_BITS }
    }

    /// Executable form of [`Dimensions::spec_default_cube`].
    pub fn default_cube() -> (d: Dimensions)
        ensures
            d == Dimensions::spec_default_cube(),
    {
        Dimensions { x: DEFAULT_DIM_BITS, y: DEFAULT_DIM_BITS, z: DEFAULT_DIM_BITS }
    }

    /// A dimensions vector whose every component has near-zero magnitude is
    /// the sentinel for "not visually represented"; anything else is visual.
    pub open spec fn spec_visual(self) -> bool {
        !(near_zero(self.x) && near_zero(self.y) && near_zero(self.z))
    }

    /// Executable form of [`Dimensions::spec_visual`].
    pub fn is_visual(&self) -> (r: bool)
        ensures
            r == self.spec_visual(),
    {
        !(crate::bits::is_near_zero(self.x) && crate::bits::is_near_zero(self.y)
            && crate::bits::is_near_zero(self.z))
    }
}

/// A scene node. The identifier is assigned once at creation and never
/// changes; every other field is mutable in place through commands.
#[derive(Debug)]
pub struct Node {
    pub id: u64,
    pub name: String,
    pub transform: [u32; 16],
    pub kind: EntityKind,
    pub model_source: Option<String>,
    pub texture_source: Option<String>,
    pub color: Color,
    pub dims: Dimensions,
}

/// Mathematical model of a node: strings become character sequences and the
/// transform becomes a sequence of bit patterns.
#[verifier::ext_equal]
pub struct NodeModel {
    pub id: u64,
    pub name: Seq<char>,
    pub transform: Seq<u32>,
    pub kind: EntityKind,
    pub model_source: Option<Seq<char>>,
    pub texture_source: Option<Seq<char>>,
    pub color: Color,
    pub dims: Dimensions,
}

/// Model of an optional string source reference.
pub open spec fn source_model(s: Option<String>) -> Option<Seq<char>> {
    match s {
        Some(st) => Some(st@),
        None => None,
    }
}

impl Node {
    /// The node's mathematical model.
    pub open spec fn model(self) -> NodeModel {
        NodeModel {
            id: self.id,
            name: self.name@,
            transform: self.transform@,
            kind: self.kind,
            model_source: source_model(self.model_source),
            texture_source: source_model(self.texture_source),
            color: self.color,
            dims: self.dims,
        }
    }

    /// The model of a node as `Create` builds it: the given identifier, name
    /// and transform, and the documented defaults everywhere else.
    pub open spec fn spec_fresh(id: u64, name: Seq<char>, transform: Seq<u32>) -> NodeModel {
        NodeModel {
            id: id,
            name: name,
            transform: transform,
            kind: EntityKind::Unknown,
            model_source: None,
            texture_source: None,
            color: Color::spec_white(),
            dims: Dimensions::spec_default_cube(),
        }
    }

    /// Build a fresh node with the documented defaults.
    pub fn fresh(id: u64, name: String, transform: [u32; 16]) -> (n: Node)
        ensures
            n.model() == Node::spec_fresh(id, name@, transform@),
    {
        Node {
            id: id,
            name: name,
            transform: transform,
            kind: EntityKind::Unknown,
            model_source: None,
            texture_source: None,
            color: Color::white(),
            dims: Dimensions::default_cube(),
        }
    }
}

impl Clone for Node {
    /// Field-for-field copy; the clone has the same model as the original.
    fn clone(&self) -> (r: Self)
        ensures
            r.model() == self.model(),
    {
        Node {
            id: self.id,
            name: self.name.clone(),
            transform: self.transform,
            kind: self.kind,
            model_source: match &self.model_source {
                Some(s) => Some(s.clone()),
                None => None,
            },
            texture_source: match &self.texture_source {
                Some(s) => Some(s.clone()),
                None => None,
            },
            color: self.color,
            dims: self.dims,
        }
    }
}

} // verus!
