//! The declarative content model used by config-driven builds: which tiles
//! and entities exist, how they are drawn, and which cells an init action
//! covers.  Reading a config file and rendering are I/O concerns that live
//! outside this library; the meaning of a parsed config is defined here.

use vstd::prelude::*;

verus! {

broadcast use vstd::seq_lib::group_seq_lib_default, vstd::seq::group_seq_axioms;

/// An unsigned 2D vector of tile coordinates.
#[derive(Debug, Clone, Copy, PartialEq, Eq, Structural)]
pub struct Vec2u {
    pub x: u32,
    pub y: u32,
}

/// The tools a config may demand for breaking a wall.
#[derive(Debug, Clone, Copy, PartialEq, Eq, Structural)]
pub enum Tool {
    Pickaxe,
    Axe,
    Shovel,
}

/// How a wall breaks: the tool and the number of hits; a config never
/// declares zero hits.
#[derive(Debug, Clone, Copy, PartialEq, Eq, Structural)]
pub struct Breakable {
    pub tool: Tool,
    pub power: usize,
}

/// Which asset draws a thing: its type's own name, nothing, or a named
/// override.
#[derive(Debug, Clone, PartialEq, Eq)]
pub enum ModelConfig {
    SameAsType,
    Omitted,
    Custom(String),
}

impl Default for ModelConfig {
    fn default() -> (m: Self)
        ensures
            m == ModelConfig::SameAsType,
    {
        ModelConfig::SameAsType
    }
}

impl ModelConfig {
    /// The asset to draw for a thing whose type name is `ty`: the type
    /// name itself, nothing, or the override.
    pub fn asset<'s>(&'s self, ty: &'s String) -> (r: Option<&'s String>)
        ensures
            match *self {
                ModelConfig::SameAsType => r == Some(ty),
                ModelConfig::Omitted => r is None,
                ModelConfig::Custom(_) => r matches Some(a) && *self == ModelConfig::Custom(*a),
            },
    {
        match self {
            Self::SameAsType => Some(ty),
            Self::Omitted => None,
            Self::Custom(asset) => Some(asset),
        }
    }
}

/// A wall declaration: breakability and model.
#[derive(Debug)]
pub struct WallConfig {
    pub breakable: Option<Breakable>,
    pub model: ModelConfig,
}

/// An entity declaration: its model.
#[derive(Debug)]
pub struct EntityConfig {
    pub model: ModelConfig,
}

/// One cell of the config's tile grid.
#[derive(Debug, Clone, Copy, PartialEq, Eq, PartialOrd, Ord, Structural)]
pub struct TilePos {
    pub x: u32,
    pub y: u32,
}

impl TilePos {
    pub fn vec(self) -> (v: Vec2u)
        ensures
            v == (Vec2u { x: self.x, y: self.y }),
    {
        Vec2u { x: self.x, y: self.y }
    }
}

/// The far corner of a declared rectangle: spelled out, or as a size from
/// its near corner; a zero extent counts as one cell.
#[derive(Debug, Clone, Copy, PartialEq, Eq, Structural)]
pub enum RectEnd {
    Max(TilePos),
    Size(TilePos),
}

/// The far corner `RectEnd::max` denotes, as mathematical integers.
pub open spec fn rect_end_max(end: RectEnd, min: TilePos) -> (int, int) {
    match end {
        RectEnd::Max(m) => (m.x as int, m.y as int),
        RectEnd::Size(s) => (
            min.x + (if s.x == 0 {
                0int
            } else {
                s.x - 1
            }),
            min.y + (if s.y == 0 {
                0int
            } else {
                s.y - 1
            }),
        ),
    }
}

impl RectEnd {
    /// Resolves the far corner against the near one.
    pub fn max(self, min: TilePos) -> (r: TilePos)
        requires
            rect_end_max(self, min).0 <= u32::MAX,
            rect_end_max(self, min).1 <= u32::MAX,
        ensures
            (r.x as int, r.y as int) == rect_end_max(self, min),
    {
        match self {
            Self::Max(m) => m,
            Self::Size(s) => TilePos {
                x: min.x + (if s.x == 0 {
                    0
                } else {
                    s.x - 1
                }),
                y: min.y + (if s.y == 0 {
                    0
                } else {
                    s.y - 1
                }),
            },
        }
    }
}

/// The cells one init action covers: a single cell, or a rectangle, solid
/// or hollow.
#[derive(Debug, Clone, Copy, PartialEq, Eq, Structural)]
pub enum TilePoses {
    Pos(TilePos),
    Rect { min: TilePos, end: RectEnd, hollow: bool },
}

impl TilePoses {
    /// Whether the shape covers the cell.
    pub open spec fn covers(self, p: (int, int)) -> bool {
        match self {
            TilePoses::Pos(q) => p == (q.x as int, q.y as int),
            TilePoses::Rect { min, end, hollow } => {
                let max = rect_end_max(end, min);
                if hollow {
                    ||| ((p.1 == min.y as int || p.1 == max.1) && min.x as int <= p.0 <= max.0)
                    ||| ((p.0 == min.x as int || p.0 == max.0) && (min.y as int) < p.1 < max.1)
                } else {
                    min.x as int <= p.0 <= max.0 && min.y as int <= p.1 <= max.1
                }
            },
        }
    }

    /// Whether the shape can be walked without overflowing a coordinate.
    pub open spec fn bounded(self) -> bool {
        match self {
            TilePoses::Pos(_) => true,
            TilePoses::Rect { min, end, hollow } => rect_end_max(end, min).0 <= u32::MAX
                && rect_end_max(end, min).1 <= u32::MAX,
        }
    }

    /// The cells the shape covers, each at least once.
    pub fn positions(self) -> (r: Vec<TilePos>)
        requires
            self.bounded(),
        ensures
            forall|t: TilePos| r@.contains(t) <==> self.covers((t.x as int, t.y as int)),
    {
        let mut out: Vec<TilePos> = Vec::new();
        match self {
            Self::Pos(q) => {
                out.push(q);
                proof {
                    assert forall|t: TilePos| out@.contains(t) <==> self.covers(
                        (t.x as int, t.y as int),
                    ) by {
                        lemma_push_contains(Seq::<TilePos>::empty(), q, t);
                    }
                }
            },
            Self::Rect { min, end, hollow } => {
                let max = end.max(min);
                if hollow {
                    push_row(&mut out, min.y, min.x, max.x);
                    push_row(&mut out, max.y, min.x, max.x);
                    push_col(&mut out, min.x, min.y, max.y);
                    push_col(&mut out, max.x, min.y, max.y);
                    proof {
                        assert forall|t: TilePos| out@.contains(t) <==> self.covers(
                            (t.x as int, t.y as int),
                        ) by {}
                    }
                } else {
                    let mut y: u64 = min.y as u64;
                    while y <= max.y as u64
                        invariant
                            (min.y as int) <= y,
                            y <= (max.y as int) + 1 || y == min.y as int,
                            rect_end_max(end, min) == (max.x as int, max.y as int),
                            forall|t: TilePos|
                                out@.contains(t) <==> ((min.x as int) <= t.x <= (max.x as int)
                                    && (min.y as int) <= t.y && t.y < y),
                        decreases (max.y as int) + 1 - y,
                    {
                        push_row(&mut out, y as u32, min.x, max.x);
                        y = y + 1;
                    }
                }
            },
        }
        out
    }

    /// Visits every covered cell once per occurrence in `positions`.
    pub fn for_each<F: Fn(TilePos)>(self, f: F)
        requires
            self.bounded(),
            forall|t: TilePos|
                self.covers((t.x as int, t.y as int)) ==> call_requires(f, (t,)),
    {
        let ps = self.positions();
        let mut i: usize = 0;
        while i < ps.len()
            invariant
                forall|t: TilePos|
                    ps@.contains(t) ==> self.covers((t.x as int, t.y as int)),
                forall|t: TilePos|
                    self.covers((t.x as int, t.y as int)) ==> call_requires(f, (t,)),
            decreases ps@.len() - i,
        {
            proof {
                assert(ps@.contains(ps@[i as int]));
            }
            f(ps[i]);
            i = i + 1;
        }
    }
}

/// Membership in a pushed sequence: the new element, or an old one.
proof fn lemma_push_contains<T>(s: Seq<T>, v: T, x: T)
    ensures
        s.push(v).contains(x) <==> (s.contains(x) || x == v),
{
    if s.push(v).contains(x) {
        let k = choose|k: int| 0 <= k < s.push(v).len() && s.push(v)[k] == x;
        if k < s.len() {
            assert(s[k] == x);
        }
    }
    if s.contains(x) {
        let k = choose|k: int| 0 <= k < s.len() && s[k] == x;
        assert(s.push(v)[k] == x);
    }
    if x == v {
        assert(s.push(v)[s.len() as int] == x);
    }
}

/// Appends the cells of one row segment.
fn push_row(out: &mut Vec<TilePos>, y: u32, x0: u32, x1: u32)
    ensures
        forall|t: TilePos|
            final(out)@.contains(t) <==> (old(out)@.contains(t) || (t.y == y && (x0 as int) <= t.x
                <= (x1 as int))),
{
    let mut x: u64 = x0 as u64;
    while x <= x1 as u64
        invariant
            (x0 as int) <= x,
            x <= (x1 as int) + 1 || x == x0 as int,
            forall|t: TilePos|
                out@.contains(t) <==> (old(out)@.contains(t) || (t.y == y && (x0 as int) <= t.x
                    && t.x < x)),
        decreases (x1 as int) + 1 - x,
    {
        let ghost pre = out@;
        out.push(TilePos { x: x as u32, y });
        proof {
            assert forall|t: TilePos| out@.contains(t) <==> (pre.contains(t) || t == (TilePos {
                x: x as u32,
                y,
            })) by {
                lemma_push_contains(pre, TilePos { x: x as u32, y }, t);
            }
        }
        x = x + 1;
    }
}

/// Appends the cells of one column segment, both ends excluded.
fn push_col(out: &mut Vec<TilePos>, x: u32, y0: u32, y1: u32)
    ensures
        forall|t: TilePos|
            final(out)@.contains(t) <==> (old(out)@.contains(t) || (t.x == x && (y0 as int) < t.y
                < (y1 as int))),
{
    let mut y: u64 = y0 as u64 + 1;
    while y < y1 as u64
        invariant
            (y0 as int) < y,
            y <= (y1 as int) || y == (y0 as int) + 1,
            forall|t: TilePos|
                out@.contains(t) <==> (old(out)@.contains(t) || (t.x == x && (y0 as int) < t.y
                    && t.y < y)),
        decreases (y1 as int) - y,
    {
        let ghost pre = out@;
        out.push(TilePos { x, y: y as u32 });
        proof {
            assert forall|t: TilePos| out@.contains(t) <==> (pre.contains(t) || t == (TilePos {
                x,
                y: y as u32,
            })) by {
                lemma_push_contains(pre, TilePos { x, y: y as u32 }, t);
            }
        }
        y = y + 1;
    }
}

} // verus!
