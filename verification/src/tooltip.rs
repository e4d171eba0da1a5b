//! Out-of-frame behavior: anchor directions for tooltip-like objects and
//! the per-node correction policy.

use vstd::prelude::*;

use crate::geom::Vec2i;
use crate::num::HALF;
use crate::rect::Anchor;

verus! {

/// Anchor and direction for a tooltip-like object.
///
/// * `T` means the parent's top center, then go up.
/// * `TL` means the parent's top left, then go bottom left.
/// * `LT` means the parent's top left, then go top right.
#[derive(Debug, Clone, Copy, PartialEq, Eq, Structural)]
pub enum AnchorDirection {
    B,
    L,
    T,
    R,
    BL,
    LB,
    BR,
    RB,
    TL,
    LT,
    TR,
    RT,
}

impl Default for AnchorDirection {
    fn default() -> (r: Self)
        ensures
            r == AnchorDirection::B,
    {
        AnchorDirection::B
    }
}

/// The parent-side anchor fraction a direction stands for.
pub open spec fn spec_parent_anchor_of(d: AnchorDirection) -> Vec2i {
    match d {
        AnchorDirection::B => Vec2i { x: 0, y: -HALF as i64 },
        AnchorDirection::L => Vec2i { x: -HALF as i64, y: 0 },
        AnchorDirection::T => Vec2i { x: 0, y: HALF as i64 },
        AnchorDirection::R => Vec2i { x: HALF as i64, y: 0 },
        AnchorDirection::BL => Vec2i { x: HALF as i64, y: -HALF as i64 },
        AnchorDirection::LB => Vec2i { x: -HALF as i64, y: HALF as i64 },
        AnchorDirection::BR => Vec2i { x: -HALF as i64, y: -HALF as i64 },
        AnchorDirection::RB => Vec2i { x: HALF as i64, y: HALF as i64 },
        AnchorDirection::TL => Vec2i { x: HALF as i64, y: HALF as i64 },
        AnchorDirection::LT => Vec2i { x: -HALF as i64, y: -HALF as i64 },
        AnchorDirection::TR => Vec2i { x: -HALF as i64, y: HALF as i64 },
        AnchorDirection::RT => Vec2i { x: HALF as i64, y: -HALF as i64 },
    }
}

/// The child-side anchor fraction a direction stands for.
pub open spec fn spec_anchor_of(d: AnchorDirection) -> Vec2i {
    match d {
        AnchorDirection::B => Vec2i { x: 0, y: HALF as i64 },
        AnchorDirection::L => Vec2i { x: HALF as i64, y: 0 },
        AnchorDirection::T => Vec2i { x: 0, y: -HALF as i64 },
        AnchorDirection::R => Vec2i { x: -HALF as i64, y: 0 },
        AnchorDirection::BL => Vec2i { x: HALF as i64, y: HALF as i64 },
        AnchorDirection::LB => Vec2i { x: HALF as i64, y: HALF as i64 },
        AnchorDirection::BR => Vec2i { x: -HALF as i64, y: HALF as i64 },
        AnchorDirection::RB => Vec2i { x: -HALF as i64, y: HALF as i64 },
        AnchorDirection::TL => Vec2i { x: HALF as i64, y: -HALF as i64 },
        AnchorDirection::LT => Vec2i { x: HALF as i64, y: -HALF as i64 },
        AnchorDirection::TR => Vec2i { x: -HALF as i64, y: -HALF as i64 },
        AnchorDirection::RT => Vec2i { x: -HALF as i64, y: -HALF as i64 },
    }
}

impl AnchorDirection {
    /// The anchor matched on the parent side when trying this direction.
    pub fn to_parent_anchor(self) -> (r: Anchor)
        ensures
            r == Anchor::At(spec_parent_anchor_of(self)),
            r.wf(),
            !(r is Inherit),
    {
        match self {
            AnchorDirection::B => Anchor::bottom_center(),
            AnchorDirection::L => Anchor::center_left(),
            AnchorDirection::T => Anchor::top_center(),
            AnchorDirection::R => Anchor::center_right(),
            AnchorDirection::BL => Anchor::bottom_right(),
            AnchorDirection::LB => Anchor::top_left(),
            AnchorDirection::BR => Anchor::bottom_left(),
            AnchorDirection::RB => Anchor::top_right(),
            AnchorDirection::TL => Anchor::top_right(),
            AnchorDirection::LT => Anchor::bottom_left(),
            AnchorDirection::TR => Anchor::top_left(),
            AnchorDirection::RT => Anchor::bottom_right(),
        }
    }

    /// The anchor matched on the child side when trying this direction.
    pub fn to_anchor(self) -> (r: Anchor)
        ensures
            r == Anchor::At(spec_anchor_of(self)),
            r.wf(),
            !(r is Inherit),
    {
        match self {
            AnchorDirection::B => Anchor::top_center(),
            AnchorDirection::L => Anchor::center_right(),
            AnchorDirection::T => Anchor::bottom_center(),
            AnchorDirection::R => Anchor::center_left(),
            AnchorDirection::BL => Anchor::top_right(),
            AnchorDirection::LB => Anchor::top_right(),
            AnchorDirection::BR => Anchor::top_left(),
            AnchorDirection::RB => Anchor::top_left(),
            AnchorDirection::TL => Anchor::bottom_right(),
            AnchorDirection::LT => Anchor::bottom_right(),
            AnchorDirection::TR => Anchor::bottom_left(),
            AnchorDirection::RT => Anchor::bottom_left(),
        }
    }
}

/// How a node reacts when its rectangle falls outside its frame.
#[derive(Debug, Clone, Copy, PartialEq, Eq)]
pub enum OutOfFrameBehavior {
    /// Use the constructed rectangle unmodified.
    Unchanged,
    /// If out of frame, nudge the rectangle into the frame.
    ///
    /// Exact only when the net rotation between the node and its frame is
    /// zero, since the correction works on the local transform.
    Nudge,
    /// Try combinations of anchor and parent anchor until one stays
    /// inside the frame; if every choice fails, keep the descriptor's
    /// own placement.
    AnchorSwap {
        choices: [AnchorDirection; 4],
        len: u8,
    },
}

impl Default for OutOfFrameBehavior {
    fn default() -> (r: Self)
        ensures
            r == OutOfFrameBehavior::Unchanged,
    {
        OutOfFrameBehavior::Unchanged
    }
}

impl OutOfFrameBehavior {
    /// An anchor-swap policy from up to four candidate directions; any
    /// further candidates are dropped.
    pub fn anchor_swap(directions: &[AnchorDirection]) -> (r: OutOfFrameBehavior)
        ensures
            r matches OutOfFrameBehavior::AnchorSwap { choices, len } && {
                &&& len as int == if directions@.len() < 4 {
                    directions@.len() as int
                } else {
                    4
                }
                &&& forall|j: int| 0 <= j < len as int ==> choices[j] == directions@[j]
            },
    {
        let mut arr = [AnchorDirection::B, AnchorDirection::B, AnchorDirection::B,
            AnchorDirection::B];
        let n = directions.len();
        let take = if n < 4 {
            n
        } else {
            4
        };
        let mut i: usize = 0;
        while i < take
            invariant
                take <= 4,
                take <= directions@.len(),
                i <= take,
                forall|j: int| 0 <= j < i ==> arr@[j] == directions@[j],
            decreases take - i,
        {
            arr[i] = directions[i];
            i = i + 1;
        }
        OutOfFrameBehavior::AnchorSwap { choices: arr, len: take as u8 }
    }

    /// The candidate directions of an anchor-swap policy, in trial order;
    /// empty for the other policies.
    pub fn iter_anchor_swaps(&self) -> (r: Vec<AnchorDirection>)
        ensures
            r@ == spec_anchor_swaps(*self),
    {
        match self {
            OutOfFrameBehavior::AnchorSwap { choices, len } => {
                let mut out: Vec<AnchorDirection> = Vec::new();
                let n = if *len as usize <= 4 {
                    *len as usize
                } else {
                    4
                };
                let mut i: usize = 0;
                while i < n
                    invariant
                        n <= 4,
                        i <= n,
                        out@.len() == i,
                        forall|j: int| 0 <= j < i ==> out@[j] == choices@[j],
                        n as int == spec_anchor_swaps(
                            OutOfFrameBehavior::AnchorSwap { choices: *choices, len: *len },
                        ).len(),
                        forall|j: int|
                            0 <= j < n ==> choices@[j] == spec_anchor_swaps(
                                OutOfFrameBehavior::AnchorSwap { choices: *choices, len: *len },
                            )[j],
                    decreases n - i,
                {
                    out.push(choices[i]);
                    i = i + 1;
                }
                proof {
                    assert(out@ =~= spec_anchor_swaps(*self));
                }
                out
            },
            _ => {
                let out: Vec<AnchorDirection> = Vec::new();
                proof {
                    assert(out@ =~= spec_anchor_swaps(*self));
                }
                out
            },
        }
    }
}

/// The candidate directions an out-of-frame policy will try, in order.
pub open spec fn spec_anchor_swaps(b: OutOfFrameBehavior) -> Seq<AnchorDirection> {
    match b {
        OutOfFrameBehavior::AnchorSwap { choices, len } => {
            let n = if len <= 4 {
                len as int
            } else {
                4
            };
            choices@.take(n)
        },
        _ => Seq::empty(),
    }
}

} // verus!
