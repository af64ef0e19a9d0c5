//! Choosing among siblings by where they lie on the screen.
//!
//! Floating windows and outputs have no meaningful order in their list. A
//! neighbor among them is the sibling that lies nearest in the direction
//! asked for, measured on the rectangles of the nodes.

use crate::algorithm::{EdgeMode, Kind, Target};
use crate::tree::{nearest_in_span, NodeModel, Rect};
use vstd::prelude::*;

verus! {

/// Half of `d`, rounded toward zero.
pub open spec fn half(d: int) -> int {
    if d >= 0 {
        d / 2
    } else {
        -((-d) / 2)
    }
}

/// Where `r` begins on the chosen axis.
pub open spec fn span_start(r: Rect, vertical: bool) -> int {
    if vertical {
        r.pos.y as int
    } else {
        r.pos.x as int
    }
}

/// How far `r` extends on the chosen axis.
pub open spec fn span_extent(r: Rect, vertical: bool) -> int {
    if vertical {
        r.dim.y as int
    } else {
        r.dim.x as int
    }
}

/// The middle of `r` on the chosen axis.
pub open spec fn midpoint(r: Rect, vertical: bool) -> int {
    span_start(r, vertical) + half(span_extent(r, vertical))
}

/// Whether the sibling `c` lies past the focused node `f` in the direction
/// searched. With `reversed` the direction is backward: `c` must lie before
/// `f`.
///
/// Floating windows are ordered by midpoint; windows with the same midpoint
/// follow each other by descending id, in both directions. Outputs must not
/// overlap on the axis: the one in front ends where the other begins, or
/// earlier. A sibling with the id of `f` is never a candidate.
pub open spec fn lies_past(
    kind: Kind,
    vertical: bool,
    reversed: bool,
    f: NodeModel,
    c: NodeModel,
) -> bool {
    let (a, b) = if reversed {
        (c.rect, f.rect)
    } else {
        (f.rect, c.rect)
    };
    c.id != f.id && match kind {
        Kind::Float => midpoint(a, vertical) < midpoint(b, vertical) || (midpoint(a, vertical)
            == midpoint(b, vertical) && (reversed == (f.id < c.id))),
        _ => span_start(a, vertical) + span_extent(a, vertical) <= span_start(b, vertical),
    }
}

/// How far the rectangle `c` is from the focused rectangle `f`.
///
/// For floating windows this is the distance between the midpoints on the
/// chosen axis. For outputs it is the squared Euclidean distance from the
/// center of `f` to the closest point of `c`.
#[verifier::opaque]
pub open spec fn separation(kind: Kind, vertical: bool, f: Rect, c: Rect) -> int {
    match kind {
        Kind::Float => {
            let d = midpoint(c, vertical) - midpoint(f, vertical);
            if d < 0 {
                -d
            } else {
                d
            }
        },
        _ => {
            let cx = f.pos.x + half(f.dim.x as int);
            let cy = f.pos.y + half(f.dim.y as int);
            let dx = cx - nearest_in_span(cx, c.pos.x as int, c.dim.x as int);
            let dy = cy - nearest_in_span(cy, c.pos.y as int, c.dim.y as int);
            dx * dx + dy * dy
        },
    }
}

/// The value by which candidates at equal separation are told apart: the id
/// when looking backward, the negated id when looking forward.
pub open spec fn rank(reversed: bool, c: NodeModel) -> int {
    if reversed {
        c.id as int
    } else {
        -(c.id as int)
    }
}

/// Whether candidate `a` comes strictly before candidate `b` when candidates
/// are ordered by separation from `f`, then by rank.
pub open spec fn nearer(
    kind: Kind,
    vertical: bool,
    reversed: bool,
    f: NodeModel,
    a: NodeModel,
    b: NodeModel,
) -> bool {
    let sa = separation(kind, vertical, f.rect, a.rect);
    let sb = separation(kind, vertical, f.rect, b.rect);
    sa < sb || (sa == sb && rank(reversed, a) < rank(reversed, b))
}

/// `i` is the candidate nearest to the focused sibling `s[f]`: no candidate
/// is nearer, and every candidate before it in `s` is strictly farther. The
/// second part decides between candidates that are equally near and have the
/// same id.
pub open spec fn is_nearest(
    s: Seq<NodeModel>,
    f: int,
    kind: Kind,
    vertical: bool,
    reversed: bool,
    i: int,
) -> bool {
    &&& 0 <= i < s.len()
    &&& lies_past(kind, vertical, reversed, s[f], s[i])
    &&& forall|j: int|
        0 <= j < s.len() && lies_past(kind, vertical, reversed, s[f], #[trigger] s[j]) ==> if j
            < i {
            nearer(kind, vertical, reversed, s[f], s[i], s[j])
        } else {
            !nearer(kind, vertical, reversed, s[f], s[j], s[i])
        }
}

/// `i` is the candidate farthest from the focused sibling `s[f]`: no
/// candidate is farther, and every candidate after it in `s` is strictly
/// nearer. The second part decides between candidates that are equally far
/// and have the same id.
pub open spec fn is_farthest(
    s: Seq<NodeModel>,
    f: int,
    kind: Kind,
    vertical: bool,
    reversed: bool,
    i: int,
) -> bool {
    &&& 0 <= i < s.len()
    &&& lies_past(kind, vertical, reversed, s[f], s[i])
    &&& forall|j: int|
        0 <= j < s.len() && lies_past(kind, vertical, reversed, s[f], #[trigger] s[j]) ==> if j
            > i {
            nearer(kind, vertical, reversed, s[f], s[j], s[i])
        } else {
            !nearer(kind, vertical, reversed, s[f], s[i], s[j])
        }
}

/// No sibling lies past the focused one.
pub open spec fn none_past(
    s: Seq<NodeModel>,
    f: int,
    kind: Kind,
    vertical: bool,
    reversed: bool,
) -> bool {
    forall|j: int| 0 <= j < s.len() ==> !lies_past(kind, vertical, reversed, s[f], #[trigger] s[j])
}

/// The index of the nearest candidate, if any sibling is a candidate.
pub open spec fn nearest_index(
    s: Seq<NodeModel>,
    f: int,
    kind: Kind,
    vertical: bool,
    reversed: bool,
) -> Option<int> {
    if exists|i: int| is_nearest(s, f, kind, vertical, reversed, i) {
        Some(choose|i: int| is_nearest(s, f, kind, vertical, reversed, i))
    } else {
        None
    }
}

/// The index of the farthest candidate, if any sibling is a candidate.
pub open spec fn farthest_index(
    s: Seq<NodeModel>,
    f: int,
    kind: Kind,
    vertical: bool,
    reversed: bool,
) -> Option<int> {
    if exists|i: int| is_farthest(s, f, kind, vertical, reversed, i) {
        Some(choose|i: int| is_farthest(s, f, kind, vertical, reversed, i))
    } else {
        None
    }
}

/// The neighbor by geometry among the siblings `s`, of which `s[f]` is
/// focused.
///
/// It is the nearest sibling past the focused one in the direction of the
/// target. If there is none and the target wraps, it is the farthest sibling
/// in the opposite direction, and the focused sibling itself if nothing lies
/// there either.
pub open spec fn geometric_choice(s: Seq<NodeModel>, f: int, target: Target) -> Option<int> {
    match nearest_index(s, f, target.kind, target.vertical, target.backward) {
        Some(i) => Some(i),
        None => if target.edge_mode == EdgeMode::Wrap {
            match farthest_index(s, f, target.kind, target.vertical, !target.backward) {
                Some(i) => Some(i),
                None => Some(f),
            }
        } else {
            None
        },
    }
}

/// Two nearest candidates are the same one.
pub proof fn lemma_nearest_unique(
    s: Seq<NodeModel>,
    f: int,
    kind: Kind,
    vertical: bool,
    reversed: bool,
    i: int,
    j: int,
)
    requires
        is_nearest(s, f, kind, vertical, reversed, i),
        is_nearest(s, f, kind, vertical, reversed, j),
    ensures
        i == j,
{
    if i < j {
    } else if j < i {
    }
}

/// Two farthest candidates are the same one.
pub proof fn lemma_farthest_unique(
    s: Seq<NodeModel>,
    f: int,
    kind: Kind,
    vertical: bool,
    reversed: bool,
    i: int,
    j: int,
)
    requires
        is_farthest(s, f, kind, vertical, reversed, i),
        is_farthest(s, f, kind, vertical, reversed, j),
    ensures
        i == j,
{
    if i < j {
    } else if j < i {
    }
}

/// A nearest candidate is what `nearest_index` returns.
pub proof fn lemma_nearest_index(
    s: Seq<NodeModel>,
    f: int,
    kind: Kind,
    vertical: bool,
    reversed: bool,
    i: int,
)
    requires
        is_nearest(s, f, kind, vertical, reversed, i),
    ensures
        nearest_index(s, f, kind, vertical, reversed) == Some(i),
{
    let c = choose|k: int| is_nearest(s, f, kind, vertical, reversed, k);
    lemma_nearest_unique(s, f, kind, vertical, reversed, i, c);
}

/// A farthest candidate is what `farthest_index` returns.
pub proof fn lemma_farthest_index(
    s: Seq<NodeModel>,
    f: int,
    kind: Kind,
    vertical: bool,
    reversed: bool,
    i: int,
)
    requires
        is_farthest(s, f, kind, vertical, reversed, i),
    ensures
        farthest_index(s, f, kind, vertical, reversed) == Some(i),
{
    let c = choose|k: int| is_farthest(s, f, kind, vertical, reversed, k);
    lemma_farthest_unique(s, f, kind, vertical, reversed, i, c);
}

/// Without candidates there is neither a nearest nor a farthest one.
pub proof fn lemma_no_candidates(
    s: Seq<NodeModel>,
    f: int,
    kind: Kind,
    vertical: bool,
    reversed: bool,
)
    requires
        none_past(s, f, kind, vertical, reversed),
    ensures
        nearest_index(s, f, kind, vertical, reversed) is None,
        farthest_index(s, f, kind, vertical, reversed) is None,
{
    if exists|i: int| is_nearest(s, f, kind, vertical, reversed, i) {
        let i = choose|i: int| is_nearest(s, f, kind, vertical, reversed, i);
    }
    if exists|i: int| is_farthest(s, f, kind, vertical, reversed, i) {
        let i = choose|i: int| is_farthest(s, f, kind, vertical, reversed, i);
    }
}

/// Whether `a` comes strictly before `b` in the order of floating windows
/// along the chosen axis: by midpoint, windows with the same midpoint by
/// descending id.
pub open spec fn floats_before(vertical: bool, a: NodeModel, b: NodeModel) -> bool {
    midpoint(a.rect, vertical) < midpoint(b.rect, vertical) || (midpoint(a.rect, vertical)
        == midpoint(b.rect, vertical) && a.id > b.id)
}

/// `i` is where a container of floating windows is entered: its first window
/// in the order of [`floats_before`] when moving forward, its last when moving
/// backward. Of several windows with the same midpoint and the same id, it is
/// the first in `s` when moving forward and the last when moving backward.
pub open spec fn is_float_entry(s: Seq<NodeModel>, vertical: bool, backward: bool, i: int) -> bool {
    &&& 0 <= i < s.len()
    &&& forall|j: int|
        0 <= j < s.len() ==> if backward {
            if j > i {
                floats_before(vertical, #[trigger] s[j], s[i])
            } else {
                !floats_before(vertical, s[i], s[j])
            }
        } else {
            if j < i {
                floats_before(vertical, s[i], s[j])
            } else {
                !floats_before(vertical, s[j], s[i])
            }
        }
}

/// The index at which a container of floating windows is entered, if it has
/// any window.
pub open spec fn float_entry(s: Seq<NodeModel>, vertical: bool, backward: bool) -> Option<int> {
    if exists|i: int| is_float_entry(s, vertical, backward, i) {
        Some(choose|i: int| is_float_entry(s, vertical, backward, i))
    } else {
        None
    }
}

/// Two entries of the same container are the same one.
pub proof fn lemma_float_entry_unique(
    s: Seq<NodeModel>,
    vertical: bool,
    backward: bool,
    i: int,
    j: int,
)
    requires
        is_float_entry(s, vertical, backward, i),
        is_float_entry(s, vertical, backward, j),
    ensures
        i == j,
{
    if i < j {
    } else if j < i {
        assert(floats_before(vertical, s[i], s[j]));
    }
}

/// An entry is what `float_entry` returns.
pub proof fn lemma_float_entry(s: Seq<NodeModel>, vertical: bool, backward: bool, i: int)
    requires
        is_float_entry(s, vertical, backward, i),
    ensures
        float_entry(s, vertical, backward) == Some(i),
{
    let c = choose|k: int| is_float_entry(s, vertical, backward, k);
    lemma_float_entry_unique(s, vertical, backward, i, c);
}

} // verus!
