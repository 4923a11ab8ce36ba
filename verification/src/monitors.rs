//! Placing the launcher window over all monitors.
use vstd::prelude::*;

verus! {

/// A monitor's position and size in physical pixels.
#[derive(Debug, Clone, Copy, PartialEq, Eq, Structural)]
pub struct MonitorRect {
    pub x: i32,
    pub y: i32,
    pub width: u32,
    pub height: u32,
}

/// The monitor's right and bottom edges fit in `i32`.
pub open spec fn rect_fits(m: MonitorRect) -> bool {
    &&& m.width <= i32::MAX
    &&& m.height <= i32::MAX
    &&& m.x + m.width <= i32::MAX
    &&& m.y + m.height <= i32::MAX
}

pub open spec fn min_i(a: int, b: int) -> int {
    if a <= b {
        a
    } else {
        b
    }
}

pub open spec fn max_i(a: int, b: int) -> int {
    if a >= b {
        a
    } else {
        b
    }
}

/// Smallest rectangle `(left, top, right, bottom)` that covers all the
/// monitors; `None` when there are none.
pub open spec fn bounding_box(ms: Seq<MonitorRect>) -> Option<(int, int, int, int)>
    decreases ms.len(),
{
    if ms.len() == 0 {
        None
    } else {
        let m = ms.last();
        let (x1, y1, x2, y2) = (m.x as int, m.y as int, m.x + m.width, m.y + m.height);
        match bounding_box(ms.drop_last()) {
            None => Some((x1, y1, x2, y2)),
            Some((a, b, c, d)) => Some((min_i(a, x1), min_i(b, y1), max_i(c, x2), max_i(d, y2))),
        }
    }
}

/// The rectangle covering all monitors, as left, top, right and bottom edges.
pub fn monitors_bbox(ms: &Vec<MonitorRect>) -> (r: Option<(i32, i32, i32, i32)>)
    requires
        forall|i: int| 0 <= i < ms@.len() ==> rect_fits(#[trigger] ms@[i]),
    ensures
        match r {
            Some(b) => bounding_box(ms@) == Some((b.0 as int, b.1 as int, b.2 as int, b.3 as int)),
            None => bounding_box(ms@) is None,
        },
        r matches Some(b) ==> b.0 <= b.2 && b.1 <= b.3,
{
    let mut acc: Option<(i32, i32, i32, i32)> = None;
    let mut i: usize = 0;
    proof {
        assert(ms@.take(0) =~= Seq::<MonitorRect>::empty());
    }
    while i < ms.len()
        invariant
            0 <= i <= ms@.len(),
            forall|j: int| 0 <= j < ms@.len() ==> rect_fits(#[trigger] ms@[j]),
            match acc {
                Some(b) => bounding_box(ms@.take(i as int)) == Some(
                    (b.0 as int, b.1 as int, b.2 as int, b.3 as int),
                ),
                None => bounding_box(ms@.take(i as int)) is None,
            },
            acc matches Some(b) ==> b.0 <= b.2 && b.1 <= b.3,
            acc is None <==> i == 0,
        decreases ms@.len() - i,
    {
        let m = ms[i];
        assert(rect_fits(ms@[i as int]));
        let x1 = m.x;
        let y1 = m.y;
        let x2 = m.x + m.width as i32;
        let y2 = m.y + m.height as i32;
        proof {
            assert(ms@.take(i + 1).drop_last() =~= ms@.take(i as int));
            assert(ms@.take(i + 1).last() == m);
        }
        acc = match acc {
            None => Some((x1, y1, x2, y2)),
            Some((a, b, c, d)) => Some(
                (
                    if a <= x1 {
                        a
                    } else {
                        x1
                    },
                    if b <= y1 {
                        b
                    } else {
                        y1
                    },
                    if c >= x2 {
                        c
                    } else {
                        x2
                    },
                    if d >= y2 {
                        d
                    } else {
                        y2
                    },
                ),
            ),
        };
        i = i + 1;
    }
    proof {
        assert(ms@.take(ms@.len() as int) =~= ms@);
    }
    acc
}

/// Window placement covering a bounding box: top-left corner, width and
/// height.
pub fn span_rect(b: (i32, i32, i32, i32)) -> (r: (i32, i32, u32, u32))
    requires
        b.0 <= b.2,
        b.1 <= b.3,
        b.2 - b.0 <= i32::MAX,
        b.3 - b.1 <= i32::MAX,
    ensures
        r == (b.0, b.1, (b.2 - b.0) as u32, (b.3 - b.1) as u32),
{
    (b.0, b.1, (b.2 - b.0) as u32, (b.3 - b.1) as u32)
}


/// The rectangle covering all monitors contains each of them, and each of
/// its edges is an edge of some monitor.
pub proof fn law_bbox_covers(ms: Seq<MonitorRect>)
    requires
        ms.len() > 0,
    ensures
        bounding_box(ms) is Some,
        ({
            let (l, t, r, b) = bounding_box(ms).unwrap();
            &&& forall|i: int|
                0 <= i < ms.len() ==> l <= (#[trigger] ms[i]).x && t <= ms[i].y && ms[i].x
                    + ms[i].width <= r && ms[i].y + ms[i].height <= b
            &&& exists|i: int| 0 <= i < ms.len() && (#[trigger] ms[i]).x == l
            &&& exists|i: int| 0 <= i < ms.len() && (#[trigger] ms[i]).y == t
            &&& exists|i: int| 0 <= i < ms.len() && (#[trigger] ms[i]).x + ms[i].width == r
            &&& exists|i: int| 0 <= i < ms.len() && (#[trigger] ms[i]).y + ms[i].height == b
        }),
    decreases ms.len(),
{
    let n = ms.len() as int;
    let m = ms[n - 1];
    if ms.len() > 1 {
        let rest = ms.drop_last();
        law_bbox_covers(rest);
        let (l0, t0, r0, b0) = bounding_box(rest).unwrap();
        assert forall|i: int| 0 <= i < n - 1 implies rest[i] == ms[i] by {}
        let (l, t, r, b) = bounding_box(ms).unwrap();
        if l0 <= m.x {
            let i = choose|i: int| 0 <= i < rest.len() && (#[trigger] rest[i]).x == l0;
            assert(ms[i].x == l);
        } else {
            assert(ms[n - 1].x == l);
        }
        if t0 <= m.y {
            let i = choose|i: int| 0 <= i < rest.len() && (#[trigger] rest[i]).y == t0;
            assert(ms[i].y == t);
        } else {
            assert(ms[n - 1].y == t);
        }
        if r0 >= m.x + m.width {
            let i = choose|i: int| 0 <= i < rest.len() && (#[trigger] rest[i]).x + rest[i].width == r0;
            assert(ms[i].x + ms[i].width == r);
        } else {
            assert(ms[n - 1].x + ms[n - 1].width == r);
        }
        if b0 >= m.y + m.height {
            let i = choose|i: int| 0 <= i < rest.len() && (#[trigger] rest[i]).y + rest[i].height == b0;
            assert(ms[i].y + ms[i].height == b);
        } else {
            assert(ms[n - 1].y + ms[n - 1].height == b);
        }
        assert forall|i: int| 0 <= i < ms.len() implies l <= (#[trigger] ms[i]).x && t <= ms[i].y
            && ms[i].x + ms[i].width <= r && ms[i].y + ms[i].height <= b by {
            if i < n - 1 {
                assert(rest[i] == ms[i]);
            }
        }
    } else {
        assert(ms.drop_last().len() == 0);
        assert(bounding_box(ms.drop_last()) is None);
        assert(ms[0] == m);
        let (l, t, r, b) = bounding_box(ms).unwrap();
        assert(l == m.x && t == m.y && r == m.x + m.width && b == m.y + m.height);
        assert(ms[0].x == l);
        assert(ms[0].y == t);
        assert(ms[0].x + ms[0].width == r);
        assert(ms[0].y + ms[0].height == b);
    }
}

} // verus!
