use vstd::prelude::*;

use crate::color::{get_precedence, is_background, Rgb};
use crate::raster::Raster;

verus! {

/// The image coordinates of a discovered marker.
#[derive(Clone, Copy, PartialEq, Eq, Structural, Debug)]
pub struct Position {
    pub x: u32,
    pub y: u32,
}

/// A discovered non-background pixel: its color, kept only to compute the
/// sort key, and its position.
#[derive(Clone, Copy, PartialEq, Eq, Structural, Debug)]
pub struct Marker {
    pub color: Rgb,
    pub position: Position,
}

/// The sort key of a marker: the precedence of its color.
pub open spec fn marker_key(m: Marker) -> int {
    m.color.precedence_spec()
}

/// The markers of column `x` whose row index lies below `y`, in scan order.
pub open spec fn column_markers(img: Raster, x: int, y: int) -> Seq<Marker>
    decreases y,
{
    if y <= 0 {
        Seq::empty()
    } else {
        let c = img.pixel(x, y - 1);
        let rest = column_markers(img, x, y - 1);
        if c.is_background_spec() {
            rest
        } else {
            rest.push(Marker { color: c, position: Position { x: x as u32, y: (y - 1) as u32 } })
        }
    }
}

/// The markers of the columns with index below `x`, in column-major scan
/// order: every row of column 0, then every row of column 1, and so on.
pub open spec fn discovered_markers(img: Raster, x: int) -> Seq<Marker>
    decreases x,
{
    if x <= 0 {
        Seq::empty()
    } else {
        discovered_markers(img, x - 1) + column_markers(img, x - 1, img.height as int)
    }
}

/// Every marker of the raster, in column-major discovery order.
pub open spec fn discovered(img: Raster) -> Seq<Marker> {
    discovered_markers(img, img.width as int)
}

/// The number of non-background pixels of column `x` with row index below `y`.
pub open spec fn column_marker_count(img: Raster, x: int, y: int) -> int
    decreases y,
{
    if y <= 0 {
        0
    } else {
        column_marker_count(img, x, y - 1) + if img.pixel(x, y - 1).is_background_spec() {
            0int
        } else {
            1int
        }
    }
}

/// The number of non-background pixels of the columns with index below `x`.
pub open spec fn marker_count_below(img: Raster, x: int) -> int
    decreases x,
{
    if x <= 0 {
        0
    } else {
        marker_count_below(img, x - 1) + column_marker_count(img, x - 1, img.height as int)
    }
}

/// The number of non-background pixels of the raster.
pub open spec fn marker_count(img: Raster) -> int {
    marker_count_below(img, img.width as int)
}

/// Inserts a marker into a sequence sorted by precedence, after every entry
/// whose key is at most the new marker's key, so that entries of equal key
/// keep their discovery order.
pub open spec fn insert_by_key(s: Seq<Marker>, m: Marker) -> Seq<Marker>
    decreases s.len(),
{
    if s.len() == 0 {
        seq![m]
    } else if marker_key(s.last()) <= marker_key(m) {
        s.push(m)
    } else {
        insert_by_key(s.drop_last(), m).push(s.last())
    }
}

/// Stable insertion sort by precedence key.
pub open spec fn sort_by_key(s: Seq<Marker>) -> Seq<Marker>
    decreases s.len(),
{
    if s.len() == 0 {
        s
    } else {
        insert_by_key(sort_by_key(s.drop_last()), s.last())
    }
}

/// Ascending by precedence key.
pub open spec fn sorted_by_precedence(s: Seq<Marker>) -> bool {
    forall|i: int, j: int| 0 <= i < j < s.len() ==> marker_key(s[i]) <= marker_key(s[j])
}

/// What the locator returns: the discovered markers, sorted by precedence,
/// reduced to their positions.
pub open spec fn locate_spec(img: Raster) -> Seq<Position> {
    sort_by_key(discovered(img)).map_values(|m: Marker| m.position)
}

proof fn lemma_insert_by_key_props(s: Seq<Marker>, m: Marker)
    ensures
        insert_by_key(s, m).len() == s.len() + 1,
        forall|i: int|
            0 <= i < insert_by_key(s, m).len() ==> (#[trigger] insert_by_key(s, m)[i] == m
                || s.contains(insert_by_key(s, m)[i])),
        sorted_by_precedence(s) ==> sorted_by_precedence(insert_by_key(s, m)),
    decreases s.len(),
{
    if s.len() == 0 {
    } else if marker_key(s.last()) <= marker_key(m) {
        let r = s.push(m);
        assert forall|i: int| 0 <= i < r.len() implies (#[trigger] r[i] == m || s.contains(r[i])) by {
            if i < s.len() {
                assert(r[i] == s[i]);
            }
        }
        if sorted_by_precedence(s) {
            assert forall|i: int, j: int| 0 <= i < j < r.len() implies marker_key(r[i])
                <= marker_key(r[j]) by {
                if j < s.len() {
                } else {
                    assert(r[j] == m);
                    if i < s.len() - 1 {
                        assert(marker_key(s[i]) <= marker_key(s.last()));
                    }
                }
            }
        }
    } else {
        let d = s.drop_last();
        lemma_insert_by_key_props(d, m);
        let t = insert_by_key(d, m);
        let r = t.push(s.last());
        assert forall|i: int| 0 <= i < r.len() implies (#[trigger] r[i] == m || s.contains(r[i])) by {
            if i < t.len() {
                assert(r[i] == t[i]);
                if t[i] != m {
                    let j = choose|j: int| 0 <= j < d.len() && d[j] == t[i];
                    assert(s[j] == t[i]);
                }
            } else {
                assert(r[i] == s[s.len() - 1]);
            }
        }
        if sorted_by_precedence(s) {
            assert forall|i: int, j: int| 0 <= i < j < d.len() implies marker_key(d[i])
                <= marker_key(d[j]) by {
                assert(d[i] == s[i] && d[j] == s[j]);
            }
            assert(sorted_by_precedence(d));
            assert forall|i: int, j: int| 0 <= i < j < r.len() implies marker_key(r[i])
                <= marker_key(r[j]) by {
                if j < t.len() {
                } else {
                    assert(r[j] == s.last());
                    assert(r[i] == t[i]);
                    if t[i] == m {
                    } else {
                        let k = choose|k: int| 0 <= k < d.len() && d[k] == t[i];
                        assert(marker_key(s[k]) <= marker_key(s.last()));
                    }
                }
            }
        }
    }
}

proof fn lemma_sort_by_key_props(s: Seq<Marker>)
    ensures
        sort_by_key(s).len() == s.len(),
        sorted_by_precedence(sort_by_key(s)),
    decreases s.len(),
{
    if s.len() == 0 {
    } else {
        lemma_sort_by_key_props(s.drop_last());
        lemma_insert_by_key_props(sort_by_key(s.drop_last()), s.last());
    }
}

/// Inserting at the boundary position found by a backward scan agrees with
/// the recursive insertion spec.
proof fn lemma_insert_by_key_at(s: Seq<Marker>, m: Marker, pos: int)
    requires
        0 <= pos <= s.len(),
        forall|i: int| pos <= i < s.len() ==> marker_key(#[trigger] s[i]) > marker_key(m),
        pos > 0 ==> marker_key(s[pos - 1]) <= marker_key(m),
    ensures
        insert_by_key(s, m) == s.insert(pos, m),
    decreases s.len(),
{
    if s.len() == 0 {
        assert(insert_by_key(s, m) =~= s.insert(0, m));
    } else if marker_key(s.last()) <= marker_key(m) {
        assert(pos == s.len());
        assert(insert_by_key(s, m) =~= s.insert(pos, m));
    } else {
        assert(pos < s.len());
        let d = s.drop_last();
        assert(pos > 0 ==> d[pos - 1] == s[pos - 1]);
        assert forall|i: int| pos <= i < d.len() implies marker_key(#[trigger] d[i])
            > marker_key(m) by {
            assert(d[i] == s[i]);
        }
        lemma_insert_by_key_at(d, m, pos);
        assert(insert_by_key(s, m) =~= s.insert(pos, m));
    }
}

proof fn lemma_column_markers_len(img: Raster, x: int, y: int)
    ensures
        column_markers(img, x, y).len() == column_marker_count(img, x, y),
    decreases y,
{
    if y > 0 {
        lemma_column_markers_len(img, x, y - 1);
    }
}

proof fn lemma_discovered_markers_len(img: Raster, x: int)
    ensures
        discovered_markers(img, x).len() == marker_count_below(img, x),
    decreases x,
{
    if x > 0 {
        lemma_discovered_markers_len(img, x - 1);
        lemma_column_markers_len(img, x - 1, img.height as int);
    }
}

/// Completeness law: the locator returns exactly one position per
/// non-background pixel of the raster.
pub proof fn lemma_locate_complete(img: Raster)
    ensures
        locate_spec(img).len() == marker_count(img),
{
    lemma_discovered_markers_len(img, img.width as int);
    lemma_sort_by_key_props(discovered(img));
}

/// Ordering law: the sorted marker sequence, whose position projection the
/// locator returns, ascends by color precedence.
pub proof fn lemma_locate_ordered(img: Raster)
    ensures
        sorted_by_precedence(sort_by_key(discovered(img))),
        locate_spec(img) == sort_by_key(discovered(img)).map_values(|m: Marker| m.position),
{
    lemma_sort_by_key_props(discovered(img));
}

/// Scans the raster column by column for non-background pixels and returns
/// their positions, ordered by ascending color precedence; pixels of equal
/// color keep their discovery order.
pub fn find_markers(image: &Raster) -> (positions: Vec<Position>)
    requires
        image.wf(),
    ensures
        positions@ == locate_spec(*image),
{
    let (width, height) = image.dimensions();

    let mut markers: Vec<Marker> = Vec::new();
    let mut x: u32 = 0;
    while x < width
        invariant
            image.wf(),
            width == image.width,
            height == image.height,
            x <= width,
            markers@ == discovered_markers(*image, x as int),
        decreases width - x,
    {
        let mut y: u32 = 0;
        assert(markers@ =~= discovered_markers(*image, x as int) + column_markers(
            *image,
            x as int,
            0,
        ));
        while y < height
            invariant
                image.wf(),
                width == image.width,
                height == image.height,
                x < width,
                y <= height,
                markers@ == discovered_markers(*image, x as int) + column_markers(
                    *image,
                    x as int,
                    y as int,
                ),
            decreases height - y,
        {
            let pixel = image.get_pixel(x, y);
            if !is_background(&pixel) {
                markers.push(Marker { color: pixel, position: Position { x, y } });
                assert(markers@ =~= discovered_markers(*image, x as int) + column_markers(
                    *image,
                    x as int,
                    y as int + 1,
                ));
            } else {
                assert(markers@ =~= discovered_markers(*image, x as int) + column_markers(
                    *image,
                    x as int,
                    y as int + 1,
                ));
            }
            y = y + 1;
        }
        x = x + 1;
        assert(markers@ =~= discovered_markers(*image, x as int));
    }
    assert(markers@ == discovered(*image));

    let ghost all = markers@;
    let mut ordered: Vec<Marker> = Vec::new();
    let mut i: usize = 0;
    while i < markers.len()
        invariant
            markers@ == all,
            i <= all.len(),
            ordered@ == sort_by_key(all.subrange(0, i as int)),
        decreases all.len() - i,
    {
        let m = markers[i];
        let mut pos: usize = ordered.len();
        while pos > 0 && get_precedence(&ordered[pos - 1].color) > get_precedence(&m.color)
            invariant
                pos <= ordered@.len(),
                forall|k: int|
                    pos <= k < ordered@.len() ==> marker_key(#[trigger] ordered@[k])
                        > marker_key(m),
            decreases pos,
        {
            pos = pos - 1;
        }
        proof {
            lemma_insert_by_key_at(ordered@, m, pos as int);
            assert(all.subrange(0, i as int + 1).drop_last() =~= all.subrange(0, i as int));
            assert(all.subrange(0, i as int + 1).last() == all[i as int]);
        }
        ordered.insert(pos, m);
        i = i + 1;
    }
    proof {
        assert(all.subrange(0, all.len() as int) =~= all);
    }

    let mut positions: Vec<Position> = Vec::new();
    let mut j: usize = 0;
    while j < ordered.len()
        invariant
            ordered@ == sort_by_key(discovered(*image)),
            j <= ordered@.len(),
            positions@.len() == j,
            forall|k: int| 0 <= k < j ==> positions@[k] == ordered@[k].position,
        decreases ordered@.len() - j,
    {
        let next = ordered[j];
        positions.push(next.position);
        j = j + 1;
    }
    proof {
        assert(positions@ =~= sort_by_key(discovered(*image)).map_values(
            |m: Marker| m.position,
        ));
    }
    positions
}

} // verus!
