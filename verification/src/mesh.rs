use vstd::prelude::*;

verus! {

/// The triangle-fan indices of a convex polygon of `point_count` points:
/// triangle `i` joins point 0 with points `i + 1` and `i + 2`.
pub open spec fn fan_index(i: int) -> int {
    if i % 3 == 0 {
        0
    } else {
        i / 3 + i % 3
    }
}

/// The indices of the triangles that fill a convex polygon of
/// `point_count` points from its first point.
pub fn fan_indices(point_count: usize) -> (indices: Vec<u16>)
    requires
        2 <= point_count <= 0x1_0000,
    ensures
        indices@.len() == (point_count - 2) * 3,
        forall|i: int| 0 <= i < indices@.len() ==> #[trigger] indices@[i] == fan_index(i),
{
    let n = (point_count - 2) * 3;
    let mut indices = vec![0u16; n];
    proof {
        assert forall|k: int| 0 <= k < indices@.len() implies #[trigger] indices@[k] == 0u16 by {
            assert(vstd::pervasive::cloned(0u16, indices@[k]));
        }
    }
    let mut i: usize = 0;
    while i < point_count - 2
        invariant
            0 <= i <= point_count - 2,
            point_count <= 0x1_0000,
            indices@.len() == (point_count - 2) * 3,
            forall|k: int| 0 <= k < 3 * i ==> #[trigger] indices@[k] == fan_index(k),
        decreases point_count - 2 - i,
    {
        let offset = i * 3;
        indices.set(offset, 0);
        indices.set(offset + 1, i as u16 + 1);
        indices.set(offset + 2, i as u16 + 2);
        proof {
            assert forall|k: int| 0 <= k < 3 * (i + 1) implies #[trigger] indices@[k] == fan_index(k) by {
                if k >= 3 * i {
                    assert(k / 3 == i as int && k % 3 == k - 3 * i) by {
                        vstd::arithmetic::div_mod::lemma_fundamental_div_mod_converse(k, 3, i as int, k - 3 * i);
                    }
                }
            }
        }
        i = i + 1;
    }
    indices
}

/// The offsets, within the six indices of a point of an outline, of the
/// vertices of its two triangles.
pub open spec fn outline_offset(k: int) -> int {
    if k == 0 {
        0
    } else if k == 1 {
        1
    } else if k == 2 {
        2
    } else if k == 3 {
        2
    } else if k == 4 {
        1
    } else {
        3
    }
}

/// Index `i` of the outline of `point_count` points: the triangles of point
/// `i / 6` join its inner and outer vertices with those of the next point,
/// wrapping around to the first.
pub open spec fn outline_index(i: int, point_count: int) -> int {
    (2 * (i / 6) + outline_offset(i % 6)) % (2 * point_count)
}

/// The indices of the triangles of the outline of a shape of `point_count`
/// points, whose vertex `2 * i` is point `i` and vertex `2 * i + 1` the same
/// point pushed outwards.
pub fn outline_indices(point_count: usize) -> (indices: Vec<u16>)
    requires
        point_count <= 0x7FFF,
    ensures
        indices@.len() == point_count * 6,
        forall|i: int| 0 <= i < indices@.len() ==> #[trigger] indices@[i] == outline_index(i, point_count as int),
{
    let vertex_count = point_count * 2;
    let index_count = point_count * 6;
    let mut indices = vec![0u16; index_count];
    let vc = vertex_count as u16;
    let mut i: usize = 0;
    while i < point_count
        invariant
            0 <= i <= point_count,
            point_count <= 0x7FFF,
            vc == 2 * point_count,
            indices@.len() == point_count * 6,
            forall|k: int| 0 <= k < 6 * i ==> #[trigger] indices@[k] == outline_index(k, point_count as int),
        decreases point_count - i,
    {
        let base = 2 * i as u16;
        indices.set(6 * i, base % vc);
        indices.set(6 * i + 1, (base + 1) % vc);
        indices.set(6 * i + 2, (base + 2) % vc);
        indices.set(6 * i + 3, (base + 2) % vc);
        indices.set(6 * i + 4, (base + 1) % vc);
        indices.set(6 * i + 5, (base + 3) % vc);
        proof {
            assert forall|k: int| 0 <= k < 6 * (i + 1) implies #[trigger] indices@[k] == outline_index(
                k,
                point_count as int,
            ) by {
                if k >= 6 * i {
                    assert(k / 6 == i as int && k % 6 == k - 6 * i) by {
                        vstd::arithmetic::div_mod::lemma_fundamental_div_mod_converse(k, 6, i as int, k - 6 * i);
                    }
                }
            }
        }
        i = i + 1;
    }
    indices
}

/// Every fan index names one of the polygon's points.
pub proof fn lemma_fan_indices_in_range(point_count: int, i: int)
    requires
        2 <= point_count,
        0 <= i < (point_count - 2) * 3,
    ensures
        0 <= fan_index(i) < point_count,
{
    assert(i / 3 < point_count - 2) by {
        vstd::arithmetic::div_mod::lemma_div_by_multiple_is_strongly_ordered(i, (point_count - 2) * 3, point_count - 2, 3);
    }
}

/// Every outline index names one of the outline's vertices.
pub proof fn lemma_outline_indices_in_range(point_count: int, i: int)
    requires
        1 <= point_count,
        0 <= i < point_count * 6,
    ensures
        0 <= outline_index(i, point_count) < 2 * point_count,
{
}

} // verus!
