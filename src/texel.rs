use vstd::prelude::*;

verus! {

/// Texel byte meaning "no curve here".
pub const BEZIER_INDEX_UNUSED: u8 = 0;

/// Texel byte that marks an empty cell as inside; the shader reads it as unused.
pub const BEZIER_INDEX_SORT_META: u8 = 1;

/// Curve `i` is stored in a texel as `i + BEZIER_INDEX_FIRST_REAL`.
pub const BEZIER_INDEX_FIRST_REAL: u8 = 2;

/// Largest curve index that still fits in a texel byte.
pub const MAX_CURVE_INDEX: usize = 253;

/// The curve indices of a cell as stored: strictly ascending, each one encodable.
pub open spec fn is_cell_list(cell: Seq<usize>) -> bool {
    &&& forall|a: int, b: int| 0 <= a < b < cell.len() ==> cell[a] < cell[b]
    &&& forall|a: int| 0 <= a < cell.len() ==> cell[a] <= MAX_CURVE_INDEX
}

/// Byte `j` of a texel after the sorted write, before the inside flag is folded in.
pub open spec fn sorted_byte(cell: Seq<usize>, j: int) -> u8 {
    if 0 <= j < cell.len() {
        (cell[j] + BEZIER_INDEX_FIRST_REAL) as u8
    } else {
        BEZIER_INDEX_UNUSED
    }
}

/// Byte `j` of the texel that encodes a cell holding the curves `cell`, whose center
/// is inside the glyph exactly when `inside`.
///
/// The inside flag lives in the order of the first two bytes:
/// it is set exactly when byte 0 is greater than byte 1.
pub open spec fn texel_byte(cell: Seq<usize>, inside: bool, j: int) -> u8 {
    if inside {
        if cell.len() == 0 {
            if j == 0 {
                BEZIER_INDEX_SORT_META
            } else {
                BEZIER_INDEX_UNUSED
            }
        } else if cell.len() >= 2 && j == 0 {
            sorted_byte(cell, 1)
        } else if cell.len() >= 2 && j == 1 {
            sorted_byte(cell, 0)
        } else {
            sorted_byte(cell, j)
        }
    } else if cell.len() == 1 {
        if j == 1 {
            sorted_byte(cell, 0)
        } else {
            BEZIER_INDEX_UNUSED
        }
    } else {
        sorted_byte(cell, j)
    }
}

/// What a shader reads back from the first two bytes of a texel.
pub open spec fn decoded_inside(b0: u8, b1: u8) -> bool {
    b0 > b1
}

/// The inside flag of every encodable cell is recovered from its texel by comparing
/// the first two bytes, whatever the number of curves in the cell; and a cell with one
/// curve `i` encodes as `[0, i + 2, 0, ..]` outside and `[i + 2, 0, ..]` inside.
pub proof fn lemma_texel_round_trip(cell: Seq<usize>, inside: bool, depth: int)
    requires
        is_cell_list(cell),
        2 <= depth,
        cell.len() <= depth,
    ensures
        decoded_inside(texel_byte(cell, inside, 0), texel_byte(cell, inside, 1)) == inside,
        cell.len() == 1 && !inside ==> texel_byte(cell, inside, 0) == 0 && texel_byte(
            cell,
            inside,
            1,
        ) == cell[0] + 2,
        cell.len() == 1 && inside ==> texel_byte(cell, inside, 0) == cell[0] + 2
            && texel_byte(cell, inside, 1) == 0,
        cell.len() == 1 ==> forall|j: int| 2 <= j < depth ==> texel_byte(cell, inside, j) == 0,
{
}

/// Whether some byte of the texel, among its first `depth`, stores curve `i`.
pub open spec fn texel_has_curve(cell: Seq<usize>, inside: bool, depth: int, i: int) -> bool {
    exists|j: int|
        0 <= j < depth && #[trigger] texel_byte(cell, inside, j) == i + BEZIER_INDEX_FIRST_REAL
}

/// The bytes of a texel that are `BEZIER_INDEX_FIRST_REAL` or more, less that offset,
/// are exactly the curve indices of the cell, whatever its inside flag.
pub proof fn lemma_texel_curves(cell: Seq<usize>, inside: bool, depth: int)
    requires
        is_cell_list(cell),
        2 <= depth,
        cell.len() <= depth,
    ensures
        forall|i: int|
            0 <= i <= MAX_CURVE_INDEX ==> (#[trigger] texel_has_curve(cell, inside, depth, i)
                <==> cell.contains(i as usize)),
{
    assert forall|i: int| 0 <= i <= MAX_CURVE_INDEX implies (#[trigger] texel_has_curve(
        cell,
        inside,
        depth,
        i,
    ) <==> cell.contains(i as usize)) by {
        if cell.contains(i as usize) {
            let k = choose|k: int| 0 <= k < cell.len() && cell[k] == i as usize;
            let j = if cell.len() == 1 {
                if inside {
                    0
                } else {
                    1
                }
            } else if inside && k == 0 {
                1
            } else if inside && k == 1 {
                0
            } else {
                k
            };
            assert(texel_byte(cell, inside, j) == i + BEZIER_INDEX_FIRST_REAL);
        }
        if texel_has_curve(cell, inside, depth, i) {
            let j = choose|j: int|
                0 <= j < depth && #[trigger] texel_byte(cell, inside, j) == i
                    + BEZIER_INDEX_FIRST_REAL;
            let k = if cell.len() == 1 {
                0
            } else if inside && cell.len() >= 2 && j == 0 {
                1
            } else if inside && cell.len() >= 2 && j == 1 {
                0
            } else {
                j
            };
            assert(0 <= k < cell.len() && cell[k] == i as usize);
        }
    }
}

/// Two strictly ascending lists that hold the same indices are the same list.
pub proof fn lemma_ascending_lists_equal(a: Seq<usize>, b: Seq<usize>)
    requires
        forall|i: int, j: int| 0 <= i < j < a.len() ==> a[i] < a[j],
        forall|i: int, j: int| 0 <= i < j < b.len() ==> b[i] < b[j],
        forall|x: usize| a.contains(x) <==> b.contains(x),
    ensures
        a == b,
    decreases a.len() + b.len(),
{
    if a.len() == 0 || b.len() == 0 {
        if a.len() > 0 {
            assert(a.contains(a[0]));
        }
        if b.len() > 0 {
            assert(b.contains(b[0]));
        }
        assert(a =~= b);
    } else {
        assert(a.contains(a[0]));
        assert(b.contains(b[0]));
        let ka = choose|k: int| 0 <= k < b.len() && b[k] == a[0];
        let kb = choose|k: int| 0 <= k < a.len() && a[k] == b[0];
        assert(a[0] == b[0]) by {
            if ka > 0 {
                assert(b[0] < b[ka]);
            }
            if kb > 0 {
                assert(a[0] < a[kb]);
            }
        }
        let ra = a.subrange(1, a.len() as int);
        let rb = b.subrange(1, b.len() as int);
        assert forall|x: usize| ra.contains(x) <==> rb.contains(x) by {
            if ra.contains(x) {
                let k = choose|k: int| 0 <= k < ra.len() && ra[k] == x;
                assert(a[k + 1] == x && a[0] < a[k + 1]);
                assert(a.contains(x));
                let m = choose|m: int| 0 <= m < b.len() && b[m] == x;
                assert(m != 0);
                assert(rb[m - 1] == x);
            }
            if rb.contains(x) {
                let k = choose|k: int| 0 <= k < rb.len() && rb[k] == x;
                assert(b[k + 1] == x && b[0] < b[k + 1]);
                assert(b.contains(x));
                let m = choose|m: int| 0 <= m < a.len() && a[m] == x;
                assert(m != 0);
                assert(ra[m - 1] == x);
            }
        }
        lemma_ascending_lists_equal(ra, rb);
        assert(a =~= b) by {
            assert forall|i: int| 0 <= i < a.len() implies a[i] == b[i] by {
                if i > 0 {
                    assert(a[i] == ra[i - 1]);
                    assert(b[i] == rb[i - 1]);
                }
            }
        }
    }
}

/// The texel of a cell depends on the set of its curves alone, not on the order in which
/// they were found: two cell lists that hold the same curves encode to the same bytes.
pub proof fn lemma_texel_is_canonical(a: Seq<usize>, b: Seq<usize>, inside: bool)
    requires
        is_cell_list(a),
        is_cell_list(b),
        forall|x: usize| a.contains(x) <==> b.contains(x),
    ensures
        forall|j: int| texel_byte(a, inside, j) == #[trigger] texel_byte(b, inside, j),
{
    lemma_ascending_lists_equal(a, b);
}

/// Writes the texel of one grid cell into `data[offset..offset + depth]`: the cell's
/// curve indices in ascending order, offset by `BEZIER_INDEX_FIRST_REAL`, then the
/// inside flag folded into the order of the first two bytes. Nothing else changes.
pub fn write_vgrid_cell_to_buffer(
    cell_beziers: &Vec<Vec<usize>>,
    cell_mids: &Vec<bool>,
    cell_idx: usize,
    data: &mut Vec<u8>,
    offset: usize,
    depth: usize,
)
    requires
        cell_idx < cell_beziers.len(),
        cell_idx < cell_mids.len(),
        is_cell_list(cell_beziers@[cell_idx as int]@),
        2 <= depth,
        cell_beziers@[cell_idx as int]@.len() <= depth,
        offset + depth <= old(data)@.len(),
    ensures
        final(data)@.len() == old(data)@.len(),
        forall|p: int|
            0 <= p < final(data)@.len() ==> final(data)@[p] == if offset <= p < offset + depth {
                texel_byte(cell_beziers@[cell_idx as int]@, cell_mids@[cell_idx as int], p - offset)
            } else {
                old(data)@[p]
            },
{
    let cell = &cell_beziers[cell_idx];
    let inside = cell_mids[cell_idx];
    let n = cell.len();
    let ghost c = cell@;
    let len = data.len();

    let mut j: usize = 0;
    while j < depth
        invariant
            0 <= j <= depth,
            offset + depth <= len,
            len == data@.len(),
            data@.len() == old(data)@.len(),
            c == cell_beziers@[cell_idx as int]@,
            c == cell@,
            n == c.len(),
            is_cell_list(c),
            n <= depth,
            forall|p: int|
                0 <= p < data@.len() ==> data@[p] == if offset <= p < offset + j {
                    sorted_byte(c, p - offset)
                } else {
                    old(data)@[p]
                },
        decreases depth - j,
    {
        let b: u8 = if j < n {
            assert(c[j as int] <= MAX_CURVE_INDEX);
            cell[j] as u8 + BEZIER_INDEX_FIRST_REAL
        } else {
            BEZIER_INDEX_UNUSED
        };
        data.set(offset + j, b);
        j = j + 1;
    }

    if inside {
        if n == 0 {
            data.set(offset, BEZIER_INDEX_SORT_META);
        } else if n != 1 {
            let tmp = data[offset];
            let second = data[offset + 1];
            data.set(offset, second);
            data.set(offset + 1, tmp);
        }
    } else if n == 1 {
        let only = data[offset];
        data.set(offset + 1, only);
        data.set(offset, BEZIER_INDEX_UNUSED);
    }
}

} // verus!
