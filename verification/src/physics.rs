//! Batch drivers of the integration pass.  The caller supplies the numeric
//! step for a single entity; the drivers own the index range, the liveness
//! test, the gene lookups and the guarantee that every live entity of the
//! range is advanced once, from its own state alone, while dead entities and
//! everything outside the range are untouched.

use crate::movement::{gene_offset, GENES_PER_ENTITY, GENE_METABOLISM, GENE_SPEED};
use vstd::prelude::*;

verus! {

/// Four values that travel together through one lane step.
pub type Quad<T> = (T, T, T, T);

/// The end of the range that a batch over `len` entities really covers.
pub open spec fn batch_end(end_idx: int, len: int) -> int {
    if end_idx < len {
        end_idx
    } else {
        len
    }
}

/// Entity `i` belongs to the batch `start_idx .. end_idx` over `len`
/// entities.
pub open spec fn in_batch(start_idx: int, end_idx: int, len: int, i: int) -> bool {
    start_idx <= i < batch_end(end_idx, len)
}

/// Entity `i` is advanced by a batch: it belongs to the batch and is flagged
/// alive.
pub open spec fn is_advanced(
    alive: Seq<u8>,
    start_idx: int,
    end_idx: int,
    len: int,
    i: int,
) -> bool {
    in_batch(start_idx, end_idx, len, i) && alive[i] != 0
}

/// Advances every live entity of the range `start_idx .. end_idx` by one
/// step and skips the dead ones.  `step` receives an entity's position,
/// velocity, speed gene and metabolism gene and answers its new position and
/// velocity.  A range that reaches beyond the columns is cut off at their
/// end.
pub fn integrate_batch<T: Copy, F: FnMut(T, T, T, T, T, T) -> (T, T, T, T)>(
    pos_x: &mut [T],
    pos_y: &mut [T],
    vel_x: &mut [T],
    vel_y: &mut [T],
    alive: &[u8],
    genes: &[T],
    start_idx: usize,
    end_idx: usize,
    step: F,
)
    requires
        old(pos_y)@.len() == old(pos_x)@.len(),
        old(vel_x)@.len() == old(pos_x)@.len(),
        old(vel_y)@.len() == old(pos_x)@.len(),
        alive@.len() == old(pos_x)@.len(),
        start_idx < batch_end(end_idx as int, old(pos_x)@.len() as int) ==> genes@.len()
            >= GENES_PER_ENTITY * batch_end(end_idx as int, old(pos_x)@.len() as int),
        forall|px: T, py: T, vx: T, vy: T, speed: T, metabolism: T|
            call_requires(step, (px, py, vx, vy, speed, metabolism)),
    ensures
        final(pos_x)@.len() == old(pos_x)@.len(),
        final(pos_y)@.len() == old(pos_x)@.len(),
        final(vel_x)@.len() == old(pos_x)@.len(),
        final(vel_y)@.len() == old(pos_x)@.len(),
        forall|i: int|
            0 <= i < old(pos_x)@.len() && !is_advanced(
                alive@,
                start_idx as int,
                end_idx as int,
                old(pos_x)@.len() as int,
                i,
            ) ==> {
                &&& #[trigger] final(pos_x)@[i] == old(pos_x)@[i]
                &&& final(pos_y)@[i] == old(pos_y)@[i]
                &&& final(vel_x)@[i] == old(vel_x)@[i]
                &&& final(vel_y)@[i] == old(vel_y)@[i]
            },
        forall|i: int|
            is_advanced(alive@, start_idx as int, end_idx as int, old(pos_x)@.len() as int, i)
                ==> call_ensures(
                step,
                (
                    old(pos_x)@[i],
                    old(pos_y)@[i],
                    old(vel_x)@[i],
                    old(vel_y)@[i],
                    genes@[gene_offset(i, GENE_SPEED as int)],
                    genes@[gene_offset(i, GENE_METABOLISM as int)],
                ),
                (
                    #[trigger] final(pos_x)@[i],
                    final(pos_y)@[i],
                    final(vel_x)@[i],
                    final(vel_y)@[i],
                ),
            ),
{
    let len: usize = pos_x.len();
    let end: usize = if end_idx < len { end_idx } else { len };
    let gene_len: usize = genes.len();
    let mut advance = step;
    let mut i: usize = start_idx;
    while i < end
        invariant
            start_idx <= i,
            i <= end || i == start_idx,
            end == batch_end(end_idx as int, len as int),
            len == old(pos_x)@.len(),
            len == old(pos_y)@.len(),
            len == old(vel_x)@.len(),
            len == old(vel_y)@.len(),
            len == alive@.len(),
            gene_len == genes@.len(),
            pos_x@.len() == len,
            pos_y@.len() == len,
            vel_x@.len() == len,
            vel_y@.len() == len,
            start_idx < end ==> genes@.len() >= GENES_PER_ENTITY * end,
            advance == step,
            forall|px: T, py: T, vx: T, vy: T, speed: T, metabolism: T|
                call_requires(step, (px, py, vx, vy, speed, metabolism)),
            forall|e: int|
                0 <= e < len && !(start_idx <= e < i && alive@[e] != 0) ==> #[trigger] pos_x@[e]
                    == old(pos_x)@[e],
            forall|e: int|
                0 <= e < len && !(start_idx <= e < i && alive@[e] != 0) ==> #[trigger] pos_y@[e]
                    == old(pos_y)@[e],
            forall|e: int|
                0 <= e < len && !(start_idx <= e < i && alive@[e] != 0) ==> #[trigger] vel_x@[e]
                    == old(vel_x)@[e],
            forall|e: int|
                0 <= e < len && !(start_idx <= e < i && alive@[e] != 0) ==> #[trigger] vel_y@[e]
                    == old(vel_y)@[e],
            forall|e: int|
                start_idx <= e < i && alive@[e] != 0 ==> call_ensures(
                    step,
                    (
                        old(pos_x)@[e],
                        old(pos_y)@[e],
                        old(vel_x)@[e],
                        old(vel_y)@[e],
                        genes@[gene_offset(e, GENE_SPEED as int)],
                        genes@[gene_offset(e, GENE_METABOLISM as int)],
                    ),
                    (#[trigger] pos_x@[e], pos_y@[e], vel_x@[e], vel_y@[e]),
                ),
        decreases end - i,
    {
        if alive[i] != 0 {
            let speed: T = genes[i * GENES_PER_ENTITY + GENE_SPEED];
            let metabolism: T = genes[i * GENES_PER_ENTITY + GENE_METABOLISM];
            let (px, py, vx, vy) = advance(
                pos_x[i],
                pos_y[i],
                vel_x[i],
                vel_y[i],
                speed,
                metabolism,
            );
            pos_x[i] = px;
            pos_y[i] = py;
            vel_x[i] = vx;
            vel_y[i] = vy;
        }
        i += 1;
    }
}

/// The four values of lane group `c` of a column.
pub open spec fn quad_at<T>(column: Seq<T>, c: int) -> Quad<T> {
    (column[4 * c], column[4 * c + 1], column[4 * c + 2], column[4 * c + 3])
}

/// All four entities of lane group `c` are flagged alive.
pub open spec fn group_alive(alive: Seq<u8>, c: int) -> bool {
    alive[4 * c] != 0 && alive[4 * c + 1] != 0 && alive[4 * c + 2] != 0 && alive[4 * c + 3] != 0
}

/// Entity `i` of a batch of `len` goes through the lanes: it sits in a full
/// group of four whose entities are all alive.
pub open spec fn in_live_group(alive: Seq<u8>, len: int, i: int) -> bool {
    i / 4 < len / 4 && group_alive(alive, i / 4)
}

/// Advances the position of every live entity of a batch, four at a time
/// where it can.  A full group of four live entities goes through `lanes`,
/// which receives the positions and velocities of the group and answers the
/// new positions.  Every other live entity, in a group with a dead member or
/// left over at the end, goes through `single`.  Dead entities are skipped,
/// and velocities are only read.
pub fn integrate_batch_simd<
    T: Copy,
    L: FnMut(Quad<T>, Quad<T>, Quad<T>, Quad<T>) -> (Quad<T>, Quad<T>),
    S: FnMut(T, T, T, T) -> (T, T),
>(
    pos_x: &mut [T],
    pos_y: &mut [T],
    vel_x: &[T],
    vel_y: &[T],
    alive: &[u8],
    lanes: L,
    single: S,
)
    requires
        old(pos_y)@.len() == old(pos_x)@.len(),
        vel_x@.len() == old(pos_x)@.len(),
        vel_y@.len() == old(pos_x)@.len(),
        alive@.len() == old(pos_x)@.len(),
        forall|px: Quad<T>, py: Quad<T>, vx: Quad<T>, vy: Quad<T>|
            call_requires(lanes, (px, py, vx, vy)),
        forall|px: T, py: T, vx: T, vy: T| call_requires(single, (px, py, vx, vy)),
    ensures
        final(pos_x)@.len() == old(pos_x)@.len(),
        final(pos_y)@.len() == old(pos_x)@.len(),
        forall|i: int|
            0 <= i < old(pos_x)@.len() && alive@[i] == 0 ==> {
                &&& #[trigger] final(pos_x)@[i] == old(pos_x)@[i]
                &&& final(pos_y)@[i] == old(pos_y)@[i]
            },
        forall|c: int|
            0 <= c < old(pos_x)@.len() / 4 && group_alive(alive@, c) ==> call_ensures(
                lanes,
                (
                    quad_at(old(pos_x)@, c),
                    quad_at(old(pos_y)@, c),
                    quad_at(vel_x@, c),
                    quad_at(vel_y@, c),
                ),
                (#[trigger] quad_at(final(pos_x)@, c), quad_at(final(pos_y)@, c)),
            ),
        forall|i: int|
            0 <= i < old(pos_x)@.len() && alive@[i] != 0 && !in_live_group(
                alive@,
                old(pos_x)@.len() as int,
                i,
            ) ==> call_ensures(
                single,
                (old(pos_x)@[i], old(pos_y)@[i], vel_x@[i], vel_y@[i]),
                (#[trigger] final(pos_x)@[i], final(pos_y)@[i]),
            ),
{
    let len: usize = pos_x.len();
    let groups: usize = len / 4;
    let mut lane_step = lanes;
    let mut single_step = single;
    let mut c: usize = 0;
    while c < groups
        invariant
            c <= groups,
            groups == len / 4,
            len == old(pos_x)@.len(),
            len == old(pos_y)@.len(),
            len == alive@.len(),
            pos_x@.len() == len,
            pos_y@.len() == len,
            vel_x@.len() == len,
            vel_y@.len() == len,
            lane_step == lanes,
            single_step == single,
            forall|px: Quad<T>, py: Quad<T>, vx: Quad<T>, vy: Quad<T>|
                call_requires(lanes, (px, py, vx, vy)),
            forall|px: T, py: T, vx: T, vy: T| call_requires(single, (px, py, vx, vy)),
            forall|e: int| 4 * c <= e < len ==> #[trigger] pos_x@[e] == old(pos_x)@[e],
            forall|e: int| 4 * c <= e < len ==> #[trigger] pos_y@[e] == old(pos_y)@[e],
            forall|e: int|
                0 <= e < 4 * c && alive@[e] == 0 ==> #[trigger] pos_x@[e] == old(pos_x)@[e],
            forall|e: int|
                0 <= e < 4 * c && alive@[e] == 0 ==> #[trigger] pos_y@[e] == old(pos_y)@[e],
            forall|g: int|
                0 <= g < c && group_alive(alive@, g) ==> call_ensures(
                    lanes,
                    (
                        quad_at(old(pos_x)@, g),
                        quad_at(old(pos_y)@, g),
                        quad_at(vel_x@, g),
                        quad_at(vel_y@, g),
                    ),
                    (#[trigger] quad_at(pos_x@, g), quad_at(pos_y@, g)),
                ),
            forall|e: int|
                0 <= e < 4 * c && alive@[e] != 0 && !group_alive(alive@, e / 4) ==> call_ensures(
                    single,
                    (old(pos_x)@[e], old(pos_y)@[e], vel_x@[e], vel_y@[e]),
                    (#[trigger] pos_x@[e], pos_y@[e]),
                ),
        decreases groups - c,
    {
        let idx: usize = c * 4;
        let ghost before_x = pos_x@;
        let ghost before_y = pos_y@;
        if alive[idx] != 0 && alive[idx + 1] != 0 && alive[idx + 2] != 0 && alive[idx + 3] != 0 {
            let px: Quad<T> = (pos_x[idx], pos_x[idx + 1], pos_x[idx + 2], pos_x[idx + 3]);
            let py: Quad<T> = (pos_y[idx], pos_y[idx + 1], pos_y[idx + 2], pos_y[idx + 3]);
            let vx: Quad<T> = (vel_x[idx], vel_x[idx + 1], vel_x[idx + 2], vel_x[idx + 3]);
            let vy: Quad<T> = (vel_y[idx], vel_y[idx + 1], vel_y[idx + 2], vel_y[idx + 3]);
            let (nx, ny) = lane_step(px, py, vx, vy);
            pos_x[idx] = nx.0;
            pos_x[idx + 1] = nx.1;
            pos_x[idx + 2] = nx.2;
            pos_x[idx + 3] = nx.3;
            pos_y[idx] = ny.0;
            pos_y[idx + 1] = ny.1;
            pos_y[idx + 2] = ny.2;
            pos_y[idx + 3] = ny.3;
            proof {
                assert(quad_at(pos_x@, c as int) == nx);
                assert(quad_at(pos_y@, c as int) == ny);
            }
        } else {
            let mut j: usize = 0;
            while j < 4
                invariant
                    j <= 4,
                    idx == c * 4,
                    c < groups,
                    groups == len / 4,
                    len == old(pos_x)@.len(),
                    len == old(pos_y)@.len(),
                    len == alive@.len(),
                    before_x.len() == len,
                    before_y.len() == len,
                    pos_x@.len() == len,
                    pos_y@.len() == len,
                    vel_x@.len() == len,
                    vel_y@.len() == len,
                    single_step == single,
                    forall|px: T, py: T, vx: T, vy: T| call_requires(single, (px, py, vx, vy)),
                    forall|e: int| idx + j <= e < len ==> #[trigger] pos_x@[e] == old(pos_x)@[e],
                    forall|e: int| idx + j <= e < len ==> #[trigger] pos_y@[e] == old(pos_y)@[e],
                    forall|e: int| 0 <= e < idx ==> #[trigger] pos_x@[e] == before_x[e],
                    forall|e: int| 0 <= e < idx ==> #[trigger] pos_y@[e] == before_y[e],
                    forall|e: int|
                        idx <= e < idx + j && alive@[e] == 0 ==> #[trigger] pos_x@[e] == old(
                            pos_x,
                        )@[e],
                    forall|e: int|
                        idx <= e < idx + j && alive@[e] == 0 ==> #[trigger] pos_y@[e] == old(
                            pos_y,
                        )@[e],
                    forall|e: int|
                        idx <= e < idx + j && alive@[e] != 0 ==> call_ensures(
                            single,
                            (old(pos_x)@[e], old(pos_y)@[e], vel_x@[e], vel_y@[e]),
                            (#[trigger] pos_x@[e], pos_y@[e]),
                        ),
                decreases 4 - j,
            {
                let e: usize = idx + j;
                if alive[e] != 0 {
                    let (nx, ny) = single_step(pos_x[e], pos_y[e], vel_x[e], vel_y[e]);
                    pos_x[e] = nx;
                    pos_y[e] = ny;
                }
                j += 1;
            }
        }
        proof {
            assert forall|g: int| 0 <= g < c + 1 && group_alive(alive@, g) implies call_ensures(
                lanes,
                (
                    quad_at(old(pos_x)@, g),
                    quad_at(old(pos_y)@, g),
                    quad_at(vel_x@, g),
                    quad_at(vel_y@, g),
                ),
                (#[trigger] quad_at(pos_x@, g), quad_at(pos_y@, g)),
            ) by {
                if g < c {
                    assert(quad_at(pos_x@, g) == quad_at(before_x, g));
                    assert(quad_at(pos_y@, g) == quad_at(before_y, g));
                }
            }
            assert forall|e: int|
                0 <= e < 4 * (c + 1) && alive@[e] != 0 && !group_alive(
                    alive@,
                    e / 4,
                ) implies call_ensures(
                single,
                (old(pos_x)@[e], old(pos_y)@[e], vel_x@[e], vel_y@[e]),
                (#[trigger] pos_x@[e], pos_y@[e]),
            ) by {
                if e < 4 * c {
                    assert(pos_x@[e] == before_x[e]);
                    assert(pos_y@[e] == before_y[e]);
                } else {
                    assert(e / 4 == c);
                }
            }
        }
        c += 1;
    }
    let ghost middle_x = pos_x@;
    let ghost middle_y = pos_y@;
    let mut i: usize = groups * 4;
    while i < len
        invariant
            groups * 4 <= i <= len,
            groups == len / 4,
            len == old(pos_x)@.len(),
            len == old(pos_y)@.len(),
            len == alive@.len(),
            pos_x@.len() == len,
            pos_y@.len() == len,
            vel_x@.len() == len,
            vel_y@.len() == len,
            single_step == single,
            middle_x.len() == len,
            middle_y.len() == len,
            forall|px: T, py: T, vx: T, vy: T| call_requires(single, (px, py, vx, vy)),
            forall|e: int| i <= e < len ==> #[trigger] pos_x@[e] == old(pos_x)@[e],
            forall|e: int| i <= e < len ==> #[trigger] pos_y@[e] == old(pos_y)@[e],
            forall|e: int| 0 <= e < 4 * groups ==> #[trigger] pos_x@[e] == middle_x[e],
            forall|e: int| 0 <= e < 4 * groups ==> #[trigger] pos_y@[e] == middle_y[e],
            forall|e: int|
                4 * groups <= e < i && alive@[e] == 0 ==> #[trigger] pos_x@[e] == old(pos_x)@[e],
            forall|e: int|
                4 * groups <= e < i && alive@[e] == 0 ==> #[trigger] pos_y@[e] == old(pos_y)@[e],
            forall|e: int|
                4 * groups <= e < i && alive@[e] != 0 ==> call_ensures(
                    single,
                    (old(pos_x)@[e], old(pos_y)@[e], vel_x@[e], vel_y@[e]),
                    (#[trigger] pos_x@[e], pos_y@[e]),
                ),
        decreases len - i,
    {
        if alive[i] != 0 {
            let (nx, ny) = single_step(pos_x[i], pos_y[i], vel_x[i], vel_y[i]);
            pos_x[i] = nx;
            pos_y[i] = ny;
        }
        i += 1;
    }
    proof {
        assert forall|g: int| 0 <= g < groups && group_alive(alive@, g) implies call_ensures(
            lanes,
            (
                quad_at(old(pos_x)@, g),
                quad_at(old(pos_y)@, g),
                quad_at(vel_x@, g),
                quad_at(vel_y@, g),
            ),
            (#[trigger] quad_at(pos_x@, g), quad_at(pos_y@, g)),
        ) by {
            assert(quad_at(pos_x@, g) == quad_at(middle_x, g));
            assert(quad_at(pos_y@, g) == quad_at(middle_y, g));
        }
        assert forall|e: int|
            0 <= e < len && alive@[e] != 0 && !in_live_group(alive@, len as int, e) implies call_ensures(
            single,
            (old(pos_x)@[e], old(pos_y)@[e], vel_x@[e], vel_y@[e]),
            (#[trigger] pos_x@[e], pos_y@[e]),
        ) by {
            if e < 4 * groups {
                assert(pos_x@[e] == middle_x[e]);
                assert(pos_y@[e] == middle_y[e]);
                assert(e / 4 < groups);
            }
        }
        assert forall|e: int| 0 <= e < len && alive@[e] == 0 implies #[trigger] pos_x@[e] == old(
            pos_x,
        )@[e] && pos_y@[e] == old(pos_y)@[e] by {
            if e < 4 * groups {
                assert(pos_x@[e] == middle_x[e]);
                assert(pos_y@[e] == middle_y[e]);
            }
        }
    }
}

} // verus!
