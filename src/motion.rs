use vstd::prelude::*;
use vstd::arithmetic::div_mod::{lemma_div_is_ordered, lemma_div_multiples_vanish, lemma_fundamental_div_mod};
use crate::agent::{Meeple, DirectedMover, population_wf};
use crate::config::SimConfig;
use crate::geometry::{
    Point, WORLD_LIMIT, in_world_range, clamp_world, dist2, ceil_root,
    squared_distance, ceil_sqrt, clamp_to_world,
};
use crate::random::random_below;

verus! {

/// How far an agent may travel in `dt`.
pub open spec fn reach(m: Meeple, dt: u64) -> int {
    m.mover.speed * dt
}

/// One coordinate moved from `p` toward `t` by the fraction `reach / len` of the
/// gap, rounded toward `p`.
pub open spec fn toward(p: int, t: int, reach: int, len: int) -> int {
    if p <= t {
        p + (t - p) * reach / len
    } else {
        p - (p - t) * reach / len
    }
}

/// `v` lies between `a` and `b`, ends included.
pub open spec fn between(a: int, v: int, b: int) -> bool {
    (a <= v <= b) || (b <= v <= a)
}

/// One unit from `pos` toward `target` along the axis with the larger gap.
pub open spec fn unit_step(pos: Point, target: Point) -> Point {
    let gx = if pos.x <= target.x { target.x - pos.x } else { pos.x - target.x };
    let gy = if pos.y <= target.y { target.y - pos.y } else { pos.y - target.y };
    if gx >= gy {
        Point { x: (if pos.x < target.x { pos.x + 1 } else { pos.x - 1 }) as i64, y: pos.y }
    } else {
        Point { x: pos.x, y: (if pos.y < target.y { pos.y + 1 } else { pos.y - 1 }) as i64 }
    }
}

/// A point moved by `reach` along the straight line toward `target`, each
/// coordinate rounded toward the start. Where both roundings leave the point
/// where it was and `reach` is at least one, it moves one unit along the axis
/// with the larger gap instead, so that an agent never stalls.
pub open spec fn advanced(pos: Point, target: Point, reach: int) -> Point {
    let len = ceil_root(dist2(pos, target));
    let x = toward(pos.x as int, target.x as int, reach, len);
    let y = toward(pos.y as int, target.y as int, reach, len);
    if x == pos.x && y == pos.y && reach >= 1 {
        unit_step(pos, target)
    } else {
        Point { x: x as i64, y: y as i64 }
    }
}

/// A fresh target: `pos` plus an offset of `r - step / 2` on each axis, kept in the world.
pub open spec fn wander_target(pos: Point, step: u64, rx: u64, ry: u64) -> Point {
    Point {
        x: clamp_world(pos.x + rx - step / 2) as i64,
        y: clamp_world(pos.y + ry - step / 2) as i64,
    }
}

/// One tick of motion, given the two draws used if the agent re-targets.
pub open spec fn moved(m: Meeple, dt: u64, step: u64, rx: u64, ry: u64) -> Meeple {
    let r = reach(m, dt);
    if m.position == m.target() {
        m.heading(wander_target(m.position, step, rx, ry))
    } else if dist2(m.position, m.target()) <= r * r {
        m.at(m.target())
    } else {
        m.at(advanced(m.position, m.target(), r))
    }
}

/// What one tick of motion may make of `m`: the outcome for some pair of draws.
pub open spec fn moved_somehow(m: Meeple, n: Meeple, dt: u64, step: u64) -> bool {
    exists|rx: u64, ry: u64| rx < step && ry < step && n == #[trigger] moved(m, dt, step, rx, ry)
}

/// The position stays on the segment's bounding box and moves at most `reach`.
pub open spec fn motion_bounded(m: Meeple, n: Meeple, dt: u64) -> bool {
    &&& dist2(m.position, n.position) <= reach(m, dt) * reach(m, dt)
    &&& between(m.position.x as int, n.position.x as int, m.target().x as int)
    &&& between(m.position.y as int, n.position.y as int, m.target().y as int)
    &&& (dist2(m.position, m.target()) <= reach(m, dt) * reach(m, dt) ==> n.position
        == m.target())
    &&& (m.position != m.target() && reach(m, dt) >= 1 ==> dist2(n.position, m.target()) < dist2(
        m.position,
        m.target(),
    ))
}

/// A point between `p` and `t` is no farther from `t`, and strictly nearer when
/// it is not `p`.
proof fn lemma_closer(p: int, n: int, t: int)
    requires
        between(p, n, t),
    ensures
        (t - n) * (t - n) <= (t - p) * (t - p),
        n != p ==> (t - n) * (t - n) < (t - p) * (t - p),
{
    assert((t - n) * (t - n) <= (t - p) * (t - p)) by (nonlinear_arith)
        requires
            (p <= n <= t) || (t <= n <= p),
    ;
    if n != p {
        assert((t - n) * (t - n) < (t - p) * (t - p)) by (nonlinear_arith)
            requires
                (p < n <= t) || (t <= n < p),
        ;
    }
}

/// Moving to a point of the box between `p` and `t` other than `p` brings it
/// strictly nearer to `t`.
proof fn lemma_progress(p: Point, n: Point, t: Point)
    requires
        between(p.x as int, n.x as int, t.x as int),
        between(p.y as int, n.y as int, t.y as int),
        n != p,
    ensures
        dist2(n, t) < dist2(p, t),
{
    lemma_closer(p.x as int, n.x as int, t.x as int);
    lemma_closer(p.y as int, n.y as int, t.y as int);
    assert(dist2(n, t) == (t.x - n.x) * (t.x - n.x) + (t.y - n.y) * (t.y - n.y));
    assert(dist2(p, t) == (t.x - p.x) * (t.x - p.x) + (t.y - p.y) * (t.y - p.y));
}

proof fn lemma_scaled_le(d: int, reach: int, len: int)
    requires
        0 <= d,
        0 <= reach < len,
    ensures
        0 <= d * reach / len <= d,
        (d * reach / len) * len <= d * reach,
{
    assert(0 <= d * reach <= d * len) by (nonlinear_arith)
        requires
            0 <= d,
            0 <= reach < len,
    ;
    lemma_div_is_ordered(0, d * reach, len);
    lemma_div_is_ordered(d * reach, d * len, len);
    assert(d * len == len * d) by (nonlinear_arith);
    lemma_div_multiples_vanish(d, len);
    lemma_fundamental_div_mod(d * reach, len);
    assert((d * reach) % len >= 0) by (nonlinear_arith)
        requires
            len > 0,
    ;
    assert((d * reach / len) * len == len * (d * reach / len)) by (nonlinear_arith);
}

/// Components scaled down by `reach / len`, where `len` bounds the vector's
/// length, give a vector no longer than `reach`.
proof fn lemma_scaled_displacement(dx: int, dy: int, reach: int, len: int, mx: int, my: int)
    requires
        0 <= dx,
        0 <= dy,
        0 <= mx,
        0 <= my,
        0 <= reach,
        0 < len,
        mx * len <= dx * reach,
        my * len <= dy * reach,
        dx * dx + dy * dy <= len * len,
    ensures
        mx * mx + my * my <= reach * reach,
{
    assert((mx * len) * (mx * len) <= (dx * reach) * (dx * reach)) by (nonlinear_arith)
        requires
            0 <= mx * len <= dx * reach,
    ;
    assert((my * len) * (my * len) <= (dy * reach) * (dy * reach)) by (nonlinear_arith)
        requires
            0 <= my * len <= dy * reach,
    ;
    assert((mx * mx) * (len * len) == (mx * len) * (mx * len)) by (nonlinear_arith);
    assert((my * my) * (len * len) == (my * len) * (my * len)) by (nonlinear_arith);
    assert((dx * dx) * (reach * reach) == (dx * reach) * (dx * reach)) by (nonlinear_arith);
    assert((dy * dy) * (reach * reach) == (dy * reach) * (dy * reach)) by (nonlinear_arith);
    assert((mx * mx + my * my) * (len * len) == (mx * mx) * (len * len) + (my * my) * (len
        * len)) by (nonlinear_arith);
    assert((dx * dx + dy * dy) * (reach * reach) == (dx * dx) * (reach * reach) + (dy * dy) * (
    reach * reach)) by (nonlinear_arith);
    assert((dx * dx + dy * dy) * (reach * reach) <= (len * len) * (reach * reach))
        by (nonlinear_arith)
        requires
            dx * dx + dy * dy <= len * len,
            0 <= reach,
    ;
    assert(mx * mx + my * my <= reach * reach) by (nonlinear_arith)
        requires
            (mx * mx + my * my) * (len * len) <= (len * len) * (reach * reach),
            0 < len,
    ;
}

proof fn lemma_square_of_gap(a: int, b: int, d: int)
    requires
        d == b - a || d == a - b,
    ensures
        (b - a) * (b - a) == d * d,
{
    assert((b - a) * (b - a) == d * d) by (nonlinear_arith)
        requires
            d == b - a || d == a - b,
    ;
}

/// One coordinate moved toward its target by `reach / len` of the gap.
fn step_component(p: i64, t: i64, reach: u128, len: u64) -> (r: i64)
    requires
        in_world_range(p as int),
        in_world_range(t as int),
        reach < len,
    ensures
        r == toward(p as int, t as int, reach as int, len as int),
        between(p as int, r as int, t as int),
{
    let d: u128 = if p <= t {
        (t - p) as u128
    } else {
        (p - t) as u128
    };
    proof {
        lemma_scaled_le(d as int, reach as int, len as int);
        assert(d * reach <= d * len) by (nonlinear_arith)
            requires
                reach < len,
        ;
        assert(d * (len as u128) <= 2147483648u128 * 18446744073709551616u128) by (nonlinear_arith)
            requires
                d <= 2147483648u128,
                len < 18446744073709551616u128,
        ;
    }
    let m: u128 = d * reach / (len as u128);
    if p <= t {
        p + m as i64
    } else {
        p - m as i64
    }
}

/// The agent's position moved by `reach` toward its target, when the target is
/// farther than `reach`.
fn advance(m: Meeple, reach: u128) -> (r: Point)
    requires
        m.wf(),
        reach * reach < dist2(m.position, m.target()),
    ensures
        r == advanced(m.position, m.target(), reach as int),
        dist2(m.position, r) <= reach * reach,
        between(m.position.x as int, r.x as int, m.target().x as int),
        between(m.position.y as int, r.y as int, m.target().y as int),
        reach >= 1 ==> dist2(r, m.target()) < dist2(m.position, m.target()),
{
    let pos = m.position;
    let target = m.mover.target_location;
    let d2 = squared_distance(pos, target);
    let len = ceil_sqrt(d2);
    proof {
        if len <= reach {
            assert((len as int) * (len as int) <= (reach as int) * (reach as int))
                by (nonlinear_arith)
                requires
                    0 <= len <= reach,
            ;
        }
    }
    let x = step_component(pos.x, target.x, reach, len);
    let y = step_component(pos.y, target.y, reach, len);
    proof {
        let dx: int = if pos.x <= target.x { target.x - pos.x } else { pos.x - target.x };
        let dy: int = if pos.y <= target.y { target.y - pos.y } else { pos.y - target.y };
        lemma_scaled_le(dx, reach as int, len as int);
        lemma_scaled_le(dy, reach as int, len as int);
        let mx: int = if pos.x <= target.x { x - pos.x } else { pos.x - x };
        let my: int = if pos.y <= target.y { y - pos.y } else { pos.y - y };
        lemma_square_of_gap(pos.x as int, target.x as int, dx);
        lemma_square_of_gap(pos.y as int, target.y as int, dy);
        lemma_square_of_gap(pos.x as int, x as int, mx);
        lemma_square_of_gap(pos.y as int, y as int, my);
        lemma_scaled_displacement(dx, dy, reach as int, len as int, mx, my);
        if reach >= 1 && (x != pos.x || y != pos.y) {
            lemma_progress(pos, Point { x, y }, target);
        }
    }
    if x == pos.x && y == pos.y && reach >= 1 {
        let gx: i64 = if pos.x <= target.x { target.x - pos.x } else { pos.x - target.x };
        let gy: i64 = if pos.y <= target.y { target.y - pos.y } else { pos.y - target.y };
        let r = if gx >= gy {
            Point { x: if pos.x < target.x { pos.x + 1 } else { pos.x - 1 }, y: pos.y }
        } else {
            Point { x: pos.x, y: if pos.y < target.y { pos.y + 1 } else { pos.y - 1 } }
        };
        proof {
            assert(pos != target);
            let ex: int = r.x - pos.x;
            let ey: int = r.y - pos.y;
            assert(ex * ex + ey * ey == 1) by (nonlinear_arith)
                requires
                    (ex == 0 && (ey == 1 || ey == -1)) || (ey == 0 && (ex == 1 || ex == -1)),
            ;
            assert(dist2(pos, r) == 1);
            assert(reach * reach >= 1) by (nonlinear_arith)
                requires
                    reach >= 1,
            ;
            lemma_progress(pos, r, target);
        }
        r
    } else {
        Point { x, y }
    }
}

proof fn lemma_reach_square(r: int)
    requires
        0 <= r < 4294967296,
    ensures
        r * r < 4294967296 * 4294967296,
{
    assert(r * r < 4294967296 * 4294967296) by (nonlinear_arith)
        requires
            0 <= r < 4294967296,
    ;
}

/// One coordinate of a fresh target: `p + r - step / 2`, kept in the world.
fn wander_component(p: i64, step: u64, r: u64) -> (v: i64)
    requires
        in_world_range(p as int),
        0 < step <= WORLD_LIMIT,
        r < step,
    ensures
        v == clamp_world(p + r - step / 2),
{
    clamp_to_world(p + r as i64 - (step / 2) as i64)
}

/// One tick of motion for one agent: re-target where it stands on its target,
/// snap onto the target where it is within reach, else travel `speed * dt`
/// toward it. `rx` and `ry` are the draws of a re-target.
pub fn move_meeple(m: Meeple, dt: u64, step: u64, rx: u64, ry: u64) -> (r: Meeple)
    requires
        m.wf(),
        0 < step <= WORLD_LIMIT,
        rx < step,
        ry < step,
    ensures
        r == moved(m, dt, step, rx, ry),
        r.wf(),
        motion_bounded(m, r, dt),
{
    proof {
        assert((m.mover.speed as int) * (dt as int) <= u64::MAX * u64::MAX) by (nonlinear_arith)
            requires
                m.mover.speed <= u64::MAX,
                dt <= u64::MAX,
        ;
    }
    let reach: u128 = (m.mover.speed as u128) * (dt as u128);
    let pos = m.position;
    let target = m.mover.target_location;
    proof {
        let rr = self::reach(m, dt);
        assert(rr * rr >= 0) by (nonlinear_arith);
        assert(dist2(pos, pos) == 0);
    }
    if pos == target {
        let t = Point::new(wander_component(pos.x, step, rx), wander_component(pos.y, step, ry));
        return Meeple {
            position: pos,
            status: m.status,
            mover: DirectedMover { speed: m.mover.speed, target_location: t },
        };
    }
    let d2 = squared_distance(pos, target);
    let within: bool = if reach >= 4294967296 {
        proof {
            assert(reach * reach >= 4294967296u128 * 4294967296u128) by (nonlinear_arith)
                requires
                    reach >= 4294967296u128,
            ;
        }
        true
    } else {
        proof {
            lemma_reach_square(reach as int);
        }
        (d2 as u128) <= reach * reach
    };
    if within {
        proof {
            lemma_progress(pos, target, target);
        }
        Meeple { position: target, status: m.status, mover: m.mover }
    } else {
        let p = advance(m, reach);
        Meeple { position: p, status: m.status, mover: m.mover }
    }
}

/// One tick of the motion controller over the whole population.
pub fn move_meeples(agents: &mut Vec<Meeple>, cfg: &SimConfig, dt: u64)
    requires
        cfg.valid(),
        population_wf(old(agents)@),
    ensures
        final(agents)@.len() == old(agents)@.len(),
        population_wf(final(agents)@),
        forall|i: int|
            0 <= i < final(agents)@.len() ==> moved_somehow(
                #[trigger] old(agents)@[i],
                final(agents)@[i],
                dt,
                cfg.step_size,
            ),
        forall|i: int|
            0 <= i < final(agents)@.len() ==> motion_bounded(
                #[trigger] old(agents)@[i],
                final(agents)@[i],
                dt,
            ),
{
    let step = cfg.step_size;
    let n = agents.len();
    let mut i: usize = 0;
    while i < n
        invariant
            n == agents@.len() == old(agents)@.len(),
            0 <= i <= n,
            0 < step <= WORLD_LIMIT,
            step == cfg.step_size,
            population_wf(agents@),
            forall|k: int| i <= k < n ==> agents@[k] == old(agents)@[k],
            forall|k: int|
                0 <= k < i ==> moved_somehow(#[trigger] old(agents)@[k], agents@[k], dt, step),
            forall|k: int| 0 <= k < i ==> motion_bounded(#[trigger] old(agents)@[k], agents@[k], dt),
        decreases n - i,
    {
        let m = agents[i];
        let (rx, ry) = if m.position == m.mover.target_location {
            (random_below(step), random_below(step))
        } else {
            (0, 0)
        };
        let r = move_meeple(m, dt, step, rx, ry);
        agents[i] = r;
        assert(moved_somehow(m, r, dt, step));
        i = i + 1;
    }
}

} // verus!
