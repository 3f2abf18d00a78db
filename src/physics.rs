//! The force law and the update of one particle over one tick.
use crate::config::Config;
use crate::fixed::{
    abs, clamp, div_toward_zero, div_trunc, floor_sqrt, floor_sqrt_between,
    lemma_div_trunc_bound, lemma_div_trunc_shrinks, lemma_leg_within_floor_sqrt, saturate,
    MAX_IMPULSE, POS_LIMIT, SCALE, VEL_LIMIT,
};
use crate::particle::{particle_in_range, Particle};
use crate::rules::{rule_at, rule_ok, RuleEntry};
use vstd::prelude::*;

verus! {

/// The force that `o` exerts on `p` under `rule`: `strength * (dx, dy) / distance`
/// with `(dx, dy)` pointing from `o` to `p` and the distance rounded down,
/// when `0 < distance < rule.radius`, and nothing otherwise.
pub open spec fn contribution(p: Particle, o: Particle, rule: RuleEntry) -> (int, int) {
    let dx = p.x - o.x;
    let dy = p.y - o.y;
    let d2 = dx * dx + dy * dy;
    if 0 < d2 && 0 < rule.radius && d2 < rule.radius * rule.radius {
        let d = floor_sqrt(d2 as nat) as int;
        (div_trunc(rule.strength * dx, d), div_trunc(rule.strength * dy, d))
    } else {
        (0, 0)
    }
}

/// The sum of the forces that the particles of `src` exert on `p` under `rule`.
pub open spec fn net_force(p: Particle, src: Seq<Particle>, rule: RuleEntry) -> (int, int)
    decreases src.len(),
{
    if src.len() == 0 {
        (0, 0)
    } else {
        let rest = net_force(p, src.drop_last(), rule);
        let c = contribution(p, src.last(), rule);
        (rest.0 + c.0, rest.1 + c.1)
    }
}

/// The sum of the forces that the first `k` groups exert on `p`, a particle of
/// the group at `target`, each under its own rule.
pub open spec fn forces_from_groups(
    p: Particle,
    gs: Seq<Seq<Particle>>,
    target: int,
    table: Seq<RuleEntry>,
    k: int,
) -> (int, int)
    decreases k,
{
    if k <= 0 {
        (0, 0)
    } else {
        let rest = forces_from_groups(p, gs, target, table, k - 1);
        let f = net_force(p, gs[k - 1], rule_at(table, k - 1, target));
        (rest.0 + f.0, rest.1 + f.1)
    }
}

/// The net force on `p`, of the group at `target`, from every group.
pub open spec fn total_force(p: Particle, gs: Seq<Seq<Particle>>, target: int, table: Seq<RuleEntry>) -> (int, int) {
    forces_from_groups(p, gs, target, table, gs.len() as int)
}

/// The velocity impulse at a coordinate: toward the box when outside it.
pub open spec fn boundary_kick(pos: int, extent: int, impulse: int) -> int {
    if pos < 0 {
        impulse
    } else if pos > extent {
        -impulse
    } else {
        0
    }
}

/// One velocity component after a tick: impulse first, then the damped force,
/// then the viscosity loss, saturated at `VEL_LIMIT`.
pub open spec fn next_velocity(v: int, kick: int, force: int, viscosity: int, damper: int) -> int {
    clamp(
        div_trunc((v + kick + div_trunc(force * damper, SCALE as int)) * (SCALE - viscosity), SCALE as int),
        VEL_LIMIT as int,
    )
}

/// `p` after one tick under the net force `(fx, fy)`: new velocity, then the
/// position moved by it, saturated at `POS_LIMIT`.
pub open spec fn stepped(p: Particle, fx: int, fy: int, c: Config) -> Particle {
    let vx = next_velocity(p.vx as int, boundary_kick(p.x as int, c.width as int, c.impulse as int), fx, c.viscosity as int, c.damper as int);
    let vy = next_velocity(p.vy as int, boundary_kick(p.y as int, c.height as int, c.impulse as int), fy, c.viscosity as int, c.damper as int);
    Particle {
        x: clamp(p.x + vx, POS_LIMIT as int) as i64,
        y: clamp(p.y + vy, POS_LIMIT as int) as i64,
        vx: vx as i64,
        vy: vy as i64,
        radius: p.radius,
        kind: p.kind,
    }
}

/// The settings that `step_particle` reads are in range.
pub open spec fn motion_ok(c: Config) -> bool {
    &&& 0 <= c.width <= POS_LIMIT
    &&& 0 <= c.height <= POS_LIMIT
    &&& 0 <= c.impulse <= MAX_IMPULSE
    &&& 0 <= c.viscosity < SCALE
    &&& 0 <= c.damper <= SCALE
}

/// A force component small enough for `step_particle`.
pub open spec fn force_fits(f: int) -> bool {
    abs(f) <= 0x1_0000_0000_0000_0000_0000_0000
}

/// No single contribution is larger than the rule's strength.
pub proof fn lemma_contribution_bound(p: Particle, o: Particle, rule: RuleEntry)
    ensures
        abs(contribution(p, o, rule).0) <= abs(rule.strength as int),
        abs(contribution(p, o, rule).1) <= abs(rule.strength as int),
{
    let dx = p.x - o.x;
    let dy = p.y - o.y;
    let d2 = dx * dx + dy * dy;
    if 0 < d2 && 0 < rule.radius && d2 < rule.radius * rule.radius {
        lemma_leg_within_floor_sqrt(dx, dy);
        let d = floor_sqrt(d2 as nat) as int;
        let s = rule.strength as int;
        if d == 0 {
            assert(dx == 0 && dy == 0);
            assert(d2 == 0);
        }
        assert(abs(s * dx) <= abs(s) * d) by (nonlinear_arith)
            requires
                abs(dx) <= d,
        ;
        assert(abs(s * dy) <= abs(s) * d) by (nonlinear_arith)
            requires
                abs(dy) <= d,
        ;
        lemma_div_trunc_bound(s * dx, d, abs(s));
        lemma_div_trunc_bound(s * dy, d, abs(s));
    }
}

/// The particles of `src` together exert at most `len * |strength|`.
pub proof fn lemma_net_force_bound(p: Particle, src: Seq<Particle>, rule: RuleEntry)
    ensures
        abs(net_force(p, src, rule).0) <= src.len() * abs(rule.strength as int),
        abs(net_force(p, src, rule).1) <= src.len() * abs(rule.strength as int),
    decreases src.len(),
{
    if src.len() > 0 {
        lemma_net_force_bound(p, src.drop_last(), rule);
        lemma_contribution_bound(p, src.last(), rule);
        assert(src.len() * abs(rule.strength as int) == (src.len() - 1) * abs(rule.strength as int)
            + abs(rule.strength as int)) by (nonlinear_arith);
    }
}

/// The force that `o` exerts on `p` under `rule`.
pub fn compute_contribution(p: &Particle, o: &Particle, rule: RuleEntry) -> (r: (i128, i128))
    requires
        particle_in_range(*p),
        particle_in_range(*o),
        rule_ok(rule),
    ensures
        r.0 == contribution(*p, *o, rule).0,
        r.1 == contribution(*p, *o, rule).1,
{
    let dx: i128 = p.x as i128 - o.x as i128;
    let dy: i128 = p.y as i128 - o.y as i128;
    assert(dx * dx <= 0x10_0000_0000_0000_0000_0000) by (nonlinear_arith)
        requires
            -2_000_000_000_000 <= dx <= 2_000_000_000_000,
    ;
    assert(dy * dy <= 0x10_0000_0000_0000_0000_0000) by (nonlinear_arith)
        requires
            -2_000_000_000_000 <= dy <= 2_000_000_000_000,
    ;
    assert(dx * dx >= 0 && dy * dy >= 0) by (nonlinear_arith);
    let d2: i128 = dx * dx + dy * dy;
    let radius: i128 = rule.radius as i128;
    assert(radius * radius <= 1_000_000_000_000_000_000_000_000) by (nonlinear_arith)
        requires
            0 <= radius <= 1_000_000_000_000,
    ;
    if 0 < d2 && 0 < radius && d2 < radius * radius {
        let ax: i128 = if dx < 0 { -dx } else { dx };
        let ay: i128 = if dy < 0 { -dy } else { dy };
        let lo: i128 = if ax < ay { ay } else { ax };
        assert(ax * ax == dx * dx) by (nonlinear_arith)
            requires
                ax == dx || ax == -dx,
        ;
        assert(ay * ay == dy * dy) by (nonlinear_arith)
            requires
                ay == dy || ay == -dy,
        ;
        assert(lo * lo <= d2) by (nonlinear_arith)
            requires
                lo == ax || lo == ay,
                ax * ax == dx * dx,
                ay * ay == dy * dy,
                d2 == dx * dx + dy * dy,
                dx * dx >= 0,
                dy * dy >= 0,
        ;
        assert(lo < radius) by (nonlinear_arith)
            requires
                lo * lo <= d2,
                d2 < radius * radius,
                lo >= 0,
                radius > 0,
        ;
        let d: i128 = floor_sqrt_between(d2 as u128, lo as u128, radius as u128) as i128;
        proof {
            assert(d2 as u128 as nat == d2 as nat);
            assert(d as int == floor_sqrt(d2 as nat) as int);
            crate::fixed::lemma_floor_sqrt(d2 as nat);
            if lo == 0 {
                assert(dx == 0 && dy == 0);
                assert(dx * dx == 0 && dy * dy == 0) by (nonlinear_arith)
                    requires
                        dx == 0,
                        dy == 0,
                ;
            }
            lemma_contribution_bound(*p, *o, rule);
        }
        let s: i128 = rule.strength as i128;
        assert(abs(s * dx) <= 1_000_000_000 * 2_000_000_000_000) by (nonlinear_arith)
            requires
                abs(s as int) <= 1_000_000_000,
                abs(dx as int) <= 2_000_000_000_000,
        ;
        assert(abs(s * dy) <= 1_000_000_000 * 2_000_000_000_000) by (nonlinear_arith)
            requires
                abs(s as int) <= 1_000_000_000,
                abs(dy as int) <= 2_000_000_000_000,
        ;
        let fx = div_toward_zero(s * dx, d);
        let fy = div_toward_zero(s * dy, d);
        (fx, fy)
    } else {
        (0, 0)
    }
}

/// The sum of the forces that the particles of `src` exert on `p` under `rule`.
pub fn compute_net_force(p: &Particle, src: &Vec<Particle>, rule: RuleEntry) -> (r: (i128, i128))
    requires
        particle_in_range(*p),
        forall|i: int| 0 <= i < src@.len() ==> #[trigger] particle_in_range(src@[i]),
        rule_ok(rule),
    ensures
        r.0 == net_force(*p, src@, rule).0,
        r.1 == net_force(*p, src@, rule).1,
{
    let mut fx: i128 = 0;
    let mut fy: i128 = 0;
    let mut i: usize = 0;
    while i < src.len()
        invariant
            i <= src@.len(),
            particle_in_range(*p),
            forall|i: int| 0 <= i < src@.len() ==> #[trigger] particle_in_range(src@[i]),
            rule_ok(rule),
            fx == net_force(*p, src@.take(i as int), rule).0,
            fy == net_force(*p, src@.take(i as int), rule).1,
        decreases src@.len() - i,
    {
        let c = compute_contribution(p, &src[i], rule);
        proof {
            let t = src@.take(i as int + 1);
            assert(t.drop_last() =~= src@.take(i as int));
            assert(t.last() == src@[i as int]);
            lemma_net_force_bound(*p, src@.take(i as int), rule);
            lemma_contribution_bound(*p, src@[i as int], rule);
            assert(i * abs(rule.strength as int) <= 0x1_0000_0000_0000_0000 * 1_000_000_000) by (nonlinear_arith)
                requires
                    i <= 0x1_0000_0000_0000_0000,
                    abs(rule.strength as int) <= 1_000_000_000,
            ;
        }
        fx = fx + c.0;
        fy = fy + c.1;
        i = i + 1;
    }
    assert(src@.take(src@.len() as int) =~= src@);
    (fx, fy)
}

/// One velocity component after a tick.
fn compute_velocity(v: i64, kick: i64, force: i128, viscosity: i64, damper: i64) -> (r: i64)
    requires
        -VEL_LIMIT <= v <= VEL_LIMIT,
        -MAX_IMPULSE <= kick <= MAX_IMPULSE,
        force_fits(force as int),
        0 <= viscosity < SCALE,
        0 <= damper <= SCALE,
    ensures
        r == next_velocity(v as int, kick as int, force as int, viscosity as int, damper as int),
{
    assert(abs(force * damper) <= 0x1_0000_0000_0000_0000_0000_0000 * 1000) by (nonlinear_arith)
        requires
            force_fits(force as int),
            0 <= damper <= 1000,
    ;
    let pushed: i128 = div_toward_zero(force * damper as i128, SCALE as i128);
    proof {
        lemma_div_trunc_shrinks(force * damper, SCALE as int);
    }
    let w: i128 = v as i128 + kick as i128 + pushed;
    assert(abs(w * (SCALE - viscosity)) <= 0x2_0000_0000_0000_0000_0000_0000_0000 * 1000) by (nonlinear_arith)
        requires
            abs(w as int) <= 0x2_0000_0000_0000_0000_0000_0000_0000,
            0 < SCALE - viscosity <= 1000,
    ;
    let damped: i128 = div_toward_zero(w * (SCALE - viscosity) as i128, SCALE as i128);
    saturate(damped, VEL_LIMIT)
}

/// `p` after one tick under the net force `(fx, fy)`.
pub fn step_particle(p: &Particle, fx: i128, fy: i128, c: &Config) -> (r: Particle)
    requires
        particle_in_range(*p),
        motion_ok(*c),
        force_fits(fx as int),
        force_fits(fy as int),
    ensures
        r == stepped(*p, fx as int, fy as int, *c),
        particle_in_range(r),
{
    let kx: i64 = if p.x < 0 { c.impulse } else if p.x > c.width { -c.impulse } else { 0 };
    let ky: i64 = if p.y < 0 { c.impulse } else if p.y > c.height { -c.impulse } else { 0 };
    let vx = compute_velocity(p.vx, kx, fx, c.viscosity, c.damper);
    let vy = compute_velocity(p.vy, ky, fy, c.viscosity, c.damper);
    let x = saturate(p.x as i128 + vx as i128, POS_LIMIT);
    let y = saturate(p.y as i128 + vy as i128, POS_LIMIT);
    Particle { x, y, vx, vy, radius: p.radius, kind: p.kind }
}

/// A stepped particle stays within the representable world and keeps its
/// type and size.
pub proof fn lemma_stepped_in_range(p: Particle, fx: int, fy: int, c: Config)
    ensures
        particle_in_range(stepped(p, fx, fy, c)),
        stepped(p, fx, fy, c).kind == p.kind,
        stepped(p, fx, fy, c).radius == p.radius,
{
}

} // verus!
