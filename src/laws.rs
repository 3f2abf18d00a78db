//! Properties of the simulation, proved over the specification of one tick.
use crate::config::Config;
use crate::engine::{next_group, next_groups, ticks};
use crate::fixed::{abs, div_trunc, lemma_div_trunc_bound, SCALE};
use crate::kinds::NUM_TYPES;
use crate::particle::Particle;
use crate::physics::{
    boundary_kick, contribution, forces_from_groups, lemma_net_force_bound, net_force,
    next_velocity, stepped, total_force,
};
use crate::rules::{rule_at, rule_slot, RuleEntry, NUM_RULES};
use vstd::prelude::*;

verus! {

/// How many particles the first `k` groups hold together.
pub open spec fn population_upto(gs: Seq<Seq<Particle>>, k: int) -> int
    decreases k,
{
    if k <= 0 {
        0
    } else {
        population_upto(gs, k - 1) + gs[k - 1].len()
    }
}

/// How many particles all groups hold together.
pub open spec fn population(gs: Seq<Seq<Particle>>) -> int {
    population_upto(gs, gs.len() as int)
}

/// Every velocity component has magnitude at most `bound`.
pub open spec fn speeds_within(gs: Seq<Seq<Particle>>, bound: int) -> bool {
    forall|t: int, i: int|
        0 <= t < gs.len() && 0 <= i < gs[t].len() ==> abs(#[trigger] gs[t][i].vx as int) <= bound
            && abs(gs[t][i].vy as int) <= bound
}

/// Group updates computed one target group at a time, each from the state at
/// the start of the tick, in whatever order or on however many workers, make up
/// exactly the state after the tick.
pub proof fn lemma_schedule_independent(
    gs: Seq<Seq<Particle>>,
    table: Seq<RuleEntry>,
    c: Config,
    results: Seq<Seq<Particle>>,
)
    requires
        results.len() == gs.len(),
        forall|t: int| 0 <= t < gs.len() ==> #[trigger] results[t] == next_group(gs, t, table, c),
    ensures
        results == next_groups(gs, table, c),
{
    assert(results =~= next_groups(gs, table, c));
}

/// A particle exerts no force on itself, nor on another at the same spot.
pub proof fn lemma_no_self_force(p: Particle, o: Particle, rule: RuleEntry)
    requires
        o.x == p.x,
        o.y == p.y,
    ensures
        contribution(p, o, rule) == (0int, 0int),
{
    assert((p.x - o.x) * (p.x - o.x) + (p.y - o.y) * (p.y - o.y) == 0);
}

proof fn lemma_net_force_without_radius(p: Particle, src: Seq<Particle>, rule: RuleEntry)
    requires
        rule.radius <= 0,
    ensures
        net_force(p, src, rule) == (0int, 0int),
    decreases src.len(),
{
    if src.len() > 0 {
        lemma_net_force_without_radius(p, src.drop_last(), rule);
    }
}

proof fn lemma_forces_without_radius(
    p: Particle,
    gs: Seq<Seq<Particle>>,
    t: int,
    table: Seq<RuleEntry>,
    k: int,
)
    requires
        0 <= t < NUM_TYPES,
        k <= NUM_TYPES,
        table.len() == NUM_RULES,
        forall|i: int| 0 <= i < table.len() ==> (#[trigger] table[i]).radius <= 0,
    ensures
        forces_from_groups(p, gs, t, table, k) == (0int, 0int),
    decreases k,
{
    if k > 0 {
        lemma_forces_without_radius(p, gs, t, table, k - 1);
        assert(0 <= rule_slot(k - 1, t) < NUM_RULES) by (nonlinear_arith)
            requires
                0 <= k - 1 < 4,
                0 <= t < 4,
        ;
        assert(table[rule_slot(k - 1, t)].radius <= 0);
        lemma_net_force_without_radius(p, gs[k - 1], rule_at(table, k - 1, t));
    }
}

/// When no rule has a positive radius, no particle feels any force: a tick
/// moves each particle by its boundary impulse and viscosity alone.
pub proof fn lemma_no_interaction_without_radius(
    gs: Seq<Seq<Particle>>,
    t: int,
    table: Seq<RuleEntry>,
    c: Config,
)
    requires
        gs.len() == NUM_TYPES,
        0 <= t < NUM_TYPES,
        table.len() == NUM_RULES,
        forall|i: int| 0 <= i < table.len() ==> (#[trigger] table[i]).radius <= 0,
    ensures
        forall|p: Particle| #[trigger] total_force(p, gs, t, table) == (0int, 0int),
        next_group(gs, t, table, c) == gs[t].map_values(|p: Particle| stepped(p, 0, 0, c)),
{
    assert forall|p: Particle| #[trigger] total_force(p, gs, t, table) == (0int, 0int) by {
        lemma_forces_without_radius(p, gs, t, table, NUM_TYPES as int);
    }
    assert(next_group(gs, t, table, c) =~= gs[t].map_values(|p: Particle| stepped(p, 0, 0, c)));
}

proof fn lemma_empty_groups_exert_nothing(
    p: Particle,
    gs: Seq<Seq<Particle>>,
    t: int,
    table: Seq<RuleEntry>,
    k: int,
)
    requires
        0 <= t < gs.len(),
        k <= gs.len(),
        gs[t] == seq![p],
        forall|u: int| 0 <= u < gs.len() && u != t ==> (#[trigger] gs[u]).len() == 0,
    ensures
        forces_from_groups(p, gs, t, table, k) == (0int, 0int),
    decreases k,
{
    if k > 0 {
        lemma_empty_groups_exert_nothing(p, gs, t, table, k - 1);
        let rule = rule_at(table, k - 1, t);
        if k - 1 == t {
            let src = gs[t];
            assert(src.drop_last() =~= Seq::<Particle>::empty());
            assert(src.last() == p);
            lemma_no_self_force(p, src.last(), rule);
            assert(net_force(p, src.drop_last(), rule) == (0int, 0int));
            assert(net_force(p, src, rule) == (0int, 0int));
        } else {
            assert(gs[k - 1].len() == 0);
            assert(net_force(p, gs[k - 1], rule) == (0int, 0int));
        }
    }
}

/// A particle alone in the world feels no force at any tick.
pub proof fn lemma_lone_particle_feels_nothing(
    gs: Seq<Seq<Particle>>,
    t: int,
    table: Seq<RuleEntry>,
    c: Config,
    n: nat,
)
    requires
        0 <= t < gs.len(),
        gs[t].len() == 1,
        forall|u: int| 0 <= u < gs.len() && u != t ==> (#[trigger] gs[u]).len() == 0,
    ensures
        ticks(gs, table, c, n)[t].len() == 1,
        total_force(ticks(gs, table, c, n)[t][0], ticks(gs, table, c, n), t, table) == (0int, 0int),
{
    lemma_population_preserved(gs, table, c, n);
    let s = ticks(gs, table, c, n);
    let p = s[t][0];
    assert(s[t] =~= seq![p]);
    assert forall|u: int| 0 <= u < s.len() && u != t implies (#[trigger] s[u]).len() == 0 by {
        assert(gs[u].len() == 0);
    }
    lemma_empty_groups_exert_nothing(p, s, t, table, s.len() as int);
}

/// Ticking never adds or removes a particle.
pub proof fn lemma_population_preserved(gs: Seq<Seq<Particle>>, table: Seq<RuleEntry>, c: Config, n: nat)
    ensures
        ticks(gs, table, c, n).len() == gs.len(),
        forall|t: int| 0 <= t < gs.len() ==> (#[trigger] ticks(gs, table, c, n)[t]).len() == gs[t].len(),
    decreases n,
{
    if n > 0 {
        lemma_population_preserved(gs, table, c, (n - 1) as nat);
    }
}

/// One velocity component stays within `bound` through a tick when the
/// impulse and the force are small enough for the viscosity to absorb them.
pub proof fn lemma_velocity_step_bounded(
    v: int,
    kick: int,
    force: int,
    viscosity: int,
    damper: int,
    impulse: int,
    force_max: int,
    bound: int,
)
    requires
        abs(v) <= bound,
        abs(kick) <= impulse,
        abs(force) <= force_max,
        0 <= damper <= SCALE,
        0 < viscosity < SCALE,
        bound * viscosity >= (impulse + force_max) * (SCALE - viscosity),
    ensures
        abs(next_velocity(v, kick, force, viscosity, damper)) <= bound,
{
    let s = SCALE as int;
    assert(abs(force * damper) <= force_max * s) by (nonlinear_arith)
        requires
            abs(force) <= force_max,
            0 <= damper <= s,
    ;
    lemma_div_trunc_bound(force * damper, s, force_max);
    let w = v + kick + div_trunc(force * damper, s);
    assert(abs(w) <= bound + impulse + force_max);
    assert(abs(w * (s - viscosity)) <= bound * s) by (nonlinear_arith)
        requires
            abs(w) <= bound + impulse + force_max,
            0 < viscosity < s,
            bound * viscosity >= (impulse + force_max) * (s - viscosity),
    ;
    assert(bound >= 0);
    lemma_div_trunc_bound(w * (s - viscosity), s, bound);
}

proof fn lemma_forces_bounded(
    p: Particle,
    gs: Seq<Seq<Particle>>,
    t: int,
    table: Seq<RuleEntry>,
    strength_max: int,
    k: int,
)
    requires
        0 <= t < NUM_TYPES,
        0 <= k <= gs.len(),
        gs.len() == NUM_TYPES,
        table.len() == NUM_RULES,
        forall|i: int| 0 <= i < table.len() ==> abs((#[trigger] table[i]).strength as int) <= strength_max,
    ensures
        abs(forces_from_groups(p, gs, t, table, k).0) <= population_upto(gs, k) * strength_max,
        abs(forces_from_groups(p, gs, t, table, k).1) <= population_upto(gs, k) * strength_max,
    decreases k,
{
    if k > 0 {
        lemma_forces_bounded(p, gs, t, table, strength_max, k - 1);
        assert(0 <= rule_slot(k - 1, t) < NUM_RULES) by (nonlinear_arith)
            requires
                0 <= k - 1 < 4,
                0 <= t < 4,
        ;
        let rule = rule_at(table, k - 1, t);
        assert(abs(rule.strength as int) <= strength_max);
        lemma_net_force_bound(p, gs[k - 1], rule);
        let n = gs[k - 1].len() as int;
        assert(n * abs(rule.strength as int) <= n * strength_max) by (nonlinear_arith)
            requires
                n >= 0,
                abs(rule.strength as int) <= strength_max,
        ;
        assert(population_upto(gs, k) * strength_max == population_upto(gs, k - 1) * strength_max
            + n * strength_max) by (nonlinear_arith)
            requires
                population_upto(gs, k) == population_upto(gs, k - 1) + n,
        ;
    }
}

proof fn lemma_population_upto_same(a: Seq<Seq<Particle>>, b: Seq<Seq<Particle>>, k: int)
    requires
        0 <= k <= a.len(),
        a.len() == b.len(),
        forall|t: int| 0 <= t < a.len() ==> (#[trigger] a[t]).len() == b[t].len(),
    ensures
        population_upto(a, k) == population_upto(b, k),
    decreases k,
{
    if k > 0 {
        lemma_population_upto_same(a, b, k - 1);
        assert(a[k - 1].len() == b[k - 1].len());
    }
}

/// From any state whose velocities are within `bound`, velocities stay within
/// `bound` at every later tick, provided the viscosity can absorb the boundary
/// impulse plus the largest possible net force (the whole population pulling
/// at full strength).
pub proof fn lemma_speeds_stay_bounded(
    gs: Seq<Seq<Particle>>,
    table: Seq<RuleEntry>,
    c: Config,
    strength_max: int,
    bound: int,
    n: nat,
)
    requires
        gs.len() == NUM_TYPES,
        table.len() == NUM_RULES,
        forall|i: int| 0 <= i < table.len() ==> abs((#[trigger] table[i]).strength as int) <= strength_max,
        0 <= c.impulse,
        0 <= c.damper <= SCALE,
        0 < c.viscosity < SCALE,
        bound * c.viscosity >= (c.impulse + population(gs) * strength_max) * (SCALE - c.viscosity),
        speeds_within(gs, bound),
    ensures
        speeds_within(ticks(gs, table, c, n), bound),
    decreases n,
{
    if n > 0 {
        let m = (n - 1) as nat;
        lemma_speeds_stay_bounded(gs, table, c, strength_max, bound, m);
        lemma_population_preserved(gs, table, c, m);
        let s = ticks(gs, table, c, m);
        lemma_population_upto_same(s, gs, NUM_TYPES as int);
        let ns = next_groups(s, table, c);
        assert(ns == ticks(gs, table, c, n));
        assert forall|t: int, i: int| 0 <= t < ns.len() && 0 <= i < ns[t].len() implies abs(
            #[trigger] ns[t][i].vx as int,
        ) <= bound && abs(ns[t][i].vy as int) <= bound by {
            let p = s[t][i];
            let f = total_force(p, s, t, table);
            lemma_forces_bounded(p, s, t, table, strength_max, NUM_TYPES as int);
            let fmax = population(s) * strength_max;
            assert(abs(p.vx as int) <= bound && abs(p.vy as int) <= bound);
            lemma_velocity_step_bounded(
                p.vx as int,
                boundary_kick(p.x as int, c.width as int, c.impulse as int),
                f.0,
                c.viscosity as int,
                c.damper as int,
                c.impulse as int,
                fmax,
                bound,
            );
            lemma_velocity_step_bounded(
                p.vy as int,
                boundary_kick(p.y as int, c.height as int, c.impulse as int),
                f.1,
                c.viscosity as int,
                c.damper as int,
                c.impulse as int,
                fmax,
                bound,
            );
            assert(ns[t][i] == stepped(p, f.0, f.1, c));
        }
    }
}

} // verus!
