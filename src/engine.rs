//! The engine: one group of particles per type, the rule table, and the tick
//! that moves every particle once.
use crate::config::{config_error, config_ok, Config, ConfigError};
use crate::fixed::{abs, POS_LIMIT, VEL_LIMIT};
use crate::kinds::{type_at, ParticleType, NUM_TYPES};
use crate::particle::{fresh_in, particle_in_range, Particle};
use crate::physics::{
    compute_net_force, force_fits, forces_from_groups, lemma_net_force_bound, step_particle,
    stepped, total_force,
};
use crate::rules::{drawn_within, table_ok, RuleEntry, RuleTable};
use vstd::prelude::*;

verus! {

/// The contents of a list of groups.
pub open spec fn nested_view(v: Seq<Vec<Particle>>) -> Seq<Seq<Particle>> {
    v.map_values(|g: Vec<Particle>| g@)
}

/// The group at `t` has the configured size, holds particles of type `t`
/// only, and each of them within the representable world.
pub open spec fn group_fits(c: Config, g: Seq<Particle>, t: int) -> bool {
    &&& g.len() == c.populations@[t]
    &&& forall|i: int|
        0 <= i < g.len() ==> particle_in_range(#[trigger] g[i]) && g[i].kind == type_at(t)
}

/// One fitting group per type.
pub open spec fn groups_fit(c: Config, gs: Seq<Seq<Particle>>) -> bool {
    &&& gs.len() == NUM_TYPES
    &&& forall|t: int| 0 <= t < NUM_TYPES ==> #[trigger] group_fits(c, gs[t], t)
}

/// Every particle is at rest at a position drawn from the box.
pub open spec fn all_fresh(c: Config, gs: Seq<Seq<Particle>>) -> bool {
    forall|t: int, i: int|
        0 <= t < gs.len() && 0 <= i < gs[t].len() ==> #[trigger] fresh_in(
            gs[t][i],
            c.width as int,
            c.height as int,
            c.particle_radius as int,
            type_at(t),
        )
}

/// The group at `t` after one tick: each particle moved under the net force
/// from every group of the start state `gs`.
pub open spec fn next_group(gs: Seq<Seq<Particle>>, t: int, table: Seq<RuleEntry>, c: Config) -> Seq<Particle> {
    gs[t].map_values(
        |p: Particle|
            stepped(p, total_force(p, gs, t, table).0, total_force(p, gs, t, table).1, c),
    )
}

/// All groups after one tick.
pub open spec fn next_groups(gs: Seq<Seq<Particle>>, table: Seq<RuleEntry>, c: Config) -> Seq<Seq<Particle>> {
    Seq::new(gs.len(), |t: int| next_group(gs, t, table, c))
}

/// All groups after `n` ticks.
pub open spec fn ticks(gs: Seq<Seq<Particle>>, table: Seq<RuleEntry>, c: Config, n: nat) -> Seq<Seq<Particle>>
    decreases n,
{
    if n == 0 {
        gs
    } else {
        next_groups(ticks(gs, table, c, (n - 1) as nat), table, c)
    }
}

#[derive(Clone, Copy, Debug, PartialEq, Eq, Structural)]
pub enum EngineError {
    /// The configuration is rejected.
    Config(ConfigError),
    /// The groups do not fit the configuration: not one per type, a size other
    /// than the configured population, a particle of another type, or a
    /// coordinate out of range.
    Groups,
}

/// The net force on `p`, a particle of the group at `target`, from every
/// group.
pub fn compute_total_force(p: &Particle, groups: &Vec<Vec<Particle>>, target: usize, rules: &RuleTable) -> (r: (i128, i128))
    requires
        particle_in_range(*p),
        groups@.len() == NUM_TYPES,
        target < NUM_TYPES,
        forall|g: int, i: int|
            0 <= g < NUM_TYPES && 0 <= i < groups@[g]@.len() ==> #[trigger] particle_in_range(
                groups@[g]@[i],
            ),
    ensures
        r.0 == total_force(*p, nested_view(groups@), target as int, rules.view()).0,
        r.1 == total_force(*p, nested_view(groups@), target as int, rules.view()).1,
        force_fits(r.0 as int),
        force_fits(r.1 as int),
{
    let ghost gs = nested_view(groups@);
    let mut fx: i128 = 0;
    let mut fy: i128 = 0;
    let mut g: usize = 0;
    while g < NUM_TYPES
        invariant
            g <= NUM_TYPES,
            gs == nested_view(groups@),
            groups@.len() == NUM_TYPES,
            target < NUM_TYPES,
            particle_in_range(*p),
            forall|g: int, i: int|
                0 <= g < NUM_TYPES && 0 <= i < groups@[g]@.len() ==> #[trigger] particle_in_range(
                    groups@[g]@[i],
                ),
            fx == forces_from_groups(*p, gs, target as int, rules.view(), g as int).0,
            fy == forces_from_groups(*p, gs, target as int, rules.view(), g as int).1,
            abs(fx as int) <= g * 0x1_0000_0000_0000_0000 * 1_000_000_000,
            abs(fy as int) <= g * 0x1_0000_0000_0000_0000 * 1_000_000_000,
        decreases NUM_TYPES - g,
    {
        let rule = rules.entry(g, target);
        let n: usize = groups[g].len();
        let f = compute_net_force(p, &groups[g], rule);
        proof {
            assert(gs[g as int] == groups@[g as int]@);
            lemma_net_force_bound(*p, groups@[g as int]@, rule);
            assert(n * abs(rule.strength as int) <= 0x1_0000_0000_0000_0000 * 1_000_000_000) by (nonlinear_arith)
                requires
                    n <= 0x1_0000_0000_0000_0000,
                    abs(rule.strength as int) <= 1_000_000_000,
            ;
        }
        fx = fx + f.0;
        fy = fy + f.1;
        g = g + 1;
    }
    (fx, fy)
}

/// Every group after one tick still fits the configuration.
pub proof fn lemma_next_groups_fit(gs: Seq<Seq<Particle>>, table: Seq<RuleEntry>, c: Config)
    requires
        groups_fit(c, gs),
    ensures
        groups_fit(c, next_groups(gs, table, c)),
{
    let ns = next_groups(gs, table, c);
    assert forall|t: int| 0 <= t < NUM_TYPES implies #[trigger] group_fits(c, ns[t], t) by {
        assert(group_fits(c, gs[t], t));
        assert forall|i: int| 0 <= i < ns[t].len() implies #[trigger] particle_in_range(ns[t][i])
            && ns[t][i].kind == type_at(t) by {
            let p = gs[t][i];
            assert(particle_in_range(p));
            crate::physics::lemma_stepped_in_range(
                p,
                total_force(p, gs, t, table).0,
                total_force(p, gs, t, table).1,
                c,
            );
        }
    }
}

/// Whether the groups fit the configuration.
pub fn check_groups(c: &Config, groups: &Vec<Vec<Particle>>) -> (r: bool)
    requires
        config_ok(*c),
    ensures
        r == groups_fit(*c, nested_view(groups@)),
{
    let ghost gs = nested_view(groups@);
    if groups.len() != NUM_TYPES {
        return false;
    }
    let mut t: usize = 0;
    while t < NUM_TYPES
        invariant
            t <= NUM_TYPES,
            gs == nested_view(groups@),
            groups@.len() == NUM_TYPES,
            config_ok(*c),
            forall|u: int| 0 <= u < t ==> #[trigger] group_fits(*c, gs[u], u),
        decreases NUM_TYPES - t,
    {
        let g = &groups[t];
        assert(gs[t as int] == g@);
        if g.len() != c.populations[t] {
            assert(!group_fits(*c, gs[t as int], t as int));
            return false;
        }
        let kind = ParticleType::from_index(t);
        let mut i: usize = 0;
        while i < g.len()
            invariant
                i <= g@.len(),
                t < NUM_TYPES,
                gs == nested_view(groups@),
                groups@.len() == NUM_TYPES,
                g@ == gs[t as int],
                g@.len() == c.populations@[t as int],
                config_ok(*c),
                forall|u: int| 0 <= u < t ==> #[trigger] group_fits(*c, gs[u], u),
                kind == type_at(t as int),
                forall|j: int|
                    0 <= j < i ==> particle_in_range(#[trigger] g@[j]) && g@[j].kind == type_at(
                        t as int,
                    ),
            decreases g@.len() - i,
        {
            let p = g[i];
            if !(-POS_LIMIT <= p.x && p.x <= POS_LIMIT && -POS_LIMIT <= p.y && p.y <= POS_LIMIT
                && -VEL_LIMIT <= p.vx && p.vx <= VEL_LIMIT && -VEL_LIMIT <= p.vy && p.vy
                <= VEL_LIMIT && p.kind == kind) {
                assert(!(particle_in_range(g@[i as int]) && g@[i as int].kind == type_at(t as int)));
                assert(!group_fits(*c, gs[t as int], t as int));
                return false;
            }
            i = i + 1;
        }
        assert(group_fits(*c, gs[t as int], t as int));
        t = t + 1;
    }
    true
}

/// One group per type, each with its configured number of particles at rest at
/// positions drawn from the box.
pub fn new_groups(c: &Config) -> (r: Vec<Vec<Particle>>)
    requires
        config_ok(*c),
    ensures
        groups_fit(*c, nested_view(r@)),
        all_fresh(*c, nested_view(r@)),
{
    let mut groups: Vec<Vec<Particle>> = Vec::new();
    let mut t: usize = 0;
    while t < NUM_TYPES
        invariant
            t <= NUM_TYPES,
            config_ok(*c),
            groups@.len() == t,
            forall|u: int| 0 <= u < t ==> #[trigger] group_fits(*c, groups@[u]@, u),
            forall|u: int, i: int|
                0 <= u < t && 0 <= i < groups@[u]@.len() ==> #[trigger] fresh_in(
                    groups@[u]@[i],
                    c.width as int,
                    c.height as int,
                    c.particle_radius as int,
                    type_at(u),
                ),
        decreases NUM_TYPES - t,
    {
        let kind = ParticleType::from_index(t);
        let count: usize = c.populations[t];
        let mut g: Vec<Particle> = Vec::new();
        let mut i: usize = 0;
        while i < count
            invariant
                i <= count,
                t < NUM_TYPES,
                groups@.len() == t,
                forall|u: int| 0 <= u < t ==> #[trigger] group_fits(*c, groups@[u]@, u),
                forall|u: int, i: int|
                    0 <= u < t && 0 <= i < groups@[u]@.len() ==> #[trigger] fresh_in(
                        groups@[u]@[i],
                        c.width as int,
                        c.height as int,
                        c.particle_radius as int,
                        type_at(u),
                    ),
                count == c.populations@[t as int],
                config_ok(*c),
                kind == type_at(t as int),
                g@.len() == i,
                forall|j: int|
                    0 <= j < i ==> particle_in_range(#[trigger] g@[j]) && fresh_in(
                        g@[j],
                        c.width as int,
                        c.height as int,
                        c.particle_radius as int,
                        kind,
                    ),
            decreases count - i,
        {
            g.push(Particle::new(c.width, c.height, c.particle_radius, kind));
            i = i + 1;
        }
        groups.push(g);
        proof {
            assert(groups@[t as int]@ == g@);
            assert(group_fits(*c, groups@[t as int]@, t as int));
        }
        t = t + 1;
    }
    proof {
        let gs = nested_view(groups@);
        assert forall|u: int| 0 <= u < NUM_TYPES implies #[trigger] group_fits(*c, gs[u], u) by {
            assert(gs[u] == groups@[u]@);
        }
        assert forall|u: int, i: int| 0 <= u < gs.len() && 0 <= i < gs[u].len() implies #[trigger] fresh_in(
            gs[u][i],
            c.width as int,
            c.height as int,
            c.particle_radius as int,
            type_at(u),
        ) by {
            assert(gs[u] == groups@[u]@);
        }
    }
    groups
}

/// The whole simulation state.
pub struct Engine {
    config: Config,
    rules: RuleTable,
    groups: Vec<Vec<Particle>>,
}

impl Engine {
    #[verifier::type_invariant]
    spec fn inv(&self) -> bool {
        &&& config_ok(self.config)
        &&& groups_fit(self.config, nested_view(self.groups@))
    }

    /// The particles, group by group in type order.
    pub closed spec fn view(&self) -> Seq<Seq<Particle>> {
        nested_view(self.groups@)
    }

    pub closed spec fn settings(&self) -> Config {
        self.config
    }

    pub closed spec fn table(&self) -> Seq<RuleEntry> {
        self.rules.view()
    }
}

impl Engine {
    /// The group at `target` as it will be after one tick from the current
    /// state; the state itself is left alone. Groups computed this way, in any
    /// order or at once, are what `tick` installs.
    pub fn update_group(&self, target: usize) -> (r: Vec<Particle>)
        requires
            target < NUM_TYPES,
        ensures
            r@ == next_group(self@, target as int, self.table(), self.settings()),
    {
        proof {
            use_type_invariant(self);
        }
        let ghost gs = self@;
        let src = &self.groups[target];
        let mut out: Vec<Particle> = Vec::new();
        let mut i: usize = 0;
        assert(gs[target as int] == src@);
        assert(group_fits(self.config, gs[target as int], target as int));
        while i < src.len()
            invariant
                i <= src@.len(),
                gs == self@,
                gs[target as int] == src@,
                target < NUM_TYPES,
                config_ok(self.config),
                groups_fit(self.config, gs),
                out@.len() == i,
                forall|j: int|
                    0 <= j < i ==> #[trigger] out@[j] == stepped(
                        src@[j],
                        total_force(src@[j], gs, target as int, self.table()).0,
                        total_force(src@[j], gs, target as int, self.table()).1,
                        self.config,
                    ),
            decreases src@.len() - i,
        {
            let p = src[i];
            proof {
                assert(group_fits(self.config, gs[target as int], target as int));
                assert(particle_in_range(src@[i as int]));
                assert forall|g: int, k: int|
                    0 <= g < NUM_TYPES && 0 <= k < self.groups@[g]@.len() implies #[trigger] particle_in_range(
                        self.groups@[g]@[k],
                    ) by {
                    assert(group_fits(self.config, gs[g], g));
                    assert(gs[g] == self.groups@[g]@);
                }
            }
            let f = compute_total_force(&p, &self.groups, target, &self.rules);
            let q = step_particle(&p, f.0, f.1, &self.config);
            out.push(q);
            i = i + 1;
        }
        assert(out@ =~= next_group(gs, target as int, self.table(), self.settings()));
        out
    }
}

impl Engine {
    /// A fresh run: validates the configuration, then draws the rules from its
    /// bounds and places every particle at rest at a random position in the box.
    pub fn new(config: Config) -> (r: Result<Engine, ConfigError>)
        ensures
            match r {
                Ok(e) => {
                    &&& config_error(config) is None
                    &&& e.settings() == config
                    &&& groups_fit(config, e@)
                    &&& all_fresh(config, e@)
                    &&& table_ok(e.table())
                    &&& drawn_within(
                        e.table(),
                        config.strength_limit as int,
                        config.radius_lower as int,
                        config.radius_upper as int,
                    )
                },
                Err(err) => config_error(config) == Some(err),
            },
    {
        match config.validate() {
            Err(e) => Err(e),
            Ok(_) => {
                match RuleTable::randomise(config.strength_limit, config.radius_lower, config.radius_upper) {
                    Err(e) => Err(ConfigError::Rules(e)),
                    Ok(rules) => {
                        let groups = new_groups(&config);
                        Ok(Engine { config, rules, groups })
                    },
                }
            },
        }
    }

    /// An engine over given rules and particles.
    pub fn with_state(config: Config, rules: RuleTable, groups: Vec<Vec<Particle>>) -> (r: Result<Engine, EngineError>)
        ensures
            match r {
                Ok(e) => {
                    &&& config_error(config) is None
                    &&& groups_fit(config, nested_view(groups@))
                    &&& e.settings() == config
                    &&& e.table() == rules.view()
                    &&& e@ == nested_view(groups@)
                },
                Err(EngineError::Config(err)) => config_error(config) == Some(err),
                Err(EngineError::Groups) => {
                    &&& config_error(config) is None
                    &&& !groups_fit(config, nested_view(groups@))
                },
            },
    {
        match config.validate() {
            Err(e) => Err(EngineError::Config(e)),
            Ok(_) => {
                if check_groups(&config, &groups) {
                    Ok(Engine { config, rules, groups })
                } else {
                    Err(EngineError::Groups)
                }
            },
        }
    }

    /// Advances every particle by one tick. All forces are computed from the
    /// state at the start of the tick; each particle then takes its boundary
    /// impulse, its damped net force, its viscosity loss and its move, once.
    pub fn tick(&mut self)
        ensures
            final(self)@ == next_groups(old(self)@, old(self).table(), old(self).settings()),
            final(self).settings() == old(self).settings(),
            final(self).table() == old(self).table(),
    {
        proof {
            use_type_invariant(&*self);
        }
        let ghost gs = self@;
        let mut next: Vec<Vec<Particle>> = Vec::new();
        let mut t: usize = 0;
        while t < NUM_TYPES
            invariant
                t <= NUM_TYPES,
                gs == self@,
                gs.len() == NUM_TYPES,
                next@.len() == t,
                forall|u: int| 0 <= u < t ==> #[trigger] next@[u]@ == next_group(gs, u, self.table(), self.settings()),
            decreases NUM_TYPES - t,
        {
            let g = self.update_group(t);
            next.push(g);
            t = t + 1;
        }
        proof {
            assert(nested_view(next@) =~= next_groups(gs, self.table(), self.settings()));
            lemma_next_groups_fit(gs, self.table(), self.settings());
        }
        self.groups = next;
    }

    /// Draws new rules and new particles from the configuration, both within
    /// this one call: no reader sees new rules with old particles.
    pub fn reset(&mut self)
        ensures
            final(self).settings() == old(self).settings(),
            groups_fit(final(self).settings(), final(self)@),
            all_fresh(final(self).settings(), final(self)@),
            table_ok(final(self).table()),
            drawn_within(
                final(self).table(),
                final(self).settings().strength_limit as int,
                final(self).settings().radius_lower as int,
                final(self).settings().radius_upper as int,
            ),
    {
        proof {
            use_type_invariant(&*self);
        }
        match RuleTable::randomise(self.config.strength_limit, self.config.radius_lower, self.config.radius_upper) {
            Ok(rules) => {
                self.rules = rules;
            },
            Err(_) => {},
        }
        let groups = new_groups(&self.config);
        self.groups = groups;
    }

    /// Replaces every group at once, when the new groups fit the
    /// configuration; otherwise leaves the engine as it is.
    pub fn set_groups(&mut self, groups: Vec<Vec<Particle>>) -> (r: Result<(), EngineError>)
        ensures
            final(self).settings() == old(self).settings(),
            final(self).table() == old(self).table(),
            match r {
                Ok(_) => {
                    &&& groups_fit(old(self).settings(), nested_view(groups@))
                    &&& final(self)@ == nested_view(groups@)
                },
                Err(e) => {
                    &&& e == EngineError::Groups
                    &&& !groups_fit(old(self).settings(), nested_view(groups@))
                    &&& final(self)@ == old(self)@
                },
            },
    {
        proof {
            use_type_invariant(&*self);
        }
        if check_groups(&self.config, &groups) {
            self.groups = groups;
            Ok(())
        } else {
            Err(EngineError::Groups)
        }
    }

    /// A copy of every group, for drawing.
    pub fn snapshot_for_render(&self) -> (r: Vec<Vec<Particle>>)
        ensures
            nested_view(r@) == self@,
    {
        let mut out: Vec<Vec<Particle>> = Vec::new();
        let mut t: usize = 0;
        while t < self.groups.len()
            invariant
                t <= self.groups@.len(),
                out@.len() == t,
                forall|u: int| 0 <= u < t ==> #[trigger] out@[u]@ == self.groups@[u]@,
            decreases self.groups@.len() - t,
        {
            let src = &self.groups[t];
            let mut g: Vec<Particle> = Vec::new();
            let mut i: usize = 0;
            while i < src.len()
                invariant
                    i <= src@.len(),
                    g@ == src@.take(i as int),
                decreases src@.len() - i,
            {
                g.push(src[i]);
                i = i + 1;
                assert(g@ =~= src@.take(i as int));
            }
            assert(src@.take(src@.len() as int) =~= src@);
            out.push(g);
            t = t + 1;
        }
        assert(nested_view(out@) =~= self@);
        out
    }

    /// The particles, group by group in type order.
    pub fn groups(&self) -> (r: &Vec<Vec<Particle>>)
        ensures
            nested_view(r@) == self@,
    {
        &self.groups
    }

    pub fn config(&self) -> (r: &Config)
        ensures
            *r == self.settings(),
    {
        &self.config
    }

    pub fn rules(&self) -> (r: &RuleTable)
        ensures
            r.view() == self.table(),
    {
        &self.rules
    }
}

} // verus!
