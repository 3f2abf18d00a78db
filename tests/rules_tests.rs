use particle_life::kinds::ParticleType;
use particle_life::rules::{RuleEntry, RuleError, RuleTable, NUM_RULES};

fn zero_entries() -> Vec<RuleEntry> {
    vec![RuleEntry { strength: 0, radius: 0 }; NUM_RULES]
}

#[test]
fn from_entries_keeps_each_pair() {
    let mut entries = zero_entries();
    for (i, e) in entries.iter_mut().enumerate() {
        e.strength = i as i64 * 10 - 70;
        e.radius = i as i64 * 1000;
    }
    let table = RuleTable::from_entries(entries).unwrap();
    let e = table.lookup(ParticleType::Blue, ParticleType::Green);
    assert_eq!(e, RuleEntry { strength: 9 * 10 - 70, radius: 9000 });
    let e = table.lookup(ParticleType::Green, ParticleType::Blue);
    assert_eq!(e, RuleEntry { strength: 6 * 10 - 70, radius: 6000 });
    assert_eq!(table.entry(3, 3), RuleEntry { strength: 15 * 10 - 70, radius: 15000 });
}

#[test]
fn from_entries_rejects_wrong_size() {
    let entries = vec![RuleEntry { strength: 0, radius: 0 }; 15];
    assert_eq!(RuleTable::from_entries(entries).unwrap_err(), RuleError::WrongSize);
}

#[test]
fn from_entries_rejects_strength_out_of_range() {
    let mut entries = zero_entries();
    entries[4].strength = -1_000_000_001;
    entries[7].radius = -1;
    assert_eq!(RuleTable::from_entries(entries).unwrap_err(), RuleError::StrengthOutOfRange);
}

#[test]
fn from_entries_rejects_negative_radius() {
    let mut entries = zero_entries();
    entries[7].radius = -1;
    assert_eq!(RuleTable::from_entries(entries).unwrap_err(), RuleError::RadiusOutOfRange);
}

#[test]
fn randomise_draws_within_bounds() {
    let table = RuleTable::randomise(1000, 60_000, 125_000).unwrap();
    let mut strengths = vec![];
    for s in 0..4 {
        for t in 0..4 {
            let e = table.entry(s, t);
            assert!(-1000 <= e.strength && e.strength < 1000);
            assert!(60_000 <= e.radius && e.radius < 125_000);
            strengths.push(e.strength);
        }
    }
    // Sixteen independent draws from two thousand values are not all the lower end.
    assert!(strengths.iter().any(|&s| s != -1000));
}

#[test]
fn randomise_with_empty_ranges_gives_the_bounds() {
    let table = RuleTable::randomise(0, 5000, 5000).unwrap();
    for s in 0..4 {
        for t in 0..4 {
            assert_eq!(table.entry(s, t), RuleEntry { strength: 0, radius: 5000 });
        }
    }
}

#[test]
fn randomise_rejects_reversed_radius_bounds() {
    assert_eq!(RuleTable::randomise(1000, 125_000, 60_000).unwrap_err(), RuleError::RadiusOutOfRange);
}

#[test]
fn randomise_rejects_negative_strength_limit() {
    assert_eq!(RuleTable::randomise(-1, 0, 10).unwrap_err(), RuleError::StrengthOutOfRange);
}

#[test]
fn type_indices_round_trip() {
    for i in 0..4 {
        assert_eq!(ParticleType::from_index(i).index(), i);
    }
    assert_eq!(ParticleType::Yellow.index(), 3);
}
