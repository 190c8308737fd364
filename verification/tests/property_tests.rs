use access_conflicts::Access;
use access_conflicts::AccessConflicts;
use access_conflicts::AccessRecord;
use access_conflicts::FilteredAccess;
use access_conflicts::IndexSet;

#[test]
fn complement_symmetry_scenario() {
    // Build {1, 3, 7} directly.
    let mut direct = IndexSet::new();
    direct.insert(1);
    direct.insert(3);
    direct.insert(7);

    // Build the same answers below 8 by storing the other indices as
    // exceptions of a complemented set.
    let mut excluded = IndexSet::new();
    for i in [0, 2, 4, 5, 6] {
        excluded.insert(i);
    }
    let mut complemented = IndexSet::new();
    complemented.set_all();
    complemented.difference_with(&excluded);

    for i in 0..8 {
        assert_eq!(direct.contains(i), complemented.contains(i));
    }
}

#[test]
fn write_implies_read_scenario() {
    let mut record = AccessRecord::new();
    let writes = [4_usize, 0, 9, 4];
    let mut written: Vec<usize> = Vec::new();
    for w in writes {
        record.add_write(w);
        written.push(w);
        for seen in &written {
            assert!(record.has_write(*seen));
            assert!(record.has_read(*seen));
        }
    }
}

#[test]
fn compatibility_symmetry_scenario() {
    let mut access_a = Access::default();
    access_a.add_component_write(0);
    access_a.add_resource_read(2);

    let mut access_b = Access::default();
    access_b.add_component_read(0);

    let mut access_c = Access::default();
    access_c.read_all();

    let mut access_d = Access::default();
    access_d.add_component_read(5);

    for x in [&access_a, &access_b, &access_c, &access_d] {
        for y in [&access_a, &access_b, &access_c, &access_d] {
            assert_eq!(x.is_compatible(y), y.is_compatible(x));
        }
    }
}

#[test]
fn compatibility_conflict_consistency_scenario() {
    let mut access_a = Access::default();
    access_a.add_component_write(1);

    let mut access_b = Access::default();
    access_b.add_component_read(1);

    let mut access_c = Access::default();
    access_c.add_component_read(2);

    let mut access_d = Access::default();
    access_d.write_all();

    for x in [&access_a, &access_b, &access_c, &access_d] {
        for y in [&access_a, &access_b, &access_c, &access_d] {
            assert_eq!(x.is_compatible(y), x.get_conflicts(y).is_empty());
        }
    }
}

#[test]
fn extend_monotonicity_scenario() {
    let mut access_a = Access::default();
    access_a.add_component_read(0);

    let mut access_b = Access::default();
    access_b.add_component_write(3);

    // B contributes something: the extension is no longer a subset of the
    // original, and B is contained in it.
    let mut extended = access_a.clone();
    extended.extend(&access_b);
    assert!(access_b.is_subset(&extended));
    assert!(access_a.is_subset(&extended));
    assert!(!extended.is_subset(&access_a));

    // B contributes nothing: the extension stays a subset of the original.
    let mut contained = Access::default();
    contained.add_component_read(0);
    let mut unchanged = access_a.clone();
    unchanged.extend(&contained);
    assert!(unchanged.is_subset(&access_a));
}

#[test]
fn universal_write_dominance_scenario() {
    let mut writer = Access::default();
    writer.write_all();

    // Any declared read makes the pair incompatible.
    let mut reader = Access::default();
    reader.add_component_read(7);
    assert!(!writer.is_compatible(&reader));
    assert!(!reader.is_compatible(&writer));

    // Against a finite reader the conflicting indices stay enumerable.
    assert_eq!(writer.get_conflicts(&reader), AccessConflicts::from_indices(vec![7_usize]));

    // Against a reader of everything the conflicting set is unbounded.
    let mut read_everything = Access::default();
    read_everything.read_all();
    assert!(!writer.is_compatible(&read_everything));
    assert!(matches!(writer.get_conflicts(&read_everything), AccessConflicts::All));
}

#[test]
fn filter_refined_disjointness_scenario() {
    // Both sides write component 0, so the raw accesses conflict.
    let mut with_marker = FilteredAccess::default();
    with_marker.add_component_write(0);
    with_marker.and_with(1);

    let mut without_marker = FilteredAccess::default();
    without_marker.add_component_write(0);
    without_marker.and_without(1);

    assert!(!with_marker.access().is_compatible(without_marker.access()));

    // The contradictory filters prove the row sets disjoint.
    assert!(with_marker.is_compatible(&without_marker));
    assert!(without_marker.is_compatible(&with_marker));
    assert!(with_marker.get_conflicts(&without_marker).is_empty());
}

#[test]
fn index_set_operations() {
    let mut a = IndexSet::new();
    a.insert(5);
    a.insert(1);
    a.insert(3);
    assert!(a.contains(1) && a.contains(3) && a.contains(5));
    assert!(!a.contains(0) && !a.contains(4));
    assert_eq!(a.elements(), vec![1, 3, 5]);
    assert!(!a.is_empty());
    assert!(!a.is_all());

    let mut b = IndexSet::new();
    b.insert(3);
    b.insert(8);
    assert!(!b.is_subset(&a));
    assert!(!b.is_disjoint(&a));

    let mut union = a.duplicate();
    union.union_with(&b);
    assert_eq!(union.elements(), vec![1, 3, 5, 8]);
    assert!(a.is_subset(&union));
    assert!(b.is_subset(&union));
    assert!(union.is_superset(&a));

    let mut inter = a.duplicate();
    inter.intersect_with(&b);
    assert_eq!(inter.elements(), vec![3]);

    let mut diff = a.duplicate();
    diff.difference_with(&b);
    assert_eq!(diff.elements(), vec![1, 5]);
    assert!(diff.is_disjoint(&b));

    let mut cleared = union.duplicate();
    cleared.clear();
    assert!(cleared.is_empty());
}

#[test]
fn index_set_complement_mode() {
    let mut everything = IndexSet::new();
    everything.set_all();
    assert!(everything.is_all());
    assert!(everything.contains(0) && everything.contains(1_000_000));

    // Carve two exceptions out, then put one back.
    let mut holes = IndexSet::new();
    holes.insert(2);
    holes.insert(4);
    everything.difference_with(&holes);
    assert!(!everything.contains(2) && !everything.contains(4));
    assert!(everything.contains(3));
    assert!(!everything.is_all());
    assert!(!everything.is_empty());

    everything.insert(2);
    assert!(everything.contains(2));
    assert!(!everything.contains(4));

    // A finite set is a subset of a cofinite one exactly when it avoids the
    // exceptions; a cofinite set is never a subset of a finite one.
    let mut finite = IndexSet::new();
    finite.insert(3);
    finite.insert(5);
    assert!(finite.is_subset(&everything));
    assert!(!everything.is_subset(&finite));
    finite.insert(4);
    assert!(!finite.is_subset(&everything));

    // Two cofinite sets always overlap.
    let mut other = IndexSet::new();
    other.set_all();
    assert!(!everything.is_disjoint(&other));
}

#[test]
fn access_queries() {
    let mut access = Access::default();
    access.add_component_read(1);
    access.add_component_write(2);
    access.add_resource_read(3);
    access.add_resource_write(4);
    access.add_archetypal(9);

    assert!(access.has_component_read(1));
    assert!(access.has_component_read(2));
    assert!(!access.has_component_write(1));
    assert!(access.has_component_write(2));
    assert!(access.has_resource_read(3));
    assert!(access.has_resource_write(4));
    assert!(!access.has_resource_write(3));
    assert!(access.has_archetypal(9));
    assert!(!access.has_archetypal(1));
    assert_eq!(access.archetypal(), vec![9]);

    assert!(access.has_any_component_read());
    assert!(access.has_any_component_write());
    assert!(access.has_any_resource_read());
    assert!(access.has_any_resource_write());

    assert!(!access.has_read_all_components());
    access.read_all_components();
    assert!(access.has_read_all_components());
    assert!(!access.has_write_all_components());
    access.write_all_components();
    assert!(access.has_write_all_components());

    assert!(!access.has_read_all());
    access.read_all_resources();
    assert!(access.has_read_all());
    access.write_all_resources();
    assert!(access.has_write_all());
    assert!(access.has_read_all_resources());
    assert!(access.has_write_all_resources());

    access.clear_writes();
    assert!(!access.has_any_component_write());
    assert!(!access.has_any_resource_write());
    assert!(access.has_read_all());

    access.clear();
    assert!(!access.has_any_component_read());
    assert!(!access.has_any_resource_read());
    assert!(access.has_archetypal(9));
}

#[test]
fn archetypal_indices_never_conflict() {
    let mut access_a = Access::default();
    access_a.add_archetypal(0);

    let mut access_b = Access::default();
    access_b.add_component_write(0);
    access_b.add_archetypal(0);

    assert!(access_a.is_compatible(&access_b));
    assert_eq!(access_a.get_conflicts(&access_b), AccessConflicts::empty());
}

#[test]
fn filtered_access_getters() {
    let mut fa = FilteredAccess::default();
    fa.add_component_read(2);
    fa.and_without(5);

    let mut alt = FilteredAccess::default();
    alt.and_with(7);
    fa.append_or(&alt);

    let with = fa.with_filters();
    assert!(with.contains(&2));
    assert!(with.contains(&7));
    assert!(!with.contains(&5));

    let without = fa.without_filters();
    assert!(without.contains(&5));
    assert!(!without.contains(&2));
}

#[test]
fn filtered_access_subset_and_access_mut() {
    let mut small = FilteredAccess::default();
    small.add_component_read(1);

    let mut big = FilteredAccess::default();
    big.add_component_read(1);
    big.add_component_write(2);

    assert!(small.is_subset(&big));
    assert!(!big.is_subset(&small));

    small.access_mut().add_resource_write(4);
    assert!(small.access().has_resource_write(4));
    assert!(!small.is_subset(&big));

    let mut nothing = FilteredAccess::matches_nothing();
    assert!(nothing.with_filters().is_empty());
    nothing.extend_access(&small);
    assert!(nothing.access().has_resource_write(4));
}
