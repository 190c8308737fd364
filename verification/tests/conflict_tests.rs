use access_conflicts::Access;
use access_conflicts::AccessConflicts;
use access_conflicts::FilteredAccess;
use access_conflicts::FilteredAccessSet;
use access_conflicts::RowFilter;

#[test]
fn read_all_access_conflicts() {
    // read_all / single write
    let mut access_a = Access::default();
    access_a.add_component_write(0);

    let mut access_b = Access::default();
    access_b.read_all();

    assert!(!access_b.is_compatible(&access_a));

    // read_all / read_all
    let mut access_a = Access::default();
    access_a.read_all();

    let mut access_b = Access::default();
    access_b.read_all();

    assert!(access_b.is_compatible(&access_a));
}

#[test]
fn access_get_conflicts() {
    let mut access_a = Access::default();
    access_a.add_component_read(0);
    access_a.add_component_read(1);

    let mut access_b = Access::default();
    access_b.add_component_read(0);
    access_b.add_component_write(1);

    assert_eq!(access_a.get_conflicts(&access_b), AccessConflicts::from_indices(vec![1_usize]));

    let mut access_c = Access::default();
    access_c.add_component_write(0);
    access_c.add_component_write(1);

    assert_eq!(
        access_a.get_conflicts(&access_c),
        AccessConflicts::from_indices(vec![0_usize, 1_usize])
    );
    assert_eq!(
        access_b.get_conflicts(&access_c),
        AccessConflicts::from_indices(vec![0_usize, 1_usize])
    );

    let mut access_d = Access::default();
    access_d.add_component_read(0);

    assert_eq!(access_d.get_conflicts(&access_a), AccessConflicts::empty());
    assert_eq!(access_d.get_conflicts(&access_b), AccessConflicts::empty());
    assert_eq!(access_d.get_conflicts(&access_c), AccessConflicts::from_indices(vec![0_usize]));
}

#[test]
fn filtered_combined_access() {
    let mut access_a = FilteredAccessSet::default();
    access_a.add_unfiltered_resource_read(1);

    let mut filter_b = FilteredAccess::default();
    filter_b.add_resource_write(1);

    let conflicts = access_a.get_conflicts_single(&filter_b);
    assert_eq!(
        &conflicts,
        &AccessConflicts::from_indices(vec![1_usize]),
        "access_a: {access_a:?}, filter_b: {filter_b:?}"
    );
}

#[test]
fn filtered_access_extend() {
    let mut access_a = FilteredAccess::default();
    access_a.add_component_read(0);
    access_a.add_component_read(1);
    access_a.and_with(2);

    let mut access_b = FilteredAccess::default();
    access_b.add_component_read(0);
    access_b.add_component_write(3);
    access_b.and_without(4);

    access_a.extend(&access_b);

    let mut expected = FilteredAccess::default();
    expected.add_component_read(0);
    expected.add_component_read(1);
    expected.and_with(2);
    expected.add_component_write(3);
    expected.and_without(4);

    assert!(access_a.eq(&expected));
}

#[test]
fn filtered_access_extend_or() {
    let mut access_a = FilteredAccess::default();
    // Exclusive access to the components at indices 0 and 1.
    access_a.add_component_write(0);
    access_a.add_component_write(1);

    // Filter by presence of component 2.
    let mut access_b = FilteredAccess::default();
    access_b.and_with(2);

    // Filter by presence of component 3 and absence of component 4.
    let mut access_c = FilteredAccess::default();
    access_c.and_with(3);
    access_c.and_without(4);

    // Turns `access_b` into the disjunction of the two filters.
    access_b.append_or(&access_c);
    // Applies the filters to the initial query.
    access_a.extend(&access_b);

    // Construct the expected `FilteredAccess`. The intention here is to test
    // that exclusive access implied by the writes forms correct normalized
    // access structs when extended with a disjunction of filters.
    let mut expected = FilteredAccess::default();
    expected.add_component_write(0);
    expected.add_component_write(1);
    // The result is expected to represent the disjunction of "has 0, 1 and 2"
    // with "has 0, 1 and 3, lacks 4".
    let mut first = RowFilter::default();
    first.with.insert(0);
    first.with.insert(1);
    first.with.insert(2);
    let mut second = RowFilter::default();
    second.with.insert(0);
    second.with.insert(1);
    second.with.insert(3);
    second.without.insert(4);
    expected.filters = vec![first, second];

    assert_eq!(access_a, expected);
}

#[test]
fn unfiltered_resource_read_conflicts_with_write() {
    let mut set = FilteredAccessSet::default();
    set.add_unfiltered_resource_read(2);

    let mut writer = FilteredAccess::default();
    writer.add_resource_write(2);

    let conflicts = set.get_conflicts_single(&writer);
    assert_eq!(conflicts, AccessConflicts::from_indices(vec![2_usize]));
    assert!(!conflicts.is_empty());
}

#[test]
fn filtered_set_pairwise_conflicts() {
    let mut set_a = FilteredAccessSet::default();
    let mut member = FilteredAccess::default();
    member.add_component_write(6);
    set_a.add(member);

    let mut set_b = FilteredAccessSet::default();
    let mut other_member = FilteredAccess::default();
    other_member.add_component_read(6);
    other_member.add_component_read(9);
    set_b.add(other_member);

    assert!(!set_a.is_compatible(&set_b));
    assert_eq!(set_a.get_conflicts(&set_b), AccessConflicts::from_indices(vec![6_usize]));

    let mut disjoint = FilteredAccessSet::default();
    let mut reader = FilteredAccess::default();
    reader.add_component_read(7);
    disjoint.add(reader);

    assert!(set_a.is_compatible(&disjoint));
    assert_eq!(set_a.get_conflicts(&disjoint), AccessConflicts::empty());
}

#[test]
fn resource_and_component_indices_are_independent() {
    let mut access_a = Access::default();
    access_a.add_component_write(3);

    let mut access_b = Access::default();
    access_b.add_resource_read(3);

    assert!(access_a.is_compatible(&access_b));
    assert_eq!(access_a.get_conflicts(&access_b), AccessConflicts::empty());

    let mut access_c = Access::default();
    access_c.add_resource_write(3);

    assert!(!access_b.is_compatible(&access_c));
    assert_eq!(access_b.get_conflicts(&access_c), AccessConflicts::from_indices(vec![3_usize]));
}
