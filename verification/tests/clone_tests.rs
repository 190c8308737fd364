use access_conflicts::Access;
use access_conflicts::FilteredAccess;
use access_conflicts::FilteredAccessSet;
use access_conflicts::RowFilter;

fn create_sample_access() -> Access {
    let mut access = Access::default();

    access.add_component_read(1);
    access.add_component_read(2);
    access.add_component_write(3);
    access.add_archetypal(5);
    access.read_all();

    access
}

fn create_sample_filtered_access() -> FilteredAccess {
    let mut filtered_access = FilteredAccess::default();

    filtered_access.add_component_write(1);
    filtered_access.add_component_read(2);
    filtered_access.add_required(3);
    filtered_access.and_with(4);

    filtered_access
}

fn create_sample_access_filters() -> RowFilter {
    let mut access_filters = RowFilter::default();

    access_filters.with.insert(3);
    access_filters.without.insert(5);

    access_filters
}

fn create_sample_filtered_access_set() -> FilteredAccessSet {
    let mut filtered_access_set = FilteredAccessSet::default();

    filtered_access_set.add_unfiltered_resource_read(2);
    filtered_access_set.add_unfiltered_resource_write(4);
    filtered_access_set.read_all();

    filtered_access_set
}

#[test]
fn test_access_clone() {
    let original: Access = create_sample_access();
    let cloned = original.clone();

    assert_eq!(original, cloned);
}

#[test]
fn test_access_clone_from() {
    let original: Access = create_sample_access();
    let mut cloned = Access::default();

    cloned.add_component_write(7);
    cloned.add_component_read(4);
    cloned.add_archetypal(8);
    cloned.write_all();

    cloned.clone_from(&original);

    assert_eq!(original, cloned);
}

#[test]
fn test_filtered_access_clone() {
    let original: FilteredAccess = create_sample_filtered_access();
    let cloned = original.clone();

    assert_eq!(original, cloned);
}

#[test]
fn test_filtered_access_clone_from() {
    let original: FilteredAccess = create_sample_filtered_access();
    let mut cloned = FilteredAccess::default();

    cloned.add_component_write(7);
    cloned.add_component_read(4);
    cloned.append_or(&FilteredAccess::default());

    cloned.clone_from(&original);

    assert_eq!(original, cloned);
}

#[test]
fn test_access_filters_clone() {
    let original: RowFilter = create_sample_access_filters();
    let cloned = original.clone();

    assert_eq!(original, cloned);
}

#[test]
fn test_access_filters_clone_from() {
    let original: RowFilter = create_sample_access_filters();
    let mut cloned = RowFilter::default();

    cloned.with.insert(1);
    cloned.without.insert(2);

    cloned.clone_from(&original);

    assert_eq!(original, cloned);
}

#[test]
fn test_filtered_access_set_clone() {
    let original: FilteredAccessSet = create_sample_filtered_access_set();
    let cloned = original.clone();

    assert_eq!(original, cloned);
}

#[test]
fn test_filtered_access_set_from() {
    let original: FilteredAccessSet = create_sample_filtered_access_set();
    let mut cloned = FilteredAccessSet::default();

    cloned.add_unfiltered_resource_read(7);
    cloned.add_unfiltered_resource_write(9);
    cloned.write_all();

    cloned.clone_from(&original);

    assert_eq!(original, cloned);
}
