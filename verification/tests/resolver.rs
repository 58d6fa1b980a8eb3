use optic::wavelengths::record::Record;
use optic::wavelengths::resolver::Lookup;
use optic::wavelengths::resolver::Resolver;

fn nm(value: f64) -> u64 {
    value.to_bits()
}

#[test]
fn an_empty_resolver_knows_nothing() {
    let resolver = Resolver::new();
    assert_eq!(resolver.len(), 0);
    assert_eq!(resolver.lookup(nm(500.0)), Lookup::Vacant(0));
    assert_eq!(resolver.records(), vec![]);
}

#[test]
fn records_are_kept_in_ascending_order() {
    let mut resolver = Resolver::new();
    for (id, value) in [500.0, 350.0, 632.8, -1.0, 400.0].iter().enumerate() {
        match resolver.lookup(nm(*value)) {
            Lookup::Vacant(place) => resolver.insert(place, Record::new(id as u32, nm(*value))),
            Lookup::Known(_) => panic!("{} is new", value),
        }
    }
    let order: Vec<u32> = resolver.records().iter().map(|record| record.id).collect();
    assert_eq!(order, vec![3, 1, 4, 0, 2]);
    assert_eq!(resolver.len(), 5);
    assert_eq!(resolver.duplicate().records(), resolver.records());
}

#[test]
fn a_lookup_finds_the_neighbour_on_either_side() {
    let mut resolver = Resolver::new();
    resolver.insert(0, Record::new(0, nm(1.0)));
    resolver.insert(1, Record::new(1, nm(2.0)));
    resolver.insert(2, Record::new(2, nm(3.0)));
    assert_eq!(resolver.lookup(nm(2.0)), Lookup::Known(1));
    assert_eq!(resolver.lookup(nm(2.0 + 4e-13)), Lookup::Known(1));
    assert_eq!(resolver.lookup(nm(2.0 - 4e-13)), Lookup::Known(1));
    assert_eq!(resolver.lookup(nm(3.0 + 4e-13)), Lookup::Known(2));
    assert_eq!(resolver.lookup(nm(1.0 - 4e-13)), Lookup::Known(0));
    assert_eq!(resolver.lookup(nm(0.5)), Lookup::Vacant(0));
    assert_eq!(resolver.lookup(nm(1.5)), Lookup::Vacant(1));
    assert_eq!(resolver.lookup(nm(2.5)), Lookup::Vacant(2));
    assert_eq!(resolver.lookup(nm(3.5)), Lookup::Vacant(3));
    assert_eq!(resolver.lookup(nm(2.0 + 2e-12)), Lookup::Vacant(2));
}

#[test]
fn of_two_near_neighbours_the_smaller_key_is_taken() {
    let mut resolver = Resolver::new();
    resolver.insert(0, Record::new(9, nm(1.5e-12)));
    resolver.insert(1, Record::new(4, nm(3e-12)));
    assert_eq!(resolver.lookup(nm(2.2e-12)), Lookup::Known(4));
    assert_eq!(resolver.lookup(nm(1.0e-12)), Lookup::Known(9));
    assert_eq!(resolver.lookup(nm(3.5e-12)), Lookup::Known(4));
    let mut other = Resolver::new();
    other.insert(0, Record::new(4, nm(1.5e-12)));
    other.insert(1, Record::new(9, nm(3e-12)));
    assert_eq!(other.lookup(nm(2.2e-12)), Lookup::Known(4));
}
