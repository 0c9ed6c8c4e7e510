use symtree::groups::add_to_group;
use symtree::groups::analyze_sym_modules;
use symtree::groups::propagate_weight;
use symtree::groups::Group;
use symtree::groups::Groups;

fn strings(items: &[&str]) -> Vec<String> {
    items.iter().map(|s| s.to_string()).collect()
}

fn child<'a>(gs: &'a Groups, key: &str) -> &'a Group {
    &gs.0.iter().find(|(k, _)| k == key).unwrap().1
}

#[test]
fn round_trip_two_leaves() {
    let mut roots = Groups(Vec::new());
    add_to_group(&mut roots, strings(&["a", "b"]), 10);
    add_to_group(&mut roots, strings(&["a", "c"]), 20);
    assert_eq!(roots.0.len(), 1);
    let (_, a) = &mut roots.0[0];
    let total = propagate_weight(a);
    assert_eq!(total, 30);
    assert_eq!(a.weight, 30);
    assert_eq!(a.children.0.len(), 2);
    let b = child(&a.children, "b");
    assert_eq!(b.weight, 10);
    assert!(b.children.0.is_empty());
    let c = child(&a.children, "c");
    assert_eq!(c.weight, 20);
    assert!(c.children.0.is_empty());
}

#[test]
fn propagation_is_idempotent() {
    let mut roots = Groups(Vec::new());
    add_to_group(&mut roots, strings(&["a", "b", "c"]), 7);
    add_to_group(&mut roots, strings(&["a", "b", "d"]), 5);
    add_to_group(&mut roots, strings(&["a", "e"]), 1);
    let (_, g) = &mut roots.0[0];
    let first = propagate_weight(g);
    let snapshot = format!("{:?}", g);
    let second = propagate_weight(g);
    assert_eq!(first, 13);
    assert_eq!(second, 13);
    assert_eq!(format!("{:?}", g), snapshot);
}

#[test]
fn propagation_is_order_independent() {
    let mut one = Groups(Vec::new());
    add_to_group(&mut one, strings(&["a", "b"]), 10);
    add_to_group(&mut one, strings(&["a", "c", "d"]), 20);
    add_to_group(&mut one, strings(&["a", "c", "e"]), 30);

    let mut two = Groups(Vec::new());
    add_to_group(&mut two, strings(&["a", "c", "e"]), 30);
    add_to_group(&mut two, strings(&["a", "b"]), 10);
    add_to_group(&mut two, strings(&["a", "c", "d"]), 20);

    propagate_weight(&mut one.0[0].1);
    propagate_weight(&mut two.0[0].1);

    for roots in [&one, &two] {
        let a = child(roots, "a");
        assert_eq!(a.weight, 60);
        assert_eq!(child(&a.children, "b").weight, 10);
        let c = child(&a.children, "c");
        assert_eq!(c.weight, 50);
        assert_eq!(child(&c.children, "d").weight, 20);
        assert_eq!(child(&c.children, "e").weight, 30);
    }
}

#[test]
fn internal_placeholder_weights_are_corrected() {
    // Insertion writes the symbol size into every node on the walk; the
    // propagation pass overwrites that placeholder on every internal node.
    let mut roots = Groups(Vec::new());
    add_to_group(&mut roots, strings(&["x", "y"]), 3);
    assert_eq!(roots.0[0].1.weight, 3);
    add_to_group(&mut roots, strings(&["x", "z"]), 4);
    // The walk of the second insertion rewrote the placeholder on `x`.
    assert_eq!(roots.0[0].1.weight, 4);
    propagate_weight(&mut roots.0[0].1);
    assert_eq!(roots.0[0].1.weight, 7);
}

#[test]
fn duplicate_leaf_path_takes_last_size() {
    // Two symbols with one identical full component path: insertion writes
    // the size on every node of the walk, so the later size overwrites the
    // earlier one rather than summing with it.
    let mut roots = Groups(Vec::new());
    add_to_group(&mut roots, strings(&["a", "b"]), 10);
    add_to_group(&mut roots, strings(&["a", "b"]), 25);
    propagate_weight(&mut roots.0[0].1);
    assert_eq!(roots.0[0].1.weight, 25);
    assert_eq!(child(&roots.0[0].1.children, "b").weight, 25);
}

#[test]
fn analyze_builds_propagated_forest() {
    let symbols = vec![
        ("alpha::one::h1".to_string(), 100u64),
        ("alpha::two::h2".to_string(), 50u64),
        ("beta::three::h3".to_string(), 8u64),
    ];
    let roots = analyze_sym_modules(symbols);
    assert_eq!(roots.0.len(), 2);
    let alpha = child(&roots, "alpha");
    assert_eq!(alpha.weight, 150);
    let one = child(&alpha.children, "one");
    assert_eq!(one.weight, 100);
    assert_eq!(child(&one.children, "h1").weight, 100);
    let beta = child(&roots, "beta");
    assert_eq!(beta.weight, 8);
}
