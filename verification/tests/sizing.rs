use symtree::sizes::address_delta_sizes;
use symtree::sizes::symbol_sizes_in;
use symtree::sizes::SymbolInfo;

fn sym(name: &str, address: u64, size: u64) -> SymbolInfo {
    SymbolInfo { name: name.to_string(), address, size }
}

#[test]
fn recorded_sizes_filter_and_sort_descending() {
    let symbols = vec![
        sym("small", 10, 4),
        sym("outside", 900, 77),
        sym("large", 20, 64),
        sym("zero", 30, 0),
        sym("mid", 40, 16),
    ];
    let sizes = symbol_sizes_in(&symbols, 0, 100);
    assert_eq!(
        sizes,
        vec![
            ("large".to_string(), 64u64),
            ("mid".to_string(), 16u64),
            ("small".to_string(), 4u64),
            ("zero".to_string(), 0u64),
        ]
    );
}

#[test]
fn address_delta_attributes_gaps_and_drops_last() {
    let symbols = vec![sym("first", 100, 0), sym("second", 150, 0), sym("third", 400, 0)];
    let sizes = address_delta_sizes(&symbols, 0, 1000);
    assert_eq!(
        sizes,
        vec![("second".to_string(), 250u64), ("first".to_string(), 50u64)]
    );
}

#[test]
fn address_delta_sorts_unordered_input() {
    // The in-window symbols are sorted by address before deltas are taken,
    // and the out-of-window one takes no part.
    let symbols = vec![
        sym("c", 300, 0),
        sym("a", 100, 0),
        sym("far", 5000, 0),
        sym("b", 160, 0),
    ];
    let sizes = address_delta_sizes(&symbols, 0, 1000);
    assert_eq!(
        sizes,
        vec![("b".to_string(), 140u64), ("a".to_string(), 60u64)]
    );
}

#[test]
fn window_is_half_open() {
    let symbols = vec![sym("at_lo", 100, 1), sym("inside", 150, 2), sym("at_hi", 200, 3)];
    let sizes = symbol_sizes_in(&symbols, 100, 200);
    assert_eq!(
        sizes,
        vec![("inside".to_string(), 2u64), ("at_lo".to_string(), 1u64)]
    );
}

#[test]
fn address_delta_of_single_symbol_is_empty() {
    let symbols = vec![sym("only", 100, 12)];
    let sizes = address_delta_sizes(&symbols, 0, 1000);
    assert!(sizes.is_empty());
}
