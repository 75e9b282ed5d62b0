//! TYPL-206: recursive composite references.

use ridl_sem::recursion::{check_recursion, composite_cycle, CompositeNode, RecursionStart};
use ridl_sem::syntax::TextRange;

fn node(package: &str, name: &str) -> CompositeNode {
    CompositeNode {
        package: package.to_string(),
        name: name.to_string(),
    }
}

fn start(node: usize, at: usize) -> RecursionStart {
    RecursionStart {
        node,
        file: 0,
        range: TextRange { start: at, end: at + 1 },
    }
}

#[test]
fn typl_206_direct_recursion() {
    let nodes = vec![node("app", "S")];
    let edges = vec![vec![0]];
    let diagnostics = check_recursion(&nodes, &edges, "app", &[start(0, 19)]);
    assert_eq!(diagnostics.len(), 1);
    assert_eq!(diagnostics[0].code.as_str(), "TYPL-206");
    assert_eq!(diagnostics[0].message, "recursive composite reference: `S` -> `S`");
}

#[test]
fn typl_206_transitive_recursion() {
    // struct S { t : T }  struct T { s : [S; 4] }
    let nodes = vec![node("app", "S"), node("app", "T")];
    let edges = vec![vec![1], vec![0]];
    let diagnostics = check_recursion(&nodes, &edges, "app", &[start(0, 19), start(1, 38)]);
    // Both composites sit on the cycle, so each reports once.
    assert_eq!(
        diagnostics.iter().map(|d| d.code.as_str()).collect::<Vec<_>>(),
        vec!["TYPL-206", "TYPL-206"]
    );
    assert_eq!(diagnostics[0].message, "recursive composite reference: `S` -> `T` -> `S`");
    assert_eq!(diagnostics[1].message, "recursive composite reference: `T` -> `S` -> `T`");
    assert_eq!(diagnostics[1].range, TextRange { start: 38, end: 39 });
}

#[test]
fn typl_206_cross_package_qualified_cycle() {
    // package a: struct S { x : b.T }   package b: struct T { y : a.S }
    let nodes = vec![node("a", "S"), node("b", "T")];
    let edges = vec![vec![1], vec![0]];
    let diagnostics = check_recursion(&nodes, &edges, "a", &[start(0, 17)]);
    assert_eq!(diagnostics.len(), 1);
    assert_eq!(diagnostics[0].message, "recursive composite reference: `S` -> `b.T` -> `S`");
}

#[test]
fn a_composite_leading_into_a_cycle_is_not_itself_recursive() {
    // U holds S, and S holds itself: only S recurses.
    let nodes = vec![node("app", "U"), node("app", "S"), node("app", "Leaf")];
    let edges = vec![vec![2, 1], vec![1], vec![]];
    let diagnostics = check_recursion(&nodes, &edges, "app", &[start(0, 1), start(1, 2), start(2, 3)]);
    assert_eq!(diagnostics.len(), 1);
    assert_eq!(diagnostics[0].range, TextRange { start: 2, end: 3 });
    assert_eq!(composite_cycle(&edges, 0), None);
    assert_eq!(composite_cycle(&edges, 1), Some(vec![1]));
}

#[test]
fn the_cycle_follows_the_first_references_first() {
    // A -> B -> C -> A, and A -> C directly: the depth-first walk takes B first.
    let edges = vec![vec![1, 2], vec![2], vec![0]];
    assert_eq!(composite_cycle(&edges, 0), Some(vec![1, 2, 0]));
    assert_eq!(composite_cycle(&edges, 2), Some(vec![0, 1, 2]));
}
