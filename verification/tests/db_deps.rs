use std::collections::{HashMap, HashSet};

use backuper::db;

#[test]
fn test_get_deps() {
    let mut table_refs = HashMap::with_capacity(4);
    table_refs.insert("a", "b");
    table_refs.insert("b", "f");
    table_refs.insert("d", "a");
    table_refs.insert("c", "a");

    let mut r = Vec::with_capacity(4);
    let mut visited = HashSet::with_capacity(3);
    db::get_deps(&"d", &table_refs, &mut r, &mut visited);

    assert_eq!(r, [&"f", &"b", &"a", &"d"]);

    let mut r = Vec::with_capacity(4);
    let mut visited = HashSet::with_capacity(3);
    db::get_deps(&"a", &table_refs, &mut r, &mut visited);

    assert_eq!(r, [&"f", &"b", &"a"]);
}

#[test]
fn test_get_deps_empty_deps() {
    let table_refs = HashMap::new();
    let mut r = Vec::new();
    let mut visited = HashSet::new();

    db::get_deps(&"42", &table_refs, &mut r, &mut visited);
    assert_eq!(r, [&"42"], "result must contain 42, {r:?} found");
    assert!(visited.is_empty(), "visited must be empty, {visited:?} found");
}

#[test]
fn test_get_deps_one_ref() {
    let mut table_refs = HashMap::with_capacity(4);
    table_refs.insert("a", "b");
    table_refs.insert("b", "f");
    table_refs.insert("d", "a");
    table_refs.insert("c", "a");

    let mut r = Vec::with_capacity(4);
    let mut visited = HashSet::with_capacity(3);
    db::get_deps(&"f", &table_refs, &mut r, &mut visited);

    assert_eq!(r, [&"f"]);
}

#[test]
fn test_table_deps_graph() {
    let tables = vec![
        "a", "d",
        "f", "b",
        "e", "c",
    ];
    let mut table_refs = HashMap::with_capacity(4);
    table_refs.insert("a", "b");
    table_refs.insert("b", "f");
    table_refs.insert("d", "a");
    table_refs.insert("c", "a");

    let r = db::table_deps_graph(&tables, &table_refs);

    let expected = vec![
        (&"a", vec![&"f", &"b", &"a"]),
        (&"d", vec![&"f", &"b", &"a", &"d"]),
        (&"f", vec![&"f"]),
        (&"b", vec![&"f", &"b"]),
        (&"e", vec![&"e"]),
        (&"c", vec![&"f", &"b", &"a", &"c"])
    ];
    assert_eq!(r, expected);
}

#[test]
fn test_table_deps_graph_empty_deps_and_tables() {
    let tables: Vec<&str> = vec![];
    let table_refs = HashMap::new();

    let r = db::table_deps_graph(&tables, &table_refs);

    assert!(r.is_empty(), "result must be empty");
}

#[test]
fn test_table_deps_graph_empty_deps() {
    let tables = vec!["a", "c", "d", "f"];
    let table_refs = HashMap::new();

    let r = db::table_deps_graph(&tables, &table_refs);
    let expected = vec![
        (&"a", vec![&"a"]),
        (&"c", vec![&"c"]),
        (&"d", vec![&"d"]),
        (&"f", vec![&"f"]),
    ];

    assert_eq!(r, expected);
}

#[test]
fn test_get_deps_marks_chain_as_visited() {
    let mut table_refs = HashMap::new();
    table_refs.insert("a", "b");
    table_refs.insert("b", "f");
    let mut r = Vec::new();
    let mut visited = HashSet::new();
    db::get_deps(&"a", &table_refs, &mut r, &mut visited);
    let expected: HashSet<&&str> = [&"b", &"f"].into_iter().collect();
    assert_eq!(visited, expected);
}

#[test]
fn test_get_deps_appends_to_result() {
    let mut table_refs = HashMap::new();
    table_refs.insert("x", "y");
    let mut r = vec![&"start"];
    let mut visited = HashSet::new();
    db::get_deps(&"x", &table_refs, &mut r, &mut visited);
    assert_eq!(r, [&"start", &"y", &"x"]);
}

#[test]
fn test_sort_deps_graph_is_stable_by_length() {
    let tables = vec!["a", "d", "f", "b", "e", "c"];
    let mut table_refs = HashMap::new();
    table_refs.insert("a", "b");
    table_refs.insert("b", "f");
    table_refs.insert("d", "a");
    table_refs.insert("c", "a");
    let mut graph = db::table_deps_graph(&tables, &table_refs);
    db::sort_deps_graph(&mut graph);
    let order: Vec<&str> = graph.iter().map(|(t, _)| **t).collect();
    assert_eq!(order, vec!["f", "e", "b", "a", "d", "c"]);
}
