use uroman::edge::{Edge, EdgeKind};
use uroman::error::RomanizeError;
use uroman::lattice::{dedup_edges, Lattice};
use uroman::path::select_path;
use uroman::render::{join_texts, parse_format, render, RomFormat, RomanizationResult};

fn word(s: &str) -> Vec<char> {
    s.chars().collect()
}

fn label(e: &Edge) -> String {
    e.text.iter().collect()
}

fn edge(start: usize, end: usize, text: &str, priority: u32) -> Edge {
    Edge {
        start,
        end,
        text: word(text),
        kind: EdgeKind::Letter,
        priority,
        language_specific: false,
        value: None,
        orig_text: None,
    }
}

#[test]
fn lattice_groups_edges_by_start() {
    let edges = vec![edge(1, 2, "b", 0), edge(0, 1, "a", 0), edge(0, 2, "ab", 0), edge(1, 2, "c", 0)];
    let lat = Lattice::from_edges(2, &edges).unwrap();
    assert_eq!(lat.len(), 2);
    assert_eq!(lat.edges_from(0).iter().map(label).collect::<Vec<_>>(), vec!["a", "ab"]);
    assert_eq!(lat.edges_from(1).iter().map(label).collect::<Vec<_>>(), vec!["b", "c"]);
    assert_eq!(lat.all_edges().iter().map(label).collect::<Vec<_>>(), vec!["a", "ab", "b", "c"]);
}

#[test]
fn lattice_refuses_bad_edges() {
    assert!(Lattice::from_edges(2, &vec![edge(0, 3, "x", 0)]).is_none());
    assert!(Lattice::from_edges(2, &vec![edge(1, 1, "x", 0)]).is_none());
    assert!(Lattice::from_edges(2, &vec![edge(2, 1, "x", 0)]).is_none());
    assert!(Lattice::from_edges(2, &vec![edge(0, 1, "x", 0), edge(2, 3, "y", 0)]).is_none());
    assert!(Lattice::from_edges(0, &vec![edge(0, 1, "x", 0)]).is_none());
    assert!(Lattice::from_edges(0, &Vec::new()).is_some());
    assert!(Lattice::from_edges(2, &vec![edge(0, 2, "x", 0)]).is_some());
}

#[test]
fn lightest_path_is_selected() {
    let edges = vec![
        edge(0, 1, "a", 5),
        edge(1, 2, "b", 5),
        edge(2, 3, "c", 5),
        edge(0, 2, "ab", 1),
        edge(1, 3, "bc", 9),
    ];
    let lat = Lattice::from_edges(3, &edges).unwrap();
    let path = select_path(&lat).unwrap();
    assert_eq!(path.iter().map(label).collect::<Vec<_>>(), vec!["a", "bc"]);
    let total: u64 = path.iter().map(|e| e.weight()).sum();
    assert_eq!(total, 2 * 8_589_934_592 - 14);
}

#[test]
fn first_of_equal_edges_is_selected() {
    let edges = vec![edge(0, 1, "first", 5), edge(0, 1, "second", 5), edge(0, 1, "heavy", 4)];
    let lat = Lattice::from_edges(1, &edges).unwrap();
    let path = select_path(&lat).unwrap();
    assert_eq!(path.len(), 1);
    assert_eq!(label(&path[0]), "first");
}

#[test]
fn path_of_an_empty_lattice_is_empty() {
    let lat = Lattice::from_edges(0, &Vec::new()).unwrap();
    assert!(select_path(&lat).unwrap().is_empty());
}

#[test]
fn missing_path_is_an_internal_inconsistency() {
    let lat = Lattice::from_edges(2, &vec![edge(0, 1, "a", 0)]).unwrap();
    assert!(matches!(select_path(&lat), Err(RomanizeError::InternalInconsistency)));
    let lat = Lattice::from_edges(3, &vec![edge(0, 1, "a", 0), edge(2, 3, "c", 0)]).unwrap();
    assert!(matches!(select_path(&lat), Err(RomanizeError::InternalInconsistency)));
    let lat = Lattice::from_edges(1, &Vec::new()).unwrap();
    assert!(matches!(select_path(&lat), Err(RomanizeError::InternalInconsistency)));
}

#[test]
fn unreachable_edges_are_ignored() {
    let edges = vec![edge(0, 2, "ab", 0), edge(1, 2, "b", u32::MAX)];
    let lat = Lattice::from_edges(2, &edges).unwrap();
    let path = select_path(&lat).unwrap();
    assert_eq!(path.iter().map(label).collect::<Vec<_>>(), vec!["ab"]);
}

#[test]
fn error_messages_name_the_failure() {
    assert_eq!(
        RomanizeError::InvalidFormat.message(),
        "Invalid format. Must be 'str', 'edges', 'alts', or 'lattice'."
    );
    assert_eq!(
        RomanizeError::InternalInconsistency.message(),
        "Internal inconsistency: no path covers the whole input."
    );
}

#[test]
fn selectors_are_parsed() {
    assert_eq!(parse_format("str"), Ok(RomFormat::Str));
    assert_eq!(parse_format("edges"), Ok(RomFormat::Edges));
    assert_eq!(parse_format("alts"), Ok(RomFormat::Alts));
    assert_eq!(parse_format("lattice"), Ok(RomFormat::Lattice));
    for bad in ["", "STR", "str ", "bogus", "edge", "lattices", "strstr"] {
        assert_eq!(parse_format(bad), Err(RomanizeError::InvalidFormat));
    }
}

#[test]
fn rendering_from_lattice_and_path() {
    let mut edges =
        vec![edge(0, 1, "a", 5), edge(0, 1, "A", 4), edge(0, 2, "ab", 0), edge(1, 2, "b", 5)];
    edges[0].language_specific = true;
    edges[1].language_specific = true;
    edges[3].language_specific = true;
    let lat = Lattice::from_edges(2, &edges).unwrap();
    let path = select_path(&lat).unwrap();
    assert_eq!(join_texts(&path).iter().collect::<String>(), "ab");
    assert_eq!(path.len(), 2);
    match render(&lat, select_path(&lat).unwrap(), RomFormat::Str) {
        RomanizationResult::Str(s) => assert_eq!(s, "ab"),
        _ => panic!("expected a string"),
    }
    match render(&lat, select_path(&lat).unwrap(), RomFormat::Edges) {
        RomanizationResult::Edges(es) => {
            assert_eq!(es.iter().map(label).collect::<Vec<_>>(), vec!["a", "b"])
        }
        _ => panic!("expected edges"),
    }
    match render(&lat, select_path(&lat).unwrap(), RomFormat::Alts) {
        RomanizationResult::Edges(es) => {
            assert_eq!(es.iter().map(label).collect::<Vec<_>>(), vec!["a", "A", "ab", "b"])
        }
        _ => panic!("expected edges"),
    }
    match render(&lat, select_path(&lat).unwrap(), RomFormat::Lattice) {
        RomanizationResult::Edges(es) => {
            assert_eq!(es.iter().map(label).collect::<Vec<_>>(), vec!["a", "A", "ab", "b"])
        }
        _ => panic!("expected edges"),
    }
    match render(&lat, vec![edge(7, 9, "far", 0)], RomFormat::Alts) {
        RomanizationResult::Edges(es) => assert!(es.is_empty()),
        _ => panic!("expected edges"),
    }
}

#[test]
fn duplicates_keep_the_first() {
    let edges = vec![
        edge(0, 1, "a", 1),
        edge(0, 1, "b", 2),
        edge(0, 1, "a", 3),
        edge(0, 2, "a", 4),
        edge(0, 1, "b", 5),
    ];
    let kept = dedup_edges(&edges);
    assert_eq!(kept.len(), 3);
    assert_eq!(kept.iter().map(|e| e.priority).collect::<Vec<_>>(), vec![1, 2, 4]);
    assert!(edges[0].same_span_and_text(&edges[2]));
    assert!(!edges[0].same_span_and_text(&edges[3]));
    assert!(!edges[0].same_span_and_text(&edges[1]));
    let copy = edges[3].duplicate();
    assert!(copy.same_span_and_text(&edges[3]));
    assert_eq!(copy.priority, 4);
    assert_eq!(copy.kind, EdgeKind::Letter);
}

#[test]
fn one_general_edge_beats_two() {
    let edges = vec![
        edge(0, 1, "a", u32::MAX),
        edge(1, 2, "b", u32::MAX),
        edge(0, 2, "ab", 0),
    ];
    let lat = Lattice::from_edges(2, &edges).unwrap();
    let path = select_path(&lat).unwrap();
    assert_eq!(path.iter().map(label).collect::<Vec<_>>(), vec!["ab"]);
    assert_eq!(path[0].weight(), 8_589_934_592);
    assert_eq!(edges[0].weight() + edges[1].weight(), 8_589_934_594);
}
