use grid_challenge::osm::{overpass_error, overpass_step, plan_segments, OsmElement, OverpassStep};

fn way(nodes: &[i64], geometry_len: usize) -> OsmElement {
    OsmElement {
        elem_type: "way".to_string(),
        nodes: Some(nodes.to_vec()),
        geometry_len: Some(geometry_len),
    }
}

#[test]
fn ways_split_at_shared_nodes() {
    let elements = vec![
        way(&[1, 2, 3], 3),
        OsmElement { elem_type: "node".to_string(), nodes: None, geometry_len: None },
        way(&[3, 4, 2, 5], 4),
    ];
    let plans = plan_segments(&elements);
    assert_eq!(plans.len(), 2);
    assert_eq!(plans[0].element, 0);
    assert_eq!(plans[0].segments, vec![(0, 1), (1, 2)]);
    assert_eq!(plans[1].element, 2);
    assert_eq!(plans[1].segments, vec![(0, 2), (2, 3)]);
}

#[test]
fn unusable_ways_still_share_nodes() {
    let elements = vec![
        // node list and geometry disagree: no trail, but its nodes count
        way(&[7, 8, 9], 2),
        way(&[10, 8, 11], 3),
        // too short a geometry
        way(&[8], 1),
        // not a way: its nodes do not count
        OsmElement { elem_type: "relation".to_string(), nodes: Some(vec![10, 11]), geometry_len: Some(2) },
    ];
    let plans = plan_segments(&elements);
    assert_eq!(plans.len(), 1);
    assert_eq!(plans[0].element, 1);
    assert_eq!(plans[0].segments, vec![(0, 1), (1, 2)]);
}

#[test]
fn end_nodes_do_not_cut() {
    let elements = vec![way(&[1, 2, 3], 3), way(&[3, 9, 1], 3)];
    let plans = plan_segments(&elements);
    assert_eq!(plans[0].segments, vec![(0, 2)]);
    assert_eq!(plans[1].segments, vec![(0, 2)]);
}

#[test]
fn repeated_node_within_one_way_is_shared() {
    let plans = plan_segments(&vec![way(&[1, 2, 3, 2, 4], 5)]);
    assert_eq!(plans[0].segments, vec![(0, 1), (1, 3), (3, 4)]);
}

#[test]
fn overpass_retries() {
    assert_eq!(overpass_step(0, 200), OverpassStep::Parse);
    assert_eq!(overpass_step(0, 429), OverpassStep::Retry { delay_secs: 10 });
    assert_eq!(overpass_step(1, 504), OverpassStep::Retry { delay_secs: 20 });
    assert_eq!(overpass_step(2, 504), OverpassStep::GiveUp);
    assert_eq!(overpass_step(0, 400), OverpassStep::GiveUp);
}

#[test]
fn overpass_error_excerpt() {
    assert_eq!(overpass_error("504 Gateway Timeout", "busy"), "HTTP 504 Gateway Timeout: busy");
    let long = "x".repeat(250);
    let e = overpass_error("500", &long);
    assert_eq!(e, format!("HTTP 500: {}", "x".repeat(200)));
}
