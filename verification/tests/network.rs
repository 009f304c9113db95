use satrelay::network::{generate_satellite_network, survey_complete, Link, Network, Node, Satellite};
use satrelay::sight::Sighting;

fn node(id: &str, links: &[(i32, usize)]) -> Node {
    Node {
        content: Satellite::new(id.to_string()),
        adjacent: links.iter().map(|&(cost, node)| Link { cost, node }).collect(),
    }
}

fn clear(distance: i32) -> Sighting {
    Sighting { earth_toi: None, guard_toi: Some(1), distance }
}

fn blocked(distance: i32) -> Sighting {
    Sighting { earth_toi: Some(5), guard_toi: Some(9), distance }
}

fn points(ids: &[&str]) -> Vec<Satellite> {
    ids.iter().map(|id| Satellite::new(id.to_string())).collect()
}

fn links_of(network: &Network, u: usize) -> Vec<(i32, usize)> {
    network.nodes[u].adjacent.iter().map(|l| (l.cost, l.node)).collect()
}

#[test]
fn cheaper_detour_beats_direct_link() {
    let network = Network::new(vec![
        node("start", &[(5, 2), (1, 1)]),
        node("mid", &[(2, 2)]),
        node("end", &[]),
    ]);
    assert_eq!(network.shortest_path(0, 2), Some(vec![0, 1, 2]));
    assert_eq!(network.transmit_signal(0, 2), vec!["start", "mid", "end"]);
}

#[test]
fn direct_link_wins_when_cheaper() {
    let network = Network::new(vec![
        node("start", &[(2, 2), (1, 1)]),
        node("mid", &[(2, 2)]),
        node("end", &[]),
    ]);
    assert_eq!(network.shortest_path(0, 2), Some(vec![0, 2]));
    assert_eq!(network.transmit_signal(0, 2), vec!["start", "end"]);
}

#[test]
fn disconnected_endpoints_give_nothing() {
    let network = Network::new(vec![
        node("a", &[(1, 1)]),
        node("b", &[(1, 0)]),
        node("c", &[(1, 3)]),
        node("d", &[(1, 2)]),
    ]);
    assert_eq!(network.shortest_path(0, 3), None);
    assert!(network.transmit_signal(0, 3).is_empty());
}

#[test]
fn links_are_directed() {
    let network = Network::new(vec![node("a", &[(4, 1)]), node("b", &[])]);
    assert_eq!(network.shortest_path(0, 1), Some(vec![0, 1]));
    assert_eq!(network.shortest_path(1, 0), None);
}

#[test]
fn path_to_itself_is_the_node_alone() {
    let network = Network::new(vec![node("a", &[(4, 1)]), node("b", &[(4, 0)])]);
    assert_eq!(network.shortest_path(1, 1), Some(vec![1]));
    assert_eq!(network.transmit_signal(0, 0), vec!["a"]);
}

#[test]
fn relay_ids_follow_the_path() {
    let network = Network::new(vec![node("a", &[]), node("b", &[]), node("c", &[])]);
    assert_eq!(network.relay_ids(&vec![2, 0, 0, 1]), vec!["c", "a", "a", "b"]);
    assert!(network.relay_ids(&Vec::new()).is_empty());
}

#[test]
fn chain_of_three_relays_through_the_middle() {
    let satellites = points(&["A", "B", "C"]);
    let sightings = vec![
        vec![clear(0), clear(700), blocked(1400)],
        vec![clear(700), clear(0), clear(720)],
        vec![blocked(1400), clear(720), clear(0)],
    ];
    let network = generate_satellite_network(&satellites, &sightings);
    assert_eq!(links_of(&network, 0), vec![(700, 1)]);
    assert_eq!(links_of(&network, 1), vec![(700, 0), (720, 2)]);
    assert_eq!(links_of(&network, 2), vec![(720, 1)]);
    assert!(network.fits_search());
    assert_eq!(network.transmit_signal(0, 2), vec!["A", "B", "C"]);
    assert_eq!(network.transmit_signal(2, 0), vec!["C", "B", "A"]);
}

#[test]
fn full_mesh_has_a_link_for_every_ordered_pair() {
    let n: usize = 5;
    let ids = ["s0", "s1", "s2", "s3", "s4"];
    let satellites = points(&ids);
    let mut sightings = Vec::new();
    for u in 0..n {
        let mut row = Vec::new();
        for v in 0..n {
            row.push(clear((100 * u + 7 * v) as i32));
        }
        sightings.push(row);
    }
    let network = generate_satellite_network(&satellites, &sightings);
    let mut total = 0;
    for u in 0..n {
        assert_eq!(network.nodes[u].content.id, ids[u]);
        let expected: Vec<(i32, usize)> =
            (0..n).filter(|&v| v != u).map(|v| ((100 * u + 7 * v) as i32, v)).collect();
        assert_eq!(links_of(&network, u), expected);
        total += network.nodes[u].adjacent.len();
    }
    assert_eq!(total, n * (n - 1));
}

#[test]
fn a_point_never_links_to_itself() {
    let satellites = points(&["only"]);
    let network = generate_satellite_network(&satellites, &vec![vec![clear(0)]]);
    assert_eq!(network.nodes.len(), 1);
    assert!(network.nodes[0].adjacent.is_empty());
    assert_eq!(network.transmit_signal(0, 0), vec!["only"]);
}

#[test]
fn equal_identifiers_stay_distinct_nodes() {
    let satellites = points(&["twin", "twin", "far"]);
    let sightings = vec![
        vec![clear(0), clear(3), blocked(9)],
        vec![clear(3), clear(0), clear(4)],
        vec![blocked(9), clear(4), clear(0)],
    ];
    let network = generate_satellite_network(&satellites, &sightings);
    assert_eq!(links_of(&network, 0), vec![(3, 1)]);
    assert_eq!(network.shortest_path(2, 0), Some(vec![2, 1, 0]));
    assert_eq!(network.transmit_signal(2, 0), vec!["far", "twin", "twin"]);
}

#[test]
fn no_points_give_an_empty_network() {
    let network = generate_satellite_network(&[], &Vec::new());
    assert!(network.nodes.is_empty());
    assert!(network.fits_search());
}

#[test]
fn search_limits_are_checked() {
    let sound = Network::new(vec![node("a", &[(i32::MAX - 2, 1)]), node("b", &[(1, 0)])]);
    assert!(sound.fits_search());
    let too_dear = Network::new(vec![node("a", &[(i32::MAX - 1, 1)]), node("b", &[(1, 0)])]);
    assert!(!too_dear.fits_search());
    let negative = Network::new(vec![node("a", &[(-1, 1)]), node("b", &[])]);
    assert!(!negative.fits_search());
    let dangling = Network::new(vec![node("a", &[(1, 2)]), node("b", &[])]);
    assert!(!dangling.fits_search());
    let doubled = Network::new(vec![node("a", &[(1, 1), (2, 1)]), node("b", &[])]);
    assert!(!doubled.fits_search());
}

#[test]
fn survey_must_be_square_and_without_negative_distance() {
    assert!(survey_complete(0, &Vec::new()));
    assert!(survey_complete(2, &vec![vec![clear(0), clear(3)], vec![blocked(3), clear(0)]]));
    assert!(!survey_complete(2, &vec![vec![clear(0), clear(3)]]));
    assert!(!survey_complete(1, &vec![vec![clear(0), clear(3)]]));
    assert!(!survey_complete(2, &vec![vec![clear(0), clear(3)], vec![clear(3)]]));
    assert!(!survey_complete(2, &vec![vec![clear(0), clear(3)], vec![clear(-1), clear(0)]]));
}
