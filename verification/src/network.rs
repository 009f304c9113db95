//! The relay network: its points, the links between those that see each
//! other, and the chain of relays that carries a signal across it.

use vstd::prelude::*;
use crate::route::{
    found_route, hop_cost, is_route, joined, lemma_row_cost_grows, lemma_total_cost_grows,
    link_rows, link_sound, reachable, route_view, row_cost, rows_sound, search_outcome,
    search_using_index, searchable, total_cost, Rows,
};
use crate::sight::{has_line_of_sight, Sighting};

verus! {

/// A relay point, known to the network by its identifier. Where it stands in
/// space matters only to whoever measures the sightings between the points.
#[derive(Clone, Debug, PartialEq)]
pub struct Satellite {
    pub id: String,
}

/// A directed link to the node at index `node`, at a cost in whole kilometres.
#[derive(Clone, Copy, Debug)]
pub struct Link {
    pub cost: i32,
    pub node: usize,
}

/// A relay point with the links that leave it.
#[derive(Debug)]
pub struct Node {
    pub content: Satellite,
    pub adjacent: Vec<Link>,
}

/// The visibility graph. A node is known by its index in `nodes`.
#[derive(Debug)]
pub struct Network {
    pub nodes: Vec<Node>,
}

impl Satellite {
    /// A relay point with the given identifier.
    pub fn new(id: String) -> (satellite: Satellite)
        ensures
            satellite.id == id,
    {
        Satellite { id }
    }
}

/// The links that leave point `from` towards the first `upto` points: one to
/// every other point that it sees, in the order of the points, at the
/// measured distance.
pub open spec fn links_seen(row: Seq<Sighting>, from: int, upto: int) -> Seq<Link>
    decreases upto,
{
    if upto <= 0 {
        Seq::empty()
    } else {
        let before = links_seen(row, from, upto - 1);
        if upto - 1 != from && row[upto - 1].clear() {
            before.push(Link { cost: row[upto - 1].distance, node: (upto - 1) as usize })
        } else {
            before
        }
    }
}

/// The table holds one sighting for every ordered pair of `count` points, and
/// no distance in it is negative.
pub open spec fn survey_fits(count: nat, sightings: Seq<Vec<Sighting>>) -> bool {
    &&& sightings.len() == count
    &&& forall|u: int| 0 <= u < count ==> (#[trigger] sightings[u])@.len() == count
    &&& forall|u: int, v: int| 0 <= u < count && 0 <= v < count ==> (#[trigger] sightings[u]@[v]).distance >= 0
}

/// `nodes` is the visibility graph of the points `satellites` under the
/// sightings `sightings`: node `u` holds point `u` and the links that
/// `links_seen` gives it.
pub open spec fn is_network_of(nodes: Seq<Node>, satellites: Seq<Satellite>, sightings: Seq<Vec<Sighting>>) -> bool {
    &&& nodes.len() == satellites.len()
    &&& forall|u: int| 0 <= u < satellites.len() ==> {
            &&& (#[trigger] nodes[u]).content == satellites[u]
            &&& nodes[u].adjacent@ == links_seen(sightings[u]@, u, satellites.len() as int)
        }
}

/// The number of links that leave the first `upto` nodes.
pub open spec fn link_count(nodes: Seq<Node>, upto: int) -> int
    decreases upto,
{
    if upto <= 0 {
        0
    } else {
        link_count(nodes, upto - 1) + nodes[upto - 1].adjacent@.len()
    }
}

/// Every point sees every other point.
pub open spec fn all_in_sight(sightings: Seq<Vec<Sighting>>) -> bool {
    forall|u: int, v: int|
        0 <= u < sightings.len() && 0 <= v < sightings[u]@.len() && u != v ==> (#[trigger] sightings[u]@[v]).clear()
}

/// The identifiers of the nodes along a path.
pub open spec fn ids_along(nodes: Seq<Node>, path: Seq<usize>) -> Seq<String> {
    Seq::new(path.len(), |i: int| nodes[path[i] as int].content.id)
}

/// The identifiers that a search result stands for: those along the path, or
/// none where there is no path.
pub open spec fn signal_path(nodes: Seq<Node>, found: Option<Seq<usize>>) -> Seq<String> {
    match found {
        Some(path) => ids_along(nodes, path),
        None => Seq::empty(),
    }
}

/// What `links_seen` holds: its links go to ascending targets below `upto`,
/// each one a point other than `from` that is seen, at the measured distance,
/// and every such point has its link.
pub proof fn lemma_links_seen(row: Seq<Sighting>, from: int, upto: int)
    requires
        0 <= upto <= row.len(),
        upto <= usize::MAX,
    ensures
        links_seen(row, from, upto).len() <= upto,
        forall|k: int| 0 <= k < links_seen(row, from, upto).len() ==> {
            let link = #[trigger] links_seen(row, from, upto)[k];
            &&& 0 <= link.node < upto
            &&& link.node != from
            &&& row[link.node as int].clear()
            &&& link.cost == row[link.node as int].distance
            &&& forall|j: int| 0 <= j < k ==> links_seen(row, from, upto)[j].node < link.node
        },
        forall|v: int| 0 <= v < upto && v != from && (#[trigger] row[v]).clear() ==> exists|k: int|
            0 <= k < links_seen(row, from, upto).len() && (#[trigger] links_seen(row, from, upto)[k]).node == v,
    decreases upto,
{
    if upto > 0 {
        lemma_links_seen(row, from, upto - 1);
        let before = links_seen(row, from, upto - 1);
        let now = links_seen(row, from, upto);
        assert forall|v: int| 0 <= v < upto && v != from && (#[trigger] row[v]).clear() implies exists|k: int|
            0 <= k < now.len() && (#[trigger] now[k]).node == v by {
            if v < upto - 1 {
                let k = choose|k: int| 0 <= k < before.len() && (#[trigger] before[k]).node == v;
                assert(now[k].node == v);
            } else {
                assert(now[now.len() - 1].node == v);
            }
        }
    }
}

impl Network {
    /// The links of the network as plain numbers.
    pub open spec fn rows(&self) -> Rows {
        link_rows(self.nodes@)
    }

    /// The network with the given nodes, node `u` at index `u`.
    pub fn new(nodes: Vec<Node>) -> (network: Network)
        ensures
            network.nodes == nodes,
    {
        Network { nodes }
    }

    /// Whether the network is one that `shortest_path` and `transmit_signal`
    /// accept: sound links, and all costs together below `i32::MAX`.
    pub fn fits_search(&self) -> (ok: bool)
        ensures
            ok == searchable(self.rows()),
    {
        let count = self.nodes.len();
        let ghost rows = self.rows();
        let mut spent: i32 = 0;
        let mut u: usize = 0;
        while u < count
            invariant
                count == self.nodes@.len(),
                rows == self.rows(),
                0 <= u <= count,
                0 <= spent < i32::MAX,
                spent == total_cost(rows, u as int),
                forall|a: int, k: int| 0 <= a < u && 0 <= k < rows[a].len() ==> #[trigger] link_sound(rows, a, k),
            decreases count - u,
        {
            let row = &self.nodes[u].adjacent;
            let ghost before = spent;
            let mut k: usize = 0;
            while k < row.len()
                invariant
                    count == self.nodes@.len(),
                    rows == self.rows(),
                    0 <= u < count,
                    row@ == self.nodes@[u as int].adjacent@,
                    0 <= k <= row@.len(),
                    before == total_cost(rows, u as int),
                    spent == before + row_cost(rows[u as int], k as int),
                    0 <= spent < i32::MAX,
                    forall|j: int| 0 <= j < k ==> #[trigger] link_sound(rows, u as int, j),
                decreases row@.len() - k,
            {
                let link = row[k];
                assert(rows[u as int][k as int] == (link.cost as int, link.node as int));
                if link.cost < 0 || link.node >= count {
                    assert(!link_sound(rows, u as int, k as int));
                    return false;
                }
                let mut j: usize = 0;
                while j < k
                    invariant
                        rows == self.rows(),
                        0 <= u < count,
                        count == self.nodes@.len(),
                        row@ == self.nodes@[u as int].adjacent@,
                        0 <= j <= k < row@.len(),
                        link == row@[k as int],
                        forall|i: int| 0 <= i < j ==> (#[trigger] rows[u as int][i]).1 != link.node,
                    decreases k - j,
                {
                    if row[j].node == link.node {
                        assert(rows[u as int][j as int].1 == rows[u as int][k as int].1);
                        assert(!link_sound(rows, u as int, k as int));
                        return false;
                    }
                    j += 1;
                }
                assert(link_sound(rows, u as int, k as int));
                if link.cost >= i32::MAX - spent {
                    proof {
                        if rows_sound(rows) {
                            let whole = rows[u as int];
                            assert forall|i: int| 0 <= i < whole.len() implies 0 <= (#[trigger] whole[i]).0 by {
                                assert(link_sound(rows, u as int, i));
                            }
                            lemma_row_cost_grows(whole, k + 1, whole.len() as int);
                            lemma_total_cost_grows(rows, u + 1, count as int);
                        }
                    }
                    return false;
                }
                spent = spent + link.cost;
                k += 1;
            }
            u += 1;
        }
        true
    }

    /// A cheapest path from node `start` to node `end`, both included, or
    /// `None` where no chain of links joins them.
    pub fn shortest_path(&self, start: usize, end: usize) -> (found: Option<Vec<usize>>)
        requires
            searchable(self.rows()),
            start < self.nodes@.len(),
            end < self.nodes@.len(),
        ensures
            route_view(found) == found_route(self.rows(), start as int, end as int),
            search_outcome(self.rows(), start as int, end as int, route_view(found)),
            found is Some <==> reachable(self.rows(), start as int, end as int),
    {
        let found = search_using_index(&self.nodes, start, end);
        proof {
            if found is Some {
                assert(is_route(self.rows(), found->Some_0@, start as int, end as int));
            }
        }
        found
    }

    /// The identifiers of the nodes along `path`, in its order.
    pub fn relay_ids(&self, path: &Vec<usize>) -> (ids: Vec<String>)
        requires
            forall|i: int| 0 <= i < path@.len() ==> (#[trigger] path@[i]) < self.nodes@.len(),
        ensures
            ids@ == ids_along(self.nodes@, path@),
    {
        let mut ids: Vec<String> = Vec::new();
        let mut i: usize = 0;
        while i < path.len()
            invariant
                0 <= i <= path@.len(),
                forall|k: int| 0 <= k < path@.len() ==> (#[trigger] path@[k]) < self.nodes@.len(),
                ids@ == ids_along(self.nodes@, path@.take(i as int)),
            decreases path@.len() - i,
        {
            let id = self.nodes[path[i]].content.id.clone();
            ids.push(id);
            i += 1;
            assert(ids@ =~= ids_along(self.nodes@, path@.take(i as int)));
        }
        assert(path@.take(i as int) =~= path@);
        ids
    }

    /// The identifiers along a cheapest path from node `start` to node `end`,
    /// both included; empty where the signal cannot get through.
    pub fn transmit_signal(&self, start: usize, end: usize) -> (ids: Vec<String>)
        requires
            searchable(self.rows()),
            start < self.nodes@.len(),
            end < self.nodes@.len(),
        ensures
            ids@ == signal_path(self.nodes@, found_route(self.rows(), start as int, end as int)),
            ids@.len() > 0 <==> reachable(self.rows(), start as int, end as int),
            ids@.len() > 0 ==> ids@[0] == self.nodes@[start as int].content.id && ids@.last()
                == self.nodes@[end as int].content.id,
    {
        match self.shortest_path(start, end) {
            Some(path) => self.relay_ids(&path),
            None => Vec::new(),
        }
    }
}

/// With every point in sight of every other, `links_seen` leaves out only the
/// point itself.
pub proof fn lemma_links_all_seen(row: Seq<Sighting>, from: int, upto: int)
    requires
        0 <= from,
        0 <= upto <= row.len(),
        forall|v: int| 0 <= v < upto && v != from ==> (#[trigger] row[v]).clear(),
    ensures
        links_seen(row, from, upto).len() == if from < upto {
            upto - 1
        } else {
            upto
        },
    decreases upto,
{
    if upto > 0 {
        lemma_links_all_seen(row, from, upto - 1);
    }
}

/// The links of a built network follow the sightings: node `u` is joined to
/// node `v` exactly when they are different points and `u` sees `v`, and the
/// link then costs the measured distance.
pub proof fn lemma_links_follow_sightings(
    nodes: Seq<Node>,
    satellites: Seq<Satellite>,
    sightings: Seq<Vec<Sighting>>,
    u: int,
    v: int,
)
    requires
        satellites.len() <= usize::MAX,
        survey_fits(satellites.len(), sightings),
        is_network_of(nodes, satellites, sightings),
        0 <= u < nodes.len(),
        0 <= v < nodes.len(),
    ensures
        joined(link_rows(nodes), u, v) <==> u != v && sightings[u]@[v].clear(),
        joined(link_rows(nodes), u, v) ==> hop_cost(link_rows(nodes), u, v) == sightings[u]@[v].distance,
{
    let rows = link_rows(nodes);
    let count = satellites.len() as int;
    let links = links_seen(sightings[u]@, u, count);
    lemma_links_seen(sightings[u]@, u, count);
    assert(nodes[u].adjacent@ == links);
    if u != v && sightings[u]@[v].clear() {
        let k = choose|k: int| 0 <= k < links.len() && (#[trigger] links[k]).node == v;
        assert(rows[u][k].1 == v);
    }
    if joined(rows, u, v) {
        let k = choose|k: int| 0 <= k < rows[u].len() && (#[trigger] rows[u][k]).1 == v;
        assert(links[k].node == v);
    }
}

/// A route through a built network only ever hops from a point to another
/// point that it sees.
pub proof fn lemma_route_follows_sightings(
    nodes: Seq<Node>,
    satellites: Seq<Satellite>,
    sightings: Seq<Vec<Sighting>>,
    path: Seq<usize>,
    start: int,
    target: int,
    hop: int,
)
    requires
        satellites.len() <= usize::MAX,
        survey_fits(satellites.len(), sightings),
        is_network_of(nodes, satellites, sightings),
        is_route(link_rows(nodes), path, start, target),
        0 <= hop < path.len() - 1,
    ensures
        path[hop] != path[hop + 1],
        sightings[path[hop] as int]@[path[hop + 1] as int].clear(),
{
    let rows = link_rows(nodes);
    assert(path[hop] < rows.len());
    assert(path[hop + 1] < rows.len());
    assert(joined(rows, path[hop] as int, path[hop + 1] as int));
    lemma_links_follow_sightings(nodes, satellites, sightings, path[hop] as int, path[hop + 1] as int);
}

/// Among `n` points that all see each other the built network has
/// `n * (n - 1)` links.
pub proof fn lemma_full_mesh_link_count(
    nodes: Seq<Node>,
    satellites: Seq<Satellite>,
    sightings: Seq<Vec<Sighting>>,
)
    requires
        survey_fits(satellites.len(), sightings),
        is_network_of(nodes, satellites, sightings),
        all_in_sight(sightings),
    ensures
        link_count(nodes, nodes.len() as int) == nodes.len() * (nodes.len() - 1),
{
    lemma_full_mesh_prefix(nodes, satellites, sightings, nodes.len() as int);
}

proof fn lemma_full_mesh_prefix(
    nodes: Seq<Node>,
    satellites: Seq<Satellite>,
    sightings: Seq<Vec<Sighting>>,
    upto: int,
)
    requires
        survey_fits(satellites.len(), sightings),
        is_network_of(nodes, satellites, sightings),
        all_in_sight(sightings),
        0 <= upto <= nodes.len(),
    ensures
        link_count(nodes, upto) == upto * (nodes.len() - 1),
    decreases upto,
{
    if upto > 0 {
        let count = nodes.len() as int;
        lemma_full_mesh_prefix(nodes, satellites, sightings, upto - 1);
        lemma_links_all_seen(sightings[upto - 1]@, upto - 1, count);
        assert(nodes[upto - 1].adjacent@ == links_seen(sightings[upto - 1]@, upto - 1, count));
        assert(upto * (count - 1) == (upto - 1) * (count - 1) + (count - 1)) by (nonlinear_arith);
    } else {
        assert(upto * (nodes.len() - 1) == 0) by (nonlinear_arith)
            requires
                upto == 0,
        ;
    }
}

/// Whether the table is one that `generate_satellite_network` accepts for
/// `count` points: a sighting for every ordered pair, and no negative distance.
pub fn survey_complete(count: usize, sightings: &Vec<Vec<Sighting>>) -> (ok: bool)
    ensures
        ok == survey_fits(count as nat, sightings@),
{
    if sightings.len() != count {
        return false;
    }
    let mut u: usize = 0;
    while u < count
        invariant
            sightings@.len() == count,
            0 <= u <= count,
            forall|a: int| 0 <= a < u ==> (#[trigger] sightings@[a])@.len() == count,
            forall|a: int, b: int| 0 <= a < u && 0 <= b < count ==> (#[trigger] sightings@[a]@[b]).distance >= 0,
        decreases count - u,
    {
        let row = &sightings[u];
        if row.len() != count {
            assert(sightings@[u as int]@.len() != count);
            return false;
        }
        let mut v: usize = 0;
        while v < count
            invariant
                sightings@.len() == count,
                0 <= u < count,
                row@ == sightings@[u as int]@,
                row@.len() == count,
                0 <= v <= count,
                forall|b: int| 0 <= b < v ==> (#[trigger] sightings@[u as int]@[b]).distance >= 0,
            decreases count - v,
        {
            if row[v].distance < 0 {
                assert(sightings@[u as int]@[v as int].distance < 0);
                return false;
            }
            v += 1;
        }
        u += 1;
    }
    true
}

/// Builds the visibility graph of the given points from the sightings
/// measured between them: `sightings[u][v]` is what the ray from point `u`
/// towards point `v` met. Node `u` of the graph is point `u`.
pub fn generate_satellite_network(satellites: &[Satellite], sightings: &Vec<Vec<Sighting>>) -> (network: Network)
    requires
        survey_fits(satellites@.len(), sightings@),
    ensures
        is_network_of(network.nodes@, satellites@, sightings@),
        rows_sound(network.rows()),
{
    let count = satellites.len();
    let mut graph: Vec<Node> = Vec::new();
    let mut from: usize = 0;
    while from < count
        invariant
            count == satellites@.len(),
            survey_fits(satellites@.len(), sightings@),
            0 <= from <= count,
            graph@.len() == from,
            forall|u: int| 0 <= u < from ==> {
                &&& (#[trigger] graph@[u]).content == satellites@[u]
                &&& graph@[u].adjacent@ == links_seen(sightings@[u]@, u, count as int)
            },
        decreases count - from,
    {
        let mut adjacent: Vec<Link> = Vec::new();
        let mut to: usize = 0;
        while to < count
            invariant
                count == satellites@.len(),
                survey_fits(satellites@.len(), sightings@),
                0 <= from < count,
                0 <= to <= count,
                adjacent@ == links_seen(sightings@[from as int]@, from as int, to as int),
            decreases count - to,
        {
            let seen = sightings[from][to];
            if from != to && has_line_of_sight(seen.earth_toi, seen.guard_toi) {
                adjacent.push(Link { cost: seen.distance, node: to });
            }
            to += 1;
        }
        let id = satellites[from].id.clone();
        graph.push(Node { content: Satellite { id }, adjacent });
        from += 1;
    }
    let network = Network::new(graph);
    proof {
        let rows = network.rows();
        assert forall|u: int, k: int| 0 <= u < rows.len() && 0 <= k < rows[u].len() implies #[trigger] link_sound(
            rows,
            u,
            k,
        ) by {
            lemma_links_seen(sightings@[u]@, u, count as int);
            let links = links_seen(sightings@[u]@, u, count as int);
            assert(network.nodes@[u].adjacent@ == links);
            let link = links[k];
            assert(sightings@[u]@[link.node as int].distance >= 0);
            assert forall|j: int| 0 <= j < k implies rows[u][j].1 != rows[u][k].1 by {
                assert(links[j].node < link.node);
            }
        }
    }
    network
}

} // verus!
