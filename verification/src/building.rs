//! The building: its locations with their sensors, and the connections
//! between them.
//!
//! The locations and connections are the nodes and edges of an undirected
//! graph. A location is found by its identifier; where several locations
//! carry the same identifier, the one that was added first is meant.

use crate::graph::{
    coming, found_link, graph_add_edge, graph_add_node, graph_edge_count, graph_edge_weight,
    graph_edges, GRAPH_LIMIT, graph_links, graph_neighbors, graph_new, graph_node_count,
    graph_node_weight, graph_nodes, graph_set_node, graph_update_edge, graph_walks,
    latest_first, leaving, lemma_edge_keeps_order, lemma_found_link, lemma_links_at,
    lemma_met_is_found, lemma_node_keeps_order, Link, link_ends, links_at, neighbours_at,
};
use crate::room::{
    connection_id, room_id, staircase_id, Door, Edge, EdgeData, Floor, NoDoor, Node, NodeData,
    RoomWithDoors, RoomWithoutDoors, Staircase,
};
use crate::sensor::{sensor_views, Sensor, SensorType, SensorView};
use crate::text::{
    chars_of, contains, contains_in, decimal, matches_at, push_all, push_decimal, push_str,
    starts_with, string_of,
};
use crate::uplink::sensor_rows;
use petgraph::graph::Graph;
use petgraph::Undirected;
use vstd::prelude::*;

verus! {

/// The kinds of locations.
pub enum RoomKind {
    Floor,
    Staircase,
    RoomWithDoors,
    RoomWithoutDoors,
}

/// The mathematical value of a location.
pub struct NodeView {
    pub kind: RoomKind,
    pub id: Seq<char>,
    pub windows: bool,
    pub sensors: Seq<SensorView>,
}

impl View for Node {
    type V = NodeView;

    open spec fn view(&self) -> NodeView {
        match self.data {
            NodeData::Floor(f) => NodeView {
                kind: RoomKind::Floor,
                id: f.id@,
                windows: false,
                sensors: sensor_views(self.sensors@),
            },
            NodeData::Staircase(s) => NodeView {
                kind: RoomKind::Staircase,
                id: s.id@,
                windows: false,
                sensors: sensor_views(self.sensors@),
            },
            NodeData::RoomWithDoors(r) => NodeView {
                kind: RoomKind::RoomWithDoors,
                id: r.id@,
                windows: r.windows,
                sensors: sensor_views(self.sensors@),
            },
            NodeData::RoomWithoutDoors(r) => NodeView {
                kind: RoomKind::RoomWithoutDoors,
                id: r.id@,
                windows: r.windows,
                sensors: sensor_views(self.sensors@),
            },
        }
    }
}

/// The kinds of connections.
pub enum LinkKind {
    Door,
    NoDoor,
}

/// The mathematical value of a connection: the numbers of the two locations
/// that it joins, its kind and its identifier.
pub struct LinkView {
    pub source: int,
    pub target: int,
    pub kind: LinkKind,
    pub id: Seq<char>,
}

/// The value of a connection of the graph.
pub open spec fn link_view(link: Link) -> LinkView {
    match link.weight.data {
        EdgeData::Door(d) => LinkView {
            source: link.source,
            target: link.target,
            kind: LinkKind::Door,
            id: d.id@,
        },
        EdgeData::NoDoor(d) => LinkView {
            source: link.source,
            target: link.target,
            kind: LinkKind::NoDoor,
            id: d.id@,
        },
    }
}

/// The mathematical value of a building.
pub struct BuildingView {
    pub rooms: Seq<NodeView>,
    pub links: Seq<LinkView>,
}

/// `k` is the number of the first location with the identifier `id`.
pub open spec fn is_first_room(rooms: Seq<NodeView>, id: Seq<char>, k: int) -> bool {
    &&& 0 <= k < rooms.len()
    &&& rooms[k].id == id
    &&& forall|m: int| 0 <= m < k ==> (#[trigger] rooms[m]).id != id
}

/// No location carries the identifier `id`.
pub open spec fn no_room(rooms: Seq<NodeView>, id: Seq<char>) -> bool {
    forall|m: int| 0 <= m < rooms.len() ==> (#[trigger] rooms[m]).id != id
}

/// The identifier of the sensor with the number `index` among the sensors of
/// its type at the location `room`.
pub open spec fn sensor_name(room: Seq<char>, index: nat, type_id: Seq<char>) -> Seq<char> {
    "Sensor_"@ + room + "_no._"@ + decimal(index) + "_of_type_"@ + type_id
}

/// A sensor type and how many sensors of it a location gets.
pub struct Demand {
    pub count: int,
    pub type_id: Seq<char>,
}

/// The demands that a list of pairs states.
pub open spec fn demands(pairs: Seq<(u32, SensorType)>) -> Seq<Demand> {
    pairs.map_values(|p: (u32, SensorType)| Demand { count: p.0 as int, type_id: p.1.id@ })
}

/// The number of sensors that the first `n` demands ask for.
pub open spec fn demanded(kinds: Seq<Demand>, n: int) -> int
    decreases n,
{
    if n <= 0 {
        0
    } else {
        demanded(kinds, n - 1) + kinds[n - 1].count
    }
}

/// The first `n` sensors of one type at the location `room`. The sensors of
/// the building are numbered through; `before` is the number of the last
/// sensor that was made before these.
pub open spec fn made_of_type(room: Seq<char>, type_id: Seq<char>, before: int, n: int) -> Seq<
    SensorView,
>
    decreases n,
{
    if n <= 0 {
        Seq::empty()
    } else {
        made_of_type(room, type_id, before, n - 1).push(
            SensorView {
                id: sensor_name(room, (n - 1) as nat, type_id),
                sensor_type: type_id,
                number: before + n,
            },
        )
    }
}

/// The sensors that the first `n` demands give the location `room`.
pub open spec fn made_sensors(room: Seq<char>, kinds: Seq<Demand>, before: int, n: int) -> Seq<
    SensorView,
>
    decreases n,
{
    if n <= 0 {
        Seq::empty()
    } else {
        made_sensors(room, kinds, before, n - 1) + made_of_type(
            room,
            kinds[n - 1].type_id,
            before + demanded(kinds, n - 1),
            kinds[n - 1].count,
        )
    }
}

/// Builds the identifier of a sensor.
pub fn make_sensor_name(room: &Vec<char>, index: usize, type_id: &Vec<char>) -> (name: String)
    ensures
        name@ == sensor_name(room@, index as nat, type_id@),
{
    let mut name: Vec<char> = Vec::new();
    push_str(&mut name, "Sensor_");
    push_all(&mut name, room);
    push_str(&mut name, "_no._");
    push_decimal(&mut name, index as u128);
    push_str(&mut name, "_of_type_");
    push_all(&mut name, type_id);
    string_of(&name)
}

/// Makes the sensors that a location is to get, and returns them with the
/// number of the last sensor made.
pub fn make_sensors(room: &String, what: &Vec<(u32, SensorType)>, offspring: i64) -> (r: (
    Vec<Sensor>,
    i64,
))
    requires
        offspring + demanded(demands(what@), what.len() as int) <= i64::MAX,
    ensures
        sensor_views(r.0@) == made_sensors(
            room@,
            demands(what@),
            offspring as int,
            what.len() as int,
        ),
        r.1 == offspring + demanded(demands(what@), what.len() as int),
{
    let ghost kinds = demands(what@);
    let room_chars = chars_of(room.as_str());
    let mut sensors: Vec<Sensor> = Vec::new();
    let mut number: i64 = offspring;
    let mut p: usize = 0;
    assert(sensor_views(sensors@) =~= made_sensors(room@, kinds, offspring as int, 0));
    while p < what.len()
        invariant
            p <= what.len(),
            kinds == demands(what@),
            room_chars@ == room@,
            offspring + demanded(kinds, what.len() as int) <= i64::MAX,
            number == offspring + demanded(kinds, p as int),
            sensor_views(sensors@) == made_sensors(room@, kinds, offspring as int, p as int),
        decreases what.len() - p,
    {
        let count: u32 = what[p].0;
        let type_chars = chars_of(what[p].1.id.as_str());
        let ghost start = sensor_views(sensors@);
        let ghost first = number as int;
        assert(kinds[p as int] == Demand { count: count as int, type_id: type_chars@ });
        proof {
            lemma_demanded_grows(kinds, p as int + 1, what.len() as int);
        }
        let mut i: u32 = 0;
        assert(start + made_of_type(room@, type_chars@, first, 0) =~= start);
        while i < count
            invariant
                i <= count,
                p < what.len(),
                room_chars@ == room@,
                type_chars@ == what[p as int].1.id@,
                first + count <= i64::MAX,
                number == first + i,
                sensor_views(sensors@) == start + made_of_type(
                    room@,
                    type_chars@,
                    first,
                    i as int,
                ),
            decreases count - i,
        {
            let name = make_sensor_name(&room_chars, i as usize, &type_chars);
            number = number + 1;
            let ghost held = sensor_views(sensors@);
            let sensor = Sensor::new(name, what[p].1.duplicate(), number);
            sensors.push(sensor);
            i = i + 1;
            assert(sensor_views(sensors@) =~= held.push(sensor@));
            assert(held.push(sensor@) =~= start + made_of_type(
                room@,
                type_chars@,
                first,
                i as int,
            ));
        }
        p += 1;
    }
    (sensors, number)
}

/// The number of sensors that the demands ask for.
pub fn count_demanded(what: &Vec<(u32, SensorType)>) -> (n: u128)
    ensures
        n == demanded(demands(what@), what.len() as int),
{
    let ghost kinds = demands(what@);
    let mut n: u128 = 0;
    let mut p: usize = 0;
    while p < what.len()
        invariant
            p <= what.len(),
            kinds == demands(what@),
            n == demanded(kinds, p as int),
            n <= p * 0xffff_ffff,
        decreases what.len() - p,
    {
        assert(kinds[p as int].count == what[p as int].0);
        assert((p + 1) * 0xffff_ffff <= 0xffff_ffff_ffff_ffff * 0xffff_ffff) by (nonlinear_arith)
            requires
                0 <= p < 0xffff_ffff_ffff_ffff,
        ;
        n = n + what[p].0 as u128;
        p += 1;
    }
    n
}

/// The demands never ask for fewer sensors as more of them are counted.
pub proof fn lemma_demanded_grows(kinds: Seq<Demand>, n: int, m: int)
    requires
        0 <= n <= m <= kinds.len(),
        forall|k: int| 0 <= k < kinds.len() ==> (#[trigger] kinds[k]).count >= 0,
    ensures
        demanded(kinds, n) <= demanded(kinds, m),
    decreases m - n,
{
    if n < m {
        lemma_demanded_grows(kinds, n, m - 1);
    }
}

/// A building: its locations and the connections between them.
pub struct Building {
    /// The graph of the locations and connections.
    pub(crate) floors: Graph<Node, Edge, Undirected, u32>,
}

/// The values of the locations of a graph.
pub open spec fn room_views(nodes: Seq<Node>) -> Seq<NodeView> {
    nodes.map_values(|n: Node| n@)
}

/// The values of the connections of a graph.
pub open spec fn link_views(links: Seq<Link>) -> Seq<LinkView> {
    links.map_values(|l: Link| link_view(l))
}

impl View for Building {
    type V = BuildingView;

    open(crate) spec fn view(&self) -> BuildingView {
        BuildingView {
            rooms: room_views(graph_nodes(self.floors)),
            links: link_views(graph_links(self.floors)),
        }
    }
}

/// The staircase with the given number, without sensors.
pub open spec fn staircase_view(id_count: int) -> NodeView {
    NodeView {
        kind: RoomKind::Staircase,
        id: staircase_id(id_count),
        windows: false,
        sensors: Seq::empty(),
    }
}

/// The room of the given kind and number with the sensors that `kinds` asks
/// for. `parent` is the identifier of the room around a sub-room.
pub open spec fn room_view(
    kind: RoomKind,
    id_count: int,
    parent: Option<Seq<char>>,
    windows: bool,
    kinds: Seq<Demand>,
    before: int,
) -> NodeView {
    let marker = match kind {
        RoomKind::RoomWithDoors => "RwD"@,
        _ => "RwnD"@,
    };
    let id = match parent {
        Some(p) => room_id(marker, id_count, true, p),
        None => room_id(marker, id_count, false, Seq::empty()),
    };
    NodeView { kind, id, windows, sensors: made_sensors(id, kinds, before, kinds.len() as int) }
}

impl Building {
    /// The graph holds no more than it can, every connection joins two of
    /// its locations, and the graph walks the connections at a location with
    /// the latest first: no connection was ever taken out of it.
    pub open(crate) spec fn wf(&self) -> bool {
        &&& graph_nodes(self.floors).len() <= GRAPH_LIMIT
        &&& graph_links(self.floors).len() <= GRAPH_LIMIT
        &&& latest_first(
            graph_walks(self.floors),
            link_ends(graph_links(self.floors)),
            graph_nodes(self.floors).len() as int,
        )
        &&& forall|k: int|
            0 <= k < self@.links.len() ==> {
                &&& 0 <= (#[trigger] self@.links[k]).source < self@.rooms.len()
                &&& 0 <= self@.links[k].target < self@.rooms.len()
            }
    }

    /// A building without locations.
    pub fn new() -> (building: Building)
        ensures
            building.wf(),
            building@.rooms.len() == 0,
            building@.links.len() == 0,
    {
        let building = Building { floors: graph_new() };
        assert(link_ends(graph_links(building.floors)) =~= Seq::<(int, int)>::empty());
        building
    }

    /// The graph that holds the building.
    pub closed spec fn graph(&self) -> Graph<Node, Edge, Undirected, u32> {
        self.floors
    }

    /// The locations and connections as a graph.
    pub fn get_floors(&self) -> (floors: &Graph<Node, Edge, Undirected, u32>)
        ensures
            *floors == self.graph(),
    {
        &self.floors
    }

    /// The locations and connections as a graph.
    pub fn get_graph_structure(&self) -> (floors: &Graph<Node, Edge, Undirected, u32>)
        ensures
            *floors == self.graph(),
    {
        self.get_floors()
    }

    /// The number of locations.
    pub fn get_number_of_rooms(&self) -> (n: usize)
        ensures
            n == self@.rooms.len(),
    {
        graph_node_count(&self.floors)
    }

    /// The number of connections.
    pub fn get_number_of_connections(&self) -> (n: usize)
        ensures
            n == self@.links.len(),
    {
        graph_edge_count(&self.floors)
    }

    /// The identifier of the location with the number `a`.
    pub fn room_id_at(&self, a: usize) -> (id: String)
        requires
            self.wf(),
            a < self@.rooms.len(),
        ensures
            id@ == self@.rooms[a as int].id,
    {
        match graph_node_weight(&self.floors, a) {
            Some(node) => match &node.data {
                NodeData::Floor(f) => f.id.clone(),
                NodeData::Staircase(s) => s.id.clone(),
                NodeData::RoomWithDoors(r) => r.id.clone(),
                NodeData::RoomWithoutDoors(r) => r.id.clone(),
            },
            None => String::new(),
        }
    }

    /// The number of the first location with the identifier `id`.
    pub fn find_room(&self, id: &String) -> (r: Option<usize>)
        requires
            self.wf(),
        ensures
            match r {
                Some(k) => is_first_room(self@.rooms, id@, k as int),
                None => no_room(self@.rooms, id@),
            },
    {
        let n = self.get_number_of_rooms();
        let mut k: usize = 0;
        while k < n
            invariant
                k <= n,
                n == self@.rooms.len(),
                self.wf(),
                forall|m: int| 0 <= m < k ==> (#[trigger] self@.rooms[m]).id != id@,
            decreases n - k,
        {
            let held = self.room_id_at(k);
            if held == *id {
                return Some(k);
            }
            k += 1;
        }
        None
    }

    /// Puts a location behind the locations that are there.
    fn add_node(&mut self, node: Node)
        requires
            old(self).wf(),
            old(self)@.rooms.len() < GRAPH_LIMIT,
        ensures
            final(self).wf(),
            final(self)@.rooms == old(self)@.rooms.push(node@),
            final(self)@.links == old(self)@.links,
    {
        proof {
            self.lemma_ends();
            lemma_node_keeps_order(
                graph_walks(self.floors),
                link_ends(graph_links(self.floors)),
                graph_nodes(self.floors).len() as int,
            );
        }
        let _ = graph_add_node(&mut self.floors, node);
        assert(self@.rooms =~= old(self)@.rooms.push(node@));
    }

    /// Adds the staircase with the given number.
    pub fn add_staircase(&mut self, id_count: i32)
        requires
            old(self).wf(),
            old(self)@.rooms.len() < GRAPH_LIMIT,
        ensures
            final(self).wf(),
            final(self)@.rooms == old(self)@.rooms.push(staircase_view(id_count as int)),
            final(self)@.links == old(self)@.links,
    {
        let node = Node { data: NodeData::Staircase(Staircase::new(id_count)), sensors: Vec::new() };
        assert(node@.sensors =~= Seq::<SensorView>::empty());
        self.add_node(node);
    }

    /// Adds the room with doors of the given number, with the sensors that
    /// `what_sensor_should_be_create` asks for, and returns the number of the
    /// last sensor made.
    pub fn add_room_with_doors(
        &mut self,
        id_count: i32,
        what_sensor_should_be_create: Vec<(u32, SensorType)>,
        windows: bool,
        offspring_number_for_sensors: i64,
    ) -> (offspring: i64)
        requires
            old(self).wf(),
            old(self)@.rooms.len() < GRAPH_LIMIT,
            offspring_number_for_sensors + demanded(
                demands(what_sensor_should_be_create@),
                what_sensor_should_be_create.len() as int,
            ) <= i64::MAX,
        ensures
            final(self).wf(),
            final(self)@.rooms == old(self)@.rooms.push(
                room_view(
                    RoomKind::RoomWithDoors,
                    id_count as int,
                    None,
                    windows,
                    demands(what_sensor_should_be_create@),
                    offspring_number_for_sensors as int,
                ),
            ),
            final(self)@.links == old(self)@.links,
            offspring == offspring_number_for_sensors + demanded(
                demands(what_sensor_should_be_create@),
                what_sensor_should_be_create.len() as int,
            ),
    {
        let room = RoomWithDoors::new(id_count, false, String::new(), windows);
        let (sensors, offspring) = make_sensors(
            &room.id,
            &what_sensor_should_be_create,
            offspring_number_for_sensors,
        );
        self.add_node(Node { data: NodeData::RoomWithDoors(room), sensors });
        offspring
    }

    /// Adds the room without doors of the given number, with the sensors that
    /// `what_sensor_should_be_create` asks for, and returns the number of the
    /// last sensor made.
    pub fn add_room_without_doors(
        &mut self,
        id_count: i32,
        what_sensor_should_be_create: Vec<(u32, SensorType)>,
        windows: bool,
        offspring_number_for_sensors: i64,
    ) -> (offspring: i64)
        requires
            old(self).wf(),
            old(self)@.rooms.len() < GRAPH_LIMIT,
            offspring_number_for_sensors + demanded(
                demands(what_sensor_should_be_create@),
                what_sensor_should_be_create.len() as int,
            ) <= i64::MAX,
        ensures
            final(self).wf(),
            final(self)@.rooms == old(self)@.rooms.push(
                room_view(
                    RoomKind::RoomWithoutDoors,
                    id_count as int,
                    None,
                    windows,
                    demands(what_sensor_should_be_create@),
                    offspring_number_for_sensors as int,
                ),
            ),
            final(self)@.links == old(self)@.links,
            offspring == offspring_number_for_sensors + demanded(
                demands(what_sensor_should_be_create@),
                what_sensor_should_be_create.len() as int,
            ),
    {
        let room = RoomWithoutDoors::new(id_count, false, String::new(), windows);
        let (sensors, offspring) = make_sensors(
            &room.id,
            &what_sensor_should_be_create,
            offspring_number_for_sensors,
        );
        self.add_node(Node { data: NodeData::RoomWithoutDoors(room), sensors });
        offspring
    }
}

/// The two ends of every connection.
pub open spec fn view_ends(links: Seq<LinkView>) -> Seq<(int, int)> {
    links.map_values(|l: LinkView| (l.source, l.target))
}

/// What the search for the two rooms of a connection has found among the
/// first `n` locations. The search goes through the locations in order and
/// ends once both rooms are found; a later location takes the place of an
/// earlier one with the same identifier, and a location that carries the
/// first identifier is never taken for the second room.
pub open spec fn scan_pair(rooms: Seq<NodeView>, first: Seq<char>, second: Seq<char>, n: int) -> (
    Option<int>,
    Option<int>,
)
    decreases n,
{
    if n <= 0 {
        (None, None)
    } else {
        let found = scan_pair(rooms, first, second, n - 1);
        if found.0 is Some && found.1 is Some {
            found
        } else if rooms[n - 1].id == first {
            (Some(n - 1), found.1)
        } else if rooms[n - 1].id == second {
            (found.0, Some(n - 1))
        } else {
            found
        }
    }
}

/// The connections once the locations `a` and `b` are connected: the
/// connection that joins them already becomes what is given, or a new
/// connection follows the others.
pub open spec fn connected(links: Seq<LinkView>, a: int, b: int, kind: LinkKind, id: Seq<char>) -> Seq<
    LinkView,
> {
    match found_link(view_ends(links), a, b) {
        Some(k) => links.update(
            k,
            LinkView { source: links[k].source, target: links[k].target, kind, id },
        ),
        None => links.push(LinkView { source: a, target: b, kind, id }),
    }
}

/// The identifiers of the neighbours of the first location with the given
/// identifier, one for each of its connections: first along the connections
/// that were made from it, then along those that were made to it, the latest
/// first in both.
pub open spec fn neighbour_ids(building: BuildingView, id: Seq<char>) -> Seq<Seq<char>> {
    if exists|k: int| is_first_room(building.rooms, id, k) {
        let k = choose|k: int| is_first_room(building.rooms, id, k);
        neighbours_at(view_ends(building.links), k).map_values(|n: int| building.rooms[n].id)
    } else {
        Seq::empty()
    }
}

/// The identifiers of the connections of the first location with the given
/// identifier, in the order of [`neighbour_ids`].
pub open spec fn connection_ids(building: BuildingView, id: Seq<char>) -> Seq<Seq<char>> {
    if exists|k: int| is_first_room(building.rooms, id, k) {
        let k = choose|k: int| is_first_room(building.rooms, id, k);
        links_at(view_ends(building.links), k).map_values(|e: int| building.links[e].id)
    } else {
        Seq::empty()
    }
}

/// The values of a list of strings.
pub open spec fn texts(strings: Seq<String>) -> Seq<Seq<char>> {
    strings.map_values(|s: String| s@)
}

/// Only one location is the first with a given identifier.
pub proof fn lemma_first_room_unique(rooms: Seq<NodeView>, id: Seq<char>, k: int)
    requires
        is_first_room(rooms, id, k),
    ensures
        (choose|c: int| is_first_room(rooms, id, c)) == k,
{
    let c = choose|c: int| is_first_room(rooms, id, c);
    if c < k {
        assert(rooms[c].id != id);
    } else if k < c {
        assert(rooms[k].id != id);
    }
}

impl Building {
    /// The ends of the connections of the graph are those of their values.
    proof fn lemma_ends(&self)
        ensures
            view_ends(self@.links) == link_ends(graph_links(self.floors)),
    {
        assert(view_ends(self@.links) =~= link_ends(graph_links(self.floors)));
    }

    /// The identifier of the connection with the number `e`.
    pub fn connection_id_at(&self, e: usize) -> (id: String)
        requires
            self.wf(),
            e < self@.links.len(),
        ensures
            id@ == self@.links[e as int].id,
    {
        match graph_edge_weight(&self.floors, e) {
            Some(edge) => match &edge.data {
                EdgeData::Door(d) => d.id.clone(),
                EdgeData::NoDoor(d) => d.id.clone(),
            },
            None => String::new(),
        }
    }

    /// Searches the two rooms of a connection.
    pub fn find_pair(&self, id_room_1: &String, id_room_2: &String) -> (r: (
        Option<usize>,
        Option<usize>,
    ))
        requires
            self.wf(),
        ensures
            match scan_pair(self@.rooms, id_room_1@, id_room_2@, self@.rooms.len() as int).0 {
                Some(a) => r.0 == Some(a as usize) && 0 <= a < self@.rooms.len(),
                None => r.0 is None,
            },
            match scan_pair(self@.rooms, id_room_1@, id_room_2@, self@.rooms.len() as int).1 {
                Some(b) => r.1 == Some(b as usize) && 0 <= b < self@.rooms.len(),
                None => r.1 is None,
            },
    {
        let n = self.get_number_of_rooms();
        let mut node1: Option<usize> = None;
        let mut node2: Option<usize> = None;
        let mut k: usize = 0;
        while k < n
            invariant
                k <= n,
                n == self@.rooms.len(),
                self.wf(),
                match scan_pair(self@.rooms, id_room_1@, id_room_2@, k as int).0 {
                    Some(a) => node1 == Some(a as usize) && 0 <= a < k,
                    None => node1 is None,
                },
                match scan_pair(self@.rooms, id_room_1@, id_room_2@, k as int).1 {
                    Some(b) => node2 == Some(b as usize) && 0 <= b < k,
                    None => node2 is None,
                },
            decreases n - k,
        {
            if node1.is_some() && node2.is_some() {
                k += 1;
            } else {
                let id = self.room_id_at(k);
                if id == *id_room_1 {
                    node1 = Some(k);
                } else if id == *id_room_2 {
                    node2 = Some(k);
                }
                k += 1;
            }
        }
        (node1, node2)
    }

    /// Connects the locations `a` and `b`.
    fn connect(&mut self, a: usize, b: usize, edge: Edge, Ghost(kind): Ghost<LinkKind>, Ghost(id): Ghost<Seq<char>>)
        requires
            old(self).wf(),
            a < old(self)@.rooms.len(),
            b < old(self)@.rooms.len(),
            old(self)@.links.len() < GRAPH_LIMIT,
            forall|x: int, y: int|
                link_view(Link { source: x, target: y, weight: edge }) == (LinkView {
                    source: x,
                    target: y,
                    kind,
                    id,
                }),
        ensures
            final(self).wf(),
            final(self)@.rooms == old(self)@.rooms,
            final(self)@.links == connected(old(self)@.links, a as int, b as int, kind, id),
            final(self)@.links.len() <= old(self)@.links.len() + 1,
    {
        proof {
            self.lemma_ends();
            lemma_found_link(view_ends(self@.links), a as int, b as int);
            lemma_met_is_found(
                graph_walks(self.floors),
                link_ends(graph_links(self.floors)),
                graph_nodes(self.floors).len() as int,
                a as int,
                b as int,
            );
            lemma_edge_keeps_order(
                graph_walks(self.floors),
                link_ends(graph_links(self.floors)),
                graph_nodes(self.floors).len() as int,
                a as int,
                b as int,
            );
        }
        let ghost before = graph_links(self.floors);
        let _ = graph_update_edge(&mut self.floors, a, b, edge);
        proof {
            let after = graph_links(self.floors);
            match found_link(link_ends(before), a as int, b as int) {
                Some(k) => {
                    assert(link_ends(after) =~= link_ends(before));
                    assert(link_view(after[k]) == (LinkView {
                        source: before[k].source,
                        target: before[k].target,
                        kind,
                        id,
                    }));
                    assert(link_views(before)[k] == link_view(before[k]));
                },
                None => {
                    assert(link_ends(after) =~= link_ends(before).push((a as int, b as int)));
                    assert(link_view(after[before.len() as int]) == (LinkView {
                        source: a as int,
                        target: b as int,
                        kind,
                        id,
                    }));
                },
            }
            assert(self@.links =~= connected(old(self)@.links, a as int, b as int, kind, id));
            assert forall|k: int| 0 <= k < self@.links.len() implies {
                &&& 0 <= (#[trigger] self@.links[k]).source < self@.rooms.len()
                &&& 0 <= self@.links[k].target < self@.rooms.len()
            } by {
                if k < old(self)@.links.len() {
                    assert(0 <= old(self)@.links[k].source < old(self)@.rooms.len());
                }
            }
        }
    }

    /// Connects the rooms `id_room_1` and `id_room_2` through the door with the
    /// given number. Nothing is changed, and `false` is returned, where one
    /// of the rooms is not found.
    pub fn new_door_connection(&mut self, id_room_1: String, id_room_2: String, door_id: i32) -> (ok:
        bool)
        requires
            old(self).wf(),
            old(self)@.links.len() < GRAPH_LIMIT,
        ensures
            final(self).wf(),
            final(self)@.rooms == old(self)@.rooms,
            final(self)@.links.len() <= old(self)@.links.len() + 1,
            match scan_pair(
                old(self)@.rooms,
                id_room_1@,
                id_room_2@,
                old(self)@.rooms.len() as int,
            ) {
                (Some(a), Some(b)) => ok && final(self)@.links == connected(
                    old(self)@.links,
                    a,
                    b,
                    LinkKind::Door,
                    connection_id("Door"@, door_id as int, false),
                ),
                _ => !ok && final(self)@.links == old(self)@.links,
            },
    {
        match self.find_pair(&id_room_1, &id_room_2) {
            (Some(a), Some(b)) => {
                let door = Door::new(door_id, false);
                let ghost id = door.id@;
                self.connect(
                    a,
                    b,
                    Edge { data: EdgeData::Door(door) },
                    Ghost(LinkKind::Door),
                    Ghost(id),
                );
                true
            },
            _ => false,
        }
    }

    /// Connects the rooms `id_room_1` and `id_room_2` without a door. Nothing
    /// is changed, and `false` is returned, where one of the rooms is not
    /// found.
    pub fn new_no_door_connection(&mut self, id_room_1: String, id_room_2: String, door_id: i32) -> (ok:
        bool)
        requires
            old(self).wf(),
            old(self)@.links.len() < GRAPH_LIMIT,
        ensures
            final(self).wf(),
            final(self)@.rooms == old(self)@.rooms,
            final(self)@.links.len() <= old(self)@.links.len() + 1,
            match scan_pair(
                old(self)@.rooms,
                id_room_1@,
                id_room_2@,
                old(self)@.rooms.len() as int,
            ) {
                (Some(a), Some(b)) => ok && final(self)@.links == connected(
                    old(self)@.links,
                    a,
                    b,
                    LinkKind::NoDoor,
                    connection_id("NoDoor"@, door_id as int, false),
                ),
                _ => !ok && final(self)@.links == old(self)@.links,
            },
    {
        match self.find_pair(&id_room_1, &id_room_2) {
            (Some(a), Some(b)) => {
                let no_door = NoDoor::new(door_id, false);
                let ghost id = no_door.id@;
                self.connect(
                    a,
                    b,
                    Edge { data: EdgeData::NoDoor(no_door) },
                    Ghost(LinkKind::NoDoor),
                    Ghost(id),
                );
                true
            },
            _ => false,
        }
    }

    /// The identifiers of the neighbours of the room `id`. A room that is not
    /// found has none.
    pub fn get_neighbours_ids(&mut self, id: String) -> (ids: Vec<String>)
        requires
            old(self).wf(),
        ensures
            *final(self) == *old(self),
            texts(ids@) == neighbour_ids(old(self)@, id@),
    {
        let mut ids: Vec<String> = Vec::new();
        let a = match self.find_room(&id) {
            Some(a) => a,
            None => {
                assert(texts(ids@) =~= neighbour_ids(self@, id@));
                return ids;
            },
        };
        let found = graph_neighbors(&self.floors, a);
        proof {
            self.lemma_ends();
            lemma_first_room_unique(self@.rooms, id@, a as int);
            lemma_links_at(view_ends(self@.links), a as int, self@.links.len() as int);
        }
        let ghost ends = view_ends(self@.links);
        let ghost near = neighbours_at(ends, a as int);
        let ghost at = links_at(ends, a as int);
        assert forall|i: int| 0 <= i < near.len() implies 0 <= #[trigger] near[i]
            < self@.rooms.len() by {
            let e = at[i];
            if i < leaving(ends, a as int, ends.len() as int).len() {
                assert(e == leaving(ends, a as int, ends.len() as int)[i]);
            } else {
                assert(e == coming(ends, a as int, ends.len() as int)[i - leaving(
                    ends,
                    a as int,
                    ends.len() as int,
                ).len()]);
            }
            assert(0 <= e < self@.links.len());
            assert(0 <= self@.links[e].source < self@.rooms.len());
        }
        let mut i: usize = 0;
        while i < found.len()
            invariant
                i <= found.len(),
                self.wf(),
                found@.map_values(|n: usize| n as int) == near,
                forall|k: int| 0 <= k < near.len() ==> 0 <= #[trigger] near[k] < self@.rooms.len(),
                ids.len() == i,
                forall|k: int| 0 <= k < i ==> (#[trigger] ids[k])@ == self@.rooms[near[k]].id,
            decreases found.len() - i,
        {
            assert(found@.map_values(|n: usize| n as int)[i as int] == found[i as int] as int);
            assert(0 <= near[i as int] < self@.rooms.len());
            ids.push(self.room_id_at(found[i]));
            i += 1;
        }
        assert(found@.map_values(|n: usize| n as int).len() == found.len());
        assert(texts(ids@) =~= neighbour_ids(self@, id@));
        ids
    }

    /// The identifiers of the connections of the room `id`. A room that is
    /// not found has none.
    pub fn get_connection_ids(&mut self, id: String) -> (ids: Vec<String>)
        requires
            old(self).wf(),
        ensures
            *final(self) == *old(self),
            texts(ids@) == connection_ids(old(self)@, id@),
    {
        let mut ids: Vec<String> = Vec::new();
        let a = match self.find_room(&id) {
            Some(a) => a,
            None => {
                assert(texts(ids@) =~= connection_ids(self@, id@));
                return ids;
            },
        };
        let found = graph_edges(&self.floors, a);
        proof {
            self.lemma_ends();
            lemma_first_room_unique(self@.rooms, id@, a as int);
            lemma_links_at(view_ends(self@.links), a as int, self@.links.len() as int);
        }
        let ghost ends = view_ends(self@.links);
        let ghost at = links_at(ends, a as int);
        assert forall|i: int| 0 <= i < at.len() implies 0 <= #[trigger] at[i]
            < self@.links.len() by {
            if i < leaving(ends, a as int, ends.len() as int).len() {
                assert(at[i] == leaving(ends, a as int, ends.len() as int)[i]);
            } else {
                assert(at[i] == coming(ends, a as int, ends.len() as int)[i - leaving(
                    ends,
                    a as int,
                    ends.len() as int,
                ).len()]);
            }
        }
        let mut i: usize = 0;
        while i < found.len()
            invariant
                i <= found.len(),
                self.wf(),
                found@.map_values(|e: usize| e as int) == at,
                forall|k: int| 0 <= k < at.len() ==> 0 <= #[trigger] at[k] < self@.links.len(),
                ids.len() == i,
                forall|k: int| 0 <= k < i ==> (#[trigger] ids[k])@ == self@.links[at[k]].id,
            decreases found.len() - i,
        {
            assert(found@.map_values(|e: usize| e as int)[i as int] == found[i as int] as int);
            assert(0 <= at[i as int] < self@.links.len());
            ids.push(self.connection_id_at(found[i]));
            i += 1;
        }
        assert(found@.map_values(|e: usize| e as int).len() == found.len());
        assert(texts(ids@) =~= connection_ids(self@, id@));
        ids
    }
}

/// The text that the identifiers of connections of a kind begin with.
pub open spec fn link_marker(kind: LinkKind) -> Seq<char> {
    match kind {
        LinkKind::Door => "Door"@,
        LinkKind::NoDoor => "NoDoor"@,
    }
}

/// The building once the location `parent` has got its first `n` sub-rooms:
/// each follows the locations that are there, with its own sensors, and is
/// connected from the parent by a connection of its own.
pub open spec fn with_sub_rooms(
    building: BuildingView,
    parent: int,
    parent_id: Seq<char>,
    kind: RoomKind,
    link: LinkKind,
    windows: bool,
    kinds: Seq<Demand>,
    before: int,
    n: int,
) -> BuildingView
    decreases n,
{
    if n <= 0 {
        building
    } else {
        let b = with_sub_rooms(building, parent, parent_id, kind, link, windows, kinds, before, n - 1);
        BuildingView {
            rooms: b.rooms.push(
                room_view(
                    kind,
                    n - 1,
                    Some(parent_id),
                    windows,
                    kinds,
                    before + (n - 1) * demanded(kinds, kinds.len() as int),
                ),
            ),
            links: b.links.push(
                LinkView {
                    source: parent,
                    target: b.rooms.len() as int,
                    kind: link,
                    id: connection_id(link_marker(link), n - 1, true),
                },
            ),
        }
    }
}

/// The kind of a sub-room.
pub open spec fn sub_room_kind(with_doors: bool) -> RoomKind {
    if with_doors {
        RoomKind::RoomWithDoors
    } else {
        RoomKind::RoomWithoutDoors
    }
}

/// The kind of the connection that leads into a sub-room.
pub open spec fn sub_link_kind(with_doors: bool) -> LinkKind {
    if with_doors {
        LinkKind::Door
    } else {
        LinkKind::NoDoor
    }
}

/// The number of sub-rooms that a call for `number_of_rooms` makes.
pub open spec fn sub_room_count(number_of_rooms: int) -> int {
    if number_of_rooms < 0 {
        0
    } else {
        number_of_rooms
    }
}

impl Building {
    /// Adds sub-rooms of one kind to the first room with the identifier
    /// `parent_id`.
    fn add_sub_rooms(
        &mut self,
        number_of_rooms: i32,
        parent_id: String,
        what: Vec<(u32, SensorType)>,
        windows: bool,
        offspring_number_sensors: i64,
        with_doors: bool,
    ) -> (r: (bool, i64))
        requires
            old(self).wf(),
            old(self)@.rooms.len() + sub_room_count(number_of_rooms as int) <= GRAPH_LIMIT,
            old(self)@.links.len() + sub_room_count(number_of_rooms as int) <= GRAPH_LIMIT,
            offspring_number_sensors + sub_room_count(number_of_rooms as int) * demanded(
                demands(what@),
                what.len() as int,
            ) <= i64::MAX,
        ensures
            final(self).wf(),
            final(self)@.rooms.len() == old(self)@.rooms.len() + if r.0 {
                sub_room_count(number_of_rooms as int)
            } else {
                0
            },
            final(self)@.links.len() == old(self)@.links.len() + if r.0 {
                sub_room_count(number_of_rooms as int)
            } else {
                0
            },
            match r.0 {
                true => exists|parent: int|
                    {
                        &&& is_first_room(old(self)@.rooms, parent_id@, parent)
                        &&& final(self)@ == #[trigger] with_sub_rooms(
                            old(self)@,
                            parent,
                            parent_id@,
                            sub_room_kind(with_doors),
                            sub_link_kind(with_doors),
                            windows,
                            demands(what@),
                            offspring_number_sensors as int,
                            sub_room_count(number_of_rooms as int),
                        )
                        &&& r.1 == offspring_number_sensors + sub_room_count(number_of_rooms as int)
                            * demanded(demands(what@), what.len() as int)
                    },
                false => {
                    &&& no_room(old(self)@.rooms, parent_id@)
                    &&& final(self)@ == old(self)@
                    &&& r.1 == offspring_number_sensors
                },
            },
    {
        let parent = match self.find_room(&parent_id) {
            Some(parent) => parent,
            None => {
                return (false, offspring_number_sensors);
            },
        };
        let ghost start = self@;
        let ghost kinds = demands(what@);
        let ghost total = demanded(kinds, what.len() as int);
        let ghost kind = sub_room_kind(with_doors);
        let ghost link = sub_link_kind(with_doors);
        let ghost count = sub_room_count(number_of_rooms as int);
        proof {
            lemma_demanded_grows(kinds, 0, what.len() as int);
        }
        let mut offspring: i64 = offspring_number_sensors;
        let mut id: i32 = 0;
        while id < number_of_rooms
            invariant
                0 <= id,
                id <= count,
                count == sub_room_count(number_of_rooms as int),
                self.wf(),
                parent < start.rooms.len(),
                kinds == demands(what@),
                total == demanded(kinds, what.len() as int),
                total >= 0,
                start.rooms.len() + count <= GRAPH_LIMIT,
                start.links.len() + count <= GRAPH_LIMIT,
                offspring_number_sensors + count * total <= i64::MAX,
                offspring == offspring_number_sensors + id * total,
                self@ == with_sub_rooms(
                    start,
                    parent as int,
                    parent_id@,
                    kind,
                    link,
                    windows,
                    kinds,
                    offspring_number_sensors as int,
                    id as int,
                ),
                self@.rooms.len() == start.rooms.len() + id,
                self@.links.len() == start.links.len() + id,
                kind == sub_room_kind(with_doors),
                link == sub_link_kind(with_doors),
            decreases number_of_rooms - id,
        {
            assert((id + 1) * total == id * total + total) by (nonlinear_arith);
            assert((id + 1) * total <= count * total) by (nonlinear_arith)
                requires
                    id + 1 <= count,
                    total >= 0,
            ;
            let ghost held = self@;
            let node = if with_doors {
                let room = RoomWithDoors::new(id, true, parent_id.clone(), windows);
                let (sensors, last) = make_sensors(&room.id, &what, offspring);
                offspring = last;
                Node { data: NodeData::RoomWithDoors(room), sensors }
            } else {
                let room = RoomWithoutDoors::new(id, true, parent_id.clone(), windows);
                let (sensors, last) = make_sensors(&room.id, &what, offspring);
                offspring = last;
                Node { data: NodeData::RoomWithoutDoors(room), sensors }
            };
            proof {
                self.lemma_ends();
                lemma_node_keeps_order(
                    graph_walks(self.floors),
                    link_ends(graph_links(self.floors)),
                    graph_nodes(self.floors).len() as int,
                );
            }
            let ghost ends = link_ends(graph_links(self.floors));
            let target = graph_add_node(&mut self.floors, node);
            proof {
                lemma_edge_keeps_order(
                    graph_walks(self.floors),
                    ends,
                    graph_nodes(self.floors).len() as int,
                    parent as int,
                    target as int,
                );
            }
            let edge = if with_doors {
                Edge { data: EdgeData::Door(Door::new(id, true)) }
            } else {
                Edge { data: EdgeData::NoDoor(NoDoor::new(id, true)) }
            };
            let _ = graph_add_edge(&mut self.floors, parent, target, edge);
            id = id + 1;
            proof {
                assert(link_ends(graph_links(self.floors)) =~= ends.push(
                    (parent as int, target as int),
                ));
                let next = with_sub_rooms(
                    start,
                    parent as int,
                    parent_id@,
                    kind,
                    link,
                    windows,
                    kinds,
                    offspring_number_sensors as int,
                    id as int,
                );
                assert(self@.rooms =~= next.rooms);
                assert(self@.links =~= next.links);
                assert forall|k: int| 0 <= k < self@.links.len() implies {
                    &&& 0 <= (#[trigger] self@.links[k]).source < self@.rooms.len()
                    &&& 0 <= self@.links[k].target < self@.rooms.len()
                } by {
                    if k < held.links.len() {
                        assert(0 <= held.links[k].source < held.rooms.len());
                    }
                }
            }
        }
        (true, offspring)
    }

    /// Adds `number_of_rooms` sub-rooms with doors to the room `parent_id`,
    /// each behind a door of its own. Nothing is changed, and `false` is
    /// returned, where the room is not found.
    pub fn add_sub_rooms_with_doors(
        &mut self,
        number_of_rooms: i32,
        parent_id: String,
        what_sensor_should_be_create: Vec<(u32, SensorType)>,
        windows: bool,
        offspring_number_sensors: i64,
    ) -> (r: (bool, i64))
        requires
            old(self).wf(),
            old(self)@.rooms.len() + sub_room_count(number_of_rooms as int) <= GRAPH_LIMIT,
            old(self)@.links.len() + sub_room_count(number_of_rooms as int) <= GRAPH_LIMIT,
            offspring_number_sensors + sub_room_count(number_of_rooms as int) * demanded(
                demands(what_sensor_should_be_create@),
                what_sensor_should_be_create.len() as int,
            ) <= i64::MAX,
        ensures
            final(self).wf(),
            final(self)@.rooms.len() == old(self)@.rooms.len() + if r.0 {
                sub_room_count(number_of_rooms as int)
            } else {
                0
            },
            final(self)@.links.len() == old(self)@.links.len() + if r.0 {
                sub_room_count(number_of_rooms as int)
            } else {
                0
            },
            match r.0 {
                true => exists|parent: int|
                    {
                        &&& is_first_room(old(self)@.rooms, parent_id@, parent)
                        &&& final(self)@ == #[trigger] with_sub_rooms(
                            old(self)@,
                            parent,
                            parent_id@,
                            RoomKind::RoomWithDoors,
                            LinkKind::Door,
                            windows,
                            demands(what_sensor_should_be_create@),
                            offspring_number_sensors as int,
                            sub_room_count(number_of_rooms as int),
                        )
                        &&& r.1 == offspring_number_sensors + sub_room_count(number_of_rooms as int)
                            * demanded(
                            demands(what_sensor_should_be_create@),
                            what_sensor_should_be_create.len() as int,
                        )
                    },
                false => {
                    &&& no_room(old(self)@.rooms, parent_id@)
                    &&& final(self)@ == old(self)@
                    &&& r.1 == offspring_number_sensors
                },
            },
    {
        self.add_sub_rooms(
            number_of_rooms,
            parent_id,
            what_sensor_should_be_create,
            windows,
            offspring_number_sensors,
            true,
        )
    }

    /// Adds `number_of_rooms` sub-rooms without doors to the room `parent_id`,
    /// each behind an open connection of its own. Nothing is changed, and
    /// `false` is returned, where the room is not found.
    pub fn add_sub_rooms_without_doors(
        &mut self,
        number_of_rooms: i32,
        parent_id: String,
        what_sensor_should_be_create: Vec<(u32, SensorType)>,
        windows: bool,
        offspring_number_sensors: i64,
    ) -> (r: (bool, i64))
        requires
            old(self).wf(),
            old(self)@.rooms.len() + sub_room_count(number_of_rooms as int) <= GRAPH_LIMIT,
            old(self)@.links.len() + sub_room_count(number_of_rooms as int) <= GRAPH_LIMIT,
            offspring_number_sensors + sub_room_count(number_of_rooms as int) * demanded(
                demands(what_sensor_should_be_create@),
                what_sensor_should_be_create.len() as int,
            ) <= i64::MAX,
        ensures
            final(self).wf(),
            final(self)@.rooms.len() == old(self)@.rooms.len() + if r.0 {
                sub_room_count(number_of_rooms as int)
            } else {
                0
            },
            final(self)@.links.len() == old(self)@.links.len() + if r.0 {
                sub_room_count(number_of_rooms as int)
            } else {
                0
            },
            match r.0 {
                true => exists|parent: int|
                    {
                        &&& is_first_room(old(self)@.rooms, parent_id@, parent)
                        &&& final(self)@ == #[trigger] with_sub_rooms(
                            old(self)@,
                            parent,
                            parent_id@,
                            RoomKind::RoomWithoutDoors,
                            LinkKind::NoDoor,
                            windows,
                            demands(what_sensor_should_be_create@),
                            offspring_number_sensors as int,
                            sub_room_count(number_of_rooms as int),
                        )
                        &&& r.1 == offspring_number_sensors + sub_room_count(number_of_rooms as int)
                            * demanded(
                            demands(what_sensor_should_be_create@),
                            what_sensor_should_be_create.len() as int,
                        )
                    },
                false => {
                    &&& no_room(old(self)@.rooms, parent_id@)
                    &&& final(self)@ == old(self)@
                    &&& r.1 == offspring_number_sensors
                },
            },
    {
        self.add_sub_rooms(
            number_of_rooms,
            parent_id,
            what_sensor_should_be_create,
            windows,
            offspring_number_sensors,
            false,
        )
    }
}

/// The given sensors under the names that they get at the location `room`.
pub open spec fn renamed(sensors: Seq<SensorView>, room: Seq<char>) -> Seq<SensorView> {
    Seq::new(
        sensors.len(),
        |j: int|
            SensorView {
                id: sensor_name(room, j as nat, sensors[j].sensor_type),
                sensor_type: sensors[j].sensor_type,
                number: sensors[j].number,
            },
    )
}

/// The location with more sensors behind those that it has.
pub open spec fn equipped(room: NodeView, extra: Seq<SensorView>) -> NodeView {
    NodeView { kind: room.kind, id: room.id, windows: room.windows, sensors: room.sensors + extra }
}

/// The locations once every location with the identifier `id` has got the
/// sensors `extra`.
pub open spec fn with_sensors(rooms: Seq<NodeView>, id: Seq<char>, extra: Seq<SensorView>) -> Seq<
    NodeView,
> {
    Seq::new(
        rooms.len(),
        |k: int|
            if rooms[k].id == id {
                equipped(rooms[k], extra)
            } else {
                rooms[k]
            },
    )
}

/// The identifier belongs to a staircase, where movable objects come and go.
pub open spec fn is_entrance(id: Seq<char>) -> bool {
    starts_with(id, "S"@)
}

/// The identifier belongs to a sub-room, where movable objects go to.
pub open spec fn is_destination(id: Seq<char>) -> bool {
    contains(id, "_sub"@)
}

/// The numbers of those of the first `n` locations that are entrances, in
/// ascending order.
pub open spec fn entrances(rooms: Seq<NodeView>, n: int) -> Seq<int>
    decreases n,
{
    if n <= 0 {
        Seq::empty()
    } else if is_entrance(rooms[n - 1].id) {
        entrances(rooms, n - 1).push(n - 1)
    } else {
        entrances(rooms, n - 1)
    }
}

/// The numbers of those of the first `n` locations that are destinations, in
/// ascending order.
pub open spec fn destinations(rooms: Seq<NodeView>, n: int) -> Seq<int>
    decreases n,
{
    if n <= 0 {
        Seq::empty()
    } else if is_destination(rooms[n - 1].id) {
        destinations(rooms, n - 1).push(n - 1)
    } else {
        destinations(rooms, n - 1)
    }
}

/// A copy of a location with more sensors behind those that it has.
pub fn equip(node: &Node, extra: &Vec<Sensor>) -> (r: Node)
    ensures
        r@ == equipped(node@, sensor_views(extra@)),
{
    let data = match &node.data {
        NodeData::Floor(f) => NodeData::Floor(Floor { id: f.id.clone() }),
        NodeData::Staircase(s) => NodeData::Staircase(Staircase { id: s.id.clone() }),
        NodeData::RoomWithDoors(r) => NodeData::RoomWithDoors(
            RoomWithDoors { id: r.id.clone(), windows: r.windows },
        ),
        NodeData::RoomWithoutDoors(r) => NodeData::RoomWithoutDoors(
            RoomWithoutDoors { id: r.id.clone(), windows: r.windows },
        ),
    };
    let mut sensors: Vec<Sensor> = Vec::new();
    let mut i: usize = 0;
    while i < node.sensors.len()
        invariant
            i <= node.sensors.len(),
            sensors.len() == i,
            forall|k: int| 0 <= k < i ==> (#[trigger] sensors[k])@ == node.sensors[k]@,
        decreases node.sensors.len() - i,
    {
        sensors.push(node.sensors[i].duplicate());
        i += 1;
    }
    let mut j: usize = 0;
    while j < extra.len()
        invariant
            j <= extra.len(),
            sensors.len() == node.sensors.len() + j,
            forall|k: int|
                0 <= k < node.sensors.len() ==> (#[trigger] sensors[k])@ == node.sensors[k]@,
            forall|k: int|
                0 <= k < j ==> (#[trigger] sensors[node.sensors.len() + k])@ == extra[k]@,
        decreases extra.len() - j,
    {
        sensors.push(extra[j].duplicate());
        j += 1;
    }
    assert forall|k: int| 0 <= k < sensors.len() implies sensor_views(sensors@)[k] == (
    sensor_views(node.sensors@) + sensor_views(extra@))[k] by {
        if k >= node.sensors.len() {
            assert(sensors[node.sensors.len() + (k - node.sensors.len())]@ == extra[k
                - node.sensors.len()]@);
        }
    }
    assert(sensor_views(sensors@) =~= sensor_views(node.sensors@) + sensor_views(extra@));
    Node { data, sensors }
}

impl Building {
    /// Gives the sensors new names and adds them to every location with the
    /// identifier `node_id`.
    pub fn add_sensors_to_room(&mut self, node_id: String, sensors: Vec<Sensor>)
        requires
            old(self).wf(),
        ensures
            final(self).wf(),
            final(self)@.links == old(self)@.links,
            final(self)@.rooms == with_sensors(
                old(self)@.rooms,
                node_id@,
                renamed(sensor_views(sensors@), node_id@),
            ),
    {
        let ghost given = sensor_views(sensors@);
        let ghost extra = renamed(given, node_id@);
        let ghost start = self@.rooms;
        let room = chars_of(node_id.as_str());
        let mut named: Vec<Sensor> = Vec::new();
        let mut j: usize = 0;
        while j < sensors.len()
            invariant
                j <= sensors.len(),
                room@ == node_id@,
                given == sensor_views(sensors@),
                extra == renamed(given, node_id@),
                named.len() == j,
                forall|k: int| 0 <= k < j ==> (#[trigger] named[k])@ == extra[k],
            decreases sensors.len() - j,
        {
            assert(given[j as int] == sensors[j as int]@);
            let type_id = chars_of(sensors[j].sensor_type.id.as_str());
            let name = make_sensor_name(&room, j, &type_id);
            named.push(Sensor::new(name, sensors[j].sensor_type.duplicate(), sensors[j].number));
            j += 1;
        }
        assert(sensor_views(named@) =~= extra);
        let n = self.get_number_of_rooms();
        let mut k: usize = 0;
        while k < n
            invariant
                k <= n,
                n == start.len(),
                self.wf(),
                sensor_views(named@) == extra,
                self@.links == old(self)@.links,
                self@.rooms.len() == start.len(),
                forall|m: int|
                    0 <= m < k ==> #[trigger] self@.rooms[m] == with_sensors(
                        start,
                        node_id@,
                        extra,
                    )[m],
                forall|m: int| k <= m < n ==> #[trigger] self@.rooms[m] == start[m],
            decreases n - k,
        {
            let id = self.room_id_at(k);
            if id == node_id {
                let ghost held = self@.rooms;
                let node = match graph_node_weight(&self.floors, k) {
                    Some(node) => equip(node, &named),
                    None => Node { data: NodeData::Floor(Floor { id: String::new() }), sensors: Vec::new() },
                };
                graph_set_node(&mut self.floors, k, node);
                assert(self@.rooms =~= held.update(k as int, node@));
                assert(self@.links =~= old(self)@.links);
            }
            k += 1;
        }
        assert(self@.rooms =~= with_sensors(start, node_id@, extra));
    }

    /// The numbers of the locations where movable objects come in.
    pub fn get_start_nodes(&self) -> (r: Vec<usize>)
        requires
            self.wf(),
        ensures
            r@.map_values(|n: usize| n as int) == entrances(self@.rooms, self@.rooms.len() as int),
    {
        let marker = chars_of("S");
        let n = self.get_number_of_rooms();
        let mut r: Vec<usize> = Vec::new();
        let mut k: usize = 0;
        assert(r@.map_values(|n: usize| n as int) =~= entrances(self@.rooms, 0));
        while k < n
            invariant
                k <= n,
                n == self@.rooms.len(),
                self.wf(),
                marker@ == "S"@,
                r@.map_values(|n: usize| n as int) == entrances(self@.rooms, k as int),
            decreases n - k,
        {
            let id = self.room_id_at(k);
            let id_chars = chars_of(id.as_str());
            let ghost held = r@.map_values(|n: usize| n as int);
            if matches_at(&id_chars, &marker, 0) {
                r.push(k);
                assert(r@.map_values(|n: usize| n as int) =~= held.push(k as int));
            }
            k += 1;
        }
        r
    }

    /// The numbers of the locations where movable objects leave.
    pub fn get_end_nodes(&self) -> (r: Vec<usize>)
        requires
            self.wf(),
        ensures
            r@.map_values(|n: usize| n as int) == entrances(self@.rooms, self@.rooms.len() as int),
    {
        self.get_start_nodes()
    }

    /// The numbers of the locations that movable objects go to.
    pub fn get_nodes_to_move_to(&self) -> (r: Vec<usize>)
        requires
            self.wf(),
        ensures
            r@.map_values(|n: usize| n as int) == destinations(
                self@.rooms,
                self@.rooms.len() as int,
            ),
    {
        let marker = chars_of("_sub");
        let n = self.get_number_of_rooms();
        let mut r: Vec<usize> = Vec::new();
        let mut k: usize = 0;
        assert(r@.map_values(|n: usize| n as int) =~= destinations(self@.rooms, 0));
        while k < n
            invariant
                k <= n,
                n == self@.rooms.len(),
                self.wf(),
                marker@ == "_sub"@,
                r@.map_values(|n: usize| n as int) == destinations(self@.rooms, k as int),
            decreases n - k,
        {
            let id = self.room_id_at(k);
            let id_chars = chars_of(id.as_str());
            let ghost held = r@.map_values(|n: usize| n as int);
            if contains_in(&id_chars, &marker) {
                r.push(k);
                assert(r@.map_values(|n: usize| n as int) =~= held.push(k as int));
            }
            k += 1;
        }
        r
    }

    /// The sensors of every location, by the numbers of the locations.
    pub fn sensor_table(&self) -> (table: Vec<Vec<Sensor>>)
        requires
            self.wf(),
        ensures
            sensor_rows(table@) == self@.rooms.map_values(|r: NodeView| r.sensors),
    {
        let n = self.get_number_of_rooms();
        let nothing: Vec<Sensor> = Vec::new();
        let mut table: Vec<Vec<Sensor>> = Vec::new();
        let mut k: usize = 0;
        while k < n
            invariant
                k <= n,
                n == self@.rooms.len(),
                self.wf(),
                nothing@.len() == 0,
                table.len() == k,
                forall|m: int|
                    0 <= m < k ==> sensor_views((#[trigger] table[m])@) == self@.rooms[m].sensors,
            decreases n - k,
        {
            let row = match graph_node_weight(&self.floors, k) {
                Some(node) => {
                    let copy = equip(node, &nothing);
                    assert(sensor_views(copy.sensors@) =~= node@.sensors);
                    copy.sensors
                },
                None => Vec::new(),
            };
            table.push(row);
            k += 1;
        }
        assert(sensor_rows(table@) =~= self@.rooms.map_values(|r: NodeView| r.sensors));
        table
    }
}

} // verus!
