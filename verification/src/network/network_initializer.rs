use vstd::prelude::*;
use crate::packet::NodeId;

verus! {

/// A drone of the configuration: its id and the nodes it is linked to.
pub struct DroneConfig {
    pub id: NodeId,
    pub connected_node_ids: Vec<NodeId>,
}

/// A client of the configuration: its id and the drones it is linked to.
pub struct ClientConfig {
    pub id: NodeId,
    pub connected_drone_ids: Vec<NodeId>,
}

/// A server of the configuration: its id and the drones it is linked to.
pub struct ServerConfig {
    pub id: NodeId,
    pub connected_drone_ids: Vec<NodeId>,
}

/// The topology of a network, as its configuration file describes it.
pub struct NetworkConfig {
    pub drone: Vec<DroneConfig>,
    pub client: Vec<ClientConfig>,
    pub server: Vec<ServerConfig>,
}

/// The packet links of one drone: its id, and each node it sends to once.
pub struct DroneLinks {
    pub id: NodeId,
    pub neighbors: Vec<NodeId>,
}

/// How the network is wired: the nodes that get a packet channel, each
/// once, and the links of each drone, in the order of the configuration.
pub struct NetworkPlan {
    pub nodes: Vec<NodeId>,
    pub drones: Vec<DroneLinks>,
}

/// Some node of the configuration has id `id`.
pub open spec fn is_node(config: NetworkConfig, id: NodeId) -> bool {
    ||| exists|i: int| 0 <= i < config.drone@.len() && (#[trigger] config.drone@[i]).id == id
    ||| exists|i: int| 0 <= i < config.client@.len() && (#[trigger] config.client@[i]).id == id
    ||| exists|i: int| 0 <= i < config.server@.len() && (#[trigger] config.server@[i]).id == id
}

/// Every node that a drone is linked to is a node of the configuration.
pub open spec fn links_known(config: NetworkConfig) -> bool {
    forall|i: int, j: int|
        0 <= i < config.drone@.len() && 0 <= j < config.drone@[i].connected_node_ids@.len()
            ==> is_node(config, #[trigger] config.drone@[i].connected_node_ids@[j])
}

/// No element occurs twice.
pub open spec fn distinct(s: Seq<NodeId>) -> bool {
    forall|i: int, j: int| 0 <= i < j < s.len() ==> s[i] != s[j]
}

/// `plan` wires the network of `config`: a channel for each node, and for
/// each drone, in order, the same id and the set of nodes it is linked to.
pub open spec fn is_plan_of(plan: NetworkPlan, config: NetworkConfig) -> bool {
    &&& distinct(plan.nodes@)
    &&& forall|id: NodeId| #[trigger] plan.nodes@.contains(id) <==> is_node(config, id)
    &&& plan.drones@.len() == config.drone@.len()
    &&& forall|i: int|
        0 <= i < plan.drones@.len() ==> {
            &&& (#[trigger] plan.drones@[i]).id == config.drone@[i].id
            &&& distinct(plan.drones@[i].neighbors@)
            &&& forall|id: NodeId|
                plan.drones@[i].neighbors@.contains(id)
                    <==> config.drone@[i].connected_node_ids@.contains(id)
        }
}

/// Whether `v` holds `id`.
fn holds(v: &Vec<NodeId>, id: NodeId) -> (b: bool)
    ensures
        b == v@.contains(id),
{
    for k in 0..v.len()
        invariant
            forall|j: int| 0 <= j < k ==> v@[j] != id,
    {
        if v[k] == id {
            assert(v@[k as int] == id);
            return true;
        }
    }
    false
}

/// Appends to `out` the elements of `ids` that it does not hold yet.
fn add_distinct(out: &mut Vec<NodeId>, ids: &Vec<NodeId>)
    requires
        distinct(old(out)@),
    ensures
        distinct(final(out)@),
        forall|id: NodeId|
            #[trigger] final(out)@.contains(id) <==> old(out)@.contains(id) || ids@.contains(id),
{
    for i in 0..ids.len()
        invariant
            distinct(out@),
            forall|id: NodeId|
                #[trigger] out@.contains(id) <==> old(out)@.contains(id) || ids@.take(
                    i as int,
                ).contains(id),
    {
        let id = ids[i];
        let ghost before = out@;
        if !holds(out, id) {
            out.push(id);
            assert forall|x: NodeId| #[trigger] out@.contains(x) <==> before.contains(x) || x == id by {
                if out@.contains(x) {
                    let k = choose|k: int| 0 <= k < out@.len() && out@[k] == x;
                    if k < before.len() {
                        assert(before[k] == x);
                    }
                }
                if before.contains(x) {
                    let k = choose|k: int| 0 <= k < before.len() && before[k] == x;
                    assert(out@[k] == x);
                }
                if x == id {
                    assert(out@[before.len() as int] == x);
                }
            }
        }
        let ghost t0 = ids@.take(i as int);
        let ghost t1 = ids@.take(i + 1);
        assert(t1 =~= t0.push(id));
        assert forall|x: NodeId| t1.contains(x) <==> t0.contains(x) || x == id by {
            if t1.contains(x) {
                let k = choose|k: int| 0 <= k < t1.len() && t1[k] == x;
                if k < t0.len() {
                    assert(t0[k] == x);
                }
            }
            if t0.contains(x) {
                let k = choose|k: int| 0 <= k < t0.len() && t0[k] == x;
                assert(t1[k] == x);
            }
            if x == id {
                assert(t1[t0.len() as int] == x);
            }
        }
    }
    assert(ids@.take(ids@.len() as int) =~= ids@);
}

/// Sets up the network that a configuration describes.
pub struct NetworkInitializer;

impl NetworkInitializer {
    /// The configuration file to read: the one given, or `./config.toml`.
    pub fn config_path<'a>(config_file: Option<&'a str>) -> (path: &'a str)
        ensures
            path@ == match config_file {
                Some(f) => f@,
                None => "./config.toml"@,
            },
    {
        match config_file {
            Some(f) => f,
            None => "./config.toml",
        }
    }

    /// A node that a drone is linked to but that the configuration does
    /// not hold, if there is one.
    pub fn unknown_neighbor(config: &NetworkConfig) -> (res: Option<NodeId>)
        ensures
            res is None <==> links_known(*config),
            res matches Some(id) ==> !is_node(*config, id),
    {
        let mut nodes: Vec<NodeId> = Vec::new();
        Self::collect_nodes(config, &mut nodes);
        for i in 0..config.drone.len()
            invariant
                forall|id: NodeId| #[trigger] nodes@.contains(id) <==> is_node(*config, id),
                forall|a: int, b: int|
                    0 <= a < i && 0 <= b < config.drone@[a].connected_node_ids@.len()
                        ==> is_node(*config, #[trigger] config.drone@[a].connected_node_ids@[b]),
        {
            let links = &config.drone[i].connected_node_ids;
            for j in 0..links.len()
                invariant
                    0 <= i < config.drone@.len(),
                    forall|id: NodeId| #[trigger] nodes@.contains(id) <==> is_node(*config, id),
                    links@ == config.drone@[i as int].connected_node_ids@,
                    forall|b: int| 0 <= b < j ==> is_node(*config, #[trigger] links@[b]),
            {
                let id = links[j];
                if !holds(&nodes, id) {
                    assert(config.drone@[i as int].connected_node_ids@[j as int] == id);
                    return Some(id);
                }
            }
        }
        None
    }

    /// Gathers the ids of all nodes of the configuration, each once.
    fn collect_nodes(config: &NetworkConfig, nodes: &mut Vec<NodeId>)
        requires
            old(nodes)@.len() == 0,
        ensures
            distinct(final(nodes)@),
            forall|id: NodeId| #[trigger] final(nodes)@.contains(id) <==> is_node(*config, id),
    {
        let mut ids: Vec<NodeId> = Vec::new();
        for i in 0..config.drone.len()
            invariant
                ids@.len() == i,
                forall|k: int| 0 <= k < i ==> ids@[k] == (#[trigger] config.drone@[k]).id,
        {
            ids.push(config.drone[i].id);
        }
        for i in 0..config.client.len()
            invariant
                ids@.len() == config.drone@.len() + i,
                forall|k: int|
                    0 <= k < config.drone@.len() ==> ids@[k] == (#[trigger] config.drone@[k]).id,
                forall|k: int|
                    0 <= k < i ==> ids@[config.drone@.len() + k] == (
                    #[trigger] config.client@[k]).id,
        {
            ids.push(config.client[i].id);
        }
        for i in 0..config.server.len()
            invariant
                ids@.len() == config.drone@.len() + config.client@.len() + i,
                forall|k: int|
                    0 <= k < config.drone@.len() ==> ids@[k] == (#[trigger] config.drone@[k]).id,
                forall|k: int|
                    0 <= k < config.client@.len() ==> ids@[config.drone@.len() + k] == (
                    #[trigger] config.client@[k]).id,
                forall|k: int|
                    0 <= k < i ==> ids@[config.drone@.len() + config.client@.len() + k] == (
                    #[trigger] config.server@[k]).id,
        {
            ids.push(config.server[i].id);
        }
        add_distinct(nodes, &ids);
        let ghost nd = config.drone@.len();
        let ghost nc = config.client@.len();
        assert forall|id: NodeId| #[trigger] ids@.contains(id) <==> is_node(*config, id) by {
            if ids@.contains(id) {
                let k = choose|k: int| 0 <= k < ids@.len() && ids@[k] == id;
                if k < nd {
                    assert(config.drone@[k].id == id);
                } else if k < nd + nc {
                    assert(config.client@[k - nd].id == id);
                } else {
                    assert(config.server@[k - nd - nc].id == id);
                }
            }
            if is_node(*config, id) {
                if exists|i: int| 0 <= i < nd && (#[trigger] config.drone@[i]).id == id {
                    let i = choose|i: int| 0 <= i < nd && (#[trigger] config.drone@[i]).id == id;
                    assert(ids@[i] == id);
                } else if exists|i: int| 0 <= i < nc && (#[trigger] config.client@[i]).id == id {
                    let i = choose|i: int| 0 <= i < nc && (#[trigger] config.client@[i]).id == id;
                    assert(ids@[nd + i] == id);
                } else {
                    let i = choose|i: int|
                        0 <= i < config.server@.len() && (#[trigger] config.server@[i]).id == id;
                    assert(ids@[nd + nc + i] == id);
                }
            }
        }
    }

    /// Wires the network of `config`: a packet channel for every node, and
    /// the nodes each drone sends to. Every link of a drone must lead to a
    /// node of the configuration.
    pub fn plan(config: &NetworkConfig) -> (plan: NetworkPlan)
        requires
            links_known(*config),
        ensures
            is_plan_of(plan, *config),
    {
        let mut nodes: Vec<NodeId> = Vec::new();
        Self::collect_nodes(config, &mut nodes);
        let mut drones: Vec<DroneLinks> = Vec::new();
        for i in 0..config.drone.len()
            invariant
                drones@.len() == i,
                forall|k: int|
                    0 <= k < i ==> {
                        &&& (#[trigger] drones@[k]).id == config.drone@[k].id
                        &&& distinct(drones@[k].neighbors@)
                        &&& forall|id: NodeId|
                            drones@[k].neighbors@.contains(id)
                                <==> config.drone@[k].connected_node_ids@.contains(id)
                    },
        {
            let mut neighbors: Vec<NodeId> = Vec::new();
            add_distinct(&mut neighbors, &config.drone[i].connected_node_ids);
            drones.push(DroneLinks { id: config.drone[i].id, neighbors });
        }
        NetworkPlan { nodes, drones }
    }
}

} // verus!
