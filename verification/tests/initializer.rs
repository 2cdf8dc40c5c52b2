use rustafarian_network::network::network_initializer::{
    ClientConfig, DroneConfig, NetworkConfig, NetworkInitializer, ServerConfig,
};

fn config() -> NetworkConfig {
    NetworkConfig {
        drone: vec![
            DroneConfig { id: 1, connected_node_ids: vec![2, 3, 2, 4] },
            DroneConfig { id: 2, connected_node_ids: vec![1, 5] },
        ],
        client: vec![ClientConfig { id: 4, connected_drone_ids: vec![1] }],
        server: vec![ServerConfig { id: 5, connected_drone_ids: vec![2] }, ServerConfig { id: 3, connected_drone_ids: vec![1] }],
    }
}

#[test]
fn config_path_defaults() {
    assert_eq!(NetworkInitializer::config_path(None), "./config.toml");
    assert_eq!(NetworkInitializer::config_path(Some("net.toml")), "net.toml");
}

#[test]
fn plan_wires_every_node_once() {
    let c = config();
    assert_eq!(NetworkInitializer::unknown_neighbor(&c), None);
    let plan = NetworkInitializer::plan(&c);
    let mut nodes = plan.nodes.clone();
    nodes.sort();
    assert_eq!(nodes, vec![1, 2, 3, 4, 5]);
    assert_eq!(plan.drones.len(), 2);
    assert_eq!(plan.drones[0].id, 1);
    assert_eq!(plan.drones[0].neighbors, vec![2, 3, 4]);
    assert_eq!(plan.drones[1].id, 2);
    assert_eq!(plan.drones[1].neighbors, vec![1, 5]);
}

#[test]
fn duplicate_ids_get_one_channel() {
    let mut c = config();
    c.client.push(ClientConfig { id: 1, connected_drone_ids: vec![] });
    let plan = NetworkInitializer::plan(&c);
    assert_eq!(plan.nodes.len(), 5);
}

#[test]
fn unknown_link_is_found() {
    let mut c = config();
    c.drone[1].connected_node_ids.push(9);
    assert_eq!(NetworkInitializer::unknown_neighbor(&c), Some(9));
}
