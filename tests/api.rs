use trekkie_state::api::region_by_name;
use trekkie_state::{Graph, Network, NetworkRequest, State};

#[test]
fn region_names() {
    assert_eq!(region_by_name(&String::from("dresden")), Some(0));
    assert_eq!(region_by_name(&String::from("chemnitz")), Some(1));
    assert_eq!(region_by_name(&String::from("karlsruhe")), Some(2));
    assert_eq!(region_by_name(&String::from("berlin")), Some(3));
    assert_eq!(region_by_name(&String::from("paris")), None);
}

#[test]
fn resolve_request() {
    let mut s = State::new();
    s.add_region(0, Network::new(Graph::new()));
    let ok = NetworkRequest { region: String::from("dresden") };
    assert_eq!(ok.resolve(&s).ok(), Some(0));
    let unknown = NetworkRequest { region: String::from("paris") };
    assert_eq!(unknown.resolve(&s).err().unwrap().error_message, "Invalid Region ID");
    let missing = NetworkRequest { region: String::from("berlin") };
    assert_eq!(
        missing.resolve(&s).err().unwrap().error_message,
        "Network of region was not initialized!"
    );
}
