use nomad_rs::allocs::{Allocation, ClientStatus, DesiredStatus};
use nomad_rs::constraint::{Affinity, Spread, SpreadTarget};
use nomad_rs::jobspec::{Resources, TaskGroup};
use nomad_rs::node::{Node, NodeStatus, SchedulingEligibility};
use nomad_rs::ranking::{affinity_score, spread_tally, SpreadTally};
use nomad_rs::state::StateStore;
use nomad_rs::strmap::StrMap;

fn node_in(id: &str, dc: Option<&str>) -> Node {
    let mut attributes = StrMap::new();
    if let Some(dc) = dc {
        attributes.insert("dc".to_owned(), dc.to_owned());
    }
    attributes.insert("os".to_owned(), "linux".to_owned());
    Node {
        id: id.to_owned(),
        name: id.to_owned(),
        datacenter: "dc1".to_owned(),
        node_class: String::new(),
        resources: Resources::default(),
        status: NodeStatus::Ready,
        eligibility: SchedulingEligibility::Eligible,
        draining: false,
        attributes,
        drivers: StrMap::new(),
    }
}

fn alloc_on(id: &str, node: &str, status: ClientStatus) -> Allocation {
    Allocation {
        id: id.to_owned(),
        eval_id: "e".to_owned(),
        node_id: node.to_owned(),
        job_id: "web".to_owned(),
        task_group: "g".to_owned(),
        desired_status: DesiredStatus::Run,
        client_status: status,
        resources: Resources::default(),
    }
}

fn group_with(affinities: Vec<Affinity>) -> TaskGroup {
    TaskGroup { name: "g".to_owned(), count: 1, tasks: vec![], constraints: vec![], affinities, spreads: vec![] }
}

#[test]
fn affinity_score_sums_satisfied_weights() {
    let g = group_with(vec![
        Affinity { left: "os".to_owned(), right: "linux".to_owned(), operand: "=".to_owned(), weight: 40 },
        Affinity { left: "os".to_owned(), right: "windows".to_owned(), operand: "=".to_owned(), weight: 90 },
        Affinity { left: "os".to_owned(), right: "linux".to_owned(), operand: "=".to_owned(), weight: -15 },
    ]);
    assert_eq!(affinity_score(&node_in("n1", None), &g), 25);
    assert_eq!(affinity_score(&node_in("n1", None), &group_with(vec![])), 0);
}

#[test]
fn spread_tally_counts_live_allocations_by_value() {
    let mut state = StateStore::new();
    state.upsert_node(node_in("a", Some("east"))).unwrap();
    state.upsert_node(node_in("b", Some("west"))).unwrap();
    state.upsert_node(node_in("c", Some("east"))).unwrap();
    state.upsert_node(node_in("d", None)).unwrap();
    state.upsert_alloc(alloc_on("x1", "a", ClientStatus::Running)).unwrap();
    state.upsert_alloc(alloc_on("x2", "b", ClientStatus::Running)).unwrap();
    state.upsert_alloc(alloc_on("x3", "c", ClientStatus::Pending)).unwrap();
    state.upsert_alloc(alloc_on("x4", "c", ClientStatus::Complete)).unwrap();
    let spread = Spread {
        attribute: "dc".to_owned(),
        targets: vec![
            SpreadTarget { value: "east".to_owned(), percent: 30 },
            SpreadTarget { value: "west".to_owned(), percent: 50 },
            SpreadTarget { value: "east".to_owned(), percent: 10 },
        ],
    };
    let t = spread_tally(&node_in("a", Some("east")), &spread, &state).unwrap();
    assert_eq!(t, SpreadTally { live_allocs: 3, same_value: 2, target_percent: 40, distinct_values: 2 });
    assert!(spread_tally(&node_in("d", None), &spread, &state).is_none());
}
