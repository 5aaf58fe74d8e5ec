use std::sync::atomic::{AtomicBool, Ordering};
use std::sync::Arc;

use sitrep::action::ActionSlot;
use sitrep::logs::LogStreamHandle;
use sitrep::swarm::{
    build_stacks, cluster_warnings, group_tasks, resolve_swarm_overview_item, SwarmClusterInfo,
    SwarmMonitor, SwarmNodeInfo, SwarmOverviewItem, SwarmServiceInfo, SwarmStackInfo,
    SwarmTaskInfo, SwarmViewLevel,
};

fn make_monitor(
    nodes: Vec<SwarmNodeInfo>,
    services: Vec<SwarmServiceInfo>,
    stacks: Vec<SwarmStackInfo>,
    expanded: &[&str],
) -> SwarmMonitor {
    let expanded_ids = expanded.iter().map(|s| (*s).to_string()).collect();
    SwarmMonitor::new_minimal(nodes, services, stacks, expanded_ids)
}

#[test]
fn resolve_swarm_overview_nodes_header() {
    let monitor = make_monitor(vec![], vec![], vec![], &[]);
    assert!(matches!(
        resolve_swarm_overview_item(&monitor, 0),
        SwarmOverviewItem::NodesHeader
    ));
}

#[test]
fn resolve_swarm_overview_node_when_expanded() {
    let nodes = vec![SwarmNodeInfo {
        id: "n1".into(),
        hostname: "node1".into(),
        ..Default::default()
    }];
    let monitor = make_monitor(nodes, vec![], vec![], &["__nodes__"]);
    assert!(matches!(
        resolve_swarm_overview_item(&monitor, 1),
        SwarmOverviewItem::Node
    ));
}

#[test]
fn resolve_swarm_overview_stack_header() {
    let stacks = vec![SwarmStackInfo {
        name: "mystack".into(),
        service_indices: vec![],
    }];
    let monitor = make_monitor(vec![], vec![], stacks, &[]);
    assert!(matches!(
        resolve_swarm_overview_item(&monitor, 1),
        SwarmOverviewItem::StackHeader(name) if name == "mystack"
    ));
}

#[test]
fn resolve_swarm_overview_service_when_stack_expanded() {
    let services = vec![SwarmServiceInfo {
        id: "svc-id".into(),
        name: "my-service".into(),
        ..Default::default()
    }];
    let stacks = vec![SwarmStackInfo {
        name: "mystack".into(),
        service_indices: vec![0],
    }];
    let monitor = make_monitor(vec![], services, stacks, &["mystack"]);
    assert!(matches!(
        resolve_swarm_overview_item(&monitor, 2),
        SwarmOverviewItem::Service(id, name) if id == "svc-id" && name == "my-service"
    ));
}

#[test]
fn resolve_swarm_overview_none_for_out_of_range() {
    let monitor = make_monitor(vec![], vec![], vec![], &[]);
    assert!(matches!(
        resolve_swarm_overview_item(&monitor, 100),
        SwarmOverviewItem::NoItem
    ));
}

fn svc(id: &str, name: &str, stack: &str, replicas: &str) -> SwarmServiceInfo {
    SwarmServiceInfo {
        id: id.into(),
        name: name.into(),
        stack: stack.into(),
        replicas: replicas.into(),
        ..Default::default()
    }
}

#[test]
fn overview_row_count_counts_expanded_rows() {
    let nodes = vec![SwarmNodeInfo::default(), SwarmNodeInfo::default()];
    let services = vec![svc("a", "web", "shop", "1/1"), svc("b", "db", "shop", "1/1")];
    let stacks = build_stacks(&services);
    let collapsed = make_monitor(nodes.clone(), services.clone(), build_stacks(&services), &[]);
    assert_eq!(collapsed.overview_row_count(), 2);
    let open = make_monitor(nodes, services, stacks, &["__nodes__", "shop"]);
    assert_eq!(open.overview_row_count(), 1 + 2 + 1 + 2);
}

#[test]
fn stacks_sorted_with_unstacked_last() {
    let services = vec![
        svc("1", "lone", "", "1/1"),
        svc("2", "web", "zeta", "1/1"),
        svc("3", "api", "alpha", "1/1"),
        svc("4", "db", "zeta", "1/1"),
    ];
    let stacks = build_stacks(&services);
    let names: Vec<&str> = stacks.iter().map(|s| s.name.as_str()).collect();
    assert_eq!(names, vec!["alpha", "zeta", "(no stack)"]);
    assert_eq!(stacks[0].service_indices, vec![2]);
    assert_eq!(stacks[1].service_indices, vec![1, 3]);
    assert_eq!(stacks[2].service_indices, vec![0]);
}

#[test]
fn warnings_report_cluster_health() {
    let nodes = vec![
        SwarmNodeInfo { hostname: "n1".into(), ..Default::default() },
        SwarmNodeInfo { hostname: "n2".into(), ..Default::default() },
        SwarmNodeInfo { hostname: "n3".into(), ..Default::default() },
    ];
    let status = vec!["down".to_string(), "ready".to_string(), "down".to_string()];
    let avail = vec!["active".to_string(), "drain".to_string(), "active".to_string()];
    let services = vec![svc("a", "web", "", "2/3"), svc("b", "db", "", "1/1")];
    let ci = Some(SwarmClusterInfo { managers: 1, nodes_total: 5, ..Default::default() });
    let w = cluster_warnings(true, &nodes, &status, &avail, &services, &ci);
    assert_eq!(
        w,
        vec![
            "NODE DOWN: 2 node(s) unreachable: n1, n3".to_string(),
            "DRAINED: 1 node(s) in drain mode: n2".to_string(),
            "SERVICE DEGRADED: web has 2/3 replicas".to_string(),
            "LOW MANAGERS: Only 1 manager(s) for 5 nodes (recommend 3+)".to_string(),
        ]
    );
    let none = cluster_warnings(false, &nodes, &status, &avail, &services, &ci);
    assert_eq!(none, vec!["docker CLI not found in PATH \u{2014} Swarm data unavailable".to_string()]);
}

#[test]
fn generate_warnings_lowercases_node_fields() {
    let nodes = vec![
        SwarmNodeInfo { hostname: "a".into(), status: "Down".into(), availability: "Active".into(), ..Default::default() },
        SwarmNodeInfo { hostname: "b".into(), status: "Ready".into(), availability: "Drain".into(), ..Default::default() },
    ];
    let mut m = make_monitor(nodes, vec![], vec![], &[]);
    m.docker_cli_available = true;
    m.generate_warnings();
    assert_eq!(
        m.warnings,
        vec![
            "NODE DOWN: 1 node(s) unreachable: a".to_string(),
            "DRAINED: 1 node(s) in drain mode: b".to_string(),
        ]
    );
}

#[test]
fn tasks_grouped_by_service_name() {
    let services = vec![svc("id-web", "shop_web", "shop", "2/2"), svc("id-db", "shop_db", "shop", "1/1")];
    let task = |name: &str| SwarmTaskInfo { name: name.into(), ..Default::default() };
    let tasks = vec![task("shop_web.1"), task("shop_db.1"), task("shop_web.2"), task("other.1")];
    let g = group_tasks(&tasks, &services);
    assert_eq!(g.len(), 2);
    assert_eq!(g[0].0, "id-web");
    assert_eq!(g[0].1.len(), 2);
    assert_eq!(g[1].0, "id-db");
}

#[test]
fn update_assigns_node_addresses_and_stacks() {
    let mut m = SwarmMonitor::new(true, Some(SwarmClusterInfo::default()));
    let nodes = vec![SwarmNodeInfo { id: "n1".into(), ..Default::default() }];
    let ips = vec![("n1".to_string(), "10.0.0.1".to_string())];
    m.update(Ok(nodes), &ips, Ok(vec![svc("s", "web", "", "1/1")]));
    assert_eq!(m.nodes[0].ip_address, "10.0.0.1");
    assert_eq!(m.stacks.len(), 1);
    m.update(Err("boom".into()), &ips, Ok(vec![]));
    assert_eq!(m.status_message.as_deref(), Some("Error: boom"));
    assert_eq!(m.nodes.len(), 1);
}

#[test]
fn standalone_monitor_ignores_update() {
    let mut m = SwarmMonitor::new(true, None);
    assert!(!m.is_swarm());
    m.update(Ok(vec![SwarmNodeInfo::default()]), &vec![], Ok(vec![]));
    assert!(m.nodes.is_empty());
    m.recheck_swarm(true, Some(SwarmClusterInfo::default()));
    assert!(m.is_swarm());
}

#[test]
fn second_action_rejected_while_first_in_flight() {
    let mut m = make_monitor(vec![], vec![], vec![], &[]);
    let (tx1, rx1) = std::sync::mpsc::channel();
    assert!(m.submit_action(rx1, "Scaling web...".into()));
    let (tx2, rx2) = std::sync::mpsc::channel::<Result<String, String>>();
    assert!(!m.submit_action(rx2, "Restarting web...".into()));
    assert_eq!(m.status_message.as_deref(), Some("An action is already in progress..."));
    drop(tx2);
    assert!(!m.poll_action());
    tx1.send(Ok("Scaled web to 3 replicas".to_string())).unwrap();
    assert!(m.poll_action());
    assert_eq!(m.status_message.as_deref(), Some("Scaled web to 3 replicas"));
    assert!(!m.action.in_progress());
}

#[test]
fn lost_action_worker_is_reported() {
    let mut slot = ActionSlot::new();
    let (tx, rx) = std::sync::mpsc::channel::<Result<String, String>>();
    assert!(slot.submit(rx));
    drop(tx);
    assert_eq!(slot.poll().as_deref(), Some("Action failed unexpectedly"));
    assert!(!slot.in_progress());
    assert_eq!(slot.poll(), None);
}

#[test]
fn stopping_log_stream_twice_is_harmless() {
    let mut m = make_monitor(vec![], vec![], vec![], &[]);
    let (tx, rx) = std::sync::mpsc::channel::<String>();
    let flag = Arc::new(AtomicBool::new(false));
    m.start_service_log_stream("sid", "web", LogStreamHandle::new(rx, flag.clone()));
    assert!(matches!(m.ui_state.view_level, SwarmViewLevel::ServiceLogs(_, _)));
    tx.send("hello".into()).unwrap();
    m.poll_logs();
    assert_eq!(m.log_state.as_ref().unwrap().lines.len(), 1);
    m.stop_log_stream();
    assert!(flag.load(Ordering::Relaxed));
    assert!(m.log_handle.is_none() && m.log_state.is_none());
    m.stop_log_stream();
    assert!(m.log_handle.is_none() && m.log_state.is_none());
}

#[test]
fn service_log_poll_marks_end_of_stream() {
    let mut m = make_monitor(vec![], vec![], vec![], &[]);
    let (tx, rx) = std::sync::mpsc::channel::<String>();
    m.start_service_log_stream("sid", "web", LogStreamHandle::new(rx, Arc::new(AtomicBool::new(false))));
    drop(tx);
    m.poll_logs();
    let lines = &m.log_state.as_ref().unwrap().lines;
    assert_eq!(lines.back(), Some(&"[log stream ended]".to_string()));
}

#[test]
fn go_back_returns_to_overview() {
    let mut m = make_monitor(vec![], vec![], vec![], &[]);
    m.enter_task_view("sid", "web", Ok(vec![SwarmTaskInfo::default()]));
    assert_eq!(m.tasks.len(), 1);
    m.go_back();
    assert!(matches!(m.ui_state.view_level, SwarmViewLevel::Overview));
    assert!(m.tasks.is_empty());
    m.enter_task_view("sid", "web", Err("gone".into()));
    assert_eq!(m.status_message.as_deref(), Some("Error: gone"));
}

#[test]
fn node_addresses_parsed_from_inspection() {
    let text = "n1 10.0.0.1\n\nn2   \nn3 10.0.0.3 \nn1 10.0.0.9\n";
    let ips = sitrep::swarm::parse_node_ips(text);
    assert_eq!(ips, vec![("n1".to_string(), "10.0.0.9".to_string()), ("n3".to_string(), "10.0.0.3".to_string())]);
}

#[test]
fn stack_labels_matched_by_id_prefix() {
    let ids = vec!["abcdefghij12".to_string(), "short".to_string(), "zzzzzzzzzzzz".to_string()];
    let text = "abcdefghij12xyz shop\nshortfull other\nzzzzzzzzzzzz999 <no value>\n";
    let labels = sitrep::swarm::parse_stack_labels(text, &ids);
    assert_eq!(
        labels,
        vec![
            ("abcdefghij12".to_string(), "shop".to_string()),
            ("zzzzzzzzzzzz".to_string(), String::new()),
        ]
    );
    let mut services = vec![svc("abcdefghij12", "web", "", "1/1"), svc("short", "x", "old", "1/1")];
    sitrep::swarm::apply_stack_labels(&mut services, &labels);
    assert_eq!(services[0].stack, "shop");
    assert_eq!(services[1].stack, "old");
}

#[test]
fn named_swarm_actions_set_status() {
    let mut m = make_monitor(vec![], vec![], vec![], &[]);
    let (_tx, rx) = std::sync::mpsc::channel::<Result<String, String>>();
    assert!(m.scale_service("web", 3, rx));
    assert_eq!(m.status_message.as_deref(), Some("Scaling web to 3 replicas..."));
    let (_tx2, rx2) = std::sync::mpsc::channel::<Result<String, String>>();
    assert!(!m.force_restart_service("web", rx2));
    let mut fresh = make_monitor(vec![], vec![], vec![], &[]);
    let (_tx3, rx3) = std::sync::mpsc::channel::<Result<String, String>>();
    assert!(fresh.force_restart_service("api", rx3));
    assert_eq!(fresh.status_message.as_deref(), Some("Rolling restart in progress for api..."));
}

#[test]
fn settled_outcome_becomes_status() {
    let mut m = make_monitor(vec![], vec![], vec![], &[]);
    let (_tx, rx) = std::sync::mpsc::channel::<Result<String, String>>();
    assert!(m.force_restart_service("web", rx));
    assert!(!m.settle_action(sitrep::channel::Received::Empty));
    assert!(m.action.in_progress());
    assert!(m.settle_action(sitrep::channel::Received::Item(Err("Error: denied".to_string()))));
    assert_eq!(m.status_message.as_deref(), Some("Error: denied"));
    assert!(!m.action.in_progress());
}
