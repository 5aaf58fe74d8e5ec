use sitrep::channel::Received;
use sitrep::containers::{container_name, extract_ip, format_ports, format_uptime, short_id, PortMapping};
use sitrep::logs::{LogViewState, ServiceLogState};
use sitrep::monitor::{
    ContextSwitchInfo, FdInfo, MemoryInfo, MonitorData, NetworkInfo, UIState,
};
use sitrep::sockets::SocketOverviewInfo;
use sitrep::swarm::{SwarmUIState, SwarmViewLevel};
use sitrep::ui::{
    capitalize, container_action_message, expire_pending_action, AppView, ContainerPanel, ContainerUIState,
    PendingAction, PendingActionKind,
};

#[test]
fn log_view_state_push_line_caps_at_5000() {
    let mut state = LogViewState::new("abc123".into(), "my-container".into());
    for i in 0..5010 {
        state.push_line(format!("line {}", i));
    }
    assert_eq!(state.lines.len(), 5000);
    assert_eq!(state.lines.front(), Some(&"line 10".to_string()));
    assert_eq!(state.lines.back(), Some(&"line 5009".to_string()));
}

#[test]
fn container_ui_state_default() {
    let state = ContainerUIState::default();
    assert_eq!(state.selected_index, 0);
    assert_eq!(state.total_rows, 0);
    assert!(state.expanded_ids.is_empty());
}

#[test]
fn service_log_state_push_line_caps_at_10000() {
    let mut state = ServiceLogState::new("svc1".into(), "my-service".into());
    for i in 0..10010 {
        state.push_line(format!("log {}", i));
    }
    assert_eq!(state.lines.len(), 10000);
    assert_eq!(state.lines.front(), Some(&"log 10".to_string()));
    assert_eq!(state.lines.back(), Some(&"log 10009".to_string()));
}

#[test]
fn swarm_ui_state_default() {
    let state = SwarmUIState::default();
    assert!(matches!(state.view_level, SwarmViewLevel::Overview));
    assert_eq!(state.selected_index, 0);
    assert!(state.expanded_ids.is_empty());
}

#[test]
fn model_types_construct() {
    let _ = UIState::default();
    let _ = ContainerUIState::default();
    let _ = LogViewState::new("cid".into(), "cname".into());
    let _ = SwarmUIState::default();
    let _ = ServiceLogState::new("sid".into(), "sname".into());
}

#[test]
fn app_view_matches() {
    assert!(matches!(AppView::System, AppView::System));
    assert!(matches!(AppView::Containers, AppView::Containers));
    let logs = AppView::ContainerLogs("abc".into());
    assert!(matches!(logs, AppView::ContainerLogs(_)));
}

#[test]
fn monitor_data_structure() {
    let data = MonitorData {
        time: "12:00:00".into(),
        core_count: 8,
        load_avg: (100, 50, 30),
        historical_top: vec![],
        disk_space: vec![],
        disk_busy_pct: 0,
        memory: MemoryInfo::default(),
        network: NetworkInfo::default(),
        fd_info: FdInfo::default(),
        context_switches: ContextSwitchInfo::default(),
        socket_overview: SocketOverviewInfo::default(),
    };
    assert_eq!(data.core_count, 8);
    assert_eq!(data.time, "12:00:00");
}

#[test]
fn log_buffer_below_capacity_keeps_all() {
    let mut state = LogViewState::new("c".into(), "n".into());
    state.push_line("a".into());
    state.push_line("b".into());
    assert_eq!(state.lines.len(), 2);
    assert_eq!(state.lines.front(), Some(&"a".to_string()));
}

#[test]
fn closed_stream_appends_end_marker() {
    let mut state = LogViewState::new("c".into(), "n".into());
    assert!(state.apply(Received::Item("x".to_string())));
    assert!(!state.apply(Received::Empty));
    assert_eq!(state.lines.len(), 1);
    assert!(!state.apply(Received::Closed));
    assert_eq!(state.lines.back(), Some(&"[log stream ended]".to_string()));
}

#[test]
fn container_logs_drain_from_channel() {
    let rt = tokio::runtime::Builder::new_current_thread().build().unwrap();
    let (tx, mut rx) = tokio::sync::mpsc::channel::<String>(8);
    rt.block_on(async {
        tx.send("one".to_string()).await.unwrap();
        tx.send("two".to_string()).await.unwrap();
    });
    let mut state = LogViewState::new("c".into(), "n".into());
    sitrep::logs::drain_container_logs(&mut state, &mut rx);
    assert_eq!(state.lines.len(), 2);
    drop(tx);
    sitrep::logs::drain_container_logs(&mut state, &mut rx);
    assert_eq!(state.lines.back(), Some(&"[log stream ended]".to_string()));
}

#[test]
fn capitalize_first_letter() {
    assert_eq!(capitalize("start"), "Start");
    assert_eq!(capitalize(""), "");
    assert_eq!(capitalize("éa"), "Éa");
}

#[test]
fn container_action_status_text() {
    assert_eq!(container_action_message("stop", "abc"), "Stoping container abc...");
    assert_eq!(container_action_message("restart", "x1"), "Restarting container x1...");
}

#[test]
fn pending_action_expires_after_deadline() {
    let mut p = Some(PendingAction {
        description: "Stop web".into(),
        kind: PendingActionKind::ContainerStop("web".into()),
        expires_ms: 1000,
    });
    assert!(!expire_pending_action(&mut p, 1000));
    assert!(p.is_some());
    assert!(expire_pending_action(&mut p, 1001));
    assert!(p.is_none());
    assert!(!expire_pending_action(&mut p, 5000));
}

#[test]
fn container_selection_clamped_to_rows() {
    let mut ui = ContainerUIState::default();
    ui.selected_index = 7;
    ui.set_total_rows(3);
    assert_eq!(ui.selected_index, 2);
    assert_eq!(ui.total_rows, 3);
    ui.set_total_rows(0);
    assert_eq!(ui.selected_index, 2);
}

#[test]
fn ui_state_has_expansions() {
    let mut ui = UIState::default();
    assert!(!ui.has_expansions());
    ui.expanded_pids.push(42);
    assert!(ui.has_expansions());
}

#[test]
fn container_rows_formatted() {
    assert_eq!(short_id("0123456789abcdef"), "0123456789ab");
    assert_eq!(short_id("abc"), "abc");
    assert_eq!(container_name(&vec!["/web".to_string()], "abc"), "web");
    assert_eq!(container_name(&vec![], "abc"), "abc");
    assert_eq!(format_uptime(0, 100), "unknown");
    assert_eq!(format_uptime(100, 130), "30s");
    assert_eq!(format_uptime(100, 100 + 125), "2m");
    assert_eq!(format_uptime(100, 100 + 2 * 3600 + 34 * 60), "2h 34m");
    assert_eq!(format_uptime(100, 100 + 3 * 86400 + 5 * 3600), "3d 5h");
    assert_eq!(format_uptime(100, 50), "0s");
    let ports = vec![
        PortMapping { private_port: 80, public_port: Some(8080), ip: Some("0.0.0.0".into()), proto: Some("tcp".into()) },
        PortMapping { private_port: 53, public_port: None, ip: None, proto: Some("udp".into()) },
        PortMapping { private_port: 9000, public_port: None, ip: None, proto: None },
    ];
    assert_eq!(format_ports(&ports), "0.0.0.0:8080->80/tcp, 53/udp, 9000/tcp");
    assert_eq!(extract_ip(&vec![None, Some(String::new()), Some("172.17.0.2".into())]), "172.17.0.2");
    assert_eq!(extract_ip(&vec![]), "");
}

#[test]
fn log_lines_filtered_by_query_and_errors() {
    let mut c = LogViewState::new("c".into(), "n".into());
    for l in ["Starting", "GET /health 200", "get /Login 500", "done"] {
        c.push_line(l.to_string());
    }
    assert_eq!(c.visible_lines(), vec![0, 1, 2, 3]);
    c.search_query = "GET".into();
    assert_eq!(c.visible_lines(), vec![1, 2]);

    let mut s = ServiceLogState::new("s".into(), "n".into());
    for l in ["ok", "ERROR: disk full", "Panic at the disco", "request failed", "fine"] {
        s.push_line(l.to_string());
    }
    s.filter_errors = true;
    assert_eq!(s.visible_lines(), vec![1, 2, 3]);
    s.search_query = "DISK".into();
    assert_eq!(s.visible_lines(), vec![1]);
}

#[test]
fn lowered_lines_filter_exactly() {
    let lines = vec!["a fatal thing".to_string(), "exceptional".to_string(), "calm".to_string()];
    assert_eq!(sitrep::logs::filter_lowered(&lines, &String::new(), true), vec![0, 1]);
    assert_eq!(sitrep::logs::filter_lowered(&lines, &"al".to_string(), false), vec![0, 1, 2]);
    assert_eq!(sitrep::logs::filter_lowered(&lines, &"xyz".to_string(), false), Vec::<usize>::new());
}

#[test]
fn container_panel_refuses_second_action_and_stops_twice() {
    let mut p = ContainerPanel::new();
    let (tx, rx) = std::sync::mpsc::channel::<Result<String, String>>();
    assert!(p.run_container_action("abc", "stop", rx));
    assert_eq!(p.status_message.as_deref(), Some("Stoping container abc..."));
    let (_tx2, rx2) = std::sync::mpsc::channel::<Result<String, String>>();
    assert!(!p.run_container_action("abc", "start", rx2));
    assert_eq!(p.status_message.as_deref(), Some("An action is already in progress..."));
    tx.send(Ok("Stopped abc".to_string())).unwrap();
    assert!(p.poll_action());
    assert_eq!(p.status_message.as_deref(), Some("Stopped abc"));

    let (ltx, lrx) = tokio::sync::mpsc::channel::<String>(4);
    p.start_log_stream("abc", "web", lrx);
    ltx.try_send("hello".to_string()).unwrap();
    p.poll_logs();
    assert_eq!(p.log_state.as_ref().unwrap().lines.len(), 1);
    p.stop_log_stream();
    assert!(p.log_state.is_none() && p.log_receiver.is_none());
    p.stop_log_stream();
    assert!(p.log_state.is_none() && p.log_receiver.is_none());
}
