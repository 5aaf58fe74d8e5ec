//! Cluster state: nodes, services grouped into stacks, the overview rows,
//! health warnings, and the action slot and log stream of the cluster tab.
use vstd::prelude::*;
use crate::action::{ActionOutcome, ActionSlot, busy_message, busy_text, submitted, settled_message};
use crate::channel::{Received, receive_now};
use crate::diskstats::views;
use crate::logs::{LogStreamHandle, ServiceLogState, drain_service_logs};
use crate::text::{str_eq, push_all, push_decimal, dec_digits, lower_of, lowercase};

verus! {

/// Whether the engine runs standalone or as part of a cluster.
#[derive(Clone, Copy, PartialEq, Eq, Debug, Structural)]
pub enum SwarmMode {
    Standalone,
    Swarm,
}

/// The cluster as the local node sees it.
#[derive(Clone, Debug, Default)]
pub struct SwarmClusterInfo {
    pub node_id: String,
    pub node_addr: String,
    pub is_manager: bool,
    pub managers: u32,
    pub nodes_total: u32,
}

#[derive(Clone, Debug, Default)]
pub struct SwarmNodeInfo {
    pub id: String,
    pub hostname: String,
    /// `Ready`, `Down`.
    pub status: String,
    /// `Active`, `Pause`, `Drain`.
    pub availability: String,
    /// `Leader`, `Reachable` or empty.
    pub manager_status: String,
    pub engine_version: String,
    pub is_self: bool,
    pub ip_address: String,
}

#[derive(Clone, Debug, Default)]
pub struct SwarmServiceInfo {
    pub id: String,
    pub name: String,
    /// `replicated` or `global`.
    pub mode: String,
    /// Running and desired replicas, as `3/3`.
    pub replicas: String,
    pub image: String,
    pub ports: String,
    /// The stack the service was deployed with; empty for none.
    pub stack: String,
}

#[derive(Clone, Debug, Default)]
pub struct SwarmTaskInfo {
    pub id: String,
    pub name: String,
    pub image: String,
    pub node: String,
    pub desired_state: String,
    pub current_state: String,
    pub error: String,
    pub ports: String,
}

/// Services deployed together, as indices into the service list.
pub struct SwarmStackInfo {
    pub name: String,
    pub service_indices: Vec<usize>,
}

/// The drill-down level of the cluster tab.
pub enum SwarmViewLevel {
    Overview,
    /// (service id, service name): the service's tasks.
    ServiceTasks(String, String),
    /// (service id, service name): the service's log stream.
    ServiceLogs(String, String),
}

pub struct SwarmUIState {
    pub view_level: SwarmViewLevel,
    pub selected_index: usize,
    /// Expanded stacks by name, and the node list as `__nodes__`.
    pub expanded_ids: Vec<String>,
}

impl SwarmUIState {
    /// The overview, nothing selected or expanded.
    pub fn new() -> (r: Self)
        ensures
            r.view_level is Overview,
            r.selected_index == 0,
            r.expanded_ids@.len() == 0,
    {
        SwarmUIState { view_level: SwarmViewLevel::Overview, selected_index: 0, expanded_ids: Vec::new() }
    }
}

impl Default for SwarmUIState {
    fn default() -> (r: Self)
        ensures
            r.view_level is Overview,
            r.selected_index == 0,
            r.expanded_ids@.len() == 0,
    {
        SwarmUIState::new()
    }
}

/// What sits at one row of the cluster overview.
pub enum SwarmOverviewItem {
    NodesHeader,
    Node,
    StackHeader(String),
    /// (service id, service name).
    Service(String, String),
    NoItem,
}

/// The key under which the node list is expanded.
pub open spec fn nodes_key() -> Seq<char> {
    "__nodes__"@
}

/// The rows of one stack: its header, then its services where expanded.
pub open spec fn stack_rows(
    st: SwarmStackInfo,
    services: Seq<SwarmServiceInfo>,
    expanded: Seq<Seq<char>>,
) -> Seq<SwarmOverviewItem> {
    seq![SwarmOverviewItem::StackHeader(st.name)] + if expanded.contains(st.name@) {
        st.service_indices@.map_values(
            |i: usize| SwarmOverviewItem::Service(services[i as int].id, services[i as int].name),
        )
    } else {
        Seq::empty()
    }
}

pub open spec fn stacks_rows(
    sts: Seq<SwarmStackInfo>,
    services: Seq<SwarmServiceInfo>,
    expanded: Seq<Seq<char>>,
) -> Seq<SwarmOverviewItem>
    decreases sts.len(),
{
    if sts.len() == 0 {
        Seq::empty()
    } else {
        stacks_rows(sts.drop_last(), services, expanded) + stack_rows(sts.last(), services, expanded)
    }
}

/// The overview's rows: the nodes header, the nodes where expanded, then
/// each stack's rows.
pub open spec fn overview_rows(m: SwarmMonitor) -> Seq<SwarmOverviewItem> {
    let expanded = views(m.ui_state.expanded_ids@);
    seq![SwarmOverviewItem::NodesHeader] + (if expanded.contains(nodes_key()) {
        Seq::new(m.nodes@.len(), |i: int| SwarmOverviewItem::Node)
    } else {
        Seq::empty()
    }) + stacks_rows(m.stacks@, m.services@, expanded)
}

/// Every stack's service indices point into the service list.
pub open spec fn stacks_valid(stacks: Seq<SwarmStackInfo>, n: nat) -> bool {
    forall|s: int, k: int|
        0 <= s < stacks.len() && 0 <= k < stacks[s].service_indices@.len() ==> (
        #[trigger] stacks[s].service_indices@[k]) < n
}

fn copy_item(it: &SwarmOverviewItem) -> (r: SwarmOverviewItem)
    ensures
        r == *it,
{
    match it {
        SwarmOverviewItem::NodesHeader => SwarmOverviewItem::NodesHeader,
        SwarmOverviewItem::Node => SwarmOverviewItem::Node,
        SwarmOverviewItem::StackHeader(n) => SwarmOverviewItem::StackHeader(n.clone()),
        SwarmOverviewItem::Service(a, b) => SwarmOverviewItem::Service(a.clone(), b.clone()),
        SwarmOverviewItem::NoItem => SwarmOverviewItem::NoItem,
    }
}

fn is_expanded(ids: &Vec<String>, key: &str) -> (r: bool)
    ensures
        r == views(ids@).contains(key@),
{
    let mut i: usize = 0;
    while i < ids.len()
        invariant
            i <= ids@.len(),
            forall|q: int| 0 <= q < i ==> ids@[q]@ != key@,
        decreases ids.len() - i,
    {
        if str_eq(ids[i].as_str(), key) {
            assert(views(ids@)[i as int] == key@);
            return true;
        }
        i = i + 1;
    }
    proof {
        if views(ids@).contains(key@) {
            let q = choose|q: int| 0 <= q < views(ids@).len() && views(ids@)[q] == key@;
            assert(ids@[q]@ == key@);
        }
    }
    false
}

/// The overview's rows, built.
pub fn overview_items(m: &SwarmMonitor) -> (r: Vec<SwarmOverviewItem>)
    requires
        stacks_valid(m.stacks@, m.services@.len()),
    ensures
        r@ == overview_rows(*m),
{
    let ghost expanded = views(m.ui_state.expanded_ids@);
    let mut r: Vec<SwarmOverviewItem> = Vec::new();
    r.push(SwarmOverviewItem::NodesHeader);
    proof {
        reveal_strlit("__nodes__");
    }
    let nodes_open = is_expanded(&m.ui_state.expanded_ids, "__nodes__");
    if nodes_open {
        let mut i: usize = 0;
        while i < m.nodes.len()
            invariant
                i <= m.nodes@.len(),
                r@ == seq![SwarmOverviewItem::NodesHeader] + Seq::new(
                    i as nat,
                    |q: int| SwarmOverviewItem::Node,
                ),
            decreases m.nodes.len() - i,
        {
            r.push(SwarmOverviewItem::Node);
            assert(r@ =~= seq![SwarmOverviewItem::NodesHeader] + Seq::new(
                (i + 1) as nat,
                |q: int| SwarmOverviewItem::Node,
            ));
            i = i + 1;
        }
    } else {
        assert(r@ =~= seq![SwarmOverviewItem::NodesHeader] + Seq::<SwarmOverviewItem>::empty());
    }
    let ghost head = r@;
    let mut k: usize = 0;
    assert(m.stacks@.take(0) =~= Seq::<SwarmStackInfo>::empty());
    assert(head + stacks_rows(m.stacks@.take(0), m.services@, expanded) =~= head);
    while k < m.stacks.len()
        invariant
            k <= m.stacks@.len(),
            expanded == views(m.ui_state.expanded_ids@),
            stacks_valid(m.stacks@, m.services@.len()),
            r@ == head + stacks_rows(m.stacks@.take(k as int), m.services@, expanded),
        decreases m.stacks.len() - k,
    {
        let st = &m.stacks[k];
        let ghost before = r@;
        r.push(SwarmOverviewItem::StackHeader(st.name.clone()));
        let open = is_expanded(&m.ui_state.expanded_ids, st.name.as_str());
        let ghost svc_rows = st.service_indices@.map_values(
            |i: usize| SwarmOverviewItem::Service(m.services@[i as int].id, m.services@[i as int].name),
        );
        if open {
            let mut j: usize = 0;
            while j < st.service_indices.len()
                invariant
                    st == m.stacks@[k as int],
                    stacks_valid(m.stacks@, m.services@.len()),
                    k < m.stacks@.len(),
                    j <= st.service_indices@.len(),
                    svc_rows == st.service_indices@.map_values(
                        |i: usize| SwarmOverviewItem::Service(
                            m.services@[i as int].id,
                            m.services@[i as int].name,
                        ),
                    ),
                    r@ == before + seq![SwarmOverviewItem::StackHeader(st.name)] + svc_rows.take(
                        j as int,
                    ),
                decreases st.service_indices.len() - j,
            {
                let idx = st.service_indices[j];
                assert(idx < m.services@.len());
                let svc = &m.services[idx];
                r.push(SwarmOverviewItem::Service(svc.id.clone(), svc.name.clone()));
                assert(svc_rows.take(j + 1) =~= svc_rows.take(j as int).push(svc_rows[j as int]));
                j = j + 1;
            }
            assert(svc_rows.take(st.service_indices@.len() as int) =~= svc_rows);
        }
        proof {
            assert(m.stacks@.take(k + 1).drop_last() =~= m.stacks@.take(k as int));
            let sr = stack_rows(*st, m.services@, expanded);
            if open {
                assert(sr =~= seq![SwarmOverviewItem::StackHeader(st.name)] + svc_rows);
            } else {
                assert(sr =~= seq![SwarmOverviewItem::StackHeader(st.name)]);
            }
            assert(r@ =~= head + stacks_rows(m.stacks@.take(k + 1), m.services@, expanded));
        }
        k = k + 1;
    }
    assert(m.stacks@.take(m.stacks@.len() as int) =~= m.stacks@);
    r
}

/// Which item sits at row `selected` of the overview; `None` past the end.
pub fn resolve_swarm_overview_item(monitor: &SwarmMonitor, selected: usize) -> (r: SwarmOverviewItem)
    requires
        stacks_valid(monitor.stacks@, monitor.services@.len()),
    ensures
        r == if selected < overview_rows(*monitor).len() {
            overview_rows(*monitor)[selected as int]
        } else {
            SwarmOverviewItem::NoItem
        },
{
    let items = overview_items(monitor);
    if selected < items.len() {
        copy_item(&items[selected])
    } else {
        SwarmOverviewItem::NoItem
    }
}

/// The cluster tab's state.
pub struct SwarmMonitor {
    pub mode: SwarmMode,
    pub cluster_info: Option<SwarmClusterInfo>,
    pub nodes: Vec<SwarmNodeInfo>,
    pub services: Vec<SwarmServiceInfo>,
    pub stacks: Vec<SwarmStackInfo>,
    pub tasks: Vec<SwarmTaskInfo>,
    /// Running tasks of the services of expanded stacks, by service id.
    pub service_tasks: Vec<(String, Vec<SwarmTaskInfo>)>,
    pub ui_state: SwarmUIState,
    pub log_state: Option<ServiceLogState>,
    pub log_handle: Option<LogStreamHandle>,
    pub status_message: Option<String>,
    pub warnings: Vec<String>,
    pub docker_cli_available: bool,
    pub action: ActionSlot,
}

impl SwarmMonitor {
    /// A monitor for what detection found: cluster mode where a cluster was
    /// found, standalone otherwise.
    pub fn new(docker_cli_available: bool, cluster_info: Option<SwarmClusterInfo>) -> (r: Self)
        ensures
            r.mode == (if cluster_info is Some {
                SwarmMode::Swarm
            } else {
                SwarmMode::Standalone
            }),
            r.docker_cli_available == docker_cli_available,
            r.nodes@.len() == 0,
            r.services@.len() == 0,
            r.stacks@.len() == 0,
            r.log_handle is None,
            r.log_state is None,
            r.action.receiver is None,
            r.status_message is None,
            r.ui_state.view_level is Overview,
    {
        let mode = if cluster_info.is_some() {
            SwarmMode::Swarm
        } else {
            SwarmMode::Standalone
        };
        SwarmMonitor {
            mode,
            cluster_info,
            nodes: Vec::new(),
            services: Vec::new(),
            stacks: Vec::new(),
            tasks: Vec::new(),
            service_tasks: Vec::new(),
            ui_state: SwarmUIState::new(),
            log_state: None,
            log_handle: None,
            status_message: None,
            warnings: Vec::new(),
            docker_cli_available,
            action: ActionSlot::new(),
        }
    }

    /// A cluster-mode monitor holding the given nodes, services, stacks and
    /// expanded rows, and nothing else.
    pub fn new_minimal(
        nodes: Vec<SwarmNodeInfo>,
        services: Vec<SwarmServiceInfo>,
        stacks: Vec<SwarmStackInfo>,
        expanded_ids: Vec<String>,
    ) -> (r: Self)
        ensures
            r.mode == SwarmMode::Swarm,
            r.nodes == nodes,
            r.services == services,
            r.stacks == stacks,
            r.ui_state.expanded_ids == expanded_ids,
            r.ui_state.view_level is Overview,
            r.ui_state.selected_index == 0,
            r.cluster_info is None,
            !r.docker_cli_available,
            r.log_handle is None,
            r.action.receiver is None,
    {
        let mut ui_state = SwarmUIState::new();
        ui_state.expanded_ids = expanded_ids;
        SwarmMonitor {
            mode: SwarmMode::Swarm,
            cluster_info: None,
            nodes,
            services,
            stacks,
            tasks: Vec::new(),
            service_tasks: Vec::new(),
            ui_state,
            log_state: None,
            log_handle: None,
            status_message: None,
            warnings: Vec::new(),
            docker_cli_available: false,
            action: ActionSlot::new(),
        }
    }

    /// Whether every stack's service indices point into the service list.
    pub fn stacks_ok(&self) -> (r: bool)
        ensures
            r == stacks_valid(self.stacks@, self.services@.len()),
    {
        let mut s: usize = 0;
        while s < self.stacks.len()
            invariant
                s <= self.stacks@.len(),
                forall|a: int, k: int|
                    0 <= a < s && 0 <= k < self.stacks@[a].service_indices@.len() ==> (
                    #[trigger] self.stacks@[a].service_indices@[k]) < self.services@.len(),
            decreases self.stacks.len() - s,
        {
            let st = &self.stacks[s];
            let mut k: usize = 0;
            while k < st.service_indices.len()
                invariant
                    s < self.stacks@.len(),
                    st == self.stacks@[s as int],
                    k <= st.service_indices@.len(),
                    forall|j: int| 0 <= j < k ==> (#[trigger] st.service_indices@[j]) < self.services@.len(),
                decreases st.service_indices.len() - k,
            {
                if st.service_indices[k] >= self.services.len() {
                    assert(self.stacks@[s as int].service_indices@[k as int] >= self.services@.len());
                    return false;
                }
                k = k + 1;
            }
            s = s + 1;
        }
        true
    }

    pub fn is_swarm(&self) -> (r: bool)
        ensures
            r == (self.mode == SwarmMode::Swarm),
    {
        self.mode == SwarmMode::Swarm
    }

    /// Applies a new detection while standalone: records whether the CLI is
    /// there and, where it is, the cluster found, switching to cluster mode
    /// when one was. A monitor in cluster mode is left as it is.
    pub fn recheck_swarm(&mut self, docker_cli_available: bool, cluster_info: Option<SwarmClusterInfo>)
        ensures
            old(self).mode == SwarmMode::Swarm ==> *final(self) == *old(self),
            old(self).mode != SwarmMode::Swarm ==> {
                &&& final(self).docker_cli_available == docker_cli_available
                &&& docker_cli_available ==> final(self).cluster_info == cluster_info
                &&& !docker_cli_available ==> final(self).cluster_info == old(self).cluster_info
                &&& final(self).mode == (if docker_cli_available && cluster_info is Some {
                    SwarmMode::Swarm
                } else {
                    old(self).mode
                })
            },
    {
        if self.is_swarm() {
            return;
        }
        self.docker_cli_available = docker_cli_available;
        if !docker_cli_available {
            return;
        }
        self.cluster_info = cluster_info;
        if self.cluster_info.is_some() {
            self.mode = SwarmMode::Swarm;
        }
    }

    /// The number of rows of the overview.
    pub fn overview_row_count(&self) -> (r: usize)
        requires
            stacks_valid(self.stacks@, self.services@.len()),
        ensures
            r == overview_rows(*self).len(),
    {
        let items = overview_items(self);
        items.len()
    }

    /// Shows the tasks of a service, as listed (or the listing's error).
    pub fn enter_task_view(
        &mut self,
        service_id: &str,
        service_name: &str,
        listed: Result<Vec<SwarmTaskInfo>, String>,
    )
        ensures
            final(self).ui_state.view_level == SwarmViewLevel::ServiceTasks(
                final(self).ui_state.view_level->ServiceTasks_0,
                final(self).ui_state.view_level->ServiceTasks_1,
            ),
            final(self).ui_state.view_level->ServiceTasks_0@ == service_id@,
            final(self).ui_state.view_level->ServiceTasks_1@ == service_name@,
            final(self).ui_state.selected_index == 0,
            match listed {
                Ok(t) => final(self).tasks == t && final(self).status_message == old(
                    self,
                ).status_message,
                Err(e) => final(self).tasks@.len() == 0 && final(self).status_message is Some
                    && final(self).status_message.unwrap()@ == error_text(e@),
            },
    {
        match listed {
            Ok(t) => self.tasks = t,
            Err(e) => {
                self.tasks.clear();
                self.status_message = Some(error_message(&e));
            },
        }
        self.ui_state.view_level = SwarmViewLevel::ServiceTasks(
            String::from_str(service_id),
            String::from_str(service_name),
        );
        self.ui_state.selected_index = 0;
    }

    /// Ends the log stream, telling its reader to stop, and drops the log
    /// view; with no stream it changes nothing.
    pub fn stop_log_stream(&mut self)
        ensures
            stopped(*old(self), *final(self)),
    {
        match &self.log_handle {
            Some(h) => h.kill(),
            None => {},
        }
        self.log_handle = None;
        self.log_state = None;
    }

    /// Starts showing the log stream `handle` of a service, ending any
    /// stream shown before.
    pub fn start_service_log_stream(&mut self, service_id: &str, service_name: &str, handle: LogStreamHandle)
        ensures
            final(self).log_handle == Some(handle),
            final(self).log_state is Some,
            final(self).log_state.unwrap().lines@.len() == 0,
            final(self).log_state.unwrap().service_id@ == service_id@,
            final(self).log_state.unwrap().service_name@ == service_name@,
            final(self).log_state.unwrap().scroll_offset == 0,
            final(self).log_state.unwrap().auto_follow,
            !final(self).log_state.unwrap().filter_errors,
            !final(self).log_state.unwrap().search_mode,
            final(self).log_state.unwrap().search_query@.len() == 0,
            final(self).ui_state.view_level is ServiceLogs,
            final(self).ui_state.view_level->ServiceLogs_0@ == service_id@,
            final(self).ui_state.view_level->ServiceLogs_1@ == service_name@,
            *final(self) == (SwarmMonitor {
                log_handle: final(self).log_handle,
                log_state: final(self).log_state,
                ui_state: SwarmUIState { view_level: final(self).ui_state.view_level, ..old(self).ui_state },
                ..*old(self)
            }),
    {
        self.stop_log_stream();
        self.log_state = Some(
            ServiceLogState::new(String::from_str(service_id), String::from_str(service_name)),
        );
        self.log_handle = Some(handle);
        self.ui_state.view_level = SwarmViewLevel::ServiceLogs(
            String::from_str(service_id),
            String::from_str(service_name),
        );
    }

    /// Moves waiting log lines into the log view, one batch at most.
    pub fn poll_logs(&mut self)
        ensures
            final(self).log_handle == old(self).log_handle,
            (old(self).log_handle is None || old(self).log_state is None) ==> *final(self) == *old(
                self,
            ),
            old(self).log_state is Some ==> final(self).log_state is Some,
            old(self).log_handle is Some && old(self).log_state is Some ==> exists|taken: Seq<String>|
                taken.len() <= crate::logs::SERVICE_LOG_BATCH && final(self).log_state.unwrap().lines@
                    == crate::logs::bounded_push_all(
                    old(self).log_state.unwrap().lines@,
                    taken,
                    crate::logs::SERVICE_LOG_CAPACITY as nat,
                ),
    {
        let handle = match &self.log_handle {
            Some(h) => h,
            None => {
                return;
            },
        };
        match &mut self.log_state {
            Some(state) => drain_service_logs(state, handle),
            None => {},
        }
    }

    /// Takes a background action whose worker reports on `rx`, showing
    /// `message` while it runs; refused with a busy message while another
    /// is in flight.
    pub fn submit_action(&mut self, rx: std::sync::mpsc::Receiver<ActionOutcome>, message: String) -> (accepted: bool)
        ensures
            submitted(old(self).action, final(self).action, accepted, rx),
            accepted ==> final(self).status_message == Some(message),
            !accepted ==> final(self).status_message is Some
                && final(self).status_message.unwrap()@ == busy_text(),
            *final(self) == (SwarmMonitor {
                status_message: final(self).status_message,
                action: final(self).action,
                ..*old(self)
            }),
    {
        let accepted = self.action.submit(rx);
        if accepted {
            self.status_message = Some(message);
        } else {
            self.status_message = Some(busy_message());
        }
        accepted
    }

    /// Takes a rolling restart of a service whose worker reports on `rx`.
    pub fn force_restart_service(&mut self, service_id: &str, rx: std::sync::mpsc::Receiver<ActionOutcome>) -> (accepted: bool)
        ensures
            submitted(old(self).action, final(self).action, accepted, rx),
            accepted ==> final(self).status_message is Some && final(self).status_message.unwrap()@
                == "Rolling restart in progress for "@ + service_id@ + "..."@,
            !accepted ==> final(self).status_message is Some
                && final(self).status_message.unwrap()@ == busy_text(),
    {
        let mut m = String::from_str("Rolling restart in progress for ");
        push_all(&mut m, service_id);
        push_all(&mut m, "...");
        self.submit_action(rx, m)
    }

    /// Takes a scaling of a service to `replicas` whose worker reports on `rx`.
    pub fn scale_service(
        &mut self,
        service_id: &str,
        replicas: u32,
        rx: std::sync::mpsc::Receiver<ActionOutcome>,
    ) -> (accepted: bool)
        ensures
            submitted(old(self).action, final(self).action, accepted, rx),
            accepted ==> final(self).status_message is Some && final(self).status_message.unwrap()@
                == "Scaling "@ + service_id@ + " to "@ + dec_digits(replicas as nat) + " replicas..."@,
            !accepted ==> final(self).status_message is Some
                && final(self).status_message.unwrap()@ == busy_text(),
    {
        let mut m = String::from_str("Scaling ");
        push_all(&mut m, service_id);
        push_all(&mut m, " to ");
        push_decimal(&mut m, replicas as u64);
        push_all(&mut m, " replicas...");
        self.submit_action(rx, m)
    }

    /// Reads the action's outcome without blocking; true when it ended and
    /// its message became the status.
    pub fn poll_action(&mut self) -> (changed: bool)
        ensures
            !changed ==> *final(self) == *old(self),
            changed ==> final(self).status_message is Some && final(self).action.receiver is None,
            changed ==> *final(self) == (SwarmMonitor {
                status_message: final(self).status_message,
                action: final(self).action,
                ..*old(self)
            }),
            old(self).action.receiver is None ==> !changed,
    {
        let event = match &self.action.receiver {
            Some(rx) => receive_now(rx),
            None => {
                return false;
            },
        };
        self.settle_action(event)
    }

    /// Applies one read of the action's channel: an outcome, or a worker
    /// gone without one, ends the action and its message becomes the
    /// status; an empty read changes nothing.
    pub fn settle_action(&mut self, event: Received<ActionOutcome>) -> (changed: bool)
        ensures
            action_settled(*old(self), *final(self), event, changed),
    {
        match self.action.settle(event) {
            Some(m) => {
                self.status_message = Some(m);
                true
            },
            None => false,
        }
    }

    /// Goes up one level: from the logs (ending the stream) or from the
    /// tasks to the overview, with the first row selected.
    pub fn go_back(&mut self)
        ensures
            old(self).ui_state.view_level is Overview ==> *final(self) == *old(self),
            !(old(self).ui_state.view_level is Overview) ==> {
                &&& final(self).ui_state.view_level is Overview
                &&& final(self).ui_state.selected_index == 0
            },
            old(self).ui_state.view_level is ServiceLogs ==> final(self).log_handle is None
                && final(self).log_state is None,
            old(self).ui_state.view_level is ServiceTasks ==> final(self).tasks@.len() == 0,
    {
        match &self.ui_state.view_level {
            SwarmViewLevel::ServiceLogs(_, _) => {
                self.stop_log_stream();
                self.ui_state.view_level = SwarmViewLevel::Overview;
                self.ui_state.selected_index = 0;
            },
            SwarmViewLevel::ServiceTasks(_, _) => {
                self.tasks.clear();
                self.ui_state.view_level = SwarmViewLevel::Overview;
                self.ui_state.selected_index = 0;
            },
            SwarmViewLevel::Overview => {},
        }
    }
}

/// `Error: ` and the error text.
pub open spec fn error_text(e: Seq<char>) -> Seq<char> {
    "Error: "@ + e
}

fn error_message(e: &String) -> (r: String)
    ensures
        r@ == error_text(e@),
{
    let mut r = String::from_str("Error: ");
    push_all(&mut r, e.as_str());
    r
}

/// What `settle_action` does with one read of the channel.
pub open spec fn action_settled(
    before: SwarmMonitor,
    after: SwarmMonitor,
    event: Received<ActionOutcome>,
    changed: bool,
) -> bool {
    &&& changed == !(event is Empty)
    &&& !changed ==> after == before
    &&& changed ==> {
        &&& after.action.receiver is None
        &&& after.status_message is Some
        &&& settled_message(event) == Some(after.status_message.unwrap()@)
        &&& after == (SwarmMonitor {
            status_message: after.status_message,
            action: after.action,
            ..before
        })
    }
}

/// A request submitted while an action is in flight is refused and leaves
/// that action's channel in place, so the outcome then read from the
/// channel becomes the status: the in-flight action's own message.
pub proof fn lemma_refused_request_keeps_outcome(
    start: SwarmMonitor,
    refused: SwarmMonitor,
    settled: SwarmMonitor,
    accepted: bool,
    rx: std::sync::mpsc::Receiver<ActionOutcome>,
    outcome: ActionOutcome,
    changed: bool,
)
    requires
        start.action.receiver is Some,
        submitted(start.action, refused.action, accepted, rx),
        action_settled(refused, settled, Received::Item(outcome), changed),
    ensures
        !accepted,
        refused.action == start.action,
        changed,
        settled.action.receiver is None,
        settled.status_message.unwrap()@ == match outcome {
            Ok(m) => m@,
            Err(m) => m@,
        },
{
}

/// What `stop_log_stream` does: no stream or log view is left and every
/// other field is kept.
pub open spec fn stopped(before: SwarmMonitor, after: SwarmMonitor) -> bool {
    after == SwarmMonitor { log_handle: None, log_state: None, ..before }
}

/// Stopping the log stream a second time changes nothing: the second call
/// finds no stream and leaves the state as the first call left it.
pub proof fn lemma_stop_idempotent(start: SwarmMonitor, once: SwarmMonitor, twice: SwarmMonitor)
    requires
        stopped(start, once),
        stopped(once, twice),
    ensures
        twice == once,
{
}

/// Lexicographic order of character sequences, as `String`'s order is.
pub open spec fn lex_lt(a: Seq<char>, b: Seq<char>) -> bool
    decreases a.len(),
{
    if a.len() == 0 {
        b.len() > 0
    } else if b.len() == 0 {
        false
    } else if a[0] != b[0] {
        a[0] < b[0]
    } else {
        lex_lt(a.drop_first(), b.drop_first())
    }
}

proof fn lemma_lex_total(a: Seq<char>, b: Seq<char>)
    requires
        a != b,
    ensures
        lex_lt(a, b) || lex_lt(b, a),
    decreases a.len(),
{
    if a.len() > 0 && b.len() > 0 && a[0] == b[0] {
        if a.drop_first() == b.drop_first() {
            assert(a.drop_first().len() == b.drop_first().len());
            assert forall|i: int| 0 <= i < a.len() implies a[i] == b[i] by {
                if i > 0 {
                    assert(a[i] == a.drop_first()[i - 1]);
                    assert(b[i] == b.drop_first()[i - 1]);
                }
            }
            assert(a =~= b);
        }
        lemma_lex_total(a.drop_first(), b.drop_first());
    } else if a.len() == 0 && b.len() == 0 {
        assert(a =~= b);
    }
}

fn lex_less(a: &Vec<char>, b: &Vec<char>) -> (r: bool)
    ensures
        r == lex_lt(a@, b@),
{
    let mut i: usize = 0;
    assert(a@.skip(0) =~= a@);
    assert(b@.skip(0) =~= b@);
    while i < a.len() && i < b.len() && a[i] == b[i]
        invariant
            i <= a@.len(),
            i <= b@.len(),
            lex_lt(a@, b@) == lex_lt(a@.skip(i as int), b@.skip(i as int)),
        decreases a.len() - i,
    {
        assert(a@.skip(i as int).drop_first() =~= a@.skip(i + 1));
        assert(b@.skip(i as int).drop_first() =~= b@.skip(i + 1));
        i = i + 1;
    }
    if i == a.len() {
        i < b.len()
    } else if i == b.len() {
        false
    } else {
        a[i] < b[i]
    }
}

/// The stack name of services deployed without one.
pub open spec fn no_stack() -> Seq<char> {
    "(no stack)"@
}

/// The stack a service belongs to.
pub open spec fn stack_of(s: SwarmServiceInfo) -> Seq<char> {
    if s.stack@.len() == 0 {
        no_stack()
    } else {
        s.stack@
    }
}

/// Stack order: by name, with the services without a stack last.
pub open spec fn stack_before(a: Seq<char>, b: Seq<char>) -> bool {
    a != no_stack() && (b == no_stack() || lex_lt(a, b))
}

/// The indices of the services of stack `n`, in order.
pub open spec fn indices_in(svcs: Seq<SwarmServiceInfo>, n: Seq<char>) -> Seq<usize>
    decreases svcs.len(),
{
    if svcs.len() == 0 {
        Seq::empty()
    } else if stack_of(svcs.last()) == n {
        indices_in(svcs.drop_last(), n).push((svcs.len() - 1) as usize)
    } else {
        indices_in(svcs.drop_last(), n)
    }
}

fn stack_name_exec(s: &SwarmServiceInfo) -> (r: String)
    ensures
        r@ == stack_of(*s),
{
    if s.stack.as_str().unicode_len() == 0 {
        String::from_str("(no stack)")
    } else {
        s.stack.clone()
    }
}

fn before_exec(a: &String, b: &String) -> (r: bool)
    ensures
        r == stack_before(a@, b@),
{
    proof {
        reveal_strlit("(no stack)");
    }
    let ns = "(no stack)";
    if str_eq(a.as_str(), ns) {
        return false;
    }
    if str_eq(b.as_str(), ns) {
        return true;
    }
    let ac = crate::text::to_chars(a.as_str());
    let bc = crate::text::to_chars(b.as_str());
    lex_less(&ac, &bc)
}

proof fn lemma_indices_valid(svcs: Seq<SwarmServiceInfo>, n: Seq<char>)
    requires
        svcs.len() <= usize::MAX,
    ensures
        forall|k: int|
            0 <= k < indices_in(svcs, n).len() ==> (#[trigger] indices_in(svcs, n)[k]) < svcs.len(),
    decreases svcs.len(),
{
    if svcs.len() > 0 {
        lemma_indices_valid(svcs.drop_last(), n);
        let p = indices_in(svcs.drop_last(), n);
        let x = (svcs.len() - 1) as usize;
        assert forall|k: int| 0 <= k < p.push(x).len() implies (#[trigger] p.push(x)[k]) < svcs.len() by {
            if k < p.len() {
                assert(p.push(x)[k] == p[k]);
            }
        }
    }
}

fn collect_indices(svcs: &Vec<SwarmServiceInfo>, name: &String) -> (r: Vec<usize>)
    ensures
        r@ == indices_in(svcs@, name@),
{
    let mut r: Vec<usize> = Vec::new();
    let mut q: usize = 0;
    assert(svcs@.take(0) =~= Seq::<SwarmServiceInfo>::empty());
    while q < svcs.len()
        invariant
            q <= svcs@.len(),
            r@ == indices_in(svcs@.take(q as int), name@),
        decreases svcs.len() - q,
    {
        assert(svcs@.take(q + 1).drop_last() =~= svcs@.take(q as int));
        let sn = stack_name_exec(&svcs[q]);
        if str_eq(sn.as_str(), name.as_str()) {
            r.push(q);
        }
        q = q + 1;
    }
    assert(svcs@.take(svcs@.len() as int) =~= svcs@);
    r
}

/// Names in stack order, each following the one before it.
pub open spec fn names_sorted(ns: Seq<Seq<char>>) -> bool {
    forall|i: int| 0 <= i < ns.len() - 1 ==> stack_before(#[trigger] ns[i], ns[i + 1])
}

pub open spec fn names_distinct(ns: Seq<Seq<char>>) -> bool {
    forall|i: int, j: int| 0 <= i < j < ns.len() ==> ns[i] != ns[j]
}

pub open spec fn stack_names(svcs: Seq<SwarmServiceInfo>) -> Seq<Seq<char>> {
    svcs.map_values(|s: SwarmServiceInfo| stack_of(s))
}

/// The names of `st` are those of the stacks of `svcs`, each once, in
/// stack order, each with the indices of its services.
pub open spec fn stacks_of(svcs: Seq<SwarmServiceInfo>, st: Seq<SwarmStackInfo>) -> bool {
    let ns = st.map_values(|x: SwarmStackInfo| x.name@);
    &&& names_sorted(ns)
    &&& names_distinct(ns)
    &&& forall|q: int| 0 <= q < svcs.len() ==> ns.contains(#[trigger] stack_names(svcs)[q])
    &&& forall|i: int| 0 <= i < ns.len() ==> stack_names(svcs).contains(#[trigger] ns[i])
    &&& forall|i: int|
        0 <= i < st.len() ==> (#[trigger] st[i]).service_indices@ == indices_in(svcs, st[i].name@)
}

#[verifier::spinoff_prover]
#[verifier::rlimit(60)]
proof fn lemma_insert_name(ns: Seq<Seq<char>>, n: Seq<char>, p: int)
    requires
        0 <= p <= ns.len(),
        names_sorted(ns),
        names_distinct(ns),
        !ns.contains(n),
        forall|j: int| 0 <= j < p ==> stack_before(#[trigger] ns[j], n),
        p < ns.len() ==> !stack_before(ns[p], n),
    ensures
        names_sorted(ns.insert(p, n)),
        names_distinct(ns.insert(p, n)),
        ns.insert(p, n).contains(n),
        forall|x: Seq<char>| ns.contains(x) ==> ns.insert(p, n).contains(x),
        forall|x: Seq<char>| #[trigger] ns.insert(p, n).contains(x) ==> x == n || ns.contains(x),
{
    let r = ns.insert(p, n);
    if p < ns.len() {
        assert(ns[p] != n);
        lemma_lex_total(ns[p], n);
        reveal_strlit("(no stack)");
        assert(stack_before(n, ns[p]));
    }
    assert forall|i: int| 0 <= i < r.len() - 1 implies stack_before(#[trigger] r[i], r[i + 1]) by {
        if i < p - 1 {
            assert(r[i] == ns[i] && r[i + 1] == ns[i + 1]);
        } else if i == p - 1 {
            assert(r[i] == ns[i]);
        } else if i > p {
            assert(r[i] == ns[i - 1] && r[i + 1] == ns[i]);
        }
    }
    assert forall|i: int, j: int| 0 <= i < j < r.len() implies r[i] != r[j] by {
        if j < p {
        } else if j == p {
            assert(r[i] == ns[i]);
        } else if i < p {
            assert(r[j] == ns[j - 1]);
        } else if i == p {
            assert(r[j] == ns[j - 1]);
        } else {
            assert(r[i] == ns[i - 1] && r[j] == ns[j - 1]);
        }
    }
    assert(r[p] == n);
    assert forall|x: Seq<char>| ns.contains(x) implies r.contains(x) by {
        let i = choose|i: int| 0 <= i < ns.len() && ns[i] == x;
        if i < p {
            assert(r[i] == x);
        } else {
            assert(r[i + 1] == x);
        }
    }
    assert forall|x: Seq<char>| #[trigger] r.contains(x) implies x == n || ns.contains(x) by {
        let i = choose|i: int| 0 <= i < r.len() && r[i] == x;
        if i < p {
            assert(ns[i] == x);
        } else if i > p {
            assert(ns[i - 1] == x);
        }
    }
}

fn names_contain(names: &Vec<String>, n: &String) -> (r: bool)
    ensures
        r == views(names@).contains(n@),
{
    is_expanded(names, n.as_str())
}

/// Groups services into stacks by name, the services without a stack last.
pub fn build_stacks(services: &Vec<SwarmServiceInfo>) -> (r: Vec<SwarmStackInfo>)
    ensures
        stacks_of(services@, r@),
        stacks_valid(r@, services@.len()),
{
    let ghost sn = stack_names(services@);
    let mut names: Vec<String> = Vec::new();
    let mut q: usize = 0;
    assert(views(names@) =~= Seq::<Seq<char>>::empty());
    while q < services.len()
        invariant
            sn == stack_names(services@),
            q <= services@.len(),
            names_sorted(views(names@)),
            names_distinct(views(names@)),
            forall|k: int| 0 <= k < q ==> views(names@).contains(#[trigger] sn[k]),
            forall|i: int| 0 <= i < names@.len() ==> sn.take(q as int).contains(#[trigger] views(names@)[i]),
        decreases services.len() - q,
    {
        let n = stack_name_exec(&services[q]);
        assert(sn[q as int] == n@);
        let ghost before = views(names@);
        if !names_contain(&names, &n) {
            let mut p: usize = 0;
            while p < names.len() && before_exec(&names[p], &n)
                invariant
                    p <= names@.len(),
                    before == views(names@),
                    forall|j: int| 0 <= j < p ==> stack_before(#[trigger] before[j], n@),
                decreases names.len() - p,
            {
                p = p + 1;
            }
            proof {
                lemma_insert_name(before, n@, p as int);
            }
            let ghost nv = n@;
            names.insert(p, n);
            assert(views(names@) =~= before.insert(p as int, nv));
        }
        proof {
            let now = views(names@);
            assert forall|k: int| 0 <= k < q + 1 implies now.contains(#[trigger] sn[k]) by {
                if k < q {
                    assert(before.contains(sn[k]));
                }
            }
            assert forall|i: int| 0 <= i < now.len() implies sn.take(q + 1).contains(#[trigger] now[i]) by {
                assert(now.contains(now[i]));
                if now[i] == sn[q as int] {
                    assert(sn.take(q + 1)[q as int] == sn[q as int]);
                } else {
                    assert(before.contains(now[i]));
                    let j = choose|j: int| 0 <= j < before.len() && before[j] == now[i];
                    let k = choose|k: int| 0 <= k < q && sn.take(q as int)[k] == before[j];
                    assert(sn.take(q + 1)[k] == sn.take(q as int)[k]);
                }
            }
        }
        q = q + 1;
    }
    let mut r: Vec<SwarmStackInfo> = Vec::new();
    let mut i: usize = 0;
    while i < names.len()
        invariant
            i <= names@.len(),
            r@.len() == i,
            forall|j: int| 0 <= j < i ==> (#[trigger] r@[j]).name == names@[j],
            forall|j: int| 0 <= j < i ==> (#[trigger] r@[j]).service_indices@ == indices_in(services@, names@[j]@),
        decreases names.len() - i,
    {
        let idx = collect_indices(services, &names[i]);
        r.push(SwarmStackInfo { name: names[i].clone(), service_indices: idx });
        i = i + 1;
    }
    proof {
        let ns = r@.map_values(|x: SwarmStackInfo| x.name@);
        assert(ns =~= views(names@));
        assert(sn.take(services@.len() as int) =~= sn);
        assert forall|s: int, k: int| 0 <= s < r@.len() && 0 <= k < r@[s].service_indices@.len() implies (#[trigger] r@[s].service_indices@[k]) < services@.len() by {
            lemma_indices_valid(services@, names@[s]@);
        }
    }
    r
}

/// `parts` with `sep` between each two.
pub open spec fn joined(parts: Seq<Seq<char>>, sep: Seq<char>) -> Seq<char>
    decreases parts.len(),
{
    if parts.len() == 0 {
        Seq::empty()
    } else if parts.len() == 1 {
        parts[0]
    } else {
        joined(parts.drop_last(), sep) + sep + parts.last()
    }
}

/// The host names of the nodes whose (lower-cased) field holds `word`.
pub open spec fn hosts_with(nodes: Seq<SwarmNodeInfo>, lowered: Seq<Seq<char>>, word: Seq<char>) -> Seq<Seq<char>>
    decreases nodes.len(),
{
    if nodes.len() == 0 || lowered.len() < nodes.len() {
        Seq::empty()
    } else {
        let rest = hosts_with(nodes.drop_last(), lowered.take(nodes.len() - 1), word);
        if crate::text::has_run(lowered[nodes.len() - 1], word) {
            rest.push(nodes.last().hostname@)
        } else {
            rest
        }
    }
}

pub open spec fn node_warning(head: Seq<char>, mid: Seq<char>, hosts: Seq<Seq<char>>) -> Seq<char> {
    head + dec_digits(hosts.len()) + mid + joined(hosts, ", "@)
}

/// The warning of a service whose running replicas are below the desired,
/// both counts read as `u32`.
pub open spec fn service_warning(svc: SwarmServiceInfo) -> Option<Seq<char>> {
    let parts = crate::text::split_spec(svc.replicas@, '/');
    if parts.len() == 2 {
        match (
            crate::text::unsigned_spec(crate::text::trim_spec(parts[0]), u32::MAX as nat),
            crate::text::unsigned_spec(crate::text::trim_spec(parts[1]), u32::MAX as nat),
        ) {
            (Some(cur), Some(des)) => if des > 0 && cur < des {
                Some("SERVICE DEGRADED: "@ + svc.name@ + " has "@ + dec_digits(cur) + "/"@ + dec_digits(des) + " replicas"@)
            } else {
                None
            },
            _ => None,
        }
    } else {
        None
    }
}

pub open spec fn service_warnings(svcs: Seq<SwarmServiceInfo>) -> Seq<Seq<char>>
    decreases svcs.len(),
{
    if svcs.len() == 0 {
        Seq::empty()
    } else {
        match service_warning(svcs.last()) {
            Some(w) => service_warnings(svcs.drop_last()).push(w),
            None => service_warnings(svcs.drop_last()),
        }
    }
}

pub open spec fn manager_warning(ci: Option<SwarmClusterInfo>) -> Seq<Seq<char>> {
    match ci {
        Some(i) => if i.managers < 3 && i.nodes_total > 3 {
            seq!["LOW MANAGERS: Only "@ + dec_digits(i.managers as nat) + " manager(s) for "@ + dec_digits(i.nodes_total as nat) + " nodes (recommend 3+)"@]
        } else {
            Seq::empty()
        },
        None => Seq::empty(),
    }
}

pub open spec fn cli_missing_text() -> Seq<char> {
    "docker CLI not found in PATH \u{2014} Swarm data unavailable"@
}

/// The cluster's health warnings: the missing CLI alone, or down nodes,
/// drained nodes, services short of replicas, and too few managers.
pub open spec fn warnings_spec(
    cli: bool,
    nodes: Seq<SwarmNodeInfo>,
    status_lower: Seq<Seq<char>>,
    avail_lower: Seq<Seq<char>>,
    svcs: Seq<SwarmServiceInfo>,
    ci: Option<SwarmClusterInfo>,
) -> Seq<Seq<char>> {
    if !cli {
        seq![cli_missing_text()]
    } else {
        let down = hosts_with(nodes, status_lower, "down"@);
        let drain = hosts_with(nodes, avail_lower, "drain"@);
        (if down.len() > 0 {
            seq![node_warning("NODE DOWN: "@, " node(s) unreachable: "@, down)]
        } else {
            Seq::empty()
        }) + (if drain.len() > 0 {
            seq![node_warning("DRAINED: "@, " node(s) in drain mode: "@, drain)]
        } else {
            Seq::empty()
        }) + service_warnings(svcs) + manager_warning(ci)
    }
}

fn hosts_matching(nodes: &Vec<SwarmNodeInfo>, lowered: &Vec<String>, word: &str) -> (r: Vec<String>)
    requires
        lowered@.len() == nodes@.len(),
    ensures
        views(r@) == hosts_with(nodes@, views(lowered@), word@),
{
    let w = crate::text::to_chars(word);
    let mut r: Vec<String> = Vec::new();
    let mut i: usize = 0;
    assert(views(r@) =~= Seq::<Seq<char>>::empty());
    assert(nodes@.take(0) =~= Seq::<SwarmNodeInfo>::empty());
    while i < nodes.len()
        invariant
            w@ == word@,
            lowered@.len() == nodes@.len(),
            i <= nodes@.len(),
            views(r@) == hosts_with(nodes@.take(i as int), views(lowered@).take(i as int), word@),
        decreases nodes.len() - i,
    {
        let c = crate::text::to_chars(lowered[i].as_str());
        let hit = crate::text::contains_str(&c, &w);
        proof {
            let nt = nodes@.take(i + 1);
            let lt = views(lowered@).take(i + 1);
            assert(nt.drop_last() =~= nodes@.take(i as int));
            assert(lt.take(i as int) =~= views(lowered@).take(i as int));
            assert(lt[i as int] == lowered@[i as int]@);
        }
        if hit {
            let ghost before = r@;
            r.push(nodes[i].hostname.clone());
            assert(views(r@) =~= views(before).push(nodes@[i as int].hostname@));
        }
        i = i + 1;
    }
    assert(nodes@.take(nodes@.len() as int) =~= nodes@);
    assert(views(lowered@).take(nodes@.len() as int) =~= views(lowered@));
    r
}

fn push_joined(s: &mut String, parts: &Vec<String>, sep: &str)
    ensures
        final(s)@ == old(s)@ + joined(views(parts@), sep@),
{
    let ghost pv = views(parts@);
    let mut i: usize = 0;
    let ghost start = s@;
    assert(pv.take(0) =~= Seq::<Seq<char>>::empty());
    assert(start + joined(pv.take(0), sep@) =~= start);
    while i < parts.len()
        invariant
            pv == views(parts@),
            i <= parts@.len(),
            s@ == start + joined(pv.take(i as int), sep@),
        decreases parts.len() - i,
    {
        assert(pv.take(i + 1).drop_last() =~= pv.take(i as int));
        if i > 0 {
            push_all(s, sep);
        }
        push_all(s, parts[i].as_str());
        proof {
            if i == 0 {
                assert(pv.take(1) =~= seq![pv[0]]);
            }
        }
        assert(s@ =~= start + joined(pv.take(i + 1), sep@));
        i = i + 1;
    }
    assert(pv.take(parts@.len() as int) =~= pv);
}

fn node_warning_exec(head: &str, mid: &str, hosts: &Vec<String>) -> (r: String)
    ensures
        r@ == node_warning(head@, mid@, views(hosts@)),
{
    let mut r = String::from_str(head);
    push_decimal(&mut r, hosts.len() as u64);
    push_all(&mut r, mid);
    push_joined(&mut r, hosts, ", ");
    r
}

fn service_warning_exec(svc: &SwarmServiceInfo) -> (r: Option<String>)
    ensures
        match r {
            Some(w) => service_warning(*svc) == Some(w@),
            None => service_warning(*svc) is None,
        },
{
    let parts = crate::text::split_on(svc.replicas.as_str(), '/');
    if parts.len() != 2 {
        return None;
    }
    let (cur, des) = match (
        crate::text::parse_u32(crate::text::trim_str(parts[0].as_str())),
        crate::text::parse_u32(crate::text::trim_str(parts[1].as_str())),
    ) {
        (Some(c), Some(d)) => (c, d),
        _ => {
            return None;
        },
    };
    if des > 0 && cur < des {
        let mut w = String::from_str("SERVICE DEGRADED: ");
        push_all(&mut w, svc.name.as_str());
        push_all(&mut w, " has ");
        push_decimal(&mut w, cur as u64);
        push_all(&mut w, "/");
        push_decimal(&mut w, des as u64);
        push_all(&mut w, " replicas");
        Some(w)
    } else {
        None
    }
}

/// The cluster's health warnings from the nodes' lower-cased status and
/// availability.
pub fn cluster_warnings(
    cli_available: bool,
    nodes: &Vec<SwarmNodeInfo>,
    status_lower: &Vec<String>,
    avail_lower: &Vec<String>,
    services: &Vec<SwarmServiceInfo>,
    cluster_info: &Option<SwarmClusterInfo>,
) -> (r: Vec<String>)
    requires
        status_lower@.len() == nodes@.len(),
        avail_lower@.len() == nodes@.len(),
    ensures
        views(r@) == warnings_spec(
            cli_available,
            nodes@,
            views(status_lower@),
            views(avail_lower@),
            services@,
            *cluster_info,
        ),
{
    let mut r: Vec<String> = Vec::new();
    if !cli_available {
        r.push(String::from_str("docker CLI not found in PATH \u{2014} Swarm data unavailable"));
        assert(views(r@) =~= seq![cli_missing_text()]);
        return r;
    }
    let down = hosts_matching(nodes, status_lower, "down");
    let drain = hosts_matching(nodes, avail_lower, "drain");
    if down.len() > 0 {
        r.push(node_warning_exec("NODE DOWN: ", " node(s) unreachable: ", &down));
    }
    if drain.len() > 0 {
        r.push(node_warning_exec("DRAINED: ", " node(s) in drain mode: ", &drain));
    }
    let ghost head = views(r@);
    let mut i: usize = 0;
    assert(services@.take(0) =~= Seq::<SwarmServiceInfo>::empty());
    assert(head + service_warnings(services@.take(0)) =~= head);
    while i < services.len()
        invariant
            i <= services@.len(),
            views(r@) == head + service_warnings(services@.take(i as int)),
        decreases services.len() - i,
    {
        assert(services@.take(i + 1).drop_last() =~= services@.take(i as int));
        match service_warning_exec(&services[i]) {
            Some(w) => {
                let ghost before = r@;
                let ghost wv = w@;
                r.push(w);
                assert(views(r@) =~= views(before).push(wv));
            },
            None => {},
        }
        i = i + 1;
    }
    assert(services@.take(services@.len() as int) =~= services@);
    let ghost mid = views(r@);
    match cluster_info {
        Some(ci) => {
            if ci.managers < 3 && ci.nodes_total > 3 {
                let mut w = String::from_str("LOW MANAGERS: Only ");
                push_decimal(&mut w, ci.managers as u64);
                push_all(&mut w, " manager(s) for ");
                push_decimal(&mut w, ci.nodes_total as u64);
                push_all(&mut w, " nodes (recommend 3+)");
                let ghost wv = w@;
                r.push(w);
                assert(views(r@) =~= mid + seq![wv]);
            } else {
                assert(views(r@) =~= mid + Seq::<Seq<char>>::empty());
            }
        },
        None => {
            assert(views(r@) =~= mid + Seq::<Seq<char>>::empty());
        },
    }
    r
}

impl SwarmMonitor {
    /// Recomputes the health warnings.
    pub fn generate_warnings(&mut self)
        ensures
            exists|st: Seq<Seq<char>>, av: Seq<Seq<char>>|
                st.len() == old(self).nodes@.len() && av.len() == old(self).nodes@.len() && (forall|
                    i: int,
                | 0 <= i < st.len() ==> #[trigger] st[i] == lower_of(old(self).nodes@[i].status@))
                    && (forall|i: int|
                    0 <= i < av.len() ==> #[trigger] av[i] == lower_of(
                        old(self).nodes@[i].availability@,
                    )) && views(final(self).warnings@) == warnings_spec(
                    old(self).docker_cli_available,
                    old(self).nodes@,
                    st,
                    av,
                    old(self).services@,
                    old(self).cluster_info,
                ),
            final(self).nodes == old(self).nodes,
            final(self).services == old(self).services,
            final(self).stacks == old(self).stacks,
            final(self).tasks == old(self).tasks,
            final(self).service_tasks == old(self).service_tasks,
            final(self).status_message == old(self).status_message,
    {
        let mut st: Vec<String> = Vec::new();
        let mut av: Vec<String> = Vec::new();
        let mut i: usize = 0;
        while i < self.nodes.len()
            invariant
                i <= self.nodes@.len(),
                st@.len() == i,
                av@.len() == i,
                forall|q: int| 0 <= q < i ==> #[trigger] st@[q]@ == lower_of(self.nodes@[q].status@),
                forall|q: int| 0 <= q < i ==> #[trigger] av@[q]@ == lower_of(self.nodes@[q].availability@),
            decreases self.nodes.len() - i,
        {
            st.push(lowercase(self.nodes[i].status.as_str()));
            av.push(lowercase(self.nodes[i].availability.as_str()));
            i = i + 1;
        }
        let w = cluster_warnings(
            self.docker_cli_available,
            &self.nodes,
            &st,
            &av,
            &self.services,
            &self.cluster_info,
        );
        self.warnings = w;
        assert(views(st@).len() == self.nodes@.len());
        assert(forall|q: int| 0 <= q < views(st@).len() ==> #[trigger] views(st@)[q] == lower_of(self.nodes@[q].status@));
        assert(forall|q: int| 0 <= q < views(av@).len() ==> #[trigger] views(av@)[q] == lower_of(self.nodes@[q].availability@));
    }
}

/// The address recorded for node `id`: the first entry for it.
pub open spec fn ip_of(ips: Seq<(String, String)>, id: Seq<char>) -> Option<String>
    decreases ips.len(),
{
    if ips.len() == 0 {
        None
    } else if ips[0].0@ == id {
        Some(ips[0].1)
    } else {
        ip_of(ips.drop_first(), id)
    }
}

fn ip_lookup(ips: &Vec<(String, String)>, id: &String) -> (r: Option<String>)
    ensures
        r == ip_of(ips@, id@),
{
    let mut i: usize = 0;
    assert(ips@.skip(0) =~= ips@);
    while i < ips.len()
        invariant
            i <= ips@.len(),
            ip_of(ips@, id@) == ip_of(ips@.skip(i as int), id@),
        decreases ips.len() - i,
    {
        assert(ips@.skip(i as int).drop_first() =~= ips@.skip(i + 1));
        if ips[i].0 == *id {
            return Some(ips[i].1.clone());
        }
        i = i + 1;
    }
    None
}

/// A node with the address recorded for it, where one is.
pub open spec fn with_ip(n: SwarmNodeInfo, ips: Seq<(String, String)>) -> SwarmNodeInfo {
    match ip_of(ips, n.id@) {
        Some(ip) => SwarmNodeInfo { ip_address: ip, ..n },
        None => n,
    }
}

/// The index of the last `c` of `s`.
pub open spec fn last_index_of(s: Seq<char>, c: char) -> Option<int>
    decreases s.len(),
{
    if s.len() == 0 {
        None
    } else if s.last() == c {
        Some(s.len() - 1)
    } else {
        last_index_of(s.drop_last(), c)
    }
}

/// The service name of a task named `service.N`: all before the last `.`.
pub open spec fn task_service_name(t: Seq<char>) -> Seq<char> {
    match last_index_of(t, '.') {
        Some(k) => t.take(k),
        None => t,
    }
}

/// The id of the last service named `name`.
pub open spec fn id_for_name(svcs: Seq<SwarmServiceInfo>, name: Seq<char>) -> Option<Seq<char>>
    decreases svcs.len(),
{
    if svcs.len() == 0 {
        None
    } else if svcs.last().name@ == name {
        Some(svcs.last().id@)
    } else {
        id_for_name(svcs.drop_last(), name)
    }
}

/// `g` with `t` added to the group of `id`, or a new group for it.
pub open spec fn add_task(g: Seq<(Seq<char>, Seq<SwarmTaskInfo>)>, id: Seq<char>, t: SwarmTaskInfo) -> Seq<(Seq<char>, Seq<SwarmTaskInfo>)>
    decreases g.len(),
{
    if g.len() == 0 {
        seq![(id, seq![t])]
    } else if g[0].0 == id {
        seq![(id, g[0].1.push(t))] + g.drop_first()
    } else {
        seq![g[0]] + add_task(g.drop_first(), id, t)
    }
}

/// The tasks of `ts` grouped by the id of their service, groups in order
/// of first appearance; tasks of unknown services are left out.
pub open spec fn tasks_by_service(ts: Seq<SwarmTaskInfo>, svcs: Seq<SwarmServiceInfo>) -> Seq<(Seq<char>, Seq<SwarmTaskInfo>)>
    decreases ts.len(),
{
    if ts.len() == 0 {
        Seq::empty()
    } else {
        let g = tasks_by_service(ts.drop_last(), svcs);
        match id_for_name(svcs, task_service_name(ts.last().name@)) {
            Some(id) => add_task(g, id, ts.last()),
            None => g,
        }
    }
}

pub open spec fn group_views(g: Seq<(String, Vec<SwarmTaskInfo>)>) -> Seq<(Seq<char>, Seq<SwarmTaskInfo>)> {
    g.map_values(|e: (String, Vec<SwarmTaskInfo>)| (e.0@, e.1@))
}

proof fn lemma_add_task_at(g: Seq<(Seq<char>, Seq<SwarmTaskInfo>)>, id: Seq<char>, t: SwarmTaskInfo, j: int)
    requires
        0 <= j <= g.len(),
        forall|q: int| 0 <= q < j ==> (#[trigger] g[q]).0 != id,
        j < g.len() ==> g[j].0 == id,
    ensures
        add_task(g, id, t) == if j < g.len() {
            g.update(j, (id, g[j].1.push(t)))
        } else {
            g.push((id, seq![t]))
        },
    decreases g.len(),
{
    if g.len() == 0 {
        assert(g.push((id, seq![t])) =~= seq![(id, seq![t])]);
    } else if j == 0 {
        assert(seq![(id, g[0].1.push(t))] + g.drop_first() =~= g.update(0, (id, g[0].1.push(t))));
    } else {
        let u = g.drop_first();
        assert forall|q: int| 0 <= q < j - 1 implies (#[trigger] u[q]).0 != id by {
            assert(u[q] == g[q + 1]);
        }
        lemma_add_task_at(u, id, t, j - 1);
        if j < g.len() {
            assert(seq![g[0]] + u.update(j - 1, (id, g[j].1.push(t))) =~= g.update(j, (id, g[j].1.push(t))));
        } else {
            assert(seq![g[0]] + u.push((id, seq![t])) =~= g.push((id, seq![t])));
        }
    }
}

fn service_name_of_task(name: &String) -> (r: String)
    ensures
        r@ == task_service_name(name@),
{
    let c = crate::text::to_chars(name.as_str());
    let mut k: usize = c.len();
    assert(c@.take(k as int) =~= c@);
    while k > 0 && c[k - 1] != '.'
        invariant
            c@ == name@,
            k <= c@.len(),
            last_index_of(name@, '.') == last_index_of(c@.take(k as int), '.'),
        decreases k,
    {
        assert(c@.take(k as int).drop_last() =~= c@.take(k - 1));
        k = k - 1;
    }
    if k == 0 {
        assert(c@.take(0) =~= Seq::<char>::empty());
        return name.clone();
    }
    assert(c@.take(k as int).last() == '.');
    String::from_str(name.as_str().substring_char(0, k - 1))
}

fn id_lookup(svcs: &Vec<SwarmServiceInfo>, name: &String) -> (r: Option<String>)
    ensures
        match r {
            Some(id) => id_for_name(svcs@, name@) == Some(id@),
            None => id_for_name(svcs@, name@) is None,
        },
{
    let mut k: usize = svcs.len();
    assert(svcs@.take(k as int) =~= svcs@);
    while k > 0
        invariant
            k <= svcs@.len(),
            id_for_name(svcs@, name@) == id_for_name(svcs@.take(k as int), name@),
        decreases k,
    {
        assert(svcs@.take(k as int).drop_last() =~= svcs@.take(k - 1));
        if svcs[k - 1].name == *name {
            return Some(svcs[k - 1].id.clone());
        }
        k = k - 1;
    }
    None
}

fn copy_task(t: &SwarmTaskInfo) -> (r: SwarmTaskInfo)
    ensures
        r == *t,
{
    SwarmTaskInfo {
        id: t.id.clone(),
        name: t.name.clone(),
        image: t.image.clone(),
        node: t.node.clone(),
        desired_state: t.desired_state.clone(),
        current_state: t.current_state.clone(),
        error: t.error.clone(),
        ports: t.ports.clone(),
    }
}

/// Groups running tasks by the service they belong to.
pub fn group_tasks(ts: &Vec<SwarmTaskInfo>, svcs: &Vec<SwarmServiceInfo>) -> (r: Vec<(String, Vec<SwarmTaskInfo>)>)
    ensures
        group_views(r@) == tasks_by_service(ts@, svcs@),
{
    let mut g: Vec<(String, Vec<SwarmTaskInfo>)> = Vec::new();
    let mut i: usize = 0;
    assert(ts@.take(0) =~= Seq::<SwarmTaskInfo>::empty());
    assert(group_views(g@) =~= Seq::<(Seq<char>, Seq<SwarmTaskInfo>)>::empty());
    while i < ts.len()
        invariant
            i <= ts@.len(),
            group_views(g@) == tasks_by_service(ts@.take(i as int), svcs@),
        decreases ts.len() - i,
    {
        assert(ts@.take(i + 1).drop_last() =~= ts@.take(i as int));
        let sname = service_name_of_task(&ts[i].name);
        match id_lookup(svcs, &sname) {
            Some(id) => {
                let mut j: usize = 0;
                while j < g.len() && !str_eq(g[j].0.as_str(), id.as_str())
                    invariant
                        j <= g@.len(),
                        forall|q: int| 0 <= q < j ==> (#[trigger] group_views(g@)[q]).0 != id@,
                    decreases g.len() - j,
                {
                    j = j + 1;
                }
                let t = copy_task(&ts[i]);
                proof {
                    lemma_add_task_at(group_views(g@), id@, t, j as int);
                }
                let ghost before = g@;
                if j < g.len() {
                    g[j].1.push(t);
                    assert(group_views(g@) =~= group_views(before).update(j as int, (id@, before[j as int].1@.push(t))));
                } else {
                    let mut v: Vec<SwarmTaskInfo> = Vec::new();
                    v.push(t);
                    let ghost idv = id@;
                    g.push((id, v));
                    assert(group_views(g@) =~= group_views(before).push((idv, seq![t])));
                }
            },
            None => {},
        }
        i = i + 1;
    }
    assert(ts@.take(ts@.len() as int) =~= ts@);
    g
}

/// The ids of the services of the expanded stacks, stack by stack.
pub open spec fn expanded_ids_spec(
    sts: Seq<SwarmStackInfo>,
    svcs: Seq<SwarmServiceInfo>,
    expanded: Seq<Seq<char>>,
) -> Seq<String>
    decreases sts.len(),
{
    if sts.len() == 0 {
        Seq::empty()
    } else {
        expanded_ids_spec(sts.drop_last(), svcs, expanded) + if expanded.contains(sts.last().name@) {
            sts.last().service_indices@.map_values(|i: usize| svcs[i as int].id)
        } else {
            Seq::empty()
        }
    }
}

impl SwarmMonitor {
    /// Applies a refresh of the node and service listings: nodes get the
    /// addresses found for them, services are regrouped into stacks, and a
    /// failed listing leaves its data and reports its error. A standalone
    /// monitor is left as it is.
    pub fn update(
        &mut self,
        nodes: Result<Vec<SwarmNodeInfo>, String>,
        node_ips: &Vec<(String, String)>,
        services: Result<Vec<SwarmServiceInfo>, String>,
    )
        ensures
            old(self).mode != SwarmMode::Swarm ==> *final(self) == *old(self),
            old(self).mode == SwarmMode::Swarm ==> {
                &&& match nodes {
                    Ok(ns) => final(self).nodes@ == ns@.map_values(|n: SwarmNodeInfo| with_ip(n, node_ips@)),
                    Err(_) => final(self).nodes == old(self).nodes,
                }
                &&& match services {
                    Ok(sv) => final(self).services == sv && stacks_of(sv@, final(self).stacks@),
                    Err(_) => final(self).services == old(self).services && final(self).stacks == old(self).stacks,
                }
                &&& stacks_valid(old(self).stacks@, old(self).services@.len()) ==> stacks_valid(final(self).stacks@, final(self).services@.len())
                &&& match services {
                    Err(e) => final(self).status_message is Some && final(self).status_message.unwrap()@ == error_text(e@),
                    Ok(_) => match nodes {
                        Err(e) => final(self).status_message is Some && final(self).status_message.unwrap()@ == error_text(e@),
                        Ok(_) => final(self).status_message == old(self).status_message,
                    },
                }
            },
    {
        if !self.is_swarm() {
            return;
        }
        match nodes {
            Ok(mut ns) => {
                let ghost orig = ns@;
                let mut i: usize = 0;
                while i < ns.len()
                    invariant
                        i <= ns@.len(),
                        ns@.len() == orig.len(),
                        forall|q: int| 0 <= q < i ==> #[trigger] ns@[q] == with_ip(orig[q], node_ips@),
                        forall|q: int| i <= q < ns@.len() ==> #[trigger] ns@[q] == orig[q],
                    decreases ns.len() - i,
                {
                    match ip_lookup(node_ips, &ns[i].id) {
                        Some(ip) => {
                            ns[i].ip_address = ip;
                        },
                        None => {},
                    }
                    i = i + 1;
                }
                assert(ns@ =~= orig.map_values(|n: SwarmNodeInfo| with_ip(n, node_ips@)));
                self.nodes = ns;
            },
            Err(e) => {
                self.status_message = Some(error_message(&e));
            },
        }
        match services {
            Ok(sv) => {
                let st = build_stacks(&sv);
                self.services = sv;
                self.stacks = st;
            },
            Err(e) => {
                self.status_message = Some(error_message(&e));
            },
        }
    }

    /// The service whose tasks are shown, if the task view is open.
    pub fn task_view_service(&self) -> (r: Option<String>)
        ensures
            match self.ui_state.view_level {
                SwarmViewLevel::ServiceTasks(id, _) => r == Some(id),
                _ => r is None,
            },
    {
        match &self.ui_state.view_level {
            SwarmViewLevel::ServiceTasks(id, _) => Some(id.clone()),
            _ => None,
        }
    }

    /// The ids of the services of the expanded stacks, in overview order.
    pub fn expanded_service_ids(&self) -> (r: Vec<String>)
        requires
            stacks_valid(self.stacks@, self.services@.len()),
        ensures
            r@ == expanded_ids_spec(self.stacks@, self.services@, views(self.ui_state.expanded_ids@)),
    {
        let ghost ex = views(self.ui_state.expanded_ids@);
        let mut r: Vec<String> = Vec::new();
        let mut k: usize = 0;
        assert(self.stacks@.take(0) =~= Seq::<SwarmStackInfo>::empty());
        while k < self.stacks.len()
            invariant
                k <= self.stacks@.len(),
                ex == views(self.ui_state.expanded_ids@),
                stacks_valid(self.stacks@, self.services@.len()),
                r@ == expanded_ids_spec(self.stacks@.take(k as int), self.services@, ex),
            decreases self.stacks.len() - k,
        {
            let st = &self.stacks[k];
            assert(self.stacks@.take(k + 1).drop_last() =~= self.stacks@.take(k as int));
            let ghost base = r@;
            let ghost ids = st.service_indices@.map_values(|i: usize| self.services@[i as int].id);
            if is_expanded(&self.ui_state.expanded_ids, st.name.as_str()) {
                let mut j: usize = 0;
                assert(base + ids.take(0) =~= base);
                while j < st.service_indices.len()
                    invariant
                        k < self.stacks@.len(),
                        st == self.stacks@[k as int],
                        j <= st.service_indices@.len(),
                        stacks_valid(self.stacks@, self.services@.len()),
                        ids == st.service_indices@.map_values(|i: usize| self.services@[i as int].id),
                        r@ == base + ids.take(j as int),
                    decreases st.service_indices.len() - j,
                {
                    let idx = st.service_indices[j];
                    r.push(self.services[idx].id.clone());
                    assert(base + ids.take(j + 1) =~= (base + ids.take(j as int)).push(ids[j as int]));
                    j = j + 1;
                }
                assert(ids.take(st.service_indices@.len() as int) =~= ids);
            } else {
                assert(base + Seq::<String>::empty() =~= base);
            }
            k = k + 1;
        }
        assert(self.stacks@.take(self.stacks@.len() as int) =~= self.stacks@);
        r
    }

    /// Applies the task listings of a refresh and recomputes the warnings:
    /// the open service's tasks, and the running tasks of the expanded
    /// stacks' services grouped by service. A failed listing reports its
    /// error.
    pub fn apply_tasks(
        &mut self,
        tasks: Option<Result<Vec<SwarmTaskInfo>, String>>,
        replica_tasks: Option<Result<Vec<SwarmTaskInfo>, String>>,
    )
        ensures
            match tasks {
                Some(Ok(t)) => final(self).tasks == t,
                _ => final(self).tasks == old(self).tasks,
            },
            match replica_tasks {
                Some(Ok(ts)) => group_views(final(self).service_tasks@) == tasks_by_service(ts@, old(self).services@),
                _ => final(self).service_tasks@.len() == 0,
            },
            final(self).nodes == old(self).nodes,
            final(self).services == old(self).services,
            final(self).stacks == old(self).stacks,
    {
        match tasks {
            Some(Ok(t)) => self.tasks = t,
            Some(Err(e)) => self.status_message = Some(error_message(&e)),
            None => {},
        }
        self.service_tasks = Vec::new();
        match replica_tasks {
            Some(Ok(ts)) => {
                self.service_tasks = group_tasks(&ts, &self.services);
            },
            Some(Err(e)) => {
                let mut m = String::from_str("Task fetch error: ");
                push_all(&mut m, e.as_str());
                self.status_message = Some(m);
            },
            None => {},
        }
        self.generate_warnings();
    }
}

/// `m` with the entry of `e`'s key replaced by `e`, or `e` appended, as a
/// map insert does.
pub open spec fn put_kv<K, V>(m: Seq<(K, V)>, e: (K, V)) -> Seq<(K, V)>
    decreases m.len(),
{
    if m.len() == 0 {
        seq![e]
    } else if m[0].0 == e.0 {
        seq![e] + m.drop_first()
    } else {
        seq![m[0]] + put_kv(m.drop_first(), e)
    }
}

proof fn lemma_put_kv_at<K, V>(m: Seq<(K, V)>, e: (K, V), j: int)
    requires
        0 <= j <= m.len(),
        forall|q: int| 0 <= q < j ==> (#[trigger] m[q]).0 != e.0,
        j < m.len() ==> m[j].0 == e.0,
    ensures
        put_kv(m, e) == if j < m.len() {
            m.update(j, e)
        } else {
            m.push(e)
        },
    decreases m.len(),
{
    if m.len() == 0 {
        assert(m.push(e) =~= seq![e]);
    } else if j == 0 {
        assert(seq![e] + m.drop_first() =~= m.update(0, e));
    } else {
        let u = m.drop_first();
        assert forall|q: int| 0 <= q < j - 1 implies (#[trigger] u[q]).0 != e.0 by {
            assert(u[q] == m[q + 1]);
        }
        lemma_put_kv_at(u, e, j - 1);
        if j < m.len() {
            assert(seq![m[0]] + u.update(j - 1, e) =~= m.update(j, e));
        } else {
            assert(seq![m[0]] + u.push(e) =~= m.push(e));
        }
    }
}

pub open spec fn pair_views(v: Seq<(String, String)>) -> Seq<(Seq<char>, Seq<char>)> {
    v.map_values(|p: (String, String)| (p.0@, p.1@))
}

fn put_pair(m: &mut Vec<(String, String)>, k: String, v: String)
    ensures
        pair_views(final(m)@) == put_kv(pair_views(old(m)@), (k@, v@)),
{
    let mut j: usize = 0;
    while j < m.len() && !str_eq(m[j].0.as_str(), k.as_str())
        invariant
            j <= m@.len(),
            forall|q: int| 0 <= q < j ==> (#[trigger] pair_views(m@)[q]).0 != k@,
        decreases m.len() - j,
    {
        j = j + 1;
    }
    proof {
        lemma_put_kv_at(pair_views(m@), (k@, v@), j as int);
    }
    let ghost before = m@;
    let ghost e = (k@, v@);
    if j < m.len() {
        m[j] = (k, v);
        assert(pair_views(m@) =~= pair_views(before).update(j as int, e));
    } else {
        m.push((k, v));
        assert(pair_views(m@) =~= pair_views(before).push(e));
    }
}

/// One `ID ADDRESS` line of the node inspection: both parts, where the
/// address is not blank.
pub open spec fn ip_line(l: Seq<char>) -> Option<(Seq<char>, Seq<char>)> {
    let t = crate::text::trim_spec(l);
    match crate::netdev::index_of(t, ' ') {
        Some(k) => {
            let ip = crate::text::trim_spec(t.skip((k + 1) as int));
            if ip.len() > 0 {
                Some((t.take(k as int), ip))
            } else {
                None
            }
        },
        None => None,
    }
}

pub open spec fn node_ips_spec(ls: Seq<Seq<char>>) -> Seq<(Seq<char>, Seq<char>)>
    decreases ls.len(),
{
    if ls.len() == 0 {
        Seq::empty()
    } else {
        match ip_line(ls.last()) {
            Some(e) => put_kv(node_ips_spec(ls.drop_last()), e),
            None => node_ips_spec(ls.drop_last()),
        }
    }
}

/// Splits `s` at its first space.
fn split_at_space(s: &str) -> (r: Option<(String, String)>)
    ensures
        match crate::netdev::index_of(s@, ' ') {
            Some(k) => r is Some && r.unwrap().0@ == s@.take(k as int) && r.unwrap().1@ == s@.skip((k + 1) as int),
            None => r is None,
        },
{
    let c = crate::text::to_chars(s);
    let mut k: usize = 0;
    while k < c.len() && c[k] != ' '
        invariant
            c@ == s@,
            k <= c@.len(),
            forall|q: int| 0 <= q < k ==> c@[q] != ' ',
        decreases c.len() - k,
    {
        k = k + 1;
    }
    proof {
        crate::netdev::lemma_index_of(s@, ' ', k as int);
    }
    if k == c.len() {
        return None;
    }
    let n = c.len();
    let a = s.substring_char(0, k);
    let b = s.substring_char(k + 1, n);
    assert(b@ =~= s@.skip(k + 1));
    Some((String::from_str(a), String::from_str(b)))
}

/// The node addresses of the node inspection's output; a later line for
/// a node replaces an earlier one.
pub fn parse_node_ips(text: &str) -> (r: Vec<(String, String)>)
    ensures
        pair_views(r@) == node_ips_spec(crate::text::lines_spec(text@)),
{
    let lines = crate::text::split_lines(text);
    let ghost ls = crate::text::lines_spec(text@);
    let mut m: Vec<(String, String)> = Vec::new();
    let mut i: usize = 0;
    assert(pair_views(m@) =~= Seq::<(Seq<char>, Seq<char>)>::empty());
    while i < lines.len()
        invariant
            i <= lines@.len(),
            lines@.len() == ls.len(),
            forall|q: int| 0 <= q < lines@.len() ==> #[trigger] lines@[q]@ == ls[q],
            pair_views(m@) == node_ips_spec(ls.take(i as int)),
        decreases lines.len() - i,
    {
        assert(ls.take(i + 1).drop_last() =~= ls.take(i as int));
        assert(ls.take(i + 1).last() == lines@[i as int]@);
        let t = crate::text::trim_str(lines[i].as_str());
        match split_at_space(t) {
            Some((id, rest)) => {
                let ip = crate::text::trim_str(rest.as_str());
                if ip.unicode_len() > 0 {
                    put_pair(&mut m, id, String::from_str(ip));
                }
            },
            None => {},
        }
        i = i + 1;
    }
    assert(ls.take(lines@.len() as int) =~= ls);
    m
}

/// The first id of `ids` of at least ten characters that begins `full`.
pub open spec fn id_prefix_of(ids: Seq<Seq<char>>, full: Seq<char>) -> Option<Seq<char>>
    decreases ids.len(),
{
    if ids.len() == 0 {
        None
    } else if ids[0].len() >= 10 && ids[0].len() <= full.len() && full.take(ids[0].len() as int)
        == ids[0] {
        Some(ids[0])
    } else {
        id_prefix_of(ids.drop_first(), full)
    }
}

/// The stack label of one `FULL_ID LABEL` line of the service inspection,
/// keyed by the listed id it extends; `<no value>` reads as no stack.
pub open spec fn label_line(l: Seq<char>, ids: Seq<Seq<char>>) -> Option<(Seq<char>, Seq<char>)> {
    let t = crate::text::trim_spec(l);
    match crate::netdev::index_of(t, ' ') {
        Some(k) => {
            let raw = t.skip((k + 1) as int);
            let label = if raw == "<no value>"@ {
                Seq::empty()
            } else {
                raw
            };
            match id_prefix_of(ids, t.take(k as int)) {
                Some(id) => Some((id, label)),
                None => None,
            }
        },
        None => None,
    }
}

pub open spec fn labels_spec(ls: Seq<Seq<char>>, ids: Seq<Seq<char>>) -> Seq<(Seq<char>, Seq<char>)>
    decreases ls.len(),
{
    if ls.len() == 0 {
        Seq::empty()
    } else {
        match label_line(ls.last(), ids) {
            Some(e) => put_kv(labels_spec(ls.drop_last(), ids), e),
            None => labels_spec(ls.drop_last(), ids),
        }
    }
}

fn find_id_prefix(ids: &Vec<String>, full: &str) -> (r: Option<String>)
    ensures
        match r {
            Some(s) => id_prefix_of(views(ids@), full@) == Some(s@),
            None => id_prefix_of(views(ids@), full@) is None,
        },
{
    let ghost iv = views(ids@);
    let mut j: usize = 0;
    assert(iv.skip(0) =~= iv);
    while j < ids.len()
        invariant
            j <= ids@.len(),
            iv == views(ids@),
            id_prefix_of(iv, full@) == id_prefix_of(iv.skip(j as int), full@),
        decreases ids.len() - j,
    {
        assert(iv.skip(j as int).drop_first() =~= iv.skip(j + 1));
        assert(iv.skip(j as int)[0] == ids@[j as int]@);
        if ids[j].as_str().unicode_len() >= 10 && crate::text::starts_with(full, ids[j].as_str()) {
            return Some(ids[j].clone());
        }
        j = j + 1;
    }
    None
}

/// The stack label of each listed service from the service inspection's
/// output; a later line for a service replaces an earlier one.
pub fn parse_stack_labels(text: &str, ids: &Vec<String>) -> (r: Vec<(String, String)>)
    ensures
        pair_views(r@) == labels_spec(crate::text::lines_spec(text@), views(ids@)),
{
    let lines = crate::text::split_lines(text);
    let ghost ls = crate::text::lines_spec(text@);
    let mut m: Vec<(String, String)> = Vec::new();
    let mut i: usize = 0;
    assert(pair_views(m@) =~= Seq::<(Seq<char>, Seq<char>)>::empty());
    while i < lines.len()
        invariant
            i <= lines@.len(),
            lines@.len() == ls.len(),
            forall|q: int| 0 <= q < lines@.len() ==> #[trigger] lines@[q]@ == ls[q],
            pair_views(m@) == labels_spec(ls.take(i as int), views(ids@)),
        decreases lines.len() - i,
    {
        assert(ls.take(i + 1).drop_last() =~= ls.take(i as int));
        assert(ls.take(i + 1).last() == lines@[i as int]@);
        let t = crate::text::trim_str(lines[i].as_str());
        match split_at_space(t) {
            Some((id, raw)) => {
                proof {
                    reveal_strlit("<no value>");
                }
                let label = if str_eq(raw.as_str(), "<no value>") {
                    String::new()
                } else {
                    raw
                };
                match find_id_prefix(ids, id.as_str()) {
                    Some(svc) => put_pair(&mut m, svc, label),
                    None => {},
                }
            },
            None => {},
        }
        i = i + 1;
    }
    assert(ls.take(lines@.len() as int) =~= ls);
    m
}

/// The value recorded for key `k`: the first entry for it.
pub open spec fn value_of(m: Seq<(Seq<char>, Seq<char>)>, k: Seq<char>) -> Option<Seq<char>>
    decreases m.len(),
{
    if m.len() == 0 {
        None
    } else if m[0].0 == k {
        Some(m[0].1)
    } else {
        value_of(m.drop_first(), k)
    }
}

fn lookup_pair(m: &Vec<(String, String)>, k: &String) -> (r: Option<String>)
    ensures
        match r {
            Some(v) => value_of(pair_views(m@), k@) == Some(v@),
            None => value_of(pair_views(m@), k@) is None,
        },
{
    let ghost pv = pair_views(m@);
    let mut i: usize = 0;
    assert(pv.skip(0) =~= pv);
    while i < m.len()
        invariant
            i <= m@.len(),
            pv == pair_views(m@),
            value_of(pv, k@) == value_of(pv.skip(i as int), k@),
        decreases m.len() - i,
    {
        assert(pv.skip(i as int).drop_first() =~= pv.skip(i + 1));
        if m[i].0 == *k {
            return Some(m[i].1.clone());
        }
        i = i + 1;
    }
    None
}

/// Sets each service's stack from the labels found for it.
pub fn apply_stack_labels(services: &mut Vec<SwarmServiceInfo>, labels: &Vec<(String, String)>)
    ensures
        final(services)@.len() == old(services)@.len(),
        forall|i: int|
            0 <= i < final(services)@.len() ==> (#[trigger] final(services)@[i]).stack@ == match value_of(
                pair_views(labels@),
                old(services)@[i].id@,
            ) {
                Some(l) => l,
                None => old(services)@[i].stack@,
            } && final(services)@[i].id == old(services)@[i].id && final(services)@[i].name
                == old(services)@[i].name && final(services)@[i].replicas == old(services)@[i].replicas,
{
    let ghost orig = services@;
    let mut i: usize = 0;
    while i < services.len()
        invariant
            i <= services@.len(),
            services@.len() == orig.len(),
            forall|q: int|
                0 <= q < i ==> (#[trigger] services@[q]).stack@ == match value_of(
                    pair_views(labels@),
                    orig[q].id@,
                ) {
                    Some(l) => l,
                    None => orig[q].stack@,
                } && services@[q].id == orig[q].id && services@[q].name == orig[q].name
                    && services@[q].replicas == orig[q].replicas,
            forall|q: int| i <= q < services@.len() ==> #[trigger] services@[q] == orig[q],
        decreases services.len() - i,
    {
        match lookup_pair(labels, &services[i].id) {
            Some(l) => {
                services[i].stack = l;
            },
            None => {},
        }
        i = i + 1;
    }
}

} // verus!
