//! Tab, confirmation and container-list state of the display.
use vstd::prelude::*;
use crate::layout::SectionId;
use crate::text::push_all;
use crate::action::{ActionOutcome, ActionSlot, busy_message, busy_text, submitted};
use crate::logs::{LogViewState, drain_container_logs, bounded_push_all, CONTAINER_LOG_BATCH, CONTAINER_LOG_CAPACITY};

verus! {

/// The tab or drill-down level shown.
#[derive(Clone, Debug, PartialEq, Eq)]
pub enum AppView {
    System,
    Containers,
    /// A container's logs, by container id.
    ContainerLogs(String),
    Swarm,
    /// (service id, service name).
    SwarmServiceTasks(String, String),
    /// (service id, service name).
    SwarmServiceLogs(String, String),
}

/// What a handled key asks for.
pub enum InputResult {
    Quit,
    Consumed,
}

/// What kind of row a process-table row is.
#[derive(Clone, Copy, PartialEq, Eq, Debug, Structural)]
pub enum RowKind {
    SectionHeader(SectionId),
    ProcessParent,
    ProcessChild,
}

/// A destructive action waiting for confirmation.
pub enum PendingActionKind {
    ContainerStart(String),
    ContainerStop(String),
    ContainerRestart(String),
    SwarmRollingRestart(String),
}

/// A pending confirmation and when it lapses (milliseconds).
pub struct PendingAction {
    pub description: String,
    pub kind: PendingActionKind,
    pub expires_ms: u64,
}

/// Drops a pending confirmation whose time is up; true when one was dropped.
pub fn expire_pending_action(pending: &mut Option<PendingAction>, now_ms: u64) -> (expired: bool)
    ensures
        expired == ((*old(pending)) is Some && now_ms > (*old(pending)).unwrap().expires_ms),
        expired ==> (*final(pending)) is None,
        !expired ==> *final(pending) == *old(pending),
{
    let lapsed = match pending {
        Some(pa) => now_ms > pa.expires_ms,
        None => false,
    };
    if lapsed {
        *pending = None;
    }
    lapsed
}

/// Row selection and expanded containers of the container list.
pub struct ContainerUIState {
    pub selected_index: usize,
    pub total_rows: usize,
    pub expanded_ids: Vec<String>,
}

impl ContainerUIState {
    pub fn new() -> (r: Self)
        ensures
            r.selected_index == 0,
            r.total_rows == 0,
            r.expanded_ids@.len() == 0,
    {
        ContainerUIState { selected_index: 0, total_rows: 0, expanded_ids: Vec::new() }
    }

    /// Records the row count of a refreshed list and keeps the selection on
    /// a row that exists.
    pub fn set_total_rows(&mut self, total: usize)
        ensures
            final(self).total_rows == total,
            final(self).selected_index == if old(self).selected_index >= total && total > 0 {
                (total - 1) as usize
            } else {
                old(self).selected_index
            },
            final(self).expanded_ids == old(self).expanded_ids,
    {
        self.total_rows = total;
        if self.selected_index >= total && total > 0 {
            self.selected_index = total - 1;
        }
    }
}

impl Default for ContainerUIState {
    fn default() -> (r: Self)
        ensures
            r.selected_index == 0,
            r.total_rows == 0,
            r.expanded_ids@.len() == 0,
    {
        ContainerUIState::new()
    }
}

/// One running container. CPU is in hundredths of a percent.
pub struct DockerContainerInfo {
    /// Short id (first 12 characters).
    pub id: String,
    pub name: String,
    pub image: String,
    pub status: String,
    pub state: String,
    pub uptime: String,
    pub cpu_percent: u64,
    pub ports: String,
    pub ip_address: String,
}

/// What the platform's upper-casing makes of `c`.
pub uninterp spec fn upper_of(c: char) -> Seq<char>;

/// Relies on `char::to_uppercase`: the result depends on the character alone.
#[verifier::external_body]
fn uppercase_char(c: char) -> (r: String)
    ensures
        r@ == upper_of(c),
{
    c.to_uppercase().to_string()
}

/// `s` with its first character upper-cased.
pub open spec fn capitalized(s: Seq<char>) -> Seq<char> {
    if s.len() == 0 {
        s
    } else {
        upper_of(s[0]) + s.drop_first()
    }
}

/// `s` with its first character upper-cased.
pub fn capitalize(s: &str) -> (r: String)
    ensures
        r@ == capitalized(s@),
{
    let n = s.unicode_len();
    if n == 0 {
        return String::from_str(s);
    }
    let mut r = uppercase_char(s.get_char(0));
    push_all(&mut r, s.substring_char(1, n));
    assert(r@ =~= capitalized(s@));
    r
}

/// The status shown while a container action runs: `Starting container
/// abc...` for `start`.
pub open spec fn container_action_text(action: Seq<char>, id: Seq<char>) -> Seq<char> {
    capitalized(action) + "ing container "@ + id + "..."@
}

pub fn container_action_message(action: &str, id: &str) -> (r: String)
    ensures
        r@ == container_action_text(action@, id@),
{
    let mut r = capitalize(action);
    push_all(&mut r, "ing container ");
    push_all(&mut r, id);
    push_all(&mut r, "...");
    r
}

/// The container tab's log stream and action slot.
pub struct ContainerPanel {
    pub log_state: Option<LogViewState>,
    pub log_receiver: Option<tokio::sync::mpsc::Receiver<String>>,
    pub status_message: Option<String>,
    pub action: ActionSlot,
}

/// What `stop_log_stream` does: no stream or log view is left and every
/// other field is kept.
pub open spec fn panel_stopped(before: ContainerPanel, after: ContainerPanel) -> bool {
    after == ContainerPanel { log_state: None, log_receiver: None, ..before }
}

impl ContainerPanel {
    /// No stream, no status, an idle action slot.
    pub fn new() -> (r: Self)
        ensures
            r.log_state is None,
            r.log_receiver is None,
            r.status_message is None,
            r.action.receiver is None,
    {
        ContainerPanel { log_state: None, log_receiver: None, status_message: None, action: ActionSlot::new() }
    }

    /// Ends the log stream, if any, and drops the log view.
    pub fn stop_log_stream(&mut self)
        ensures
            panel_stopped(*old(self), *final(self)),
    {
        self.log_receiver = None;
        self.log_state = None;
    }

    /// Shows the log stream `rx` of a container in a fresh view, ending
    /// any stream shown before.
    pub fn start_log_stream(&mut self, id: &str, name: &str, rx: tokio::sync::mpsc::Receiver<String>)
        ensures
            final(self).log_receiver == Some(rx),
            final(self).log_state is Some,
            final(self).log_state.unwrap().container_id@ == id@,
            final(self).log_state.unwrap().container_name@ == name@,
            final(self).log_state.unwrap().lines@.len() == 0,
            final(self).log_state.unwrap().scroll_offset == 0,
            final(self).log_state.unwrap().auto_follow,
            !final(self).log_state.unwrap().search_mode,
            final(self).log_state.unwrap().search_query@.len() == 0,
            final(self).status_message == old(self).status_message,
            final(self).action == old(self).action,
    {
        self.stop_log_stream();
        self.log_state = Some(LogViewState::new(String::from_str(id), String::from_str(name)));
        self.log_receiver = Some(rx);
    }

    /// Moves waiting log lines into the log view, one batch at most.
    pub fn poll_logs(&mut self)
        ensures
            final(self).status_message == old(self).status_message,
            final(self).action == old(self).action,
            (old(self).log_receiver is None || old(self).log_state is None) ==> *final(self) == *old(self),
            old(self).log_state is Some ==> final(self).log_state is Some,
            old(self).log_receiver is Some && old(self).log_state is Some ==> exists|taken: Seq<String>|
                taken.len() <= CONTAINER_LOG_BATCH && final(self).log_state.unwrap().lines@
                    == bounded_push_all(
                    old(self).log_state.unwrap().lines@,
                    taken,
                    CONTAINER_LOG_CAPACITY as nat,
                ),
    {
        if self.log_receiver.is_none() || self.log_state.is_none() {
            return;
        }
        match (&mut self.log_receiver, &mut self.log_state) {
            (Some(rx), Some(state)) => drain_container_logs(state, rx),
            _ => {},
        }
    }

    /// Takes a container action whose worker reports on `rx`, showing the
    /// action's status while it runs; refused with a busy message while
    /// another is in flight.
    pub fn run_container_action(
        &mut self,
        id: &str,
        action: &str,
        rx: std::sync::mpsc::Receiver<ActionOutcome>,
    ) -> (accepted: bool)
        ensures
            submitted(old(self).action, final(self).action, accepted, rx),
            final(self).status_message is Some,
            accepted ==> final(self).status_message.unwrap()@ == container_action_text(action@, id@),
            !accepted ==> final(self).status_message.unwrap()@ == busy_text(),
            final(self).log_state == old(self).log_state,
            final(self).log_receiver == old(self).log_receiver,
    {
        let accepted = self.action.submit(rx);
        if accepted {
            self.status_message = Some(container_action_message(action, id));
        } else {
            self.status_message = Some(busy_message());
        }
        accepted
    }

    /// Reads the action's outcome without blocking; true when it ended and
    /// its message became the status.
    pub fn poll_action(&mut self) -> (changed: bool)
        ensures
            !changed ==> final(self).status_message == old(self).status_message && final(self).action
                == old(self).action,
            changed ==> final(self).status_message is Some && final(self).action.receiver is None,
            old(self).action.receiver is None ==> !changed,
            final(self).log_state == old(self).log_state,
            final(self).log_receiver == old(self).log_receiver,
    {
        match self.action.poll() {
            Some(m) => {
                self.status_message = Some(m);
                true
            },
            None => false,
        }
    }
}

/// Stopping the container log stream a second time changes nothing.
pub proof fn lemma_panel_stop_idempotent(start: ContainerPanel, once: ContainerPanel, twice: ContainerPanel)
    requires
        panel_stopped(start, once),
        panel_stopped(once, twice),
    ensures
        twice == once,
{
}

} // verus!
