//! Bounded log buffers and the draining of live log streams into them.
use vstd::prelude::*;
use std::collections::VecDeque;
use std::sync::Arc;
use std::sync::atomic::{AtomicBool, Ordering};
use crate::channel::{Received, receive_now, receive_async_now};
use crate::text::{contains_str, has_run, lower_of, lowercase, to_chars};

verus! {

/// Lines a container log buffer keeps.
pub const CONTAINER_LOG_CAPACITY: usize = 5000;

/// Lines a service log buffer keeps.
pub const SERVICE_LOG_CAPACITY: usize = 10000;

/// Lines taken from a container log stream per poll.
pub const CONTAINER_LOG_BATCH: usize = 100;

/// Lines taken from a service log stream per poll.
pub const SERVICE_LOG_BATCH: usize = 200;

/// `lines` after one more line: the oldest goes first once `cap` are held.
pub open spec fn bounded_push<T>(lines: Seq<T>, line: T, cap: nat) -> Seq<T> {
    if lines.len() >= cap && lines.len() > 0 {
        lines.drop_first().push(line)
    } else {
        lines.push(line)
    }
}

/// `lines` after `more`, in order, each pushed as `bounded_push` does.
pub open spec fn bounded_push_all<T>(lines: Seq<T>, more: Seq<T>, cap: nat) -> Seq<T>
    decreases more.len(),
{
    if more.len() == 0 {
        lines
    } else {
        bounded_push(bounded_push_all(lines, more.drop_last(), cap), more.last(), cap)
    }
}

/// The marker line added when a log stream closes.
pub open spec fn stream_ended_line() -> Seq<char> {
    "[log stream ended]"@
}

fn stream_ended() -> (r: String)
    ensures
        r@ == stream_ended_line(),
{
    String::from_str("[log stream ended]")
}

/// Log viewer state of one container.
pub struct LogViewState {
    pub container_id: String,
    pub container_name: String,
    pub lines: VecDeque<String>,
    /// 0 is the bottom (following).
    pub scroll_offset: usize,
    pub auto_follow: bool,
    /// True while a search query is typed.
    pub search_mode: bool,
    pub search_query: String,
}

impl LogViewState {
    /// An empty buffer that follows new lines.
    pub fn new(container_id: String, container_name: String) -> (r: Self)
        ensures
            r.container_id == container_id,
            r.container_name == container_name,
            r.lines@.len() == 0,
            r.scroll_offset == 0,
            r.auto_follow,
            !r.search_mode,
            r.search_query@.len() == 0,
    {
        LogViewState {
            container_id,
            container_name,
            lines: VecDeque::new(),
            scroll_offset: 0,
            auto_follow: true,
            search_mode: false,
            search_query: String::new(),
        }
    }

    /// Appends a line, evicting the oldest once the buffer is full.
    pub fn push_line(&mut self, line: String)
        ensures
            final(self).lines@ == bounded_push(
                old(self).lines@,
                line,
                CONTAINER_LOG_CAPACITY as nat,
            ),
            final(self).container_id == old(self).container_id,
            final(self).container_name == old(self).container_name,
            final(self).scroll_offset == old(self).scroll_offset,
            final(self).auto_follow == old(self).auto_follow,
            final(self).search_mode == old(self).search_mode,
            final(self).search_query == old(self).search_query,
    {
        if self.lines.len() >= CONTAINER_LOG_CAPACITY {
            self.lines.pop_front();
        }
        self.lines.push_back(line);
    }

    /// Applies one read of the log stream; returns whether to read again.
    pub fn apply(&mut self, event: Received<String>) -> (more: bool)
        ensures
            more == (event is Item),
            final(self).lines@ == match event {
                Received::Item(l) => bounded_push(old(self).lines@, l, CONTAINER_LOG_CAPACITY as nat),
                Received::Empty => old(self).lines@,
                Received::Closed => bounded_push(
                    old(self).lines@,
                    final(self).lines@.last(),
                    CONTAINER_LOG_CAPACITY as nat,
                ),
            },
            event is Closed ==> final(self).lines@.last()@ == stream_ended_line(),
            final(self).scroll_offset == old(self).scroll_offset,
            final(self).auto_follow == old(self).auto_follow,
    {
        match event {
            Received::Item(line) => {
                self.push_line(line);
                true
            },
            Received::Empty => false,
            Received::Closed => {
                self.push_line(stream_ended());
                false
            },
        }
    }
}

/// Drains up to one batch of lines from a container log stream, without
/// blocking: a closed stream adds the end marker.
pub fn drain_container_logs(
    state: &mut LogViewState,
    rx: &mut tokio::sync::mpsc::Receiver<String>,
)
    ensures
        exists|taken: Seq<String>|
            taken.len() <= CONTAINER_LOG_BATCH && final(state).lines@ == bounded_push_all(
                old(state).lines@,
                taken,
                CONTAINER_LOG_CAPACITY as nat,
            ),
        final(state).scroll_offset == old(state).scroll_offset,
        final(state).auto_follow == old(state).auto_follow,
{
    let ghost taken: Seq<String> = Seq::empty();
    let mut i: usize = 0;
    while i < CONTAINER_LOG_BATCH
        invariant_except_break
            taken.len() <= i,
        invariant
            i <= CONTAINER_LOG_BATCH,
            state.lines@ == bounded_push_all(
                old(state).lines@,
                taken,
                CONTAINER_LOG_CAPACITY as nat,
            ),
            state.scroll_offset == old(state).scroll_offset,
            state.auto_follow == old(state).auto_follow,
        ensures
            taken.len() <= CONTAINER_LOG_BATCH,
        decreases CONTAINER_LOG_BATCH - i,
    {
        let ghost before = state.lines@;
        let event = receive_async_now(rx);
        let more = state.apply(event);
        proof {
            if state.lines@ != before {
                assert(taken.push(state.lines@.last()).drop_last() =~= taken);
                taken = taken.push(state.lines@.last());
            }
        }
        if !more {
            break;
        }
        i = i + 1;
    }
    assert(taken.len() <= CONTAINER_LOG_BATCH);
}

/// Log viewer state of one cluster service.
pub struct ServiceLogState {
    pub service_id: String,
    pub service_name: String,
    pub lines: VecDeque<String>,
    pub scroll_offset: usize,
    pub auto_follow: bool,
    /// Show only lines that look like errors.
    pub filter_errors: bool,
    pub search_mode: bool,
    pub search_query: String,
}

impl ServiceLogState {
    /// An empty buffer that follows new lines.
    pub fn new(service_id: String, service_name: String) -> (r: Self)
        ensures
            r.service_id == service_id,
            r.service_name == service_name,
            r.lines@.len() == 0,
            r.scroll_offset == 0,
            r.auto_follow,
            !r.filter_errors,
            !r.search_mode,
            r.search_query@.len() == 0,
    {
        ServiceLogState {
            service_id,
            service_name,
            lines: VecDeque::new(),
            scroll_offset: 0,
            auto_follow: true,
            filter_errors: false,
            search_mode: false,
            search_query: String::new(),
        }
    }

    /// Appends a line, evicting the oldest once the buffer is full.
    pub fn push_line(&mut self, line: String)
        ensures
            final(self).lines@ == bounded_push(
                old(self).lines@,
                line,
                SERVICE_LOG_CAPACITY as nat,
            ),
            final(self).service_id == old(self).service_id,
            final(self).service_name == old(self).service_name,
            final(self).scroll_offset == old(self).scroll_offset,
            final(self).auto_follow == old(self).auto_follow,
            final(self).filter_errors == old(self).filter_errors,
            final(self).search_mode == old(self).search_mode,
            final(self).search_query == old(self).search_query,
    {
        if self.lines.len() >= SERVICE_LOG_CAPACITY {
            self.lines.pop_front();
        }
        self.lines.push_back(line);
    }

    /// Applies one read of the log stream; returns whether to read again.
    pub fn apply(&mut self, event: Received<String>) -> (more: bool)
        ensures
            more == (event is Item),
            final(self).lines@ == match event {
                Received::Item(l) => bounded_push(old(self).lines@, l, SERVICE_LOG_CAPACITY as nat),
                Received::Empty => old(self).lines@,
                Received::Closed => bounded_push(
                    old(self).lines@,
                    final(self).lines@.last(),
                    SERVICE_LOG_CAPACITY as nat,
                ),
            },
            event is Closed ==> final(self).lines@.last()@ == stream_ended_line(),
            final(self).service_id == old(self).service_id,
            final(self).service_name == old(self).service_name,
            final(self).scroll_offset == old(self).scroll_offset,
            final(self).auto_follow == old(self).auto_follow,
    {
        match event {
            Received::Item(line) => {
                self.push_line(line);
                true
            },
            Received::Empty => false,
            Received::Closed => {
                self.push_line(stream_ended());
                false
            },
        }
    }
}

/// The receiving end of a service log stream and the flag that tells its
/// reader to stop.
pub struct LogStreamHandle {
    pub receiver: std::sync::mpsc::Receiver<String>,
    pub kill_flag: Arc<AtomicBool>,
}

impl LogStreamHandle {
    pub fn new(receiver: std::sync::mpsc::Receiver<String>, kill_flag: Arc<AtomicBool>) -> (r: Self)
        ensures
            r.receiver == receiver,
    {
        LogStreamHandle { receiver, kill_flag }
    }

    /// Tells the reader of the stream to stop and end its child process.
    pub fn kill(&self) {
        self.kill_flag.store(true, Ordering::Relaxed);
    }
}

/// Drains up to one batch of lines from a service log stream, without
/// blocking: a closed stream adds the end marker.
pub fn drain_service_logs(state: &mut ServiceLogState, handle: &LogStreamHandle)
    ensures
        exists|taken: Seq<String>|
            taken.len() <= SERVICE_LOG_BATCH && final(state).lines@ == bounded_push_all(
                old(state).lines@,
                taken,
                SERVICE_LOG_CAPACITY as nat,
            ),
        final(state).service_id == old(state).service_id,
        final(state).service_name == old(state).service_name,
        final(state).scroll_offset == old(state).scroll_offset,
        final(state).auto_follow == old(state).auto_follow,
{
    let ghost taken: Seq<String> = Seq::empty();
    let mut i: usize = 0;
    while i < SERVICE_LOG_BATCH
        invariant_except_break
            taken.len() <= i,
        invariant
            i <= SERVICE_LOG_BATCH,
            state.lines@ == bounded_push_all(old(state).lines@, taken, SERVICE_LOG_CAPACITY as nat),
            state.service_id == old(state).service_id,
            state.service_name == old(state).service_name,
            state.scroll_offset == old(state).scroll_offset,
            state.auto_follow == old(state).auto_follow,
        ensures
            taken.len() <= SERVICE_LOG_BATCH,
        decreases SERVICE_LOG_BATCH - i,
    {
        let ghost before = state.lines@;
        let event = receive_now(&handle.receiver);
        let more = state.apply(event);
        proof {
            if state.lines@ != before {
                assert(taken.push(state.lines@.last()).drop_last() =~= taken);
                taken = taken.push(state.lines@.last());
            }
        }
        if !more {
            break;
        }
        i = i + 1;
    }
}

/// Filling an empty buffer keeps exactly the newest `cap` lines, in order.
pub proof fn lemma_fill_keeps_newest<T>(more: Seq<T>, cap: nat)
    requires
        cap > 0,
    ensures
        bounded_push_all(Seq::<T>::empty(), more, cap) == more.skip(
            if more.len() > cap {
                more.len() - cap
            } else {
                0
            },
        ),
    decreases more.len(),
{
    if more.len() > 0 {
        let prev = more.drop_last();
        lemma_fill_keeps_newest(prev, cap);
        let prev_start: int = if prev.len() > cap { prev.len() - cap } else { 0 };
        let start: int = if more.len() > cap { more.len() - cap } else { 0 };
        let kept = prev.skip(prev_start);
        if kept.len() >= cap {
            assert(kept.drop_first().push(more.last()) =~= more.skip(start));
        } else {
            assert(kept.push(more.last()) =~= more.skip(start));
        }
    } else {
        assert(more.skip(0) =~= more);
    }
}

/// A buffer never holds more than its capacity once it is within it.
pub proof fn lemma_push_stays_bounded<T>(lines: Seq<T>, more: Seq<T>, cap: nat)
    requires
        0 < cap,
        lines.len() <= cap,
    ensures
        bounded_push_all(lines, more, cap).len() <= cap,
    decreases more.len(),
{
    if more.len() > 0 {
        lemma_push_stays_bounded(lines, more.drop_last(), cap);
    }
}

/// Whether a line (lower-cased) is shown: with the error filter on it must
/// hold one of the error words, and with a query it must hold the query
/// (lower-cased).
pub open spec fn line_shown(line: Seq<char>, query: Seq<char>, errors_only: bool) -> bool {
    &&& (!errors_only || has_run(line, "error"@) || has_run(line, "err"@) || has_run(
        line,
        "panic"@,
    ) || has_run(line, "fatal"@) || has_run(line, "exception"@) || has_run(line, "fail"@))
    &&& (query.len() == 0 || has_run(line, query))
}

/// The indices of the lines shown, in order.
pub open spec fn shown_indices(lines: Seq<Seq<char>>, query: Seq<char>, errors_only: bool) -> Seq<usize>
    decreases lines.len(),
{
    if lines.len() == 0 {
        Seq::empty()
    } else if line_shown(lines.last(), query, errors_only) {
        shown_indices(lines.drop_last(), query, errors_only).push((lines.len() - 1) as usize)
    } else {
        shown_indices(lines.drop_last(), query, errors_only)
    }
}

fn has_word(c: &Vec<char>, w: &str) -> (r: bool)
    ensures
        r == has_run(c@, w@),
{
    contains_str(c, &to_chars(w))
}

/// The indices of the lower-cased lines that a lower-cased query and the
/// error filter keep.
pub fn filter_lowered(lowered: &Vec<String>, query: &String, errors_only: bool) -> (r: Vec<usize>)
    ensures
        r@ == shown_indices(lowered@.map_values(|l: String| l@), query@, errors_only),
{
    let ghost lv = lowered@.map_values(|l: String| l@);
    let q = to_chars(query.as_str());
    let mut r: Vec<usize> = Vec::new();
    let mut i: usize = 0;
    assert(lv.take(0) =~= Seq::<Seq<char>>::empty());
    while i < lowered.len()
        invariant
            i <= lowered@.len(),
            lv == lowered@.map_values(|l: String| l@),
            q@ == query@,
            r@ == shown_indices(lv.take(i as int), query@, errors_only),
        decreases lowered.len() - i,
    {
        assert(lv.take(i + 1).drop_last() =~= lv.take(i as int));
        assert(lv.take(i + 1).last() == lowered@[i as int]@);
        let c = to_chars(lowered[i].as_str());
        let err_ok = !errors_only || has_word(&c, "error") || has_word(&c, "err") || has_word(
            &c,
            "panic",
        ) || has_word(&c, "fatal") || has_word(&c, "exception") || has_word(&c, "fail");
        let query_ok = q.len() == 0 || contains_str(&c, &q);
        if err_ok && query_ok {
            r.push(i);
        }
        i = i + 1;
    }
    assert(lv.take(lowered@.len() as int) =~= lv);
    r
}

fn lowered_lines(lines: &VecDeque<String>) -> (r: Vec<String>)
    ensures
        r@.len() == lines@.len(),
        forall|i: int| 0 <= i < r@.len() ==> #[trigger] r@[i]@ == lower_of(lines@[i]@),
{
    let mut r: Vec<String> = Vec::new();
    let mut i: usize = 0;
    while i < lines.len()
        invariant
            i <= lines@.len(),
            r@.len() == i,
            forall|q: int| 0 <= q < i ==> #[trigger] r@[q]@ == lower_of(lines@[q]@),
        decreases lines.len() - i,
    {
        r.push(lowercase(lines[i].as_str()));
        i = i + 1;
    }
    r
}

/// The lines of `lines` lower-cased, as views.
pub open spec fn lowered_views(lines: Seq<String>) -> Seq<Seq<char>> {
    lines.map_values(|l: String| lower_of(l@))
}

impl LogViewState {
    /// The indices of the lines the search query keeps, compared without
    /// regard to case.
    pub fn visible_lines(&self) -> (r: Vec<usize>)
        ensures
            r@ == shown_indices(lowered_views(self.lines@), lower_of(self.search_query@), false),
    {
        let lowered = lowered_lines(&self.lines);
        let q = lowercase(self.search_query.as_str());
        assert(lowered@.map_values(|l: String| l@) =~= lowered_views(self.lines@));
        filter_lowered(&lowered, &q, false)
    }
}

impl ServiceLogState {
    /// The indices of the lines the error filter and the search query
    /// keep, compared without regard to case.
    pub fn visible_lines(&self) -> (r: Vec<usize>)
        ensures
            r@ == shown_indices(
                lowered_views(self.lines@),
                lower_of(self.search_query@),
                self.filter_errors,
            ),
    {
        let lowered = lowered_lines(&self.lines);
        let q = lowercase(self.search_query.as_str());
        assert(lowered@.map_values(|l: String| l@) =~= lowered_views(self.lines@));
        filter_lowered(&lowered, &q, self.filter_errors)
    }
}

} // verus!
