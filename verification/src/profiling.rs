use vstd::prelude::*;
use crate::text::{concat, concat_all, decimal, decimal_string};
use crate::boss_launch::text_equal;

verus! {

/// One timed scope.
#[derive(Debug)]
pub struct ProfilingEntry {
    pub scope_name: String,
    /// Start and end, in nanoseconds since profiling started.
    pub start_nanos: u64,
    pub end_nanos: u64,
    pub duration_nanos: u64,
}

/// The timed scopes recorded by one thread.
#[derive(Debug)]
pub struct ThreadProfilingData {
    pub entries: Vec<ProfilingEntry>,
}

/// The profiling data of one process, by thread name.
#[derive(Debug)]
pub struct ProcessProfilingData {
    /// Offset to add to this process's timestamps to align them with the local clock, in nanoseconds.
    pub timestamp_offset_nanos: u64,
    pub threads: Vec<(String, ThreadProfilingData)>,
}

impl ProcessProfilingData {
    /// Profiling data with nothing recorded.
    pub fn empty() -> (r: ProcessProfilingData)
        ensures
            r.timestamp_offset_nanos == 0,
            r.threads@.len() == 0,
    {
        ProcessProfilingData { timestamp_offset_nanos: 0, threads: Vec::new() }
    }
}

/// Starts timing a scope. Profiling is not compiled into this build, so nothing is recorded.
pub fn start_timer(_name: &str) {
}

/// Stops timing a scope. Profiling is not compiled into this build, so nothing is recorded.
pub fn stop_timer(_t: ()) {
}

/// Writes out the profiling data. Profiling is not compiled into this build, so there is none.
pub fn dump_all_profiling() {
}

/// Adds the profiling data of a remote process. Profiling is not compiled into this build,
/// so the data is dropped.
pub fn add_remote_profiling(_remote_profiling_data: ProcessProfilingData, _process_name: String, _offset_nanos: u64) {
}

/// The profiling data of this process: empty, as profiling is not compiled into this build.
pub fn get_local_process_profiling() -> (r: ProcessProfilingData)
    ensures
        r.timestamp_offset_nanos == 0,
        r.threads@.len() == 0,
{
    ProcessProfilingData::empty()
}

/// Times a scope: started at a point of the profiling clock, it becomes a recorded scope when it
/// is stopped.
pub struct Timer {
    pub scope_name: String,
    /// Nanoseconds since profiling started.
    pub start_nanos: u64,
}

impl Timer {
    /// Starts timing a scope at the given time.
    pub fn new(scope_name: String, start_nanos: u64) -> (r: Timer)
        ensures
            r.scope_name == scope_name,
            r.start_nanos == start_nanos,
    {
        Timer { scope_name, start_nanos }
    }

    /// Stops timing at the given time, which cannot be before the start, and gives the scope.
    pub fn stop(self, end_nanos: u64) -> (r: ProfilingEntry)
        requires
            self.start_nanos <= end_nanos,
        ensures
            r.scope_name == self.scope_name,
            r.start_nanos == self.start_nanos,
            r.end_nanos == end_nanos,
            r.duration_nanos == end_nanos - self.start_nanos,
    {
        ProfilingEntry {
            scope_name: self.scope_name,
            start_nanos: self.start_nanos,
            end_nanos,
            duration_nanos: end_nanos - self.start_nanos,
        }
    }
}

/// The name under which this process's own profiling data is kept.
pub const LOCAL_PROCESS_NAME: &'static str = "<Local>";

/// The profiling data of every process, by process name.
pub struct GlobalProfilingData {
    pub processes: Vec<(String, ProcessProfilingData)>,
}

/// The kind of an event of a Chrome trace.
#[derive(Clone, Copy, Debug, PartialEq, Eq, Structural)]
pub enum ChromePhase {
    /// A scope begins (`B`).
    Begin,
    /// A scope ends (`E`).
    End,
    /// A process or thread is named (`M`).
    Metadata,
}

/// An event of a Chrome trace (the format that `chrome://tracing` loads). Every event belongs to
/// the category `None`.
#[derive(Debug)]
pub struct ChromeEvent {
    pub name: String,
    pub phase: ChromePhase,
    /// Nanoseconds since profiling started, on the local clock.
    pub ts: u128,
    pub pid: usize,
    pub tid: usize,
    /// The name that a metadata event gives.
    pub label: Option<String>,
}

/// What an event says.
pub struct ChromeEventView {
    pub name: Seq<char>,
    pub phase: ChromePhase,
    pub ts: int,
    pub pid: int,
    pub tid: int,
    pub label: Option<Seq<char>>,
}

impl ChromeEvent {
    pub open spec fn view(&self) -> ChromeEventView {
        ChromeEventView {
            name: self.name@,
            phase: self.phase,
            ts: self.ts as int,
            pid: self.pid as int,
            tid: self.tid as int,
            label: match self.label { Some(l) => Some(l@), None => None },
        }
    }
}

/// The views of a list of events.
pub open spec fn events_view(v: Seq<ChromeEvent>) -> Seq<ChromeEventView> {
    v.map_values(|e: ChromeEvent| e.view())
}

/// The begin and end events of one timed scope.
pub open spec fn entry_events(e: ProfilingEntry, offset: u64, pid: int, tid: int) -> Seq<ChromeEventView> {
    seq![
        ChromeEventView { name: e.scope_name@, phase: ChromePhase::Begin, ts: e.start_nanos + offset, pid, tid, label: None },
        ChromeEventView { name: e.scope_name@, phase: ChromePhase::End, ts: e.end_nanos + offset, pid, tid, label: None },
    ]
}

/// The events of a thread's timed scopes, in order.
pub open spec fn entries_events(es: Seq<ProfilingEntry>, offset: u64, pid: int, tid: int) -> Seq<ChromeEventView>
    decreases es.len(),
{
    if es.len() == 0 {
        Seq::empty()
    } else {
        entries_events(es.drop_last(), offset, pid, tid) + entry_events(es.last(), offset, pid, tid)
    }
}

/// The events of the timed scopes of the given threads of a process, thread by thread; each
/// thread is numbered by its place in the list.
pub open spec fn threads_events(ts: Seq<(String, ThreadProfilingData)>, offset: u64, pid: int) -> Seq<ChromeEventView>
    decreases ts.len(),
{
    if ts.len() == 0 {
        Seq::empty()
    } else {
        threads_events(ts.drop_last(), offset, pid) + entries_events(ts.last().1.entries@, offset, pid, ts.len() - 1)
    }
}

/// When a thread is placed in time, for ordering: the start of its last recorded scope.
pub open spec fn thread_key(t: (String, ThreadProfilingData), offset: u64) -> int {
    t.1.entries@.last().start_nanos + offset
}

/// How many of the first `n` keys come before the `i`th one in their stable ascending order:
/// being smaller, or equal and earlier. Over all the keys, this is the `i`th key's place.
pub open spec fn count_before(keys: Seq<int>, i: int, n: int) -> nat
    decreases n,
{
    if n <= 0 {
        0
    } else {
        count_before(keys, i, n - 1)
            + (if keys[n - 1] < keys[i] || (keys[n - 1] == keys[i] && n - 1 < i) { 1nat } else { 0nat })
    }
}

/// The ordering keys of the threads of a process.
pub open spec fn thread_keys(p: ProcessProfilingData) -> Seq<int> {
    p.threads@.map_values(|t: (String, ThreadProfilingData)| thread_key(t, p.timestamp_offset_nanos))
}

/// The smallest of some keys.
pub open spec fn min_key(keys: Seq<int>) -> int
    decreases keys.len(),
{
    if keys.len() <= 1 {
        keys[0]
    } else {
        let m = min_key(keys.drop_last());
        if keys.last() < m { keys.last() } else { m }
    }
}

/// The events that name the threads of a process: each thread is named by its place among the
/// threads ordered by their keys, then its own name, so that a trace viewer lists them in order.
pub open spec fn thread_name_events(p: ProcessProfilingData, pid: int, n: int) -> Seq<ChromeEventView>
    decreases n,
{
    if n <= 0 {
        Seq::empty()
    } else {
        thread_name_events(p, pid, n - 1).push(ChromeEventView {
            name: "thread_name"@,
            phase: ChromePhase::Metadata,
            ts: 0,
            pid,
            tid: n - 1,
            label: Some(decimal(count_before(thread_keys(p), n - 1, thread_keys(p).len() as int)) + " "@ + p.threads@[n - 1].0@),
        })
    }
}

/// The events of the given processes, process by process; each process is numbered by its place.
pub open spec fn processes_events(ps: Seq<(String, ProcessProfilingData)>) -> Seq<ChromeEventView>
    decreases ps.len(),
{
    if ps.len() == 0 {
        Seq::empty()
    } else {
        let p = ps.last().1;
        let pid = ps.len() - 1;
        processes_events(ps.drop_last()) + threads_events(p.threads@, p.timestamp_offset_nanos, pid)
            + thread_name_events(p, pid, p.threads@.len() as int)
    }
}

/// The ordering keys of the processes: the earliest key of their threads.
pub open spec fn process_keys(ps: Seq<(String, ProcessProfilingData)>) -> Seq<int> {
    ps.map_values(|p: (String, ProcessProfilingData)| min_key(thread_keys(p.1)))
}

/// The events that name the processes: by their place among the processes ordered by their keys,
/// then their name; this process itself is the boss, named first.
pub open spec fn process_name_events(ps: Seq<(String, ProcessProfilingData)>, n: int) -> Seq<ChromeEventView>
    decreases n,
{
    if n <= 0 {
        Seq::empty()
    } else {
        process_name_events(ps, n - 1).push(ChromeEventView {
            name: "process_name"@,
            phase: ChromePhase::Metadata,
            ts: 0,
            pid: n - 1,
            tid: 0,
            label: Some(if ps[n - 1].0@ == LOCAL_PROCESS_NAME@ { "0 Boss"@ } else {
                decimal(count_before(process_keys(ps), n - 1, ps.len() as int)) + " "@ + ps[n - 1].0@
            }),
        })
    }
}

/// The Chrome trace of all the profiling data: the scopes of every thread of every process, the
/// names of the threads after each process, then the names of the processes.
pub open spec fn chrome_trace(ps: Seq<(String, ProcessProfilingData)>) -> Seq<ChromeEventView> {
    processes_events(ps) + process_name_events(ps, ps.len() as int)
}

/// Whether the profiling data can be turned into a trace: every process has a thread, every
/// thread a recorded scope, and the numbers fit.
pub open spec fn traceable(ps: Seq<(String, ProcessProfilingData)>) -> bool {
    &&& ps.len() < usize::MAX
    &&& forall|i: int| 0 <= i < ps.len() ==> {
        let p = #[trigger] ps[i].1;
        &&& 0 < p.threads@.len() < usize::MAX
        &&& forall|j: int| 0 <= j < p.threads@.len() ==> (#[trigger] p.threads@[j]).1.entries@.len() > 0
    }
}

/// The keys as integers.
pub open spec fn keys_view(keys: Seq<u128>) -> Seq<int> {
    keys.map_values(|k: u128| k as int)
}

/// How many keys come before the `i`th one, as `count_before` counts over all the keys.
fn place_of(keys: &Vec<u128>, i: usize) -> (r: usize)
    requires
        i < keys.len(),
    ensures
        r == count_before(keys_view(keys@), i as int, keys@.len() as int),
{
    let ghost kv = keys_view(keys@);
    let mut r: usize = 0;
    let mut n: usize = 0;
    while n < keys.len()
        invariant
            i < keys.len(),
            kv == keys_view(keys@),
            0 <= n <= keys.len(),
            r <= n,
            r == count_before(kv, i as int, n as int),
        decreases keys.len() - n,
    {
        if keys[n] < keys[i] || (keys[n] == keys[i] && n < i) {
            r = r + 1;
        }
        n = n + 1;
    }
    r
}

/// The ordering keys of the threads of a process, which all have recorded scopes.
fn thread_keys_of(p: &ProcessProfilingData) -> (r: Vec<u128>)
    requires
        forall|j: int| 0 <= j < p.threads@.len() ==> (#[trigger] p.threads@[j]).1.entries@.len() > 0,
    ensures
        keys_view(r@) == thread_keys(*p),
        r@.len() == p.threads@.len(),
{
    let mut r: Vec<u128> = Vec::new();
    let mut j: usize = 0;
    while j < p.threads.len()
        invariant
            0 <= j <= p.threads.len(),
            forall|k: int| 0 <= k < p.threads@.len() ==> (#[trigger] p.threads@[k]).1.entries@.len() > 0,
            keys_view(r@) == thread_keys(*p).take(j as int),
            r@.len() == j,
        decreases p.threads.len() - j,
    {
        let es = &p.threads[j].1.entries;
        assert(es@.len() > 0);
        let last = &es[es.len() - 1];
        let k = last.start_nanos as u128 + p.timestamp_offset_nanos as u128;
        assert(k as int == thread_key(p.threads@[j as int], p.timestamp_offset_nanos));
        r.push(k);
        assert(keys_view(r@) =~= thread_keys(*p).take(j + 1));
        j = j + 1;
    }
    assert(thread_keys(*p).take(j as int) =~= thread_keys(*p));
    r
}

/// The smallest of some keys.
fn smallest(keys: &Vec<u128>) -> (r: u128)
    requires
        keys.len() > 0,
    ensures
        r as int == min_key(keys_view(keys@)),
{
    let mut m = keys[0];
    let mut i: usize = 1;
    while i < keys.len()
        invariant
            0 < i <= keys.len(),
            m as int == min_key(keys_view(keys@).take(i as int)),
        decreases keys.len() - i,
    {
        let ghost t = keys_view(keys@).take(i + 1);
        assert(t.drop_last() =~= keys_view(keys@).take(i as int));
        if keys[i] < m {
            m = keys[i];
        }
        i = i + 1;
    }
    assert(keys_view(keys@).take(keys.len() as int) =~= keys_view(keys@));
    m
}

/// Adds the begin and end events of a thread's scopes.
fn push_entry_events(events: &mut Vec<ChromeEvent>, es: &Vec<ProfilingEntry>, offset: u64, pid: usize, tid: usize)
    ensures
        events_view(final(events)@) == events_view(old(events)@) + entries_events(es@, offset, pid as int, tid as int),
{
    let mut i: usize = 0;
    while i < es.len()
        invariant
            0 <= i <= es.len(),
            events_view(events@) == events_view(old(events)@) + entries_events(es@.take(i as int), offset, pid as int, tid as int),
        decreases es.len() - i,
    {
        let e = &es[i];
        let ghost before = events@;
        events.push(ChromeEvent { name: e.scope_name.clone(), phase: ChromePhase::Begin,
            ts: e.start_nanos as u128 + offset as u128, pid, tid, label: None });
        events.push(ChromeEvent { name: e.scope_name.clone(), phase: ChromePhase::End,
            ts: e.end_nanos as u128 + offset as u128, pid, tid, label: None });
        proof {
            assert(es@.take(i + 1).drop_last() =~= es@.take(i as int));
            assert(events_view(events@) =~= events_view(before) + entry_events(es@[i as int], offset, pid as int, tid as int));
        }
        i = i + 1;
    }
    assert(es@.take(es.len() as int) =~= es@);
}

/// Adds the events of one process: the scopes of its threads, then the names of its threads.
fn push_process_events(events: &mut Vec<ChromeEvent>, p: &ProcessProfilingData, pid: usize)
    requires
        p.threads@.len() < usize::MAX,
        forall|j: int| 0 <= j < p.threads@.len() ==> (#[trigger] p.threads@[j]).1.entries@.len() > 0,
    ensures
        events_view(final(events)@) == events_view(old(events)@)
            + threads_events(p.threads@, p.timestamp_offset_nanos, pid as int)
            + thread_name_events(*p, pid as int, p.threads@.len() as int),
{
    let mut j: usize = 0;
    while j < p.threads.len()
        invariant
            0 <= j <= p.threads.len(),
            events_view(events@) == events_view(old(events)@)
                + threads_events(p.threads@.take(j as int), p.timestamp_offset_nanos, pid as int),
        decreases p.threads.len() - j,
    {
        let ghost before = events@;
        push_entry_events(events, &p.threads[j].1.entries, p.timestamp_offset_nanos, pid, j);
        proof {
            let t = p.threads@.take(j + 1);
            assert(t.drop_last() =~= p.threads@.take(j as int));
            assert(events_view(events@) =~= events_view(old(events)@)
                + threads_events(p.threads@.take(j + 1), p.timestamp_offset_nanos, pid as int));
        }
        j = j + 1;
    }
    assert(p.threads@.take(p.threads.len() as int) =~= p.threads@);
    let ghost after_scopes = events@;
    let keys = thread_keys_of(p);
    let mut j: usize = 0;
    while j < p.threads.len()
        invariant
            0 <= j <= p.threads.len(),
            keys_view(keys@) == thread_keys(*p),
            keys@.len() == p.threads@.len(),
            events_view(events@) == events_view(after_scopes) + thread_name_events(*p, pid as int, j as int),
        decreases p.threads.len() - j,
    {
        let place = place_of(&keys, j);
        let digits = decimal_string(place as u64);
        proof { reveal_with_fuel(concat_all, 4); }
        let label = concat(&[digits.as_str(), " ", p.threads[j].0.as_str()]);
        let ghost before = events@;
        proof { reveal_strlit("thread_name"); }
        events.push(ChromeEvent { name: String::from_str("thread_name"), phase: ChromePhase::Metadata, ts: 0, pid,
            tid: j, label: Some(label) });
        assert(events_view(events@) =~= events_view(before).push(events@.last().view()));
        j = j + 1;
    }
}

/// The Chrome trace of all the profiling data, as `chrome_trace` says. Where the data was kept in
/// hash maps, the processes and threads come in the maps' order; their numbers are their places
/// in that order.
pub fn chrome_trace_events(data: &GlobalProfilingData) -> (r: Vec<ChromeEvent>)
    requires
        traceable(data.processes@),
    ensures
        events_view(r@) == chrome_trace(data.processes@),
{
    let ps = &data.processes;
    let mut events: Vec<ChromeEvent> = Vec::new();
    let mut i: usize = 0;
    while i < ps.len()
        invariant
            0 <= i <= ps.len(),
            ps@ == data.processes@,
            traceable(ps@),
            events_view(events@) == processes_events(ps@.take(i as int)),
        decreases ps.len() - i,
    {
        let p = &ps[i].1;
        assert(0 < p.threads@.len() < usize::MAX);
        push_process_events(&mut events, p, i);
        proof {
            assert(ps@.take(i + 1).drop_last() =~= ps@.take(i as int));
            assert(events_view(events@) =~= processes_events(ps@.take(i + 1)));
        }
        i = i + 1;
    }
    assert(ps@.take(ps.len() as int) =~= ps@);
    let ghost after_processes = events@;
    let mut keys: Vec<u128> = Vec::new();
    let mut i: usize = 0;
    while i < ps.len()
        invariant
            0 <= i <= ps.len(),
            ps@ == data.processes@,
            traceable(ps@),
            keys_view(keys@) == process_keys(ps@).take(i as int),
        decreases ps.len() - i,
    {
        assert(0 < ps@[i as int].1.threads@.len());
        let tk = thread_keys_of(&ps[i].1);
        let m = smallest(&tk);
        assert(m as int == min_key(thread_keys(ps@[i as int].1)));
        let ghost before = keys@;
        keys.push(m);
        assert(keys_view(keys@) =~= keys_view(before).push(m as int));
        assert(process_keys(ps@)[i as int] == min_key(thread_keys(ps@[i as int].1)));
        assert(keys_view(keys@) =~= process_keys(ps@).take(i + 1));
        i = i + 1;
    }
    assert(process_keys(ps@).take(ps.len() as int) =~= process_keys(ps@));
    let mut i: usize = 0;
    while i < ps.len()
        invariant
            0 <= i <= ps.len(),
            ps@ == data.processes@,
            keys_view(keys@) == process_keys(ps@),
            keys@.len() == ps@.len(),
            events_view(events@) == events_view(after_processes) + process_name_events(ps@, i as int),
        decreases ps.len() - i,
    {
        let name = &ps[i].0;
        proof { reveal_strlit("0 Boss"); reveal_strlit("process_name"); reveal_with_fuel(concat_all, 4); }
        let label = if text_equal(name.as_str(), LOCAL_PROCESS_NAME) {
            String::from_str("0 Boss")
        } else {
            let place = place_of(&keys, i);
            let digits = decimal_string(place as u64);
            concat(&[digits.as_str(), " ", name.as_str()])
        };
        let ghost before = events@;
        events.push(ChromeEvent { name: String::from_str("process_name"), phase: ChromePhase::Metadata, ts: 0,
            pid: i, tid: 0, label: Some(label) });
        assert(events_view(events@) =~= events_view(before).push(events@.last().view()));
        i = i + 1;
    }
    events
}

} // verus!
