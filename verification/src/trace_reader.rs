//! Lookup tables built while a trace is decoded, and gzip-aware loading.
use crate::analysis_events::{CustomEvent, Dial9Event};
use std::collections::HashMap;
use std::io::Read;
use vstd::prelude::*;

verus! {

broadcast use vstd::std_specs::hash::group_hash_axioms;

/// The events of a trace with the lookup tables gathered from them.
pub struct TraceReader {
    /// All decoded events (including metadata like `TaskSpawnEvent`).
    pub all_events: Vec<Dial9Event>,
    /// Task id to spawn location, from task spawns and poll starts.
    pub task_spawn_locs: HashMap<u64, String>,
    /// OS tid to thread name, from CPU samples.
    pub thread_names: HashMap<u32, String>,
    /// Key-value metadata from the most recent segment metadata event.
    pub segment_metadata: Vec<(String, String)>,
}

/// What a [`TraceReader`] holds.
#[verifier::ext_equal]
pub struct TraceTables {
    pub all_events: Seq<Dial9Event>,
    pub task_spawn_locs: Map<u64, Seq<char>>,
    pub thread_names: Map<u32, Seq<char>>,
    pub segment_metadata: Seq<(Seq<char>, Seq<char>)>,
}

/// Whether an event is decoded again as an application-defined event.
pub open spec fn is_reinterpreted(ev: Dial9Event) -> bool {
    ev is Other || ev is ProcessResourceUsageEvent
}

/// Whether an event describes the runtime rather than the trace itself.
pub open spec fn is_runtime_event(ev: Dial9Event) -> bool {
    !(ev is TaskSpawnEvent || ev is SegmentMetadataEvent || ev is ClockSyncEvent)
}

impl TraceTables {
    pub open spec fn empty() -> TraceTables {
        TraceTables {
            all_events: Seq::empty(),
            task_spawn_locs: Map::empty(),
            thread_names: Map::empty(),
            segment_metadata: Seq::empty(),
        }
    }

    /// The tables after one more decoded event. `custom` is the event decoded
    /// as an application-defined one, where that succeeded.
    pub open spec fn accept(self, raw: Dial9Event, custom: Option<CustomEvent>) -> TraceTables {
        if is_reinterpreted(raw) {
            match custom {
                Some(c) => TraceTables {
                    all_events: self.all_events.push(Dial9Event::Custom(c)),
                    ..self
                },
                None => self,
            }
        } else {
            TraceTables {
                all_events: self.all_events.push(raw),
                task_spawn_locs: match raw {
                    Dial9Event::TaskSpawnEvent(e) => self.task_spawn_locs.insert(
                        e.task_id,
                        e.spawn_loc@,
                    ),
                    Dial9Event::PollStartEvent(e) if !self.task_spawn_locs.contains_key(
                        e.task_id,
                    ) => self.task_spawn_locs.insert(e.task_id, e.spawn_loc@),
                    _ => self.task_spawn_locs,
                },
                thread_names: match raw {
                    Dial9Event::CpuSampleEvent(e) => match e.thread_name {
                        Some(name) => self.thread_names.insert(e.tid, name@),
                        None => self.thread_names,
                    },
                    _ => self.thread_names,
                },
                segment_metadata: match raw {
                    Dial9Event::SegmentMetadataEvent(e) => crate::segment_metadata::entries_view(e.entries@),
                    _ => self.segment_metadata,
                },
            }
        }
    }
}

impl View for TraceReader {
    type V = TraceTables;

    open spec fn view(&self) -> TraceTables {
        TraceTables {
            all_events: self.all_events@,
            task_spawn_locs: self.task_spawn_locs@.map_values(|s: String| s@),
            thread_names: self.thread_names@.map_values(|s: String| s@),
            segment_metadata: crate::segment_metadata::entries_view(self.segment_metadata@),
        }
    }
}

impl TraceReader {
    /// A reader that has not decoded any event.
    pub fn empty() -> (r: Self)
        ensures
            r@ == TraceTables::empty(),
    {
        let r = TraceReader {
            all_events: Vec::new(),
            task_spawn_locs: HashMap::new(),
            thread_names: HashMap::new(),
            segment_metadata: Vec::new(),
        };
        assert(r@ =~= TraceTables::empty());
        r
    }

    /// Records one decoded event. `custom` is the same event decoded as an
    /// application-defined one; it is used for kinds that are not built in.
    pub fn accept(&mut self, raw: Dial9Event, custom: Option<CustomEvent>)
        ensures
            final(self)@ == old(self)@.accept(raw, custom),
    {
        let ghost before = self@;
        match &raw {
            Dial9Event::TaskSpawnEvent(e) => {
                self.task_spawn_locs.insert(e.task_id, e.spawn_loc.clone());
            },
            Dial9Event::PollStartEvent(e) => {
                if !self.task_spawn_locs.contains_key(&e.task_id) {
                    self.task_spawn_locs.insert(e.task_id, e.spawn_loc.clone());
                }
            },
            Dial9Event::CpuSampleEvent(e) => {
                if let Some(name) = &e.thread_name {
                    self.thread_names.insert(e.tid, name.clone());
                }
            },
            Dial9Event::SegmentMetadataEvent(e) => {
                self.segment_metadata = crate::segment_metadata::copy_entries(&e.entries);
            },
            Dial9Event::Other => {
                if let Some(c) = custom {
                    self.all_events.push(Dial9Event::Custom(c));
                }
                assert(self@ =~= before.accept(raw, custom));
                return ;
            },
            Dial9Event::ProcessResourceUsageEvent(_) => {
                if let Some(c) = custom {
                    self.all_events.push(Dial9Event::Custom(c));
                }
                assert(self@ =~= before.accept(raw, custom));
                return ;
            },
            _ => {},
        }
        self.all_events.push(raw);
        assert(self@ =~= before.accept(raw, custom));
    }

    /// The runtime events, in trace order: everything but task spawns, segment
    /// metadata and clock anchors.
    pub fn runtime_events(&self) -> (r: Vec<&Dial9Event>)
        ensures
            r@.map_values(|e: &Dial9Event| *e) == self@.all_events.filter(
                |e: Dial9Event| is_runtime_event(e),
            ),
    {
        broadcast use vstd::seq_lib::group_filter_ensures;

        let ghost p = |e: Dial9Event| is_runtime_event(e);
        let mut r: Vec<&Dial9Event> = Vec::new();
        let mut i: usize = 0;
        while i < self.all_events.len()
            invariant
                i <= self.all_events.len(),
                p == |e: Dial9Event| is_runtime_event(e),
                r@.map_values(|e: &Dial9Event| *e) == self.all_events@.take(i as int).filter(p),
            decreases self.all_events.len() - i,
        {
            let ev = &self.all_events[i];
            let skip: bool = match ev {
                Dial9Event::TaskSpawnEvent(_) => true,
                Dial9Event::SegmentMetadataEvent(_) => true,
                Dial9Event::ClockSyncEvent(_) => true,
                _ => false,
            };
            let ghost r0 = r@;
            proof {
                assert(self.all_events@.take(i as int + 1) =~= self.all_events@.take(
                    i as int,
                ).push(*ev));
                self.all_events@.take(i as int).lemma_filter_push(*ev, p);
            }
            if !skip {
                r.push(ev);
                assert(r@.map_values(|e: &Dial9Event| *e) =~= r0.map_values(
                    |e: &Dial9Event| *e,
                ).push(*ev));
            }
            i = i + 1;
        }
        assert(self.all_events@.take(i as int) =~= self.all_events@);
        r
    }
}

/// What decompressing a gzip stream yields, or nothing where the stream is
/// malformed.
pub uninterp spec fn gunzipped(data: Seq<u8>) -> Option<Seq<u8>>;

/// Decompresses with `flate2::read::GzDecoder`, reading to the end of the
/// stream. The bytes that come out, and whether it fails, depend on `data`
/// alone; the text of the error is left open.
#[verifier::external_body]
fn gunzip(data: &Vec<u8>) -> (r: Result<Vec<u8>, String>)
    ensures
        r matches Ok(bytes) ==> gunzipped(data@) == Some(bytes@),
        r is Err ==> gunzipped(data@) is None,
{
    let mut decoder = flate2::read::GzDecoder::new(&data[..]);
    let mut decompressed = Vec::new();
    match decoder.read_to_end(&mut decompressed) {
        Ok(_) => Ok(decompressed),
        Err(error) => Err(format!("failed to decompress gzip trace: {error}")),
    }
}

/// Whether the data starts with the gzip magic number.
pub open spec fn is_gzip(data: Seq<u8>) -> bool {
    data.len() >= 2 && data[0] == 0x1f && data[1] == 0x8b
}

/// What a file with the data holds: what decompressing gives if the data is
/// compressed, and else the data itself.
pub open spec fn is_trace_in(data: Vec<u8>, r: Result<Vec<u8>, String>) -> bool {
    &&& !is_gzip(data@) ==> r == Ok::<Vec<u8>, String>(data)
    &&& is_gzip(data@) ==> match r {
        Ok(bytes) => gunzipped(data@) == Some(bytes@),
        Err(_) => gunzipped(data@) is None,
    }
}

/// Data of fewer than two bytes, or with other first bytes than the two of the
/// gzip magic number, is taken as it is. Any other is decompressed, and is an
/// error exactly if that fails.
pub proof fn law_only_compressed_data_is_decompressed(data: Vec<u8>, r: Result<Vec<u8>, String>)
    requires
        is_trace_in(data, r),
    ensures
        data@.len() < 2 || data@[0] != 0x1f || data@[1] != 0x8b ==> (r matches Ok(bytes) && bytes@
            == data@),
        data@.len() >= 2 && data@[0] == 0x1f && data@[1] == 0x8b ==> (r is Err <==> gunzipped(
            data@,
        ) is None) && (r matches Ok(bytes) ==> gunzipped(data@) == Some(bytes@)),
{
}

/// Decompresses a trace that starts with the gzip magic number; any other
/// data is returned as it is.
pub fn maybe_decompress_gzip(data: Vec<u8>) -> (r: Result<Vec<u8>, String>)
    ensures
        is_trace_in(data, r),
{
    if data.len() < 2 || data[0] != 0x1f || data[1] != 0x8b {
        return Ok(data);
    }
    gunzip(&data)
}

/// The tables after a run of decoded events, each with its decoding as an
/// application-defined event.
pub open spec fn read_all(run: Seq<(Dial9Event, Option<CustomEvent>)>) -> TraceTables {
    run.fold_left(
        TraceTables::empty(),
        |tables: TraceTables, next: (Dial9Event, Option<CustomEvent>)|
            tables.accept(next.0, next.1),
    )
}

/// Reading loses no built-in event: each is appended as it is. One of an
/// unknown kind, and a usage record, is appended as the application-defined
/// event that it decodes to, and left out only if it decodes to none; the
/// tables do not change with it.
pub proof fn law_reading_keeps_every_built_in_event(
    before: TraceTables,
    raw: Dial9Event,
    custom: Option<CustomEvent>,
)
    ensures
        ({
            let after = before.accept(raw, custom);
            let again = raw is Other || raw is ProcessResourceUsageEvent;
            &&& !again ==> after.all_events == before.all_events.push(raw)
            &&& again && custom is Some ==> after.all_events == before.all_events.push(
                Dial9Event::Custom(custom->0),
            )
            &&& again && custom is None ==> after.all_events == before.all_events
            &&& !(raw is TaskSpawnEvent) && !(raw is PollStartEvent) ==> after.task_spawn_locs
                == before.task_spawn_locs
            &&& !(raw is CpuSampleEvent) ==> after.thread_names == before.thread_names
            &&& !(raw is SegmentMetadataEvent) ==> after.segment_metadata
                == before.segment_metadata
        }),
{
}

/// The decoded event is kept: as it is if it is built in, else as the
/// application-defined event that it decodes to.
pub open spec fn is_kept_as(
    next: (Dial9Event, Option<CustomEvent>),
    ev: Dial9Event,
) -> bool {
    if next.0 is Other || next.0 is ProcessResourceUsageEvent {
        next.1 is Some && ev == Dial9Event::Custom(next.1->0)
    } else {
        ev == next.0
    }
}

spec fn kept_at(run: Seq<(Dial9Event, Option<CustomEvent>)>) -> Seq<int>
    decreases run.len(),
{
    if run.len() == 0 {
        Seq::empty()
    } else {
        let before = kept_at(run.drop_last());
        if (run.last().0 is Other || run.last().0 is ProcessResourceUsageEvent) && run.last().1
            is None {
            before
        } else {
            before.push(run.len() - 1)
        }
    }
}

proof fn lemma_kept_at(run: Seq<(Dial9Event, Option<CustomEvent>)>)
    ensures
        ({
            let at = kept_at(run);
            let all = read_all(run).all_events;
            &&& at.len() == all.len()
            &&& forall|m: int|
                0 <= m < at.len() ==> 0 <= #[trigger] at[m] < run.len() && is_kept_as(
                    run[at[m]],
                    all[m],
                )
            &&& forall|a: int, b: int|
                0 <= a < b < at.len() ==> #[trigger] at[a] < #[trigger] at[b]
            &&& forall|k: int|
                0 <= k < run.len() && !((#[trigger] run[k]).0 is Other
                    || run[k].0 is ProcessResourceUsageEvent) ==> at.contains(k)
            &&& forall|k: int| 0 <= k < run.len() && (#[trigger] run[k]).1 is Some ==> at.contains(k)
        }),
    decreases run.len(),
{
    if run.len() > 0 {
        let rest = run.drop_last();
        lemma_kept_at(rest);
        let before = kept_at(rest);
        let at = kept_at(run);
        assert forall|m: int| 0 <= m < at.len() implies 0 <= #[trigger] at[m] < run.len()
            && is_kept_as(run[at[m]], read_all(run).all_events[m]) by {
            if m < before.len() {
                assert(at[m] == before[m]);
                assert(rest[before[m]] == run[at[m]]);
            }
        }
        assert forall|k: int|
            0 <= k < run.len() && !((#[trigger] run[k]).0 is Other
                || run[k].0 is ProcessResourceUsageEvent) implies at.contains(k) by {
            if k < rest.len() {
                assert(rest[k] == run[k]);
                let m = choose|m: int| 0 <= m < before.len() && before[m] == k;
                assert(at[m] == k);
            } else {
                assert(at[before.len() as int] == k);
            }
        }
        assert forall|k: int| 0 <= k < run.len() && (#[trigger] run[k]).1 is Some implies at.contains(
            k,
        ) by {
            if k < rest.len() {
                assert(rest[k] == run[k]);
                let m = choose|m: int| 0 <= m < before.len() && before[m] == k;
                assert(at[m] == k);
            } else {
                assert(at[before.len() as int] == k);
            }
        }
    }
}

/// After a run, the events are those of the run, in order and each once: every
/// built-in event as it is, and every other one that decodes to an
/// application-defined event as that. The law returns their places in the run.
pub proof fn law_a_run_is_read_in_order(run: Seq<(Dial9Event, Option<CustomEvent>)>) -> (at: Seq<
    int,
>)
    ensures
        ({
            let all = read_all(run).all_events;
            &&& at.len() == all.len()
            &&& forall|m: int|
                0 <= m < at.len() ==> 0 <= #[trigger] at[m] < run.len() && is_kept_as(
                    run[at[m]],
                    all[m],
                )
            &&& forall|a: int, b: int|
                0 <= a < b < at.len() ==> #[trigger] at[a] < #[trigger] at[b]
            &&& forall|k: int|
                0 <= k < run.len() && !((#[trigger] run[k]).0 is Other
                    || run[k].0 is ProcessResourceUsageEvent) ==> at.contains(k)
            &&& forall|k: int| 0 <= k < run.len() && (#[trigger] run[k]).1 is Some ==> at.contains(k)
        }),
{
    lemma_kept_at(run);
    kept_at(run)
}

/// The event spawns the task.
pub open spec fn is_spawn_of(ev: Dial9Event, task: u64) -> bool {
    ev is TaskSpawnEvent && ev->TaskSpawnEvent_0.task_id == task
}

/// The event begins a poll of the task.
pub open spec fn is_poll_of(ev: Dial9Event, task: u64) -> bool {
    ev is PollStartEvent && ev->PollStartEvent_0.task_id == task
}

/// After a run, the location of a task is that of its last spawn. Where the
/// run has no spawn of it, it is that of its first poll; where it has neither,
/// the task has none.
pub proof fn law_a_task_has_the_location_of_its_spawn(
    run: Seq<(Dial9Event, Option<CustomEvent>)>,
    task: u64,
)
    ensures
        ({
            let locs = read_all(run).task_spawn_locs;
            &&& forall|k: int|
                0 <= k < run.len() && is_spawn_of((#[trigger] run[k]).0, task) && (forall|o: int|
                    k < o < run.len() ==> !is_spawn_of((#[trigger] run[o]).0, task))
                    ==> locs.contains_key(task) && locs[task]
                    == run[k].0->TaskSpawnEvent_0.spawn_loc@
            &&& forall|k: int|
                0 <= k < run.len() && is_poll_of((#[trigger] run[k]).0, task) && (forall|o: int|
                    0 <= o < k ==> !is_poll_of((#[trigger] run[o]).0, task)) && (forall|o: int|
                    0 <= o < run.len() ==> !is_spawn_of((#[trigger] run[o]).0, task))
                    ==> locs.contains_key(task) && locs[task]
                    == run[k].0->PollStartEvent_0.spawn_loc@
            &&& locs.contains_key(task) ==> exists|k: int|
                0 <= k < run.len() && (is_spawn_of((#[trigger] run[k]).0, task) || is_poll_of(
                    run[k].0,
                    task,
                ))
        }),
    decreases run.len(),
{
    if run.len() > 0 {
        let rest = run.drop_last();
        law_a_task_has_the_location_of_its_spawn(rest, task);
        let n = rest.len() as int;
        let before = read_all(rest).task_spawn_locs;
        let locs = read_all(run).task_spawn_locs;
        assert forall|k: int| 0 <= k < n implies #[trigger] rest[k] == run[k] by {}
        assert forall|k: int|
            0 <= k < run.len() && is_spawn_of((#[trigger] run[k]).0, task) && (forall|o: int|
                k < o < run.len() ==> !is_spawn_of(
                    (#[trigger] run[o]).0,
                    task,
                )) implies locs.contains_key(task) && locs[task]
            == run[k].0->TaskSpawnEvent_0.spawn_loc@ by {
            if k < n {
                assert(!is_spawn_of(run[n].0, task));
                assert(is_spawn_of(rest[k].0, task));
                assert forall|o: int| k < o < n implies !is_spawn_of((#[trigger] rest[o]).0, task) by {
                    assert(!is_spawn_of(run[o].0, task));
                }
            }
        }
        assert forall|k: int|
            0 <= k < run.len() && is_poll_of((#[trigger] run[k]).0, task) && (forall|o: int|
                0 <= o < k ==> !is_poll_of((#[trigger] run[o]).0, task)) && (forall|o: int|
                0 <= o < run.len() ==> !is_spawn_of(
                    (#[trigger] run[o]).0,
                    task,
                )) implies locs.contains_key(task) && locs[task]
            == run[k].0->PollStartEvent_0.spawn_loc@ by {
            assert(!is_spawn_of(run[n].0, task));
            assert forall|o: int| 0 <= o < n implies !is_spawn_of((#[trigger] rest[o]).0, task) by {
                assert(!is_spawn_of(run[o].0, task));
            }
            if k < n {
                assert(is_poll_of(rest[k].0, task));
                assert forall|o: int| 0 <= o < k implies !is_poll_of((#[trigger] rest[o]).0, task) by {
                    assert(!is_poll_of(run[o].0, task));
                }
            } else {
                if before.contains_key(task) {
                    let o = choose|o: int|
                        0 <= o < n && (is_spawn_of((#[trigger] rest[o]).0, task) || is_poll_of(
                            rest[o].0,
                            task,
                        ));
                    assert(!is_poll_of(run[o].0, task));
                }
            }
        }
        if locs.contains_key(task) {
            if before.contains_key(task) {
                let k = choose|k: int|
                    0 <= k < n && (is_spawn_of((#[trigger] rest[k]).0, task) || is_poll_of(
                        rest[k].0,
                        task,
                    ));
                assert(is_spawn_of(run[k].0, task) || is_poll_of(run[k].0, task));
            } else {
                assert(is_spawn_of(run[n].0, task) || is_poll_of(run[n].0, task));
            }
        }
    }
}

/// The event is a sample that names the thread.
pub open spec fn is_naming(ev: Dial9Event, tid: u32) -> bool {
    ev is CpuSampleEvent && ev->CpuSampleEvent_0.tid == tid && ev->CpuSampleEvent_0.thread_name
        is Some
}

/// After a run, a thread has the name that the last sample that names it gives,
/// and none if no sample names it.
pub proof fn law_the_latest_name_of_a_thread_counts(
    run: Seq<(Dial9Event, Option<CustomEvent>)>,
    tid: u32,
)
    ensures
        ({
            let names = read_all(run).thread_names;
            &&& forall|k: int|
                0 <= k < run.len() && is_naming((#[trigger] run[k]).0, tid) && (forall|o: int|
                    k < o < run.len() ==> !is_naming((#[trigger] run[o]).0, tid))
                    ==> names.contains_key(tid) && names[tid]
                    == run[k].0->CpuSampleEvent_0.thread_name->0@
            &&& (forall|k: int| 0 <= k < run.len() ==> !is_naming((#[trigger] run[k]).0, tid))
                ==> !names.contains_key(tid)
        }),
    decreases run.len(),
{
    if run.len() > 0 {
        let rest = run.drop_last();
        law_the_latest_name_of_a_thread_counts(rest, tid);
        let n = rest.len() as int;
        let names = read_all(run).thread_names;
        assert forall|k: int| 0 <= k < n implies #[trigger] rest[k] == run[k] by {}
        assert forall|k: int|
            0 <= k < run.len() && is_naming((#[trigger] run[k]).0, tid) && (forall|o: int|
                k < o < run.len() ==> !is_naming(
                    (#[trigger] run[o]).0,
                    tid,
                )) implies names.contains_key(tid) && names[tid]
            == run[k].0->CpuSampleEvent_0.thread_name->0@ by {
            if k < n {
                assert(!is_naming(run[n].0, tid));
                assert(is_naming(rest[k].0, tid));
                assert forall|o: int| k < o < n implies !is_naming((#[trigger] rest[o]).0, tid) by {
                    assert(!is_naming(run[o].0, tid));
                }
            }
        }
        if forall|k: int| 0 <= k < run.len() ==> !is_naming((#[trigger] run[k]).0, tid) {
            assert(!is_naming(run[n].0, tid));
            assert forall|k: int| 0 <= k < n implies !is_naming((#[trigger] rest[k]).0, tid) by {
                assert(!is_naming(run[k].0, tid));
            }
        }
    }
}

/// After a run, the metadata is that of the last metadata event, and empty if
/// there is none.
pub proof fn law_the_latest_metadata_counts(run: Seq<(Dial9Event, Option<CustomEvent>)>)
    ensures
        ({
            let metadata = read_all(run).segment_metadata;
            &&& forall|k: int|
                0 <= k < run.len() && (#[trigger] run[k]).0 is SegmentMetadataEvent && (forall|
                    o: int,
                |
                    k < o < run.len() ==> !((#[trigger] run[o]).0 is SegmentMetadataEvent))
                    ==> metadata == run[k].0->SegmentMetadataEvent_0.entries@.map_values(
                    |entry: (String, String)| (entry.0@, entry.1@),
                )
            &&& (forall|k: int|
                0 <= k < run.len() ==> !((#[trigger] run[k]).0 is SegmentMetadataEvent))
                ==> metadata.len() == 0
        }),
    decreases run.len(),
{
    if run.len() > 0 {
        let rest = run.drop_last();
        law_the_latest_metadata_counts(rest);
        let n = rest.len() as int;
        let metadata = read_all(run).segment_metadata;
        assert forall|k: int| 0 <= k < n implies #[trigger] rest[k] == run[k] by {}
        assert forall|k: int|
            0 <= k < run.len() && (#[trigger] run[k]).0 is SegmentMetadataEvent && (forall|o: int|
                k < o < run.len() ==> !((
                #[trigger] run[o]).0 is SegmentMetadataEvent)) implies metadata
            == run[k].0->SegmentMetadataEvent_0.entries@.map_values(
            |entry: (String, String)| (entry.0@, entry.1@),
        ) by {
            let entries = run[k].0->SegmentMetadataEvent_0.entries@;
            assert(crate::segment_metadata::entries_view(entries) =~= entries.map_values(
                |entry: (String, String)| (entry.0@, entry.1@),
            ));
            if k < n {
                assert(!(run[n].0 is SegmentMetadataEvent));
                assert(rest[k].0 is SegmentMetadataEvent);
                assert forall|o: int| k < o < n implies !((
                #[trigger] rest[o]).0 is SegmentMetadataEvent) by {
                    assert(!(run[o].0 is SegmentMetadataEvent));
                }
            }
        }
        if forall|k: int|
            0 <= k < run.len() ==> !((#[trigger] run[k]).0 is SegmentMetadataEvent) {
            assert(!(run[n].0 is SegmentMetadataEvent));
            assert forall|k: int| 0 <= k < n implies !((
            #[trigger] rest[k]).0 is SegmentMetadataEvent) by {
                assert(!(run[k].0 is SegmentMetadataEvent));
            }
        }
    }
}

/// The runtime events are the events of the trace, in order, without task
/// spawns, segment metadata and clock anchors; no other kind is left out.
pub proof fn law_runtime_events_leave_out_three_kinds(events: Seq<Dial9Event>)
    ensures
        events.filter(|e: Dial9Event| is_runtime_event(e)) == events.filter(
            |e: Dial9Event|
                !(e is TaskSpawnEvent) && !(e is SegmentMetadataEvent) && !(e is ClockSyncEvent),
        ),
{
    assert((|e: Dial9Event| is_runtime_event(e)) =~= (|e: Dial9Event|
        !(e is TaskSpawnEvent) && !(e is SegmentMetadataEvent) && !(e is ClockSyncEvent)));
}

} // verus!
