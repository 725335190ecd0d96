//! What the owner of a stream, its intake and its watchdog share.

use std::collections::VecDeque;

use vstd::prelude::*;

use crate::arith::{saturate, saturate_count, to_i64};
use crate::chunk_ring::ChunkRing;
use crate::types::{AudioChunk, ChunkView, Event, EventView, SecondaryChunk};

verus! {

/// Recording epoch before the first primary chunk is delivered.
pub const NO_EPOCH: i64 = i64::MIN;

/// Contents of a ring of chunks.
#[verifier::ext_equal]
pub struct RingModel {
    /// Chunks, oldest first.
    pub items: Seq<ChunkView>,
    pub capacity: nat,
    /// Chunks given up so far.
    pub dropped: u64,
}

impl RingModel {
    /// An empty ring.
    pub open spec fn empty(capacity: nat) -> Self {
        RingModel { items: Seq::empty(), capacity, dropped: 0 }
    }

    pub open spec fn full(self) -> bool {
        self.items.len() == self.capacity
    }

    /// With a chunk appended. A full ring gives up its oldest chunk, which the
    /// new one notes.
    pub open spec fn pushed(self, chunk: ChunkView) -> Self {
        if self.full() {
            RingModel {
                items: self.items.skip(1).push(ChunkView { dropped_before: 1, ..chunk }),
                dropped: saturate_count(self.dropped + 1),
                ..self
            }
        } else {
            RingModel { items: self.items.push(ChunkView { dropped_before: 0, ..chunk }), ..self }
        }
    }

    /// With the oldest chunk taken.
    pub open spec fn popped(self) -> Self {
        RingModel { items: self.items.skip(1), ..self }
    }
}

/// Contents of a [`SharedState`].
#[verifier::ext_equal]
pub struct SharedModel {
    /// Counts the openings of the backend.
    pub generation: u64,
    /// When samples last went in.
    pub last_sample_ns: i64,
    /// All threads are to end.
    pub stopping: bool,
    /// The next chunk of each output comes after a recovery.
    pub recovered_pending: bool,
    /// The next chunk of each output comes after an intended interruption.
    pub discontinuity_pending: bool,
    /// Finished chunks are not delivered.
    pub paused: bool,
    /// The source is being switched.
    pub switching: bool,
    /// Noise suppression is wanted.
    pub denoise: bool,
    /// Rate and channel count of the backend.
    pub native: (u32, u16),
    /// Input gain.
    pub gain: u32,
    /// Device time at which the recording clock is zero.
    pub epoch: i64,
    pub events: Seq<EventView>,
    pub chunks: RingModel,
    pub secondary: Option<RingModel>,
    /// An intake has been set up before.
    pub producer_taken: bool,
}

impl SharedModel {
    /// With an event appended.
    pub open spec fn reported(self, ev: EventView) -> Self {
        SharedModel { events: self.events.push(ev), ..self }
    }

    /// The delivery of chunks stops.
    pub open spec fn with_pause(self) -> Self {
        SharedModel { paused: true, ..self }
    }

    /// The delivery of chunks resumes, and the next chunk is marked; without a
    /// pause nothing happens.
    pub open spec fn with_resume(self) -> Self {
        if self.paused {
            SharedModel { paused: false, discontinuity_pending: true, ..self }
        } else {
            self
        }
    }

    /// All threads are to end.
    pub open spec fn with_stop(self) -> Self {
        SharedModel { stopping: true, ..self }
    }

    /// The recording clock starts with the first delivered primary chunk.
    pub open spec fn epoch_applied(self, raw_pts: i64) -> Self {
        if self.epoch == NO_EPOCH {
            SharedModel { epoch: raw_pts, ..self }
        } else {
            self
        }
    }

    /// A device time on the recording clock; zero before the clock has started.
    pub open spec fn on_clock(self, raw_pts: i64) -> i64 {
        if self.epoch == NO_EPOCH {
            0
        } else {
            saturate(raw_pts - self.epoch)
        }
    }

    /// With a primary chunk delivered; giving up a chunk is reported.
    pub open spec fn delivered(self, chunk: ChunkView) -> Self {
        let m = SharedModel { chunks: self.chunks.pushed(chunk), ..self };
        if self.chunks.full() {
            m.reported(EventView::ChunkDropped { count: m.chunks.dropped })
        } else {
            m
        }
    }

    /// With a secondary chunk delivered.
    pub open spec fn secondary_delivered(self, chunk: ChunkView) -> Self {
        SharedModel { secondary: Some(self.secondary->0.pushed(chunk)), ..self }
    }
}

/// What the owner of a stream, its intake and its watchdog share.
#[derive(Debug)]
pub struct SharedState {
    pub raw_generation: u64,
    pub last_sample_ns: i64,
    pub stopping: bool,
    pub recovered_pending: bool,
    pub discontinuity_pending: bool,
    pub paused: bool,
    pub switching: bool,
    pub denoise_enabled: bool,
    pub native_format: (u32, u16),
    pub gain_bits: u32,
    pub recording_epoch_ns: i64,
    pub events: VecDeque<Event>,
    pub chunks: ChunkRing<AudioChunk>,
    pub secondary_chunks: Option<ChunkRing<SecondaryChunk>>,
    pub producer_taken: bool,
}

/// Contents of a primary ring.
pub open spec fn ring_model(r: ChunkRing<AudioChunk>) -> RingModel {
    RingModel {
        items: r.items().map_values(|c: AudioChunk| c@),
        capacity: r.capacity(),
        dropped: r.dropped(),
    }
}

/// Contents of a secondary ring.
pub open spec fn secondary_ring_model(r: ChunkRing<SecondaryChunk>) -> RingModel {
    RingModel {
        items: r.items().map_values(|c: SecondaryChunk| c@),
        capacity: r.capacity(),
        dropped: r.dropped(),
    }
}

impl View for SharedState {
    type V = SharedModel;

    open spec fn view(&self) -> SharedModel {
        SharedModel {
            generation: self.raw_generation,
            last_sample_ns: self.last_sample_ns,
            stopping: self.stopping,
            recovered_pending: self.recovered_pending,
            discontinuity_pending: self.discontinuity_pending,
            paused: self.paused,
            switching: self.switching,
            denoise: self.denoise_enabled,
            native: self.native_format,
            gain: self.gain_bits,
            epoch: self.recording_epoch_ns,
            events: self.events@.map_values(|e: Event| e@),
            chunks: ring_model(self.chunks),
            secondary: match self.secondary_chunks {
                None => None,
                Some(r) => Some(secondary_ring_model(r)),
            },
            producer_taken: self.producer_taken,
        }
    }
}

impl SharedState {
    /// The rings keep to their capacity.
    pub open spec fn wf(&self) -> bool {
        &&& self.chunks.wf()
        &&& self.secondary_chunks matches Some(r) ==> r.wf()
    }

    /// The state of a stream that has not been started, with rings of
    /// `capacity` chunks.
    pub fn new(native_format: (u32, u16), gain_bits: u32, capacity: usize, dual: bool) -> (r: Self)
        requires
            capacity > 0,
        ensures
            r.wf(),
            r@ == (SharedModel {
                generation: 0,
                last_sample_ns: 0,
                stopping: false,
                recovered_pending: false,
                discontinuity_pending: false,
                paused: false,
                switching: false,
                denoise: false,
                native: native_format,
                gain: gain_bits,
                epoch: NO_EPOCH,
                events: Seq::empty(),
                chunks: RingModel::empty(capacity as nat),
                secondary: if dual {
                    Some(RingModel::empty(capacity as nat))
                } else {
                    None
                },
                producer_taken: false,
            }),
    {
        let secondary_chunks = if dual {
            Some(ChunkRing::new(capacity))
        } else {
            None
        };
        let r = SharedState {
            raw_generation: 0,
            last_sample_ns: 0,
            stopping: false,
            recovered_pending: false,
            discontinuity_pending: false,
            paused: false,
            switching: false,
            denoise_enabled: false,
            native_format,
            gain_bits,
            recording_epoch_ns: NO_EPOCH,
            events: VecDeque::new(),
            chunks: ChunkRing::new(capacity),
            secondary_chunks,
            producer_taken: false,
        };
        assert(r@.events =~= Seq::empty());
        assert(r@.chunks.items =~= Seq::empty());
        assert(r@.secondary matches Some(m) ==> m.items =~= Seq::empty());
        r
    }

    /// Appends an event.
    pub fn push_event(&mut self, ev: Event)
        requires
            old(self).wf(),
        ensures
            final(self).wf(),
            final(self)@ == old(self)@.reported(ev@),
    {
        let ghost before = self@;
        self.events.push_back(ev);
        assert(self@.events =~= before.events.push(ev@));
    }

    /// Takes the oldest event, if there is one.
    pub fn pop_event(&mut self) -> (r: Option<Event>)
        requires
            old(self).wf(),
        ensures
            final(self).wf(),
            old(self)@.events.len() == 0 ==> r is None && final(self)@ == old(self)@,
            old(self)@.events.len() > 0 ==> {
                &&& r matches Some(ev)
                &&& ev@ == old(self)@.events[0]
                &&& final(self)@ == (SharedModel {
                    events: old(self)@.events.skip(1),
                    ..old(self)@
                })
            },
    {
        let ghost before = self@;
        let r = self.events.pop_front();
        proof {
            if before.events.len() > 0 {
                assert(self@.events =~= before.events.skip(1));
            } else {
                assert(self@.events =~= before.events);
            }
        }
        r
    }

    /// Delivers a primary chunk.
    pub fn deliver(&mut self, chunk: AudioChunk)
        requires
            old(self).wf(),
        ensures
            final(self).wf(),
            final(self)@ == old(self)@.delivered(chunk@),
    {
        let ghost before = self@;
        let ghost noted = before.chunks.pushed(chunk@);
        let mut chunk = chunk;
        let ghost given = chunk@;
        chunk.dropped_before = if self.chunks.is_full() {
            1
        } else {
            0
        };
        let r = self.chunks.push(chunk);
        assert(self@.chunks.items =~= noted.items);
        if let Some(total) = r {
            self.push_event(Event::ChunkDropped { count: total });
        }
    }

    /// Delivers a secondary chunk.
    pub fn deliver_secondary(&mut self, chunk: SecondaryChunk)
        requires
            old(self).wf(),
            old(self)@.secondary is Some,
        ensures
            final(self).wf(),
            final(self)@ == old(self)@.secondary_delivered(chunk@),
    {
        let ghost before = self@;
        let ghost noted = before.secondary->0.pushed(chunk@);
        let mut chunk = chunk;
        match &mut self.secondary_chunks {
            None => {},
            Some(ring) => {
                chunk.dropped_before = if ring.is_full() {
                    1
                } else {
                    0
                };
                let _ = ring.push(chunk);
            },
        }
        assert(self@.secondary->0.items =~= noted.items);
    }

    /// Takes the oldest primary chunk, if there is one.
    pub fn take_chunk(&mut self) -> (r: Option<AudioChunk>)
        requires
            old(self).wf(),
        ensures
            final(self).wf(),
            old(self)@.chunks.items.len() == 0 ==> r is None && final(self)@ == old(self)@,
            old(self)@.chunks.items.len() > 0 ==> {
                &&& r matches Some(c)
                &&& c@ == old(self)@.chunks.items[0]
                &&& final(self)@ == (SharedModel {
                    chunks: old(self)@.chunks.popped(),
                    ..old(self)@
                })
            },
    {
        let ghost before = self@;
        let r = self.chunks.try_pop();
        proof {
            if before.chunks.items.len() > 0 {
                assert(self@.chunks.items =~= before.chunks.popped().items);
            } else {
                assert(self@.chunks.items =~= before.chunks.items);
            }
        }
        r
    }

    /// Takes the oldest secondary chunk, if there is one.
    pub fn take_secondary(&mut self) -> (r: Option<SecondaryChunk>)
        requires
            old(self).wf(),
        ensures
            final(self).wf(),
            !(old(self)@.secondary matches Some(m) && m.items.len() > 0) ==> r is None
                && final(self)@ == old(self)@,
            (old(self)@.secondary matches Some(m) && m.items.len() > 0) ==> {
                &&& r matches Some(c)
                &&& c@ == old(self)@.secondary->0.items[0]
                &&& final(self)@ == (SharedModel {
                    secondary: Some(old(self)@.secondary->0.popped()),
                    ..old(self)@
                })
            },
    {
        let ghost before = self@;
        let r = match &mut self.secondary_chunks {
            None => None,
            Some(ring) => ring.try_pop(),
        };
        proof {
            if let Some(m) = before.secondary {
                if m.items.len() > 0 {
                    assert(self@.secondary->0.items =~= m.popped().items);
                } else {
                    assert(self@.secondary->0.items =~= m.items);
                }
            }
        }
        r
    }

    /// Whether all threads are to end.
    pub fn is_stopping(&self) -> (r: bool)
        ensures
            r == self@.stopping,
    {
        self.stopping
    }

    /// Whether noise suppression is wanted.
    pub fn denoise_enabled(&self) -> (r: bool)
        ensures
            r == self@.denoise,
    {
        self.denoise_enabled
    }
}

/// Puts a device time on the recording clock. The first time given becomes the
/// zero of the clock, which later ones are counted from.
pub fn apply_epoch(shared: &mut SharedState, raw_pts: i64) -> (r: i64)
    requires
        old(shared).wf(),
    ensures
        final(shared).wf(),
        final(shared)@ == old(shared)@.epoch_applied(raw_pts),
        r == old(shared)@.on_clock(raw_pts),
{
    let time: i64 = recording_time(shared, raw_pts);
    if shared.recording_epoch_ns == NO_EPOCH {
        shared.recording_epoch_ns = raw_pts;
    }
    time
}

/// Reads a device time off the recording clock without starting it.
pub fn recording_time(shared: &SharedState, raw_pts: i64) -> (r: i64)
    ensures
        r == shared@.on_clock(raw_pts),
{
    let epoch: i64 = shared.recording_epoch_ns;
    if epoch == NO_EPOCH {
        0
    } else {
        to_i64(raw_pts as i128 - epoch as i128)
    }
}

/// Pausing once more changes nothing, so one resume undoes any number of
/// pauses.
pub proof fn law_pauses_do_not_nest(m: SharedModel)
    ensures
        m.with_pause().with_pause() == m.with_pause(),
        m.with_pause().with_pause().with_resume() == m.with_pause().with_resume(),
        !m.with_pause().with_resume().paused,
        m.with_resume().with_resume() == m.with_resume(),
{
}

/// A ring never holds more than its capacity, and every chunk that went in is
/// either in it, has been taken or has been counted as given up.
pub proof fn law_ring_accounts_for_chunks(m: RingModel, chunk: ChunkView)
    requires
        0 < m.capacity,
        m.items.len() <= m.capacity,
    ensures
        m.pushed(chunk).items.len() <= m.capacity,
        m.pushed(chunk).capacity == m.capacity,
        m.dropped < u64::MAX ==> m.pushed(chunk).items.len() + m.pushed(chunk).dropped
            == m.items.len() + m.dropped + 1,
        m.items.len() > 0 ==> m.popped().items.len() + m.popped().dropped == m.items.len()
            + m.dropped - 1,
{
}

/// A full ring gives up the oldest chunk: what stays are the newest ones, in
/// their order, with the new one at the end.
pub proof fn law_ring_keeps_newest(m: RingModel, chunk: ChunkView)
    requires
        0 < m.capacity,
        m.items.len() <= m.capacity,
    ensures
        m.pushed(chunk).items.last().data == chunk.data,
        m.pushed(chunk).items.last().seq == chunk.seq,
        m.pushed(chunk).items.drop_last() == (if m.full() {
            m.items.skip(1)
        } else {
            m.items
        }),
        m.pushed(chunk).items.last().dropped_before > 0 <==> m.full(),
{
    assert(m.items.skip(1).push(ChunkView { dropped_before: 1, ..chunk }).drop_last()
        =~= m.items.skip(1));
    assert(m.items.push(ChunkView { dropped_before: 0, ..chunk }).drop_last() =~= m.items);
}

} // verus!
