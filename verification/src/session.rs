//! Link sessions over the shared segment.
//!
//! Two session flavours drive the protocol. The exclusive session claims
//! a segment outright and fails on a conflict. The resilient session
//! never fails: it tracks a four-state lifecycle, periodically retries
//! opening, watches a live occupant's tick, and opportunistically claims
//! a segment whose occupant released it or appears stalled.
//!
//! Mapping the OS object and the ordered segment reads and writes are the
//! embedding program's side of the bargain: it hands the freshly read
//! segment contents in as plain values and performs the [`Step`] a call
//! hands back (reopen, re-read, or flush the local copy).

use crate::layout::LinkedMem;
use crate::layout::Position;
use vstd::prelude::*;

verus! {

/// Why the platform adapter could not provide a mapped segment.
#[derive(Clone, Copy, Debug, PartialEq, Eq, Structural)]
pub enum MapError {
    /// The shared-memory object does not exist.
    NotFound,
    /// The object exists but access was denied.
    Permission,
    /// The object was opened but could not be mapped.
    MapFailed,
}

/// Why a resilient session is closed.
#[derive(Clone, Copy, Debug, PartialEq, Eq, Structural)]
pub enum CloseReason {
    /// The last attempt to open the segment failed.
    Unavailable(MapError),
    /// The session was deactivated on purpose.
    ManuallyClosed,
}

/// Why an exclusive open failed.
#[derive(Debug)]
pub enum OpenError {
    /// No segment could be opened or mapped.
    SegmentUnavailable(MapError),
    /// The segment is already owned; the occupant's decoded name and
    /// description are attached for diagnostics.
    Conflict { name: String, description: String },
}

/// What a resilient session reports about itself.
#[derive(Debug)]
pub enum Status {
    /// Not attached; carries the stored reason.
    Closed(CloseReason),
    /// Another process owns the segment; its decoded name and
    /// description, re-read live, are attached.
    InUse { name: String, description: String },
    /// The session owns the segment and is writing.
    Active,
}

/// A resilient session's attachment state.
#[derive(Clone, Copy, Debug, PartialEq, Eq, Structural)]
pub enum Inner {
    /// Not attached, with the stored reason.
    Closed(CloseReason),
    /// Attached, but another process owns the segment; holds the
    /// occupant's tick as last observed.
    InUse(u32),
    /// Attached and owning the segment.
    Active,
}

/// Outside work a session call hands back to the embedding program.
#[derive(Clone, Copy, Debug, PartialEq, Eq, Structural)]
pub enum Step {
    /// Nothing to do this frame.
    Idle,
    /// Attempt to open and map the segment, then report back through
    /// `resolve_open`.
    Reopen,
    /// Re-read the segment, then report back through `resolve_sample`.
    Sample,
    /// Write the session's local copy into the segment.
    Flush,
}

/// What an open attempt's outcome makes of a resilient session: a failure
/// closes it, an owned segment puts it in `InUse` watching the occupant's
/// tick, an unowned one makes it `Active`.
pub open spec fn open_decision(r: Result<LinkedMem, MapError>) -> Inner {
    match r {
        Result::Err(e) => Inner::Closed(CloseReason::Unavailable(e)),
        Result::Ok(m) => if m.ui_version != 0 {
            Inner::InUse(m.ui_tick)
        } else {
            Inner::Active
        },
    }
}

/// What a re-read of an occupied segment decides: promotion to `Active`
/// when the occupant released it or its tick stalled across the sampling
/// window, otherwise `InUse` with the freshly observed tick.
pub open spec fn sample_decision(last_tick: u32, version: u32, tick: u32) -> Inner {
    if version == 0 || tick == last_tick {
        Inner::Active
    } else {
        Inner::InUse(tick)
    }
}

/// Length of the sampling window in frames: every `SAMPLING_WINDOW`-th
/// tick the resilient session reevaluates its attachment. The window also
/// bounds the occupant-liveness heuristic: an occupant whose tick does
/// not move across one window is treated as gone, so a legitimately slow
/// but alive occupant can be claimed by mistake. That false positive
/// risks only transient write contention, never corruption, since stale
/// fields self-correct on the next frame.
pub const SAMPLING_WINDOW: u32 = 100;

/// A frame whose tick is a multiple of the sampling window length asks
/// for reattachment work.
pub open spec fn sampling_due(tick: u32) -> bool {
    tick % SAMPLING_WINDOW == 0
}

/// The flush owed once a frame's state is settled: only an `Active`
/// session writes.
pub open spec fn flush_step(inner: Inner) -> Step {
    if inner is Active {
        Step::Flush
    } else {
        Step::Idle
    }
}

/// The work owed right after advancing to `tick`: on a sampling frame,
/// whatever the state calls for; otherwise just the flush decision.
pub open spec fn update_step(inner: Inner, tick: u32) -> Step {
    if sampling_due(tick) {
        match inner {
            Inner::Closed(_) => Step::Reopen,
            Inner::InUse(_) => Step::Sample,
            Inner::Active => Step::Flush,
        }
    } else {
        flush_step(inner)
    }
}

/// An exclusive link session. It owns its segment outright: constructing
/// one against an already-owned segment fails with a conflict, and every
/// frame is flushed unconditionally.
pub struct MumbleLink {
    /// The process-local copy of the shared struct.
    pub local: LinkedMem,
}

impl MumbleLink {
    /// An exclusive open refuses a segment whose version tag is set.
    pub open spec fn exclusive_conflict(m: LinkedMem) -> bool {
        m.ui_version != 0
    }

    /// Decide an exclusive open from the open attempt's outcome. A map
    /// failure is passed through; a segment with a nonzero version tag is
    /// a conflict, reporting the occupant's decoded name and description;
    /// an unowned segment yields a session with a fresh local copy.
    pub fn new(name: &str, description: &str, segment: Result<LinkedMem, MapError>) -> (r: Result<
        MumbleLink,
        OpenError,
    >)
        ensures
            segment matches Err(e) ==> r == Result::<MumbleLink, OpenError>::Err(
                OpenError::SegmentUnavailable(e),
            ),
            segment matches Ok(m) ==> Self::exclusive_conflict(m) ==> (r matches Err(oe)
                && oe matches OpenError::Conflict { name: n, description: d } && n@
                == crate::wide::decode_utf16(crate::wide::zero_prefix(m.name@)) && d@
                == crate::wide::decode_utf16(crate::wide::zero_prefix(m.description@))),
            segment matches Ok(m) ==> !Self::exclusive_conflict(m) ==> (r matches Ok(link)
                && link.local.is_fresh_local(name@, description@)),
    {
        match segment {
            Err(e) => Err(OpenError::SegmentUnavailable(e)),
            Ok(m) => {
                if m.ui_version != 0 {
                    Err(
                        OpenError::Conflict {
                            name: crate::wide::read(m.name.as_slice()),
                            description: crate::wide::read(m.description.as_slice()),
                        },
                    )
                } else {
                    Ok(MumbleLink { local: LinkedMem::new(name, description) })
                }
            },
        }
    }

    /// Store the context, truncating to the buffer width; no flush.
    pub fn set_context(&mut self, context: &[u8])
        requires
            old(self).local.wf(),
        ensures
            final(self).local.wf(),
            LinkedMem::context_set(final(self).local, old(self).local, context@),
    {
        self.local.set_context(context);
    }

    /// Encode the identity, truncating to the buffer width; no flush.
    pub fn set_identity(&mut self, identity: &str)
        requires
            old(self).local.wf(),
        ensures
            final(self).local.wf(),
            LinkedMem::identity_set(final(self).local, old(self).local, identity@),
    {
        self.local.set_identity(identity);
    }

    /// Advance one frame: bump the wrapping tick and store the poses. The
    /// exclusive session always owns its segment, so the caller flushes
    /// the local copy after every call.
    pub fn update(&mut self, avatar: Position, camera: Position)
        requires
            old(self).local.wf(),
        ensures
            final(self).local.wf(),
            LinkedMem::frame_advanced(final(self).local, old(self).local, avatar, camera),
            old(self).local.ui_tick == u32::MAX ==> final(self).local.ui_tick == 0,
    {
        self.local.update(avatar, camera);
    }
}

/// A resilient link session. Constructing one always succeeds; it retries
/// attachment on a schedule and claims the segment only once it appears
/// free or abandoned.
pub struct SharedLink {
    /// The process-local copy of the shared struct.
    pub local: LinkedMem,
    /// The attachment state.
    pub inner: Inner,
}

impl SharedLink {
    pub open spec fn wf(self) -> bool {
        self.local.wf()
    }

    /// Open a resilient session from the open attempt's outcome. Failure
    /// is stored, not surfaced: the session starts closed and will retry.
    pub fn new(name: &str, description: &str, segment: Result<LinkedMem, MapError>) -> (s:
        SharedLink)
        ensures
            s.wf(),
            s.local.is_fresh_local(name@, description@),
            s.inner == open_decision(segment),
    {
        let inner = match segment {
            Err(e) => Inner::Closed(CloseReason::Unavailable(e)),
            Ok(m) => {
                if m.ui_version != 0 {
                    Inner::InUse(m.ui_tick)
                } else {
                    Inner::Active
                }
            },
        };
        SharedLink { local: LinkedMem::new(name, description), inner }
    }

    /// Store the context, truncating to the buffer width; no flush.
    pub fn set_context(&mut self, context: &[u8])
        requires
            old(self).wf(),
        ensures
            final(self).wf(),
            LinkedMem::context_set(final(self).local, old(self).local, context@),
            final(self).inner == old(self).inner,
    {
        self.local.set_context(context);
    }

    /// Encode the identity, truncating to the buffer width; no flush.
    pub fn set_identity(&mut self, identity: &str)
        requires
            old(self).wf(),
        ensures
            final(self).wf(),
            LinkedMem::identity_set(final(self).local, old(self).local, identity@),
            final(self).inner == old(self).inner,
    {
        self.local.set_identity(identity);
    }

    /// Advance one frame and say what outside work is owed: on every
    /// `SAMPLING_WINDOW`-th tick a closed session asks to reopen and a
    /// watching one asks for a fresh read; an active session asks for a
    /// flush.
    pub fn update(&mut self, avatar: Position, camera: Position) -> (step: Step)
        requires
            old(self).wf(),
        ensures
            final(self).wf(),
            LinkedMem::frame_advanced(final(self).local, old(self).local, avatar, camera),
            old(self).local.ui_tick == u32::MAX ==> final(self).local.ui_tick == 0,
            final(self).inner == old(self).inner,
            step == update_step(old(self).inner, final(self).local.ui_tick),
    {
        self.local.update(avatar, camera);
        if self.local.ui_tick % SAMPLING_WINDOW == 0 {
            match self.inner {
                Inner::Closed(_) => Step::Reopen,
                Inner::InUse(_) => Step::Sample,
                Inner::Active => Step::Flush,
            }
        } else {
            match self.inner {
                Inner::Active => Step::Flush,
                _ => Step::Idle,
            }
        }
    }

    /// Feed back the outcome of the reopen that a `Reopen` step asked
    /// for, and learn whether to flush this frame.
    pub fn resolve_open(&mut self, segment: Result<LinkedMem, MapError>) -> (step: Step)
        requires
            old(self).wf(),
            old(self).inner matches Inner::Closed(_),
        ensures
            final(self).wf(),
            final(self).local == old(self).local,
            final(self).inner == open_decision(segment),
            step == flush_step(final(self).inner),
    {
        self.inner = match segment {
            Err(e) => Inner::Closed(CloseReason::Unavailable(e)),
            Ok(m) => {
                if m.ui_version != 0 {
                    Inner::InUse(m.ui_tick)
                } else {
                    Inner::Active
                }
            },
        };
        match self.inner {
            Inner::Active => Step::Flush,
            _ => Step::Idle,
        }
    }

    /// Feed back the fresh segment contents that a `Sample` step asked
    /// for: the session promotes itself if the occupant released the
    /// segment or its tick stalled, and learns whether to flush.
    pub fn resolve_sample(&mut self, observed: &LinkedMem) -> (step: Step)
        requires
            old(self).wf(),
            old(self).inner matches Inner::InUse(_),
        ensures
            final(self).wf(),
            final(self).local == old(self).local,
            old(self).inner matches Inner::InUse(last) ==> final(self).inner == sample_decision(
                last,
                observed.ui_version,
                observed.ui_tick,
            ),
            step == flush_step(final(self).inner),
    {
        let last = match self.inner {
            Inner::InUse(t) => t,
            _ => 0,
        };
        self.inner = if observed.ui_version == 0 || observed.ui_tick == last {
            Inner::Active
        } else {
            Inner::InUse(observed.ui_tick)
        };
        match self.inner {
            Inner::Active => Step::Flush,
            _ => Step::Idle,
        }
    }

    /// Report the session's status. While another process owns the
    /// segment the caller passes the freshly read contents, whose name
    /// and description are decoded for display.
    pub fn status(&self, observed: Option<&LinkedMem>) -> (st: Status)
        requires
            self.inner matches Inner::InUse(_) ==> observed is Some,
        ensures
            self.inner matches Inner::Closed(r) ==> st == Status::Closed(r),
            self.inner is Active ==> st == Status::Active,
            self.inner matches Inner::InUse(_) ==> (observed matches Some(m) && st matches
                Status::InUse { name: n, description: d } && n@ == crate::wide::decode_utf16(
                crate::wide::zero_prefix(m.name@),
            ) && d@ == crate::wide::decode_utf16(crate::wide::zero_prefix(m.description@))),
    {
        match self.inner {
            Inner::Closed(r) => Status::Closed(r),
            Inner::Active => Status::Active,
            Inner::InUse(_) => {
                match observed {
                    Some(m) => Status::InUse {
                        name: crate::wide::read(m.name.as_slice()),
                        description: crate::wide::read(m.description.as_slice()),
                    },
                    None => {
                        proof {
                            assert(false);
                        }
                        vstd::pervasive::unreached()
                    },
                }
            },
        }
    }

    /// Close the session on purpose. The caller zeroes the whole segment
    /// first when the session was active, so a waiting competitor can
    /// claim it immediately. Idempotent on non-active states.
    pub fn deactivate(&mut self) -> (zero_segment: bool)
        ensures
            final(self).inner == Inner::Closed(CloseReason::ManuallyClosed),
            final(self).local == old(self).local,
            zero_segment == (old(self).inner is Active),
    {
        let was_active = match self.inner {
            Inner::Active => true,
            _ => false,
        };
        self.inner = Inner::Closed(CloseReason::ManuallyClosed);
        was_active
    }
}

/// The tick `k` frames after `t`, each frame stepping the wrapping
/// counter once.
pub open spec fn ticks_after(t: u32, k: nat) -> u32
    decreases k,
{
    if k == 0 {
        t
    } else {
        LinkedMem::next_tick(ticks_after(t, (k - 1) as nat))
    }
}

proof fn lemma_ticks_after_no_wrap(t: u32, k: nat)
    requires
        t + k <= u32::MAX,
    ensures
        ticks_after(t, k) == t + k,
    decreases k,
{
    if k == 0 {
    } else {
        lemma_ticks_after_no_wrap(t, (k - 1) as nat);
    }
}

/// Law: within any window of `SAMPLING_WINDOW` consecutive frames a
/// sampling frame occurs, so reattachment work is never postponed for
/// more than one window.
pub proof fn lemma_sampling_within_window(t: u32)
    ensures
        exists|k: nat| 1 <= k <= SAMPLING_WINDOW && sampling_due(#[trigger] ticks_after(t, k)),
{
    let w: int = SAMPLING_WINDOW as int;
    let r = t % SAMPLING_WINDOW;
    let k = (SAMPLING_WINDOW - r) as nat;
    if t + k <= u32::MAX {
        lemma_ticks_after_no_wrap(t, k);
        assert(ticks_after(t, k) == t + k);
        let ti: int = t as int;
        assert((ti + (w - ti % w)) % w == 0) by (nonlinear_arith)
            requires
                0 < w,
        ;
        assert(sampling_due(ticks_after(t, k)));
        assert(1 <= k <= SAMPLING_WINDOW);
    } else {
        let j = (u32::MAX - t + 1) as nat;
        lemma_ticks_after_no_wrap(t, (j - 1) as nat);
        assert(ticks_after(t, (j - 1) as nat) == u32::MAX);
        assert(ticks_after(t, j) == LinkedMem::next_tick(u32::MAX));
        assert(ticks_after(t, j) == 0);
        assert(sampling_due(ticks_after(t, j)));
        assert(1 <= j <= SAMPLING_WINDOW);
    }
}

/// Law: a closed session recovers within one sampling window. From any
/// tick, some frame among the next hundred asks to reopen, and once a
/// segment is available and unowned that reopen makes the session
/// `Active` and flushing.
pub proof fn lemma_closed_recovery_within_window(e: MapError, m: LinkedMem, t: u32)
    requires
        m.ui_version == 0,
    ensures
        exists|k: nat|
            1 <= k <= SAMPLING_WINDOW && update_step(
                Inner::Closed(CloseReason::Unavailable(e)),
                #[trigger] ticks_after(t, k),
            ) == Step::Reopen,
        open_decision(Result::Ok(m)) == Inner::Active,
        flush_step(open_decision(Result::Ok(m))) == Step::Flush,
{
    lemma_sampling_within_window(t);
    let k = choose|k: nat|
        1 <= k <= SAMPLING_WINDOW && sampling_due(#[trigger] ticks_after(t, k));
    assert(update_step(Inner::Closed(CloseReason::Unavailable(e)), ticks_after(t, k))
        == Step::Reopen);
}

/// Law: a session whose open attempt failed is `Closed` holding that
/// error; on a sampling frame it asks to reopen, and once a segment is
/// available and unowned the reopen makes it `Active` and flushing.
pub proof fn lemma_closed_recovers(e: MapError, m: LinkedMem, tick: u32)
    requires
        m.ui_version == 0,
        sampling_due(tick),
    ensures
        open_decision(Result::Err(e)) == Inner::Closed(CloseReason::Unavailable(e)),
        update_step(open_decision(Result::Err(e)), tick) == Step::Reopen,
        open_decision(Result::Ok(m)) == Inner::Active,
        flush_step(open_decision(Result::Ok(m))) == Step::Flush,
{
}

/// Law: an occupant whose tick did not change across one sampling window
/// is treated as gone: the sample promotes the session to `Active` and
/// the frame ends in a flush. The same holds when the occupant released
/// the segment by zeroing its version tag.
pub proof fn lemma_stalled_occupant_promoted(last: u32, m: LinkedMem, tick: u32)
    requires
        m.ui_version == 0 || m.ui_tick == last,
        sampling_due(tick),
    ensures
        update_step(Inner::InUse(last), tick) == Step::Sample,
        sample_decision(last, m.ui_version, m.ui_tick) == Inner::Active,
        flush_step(sample_decision(last, m.ui_version, m.ui_tick)) == Step::Flush,
{
}

/// Law: a fully released (zeroed) segment admits a subsequent exclusive
/// open without conflict.
pub proof fn lemma_release_admits_exclusive(m: LinkedMem)
    requires
        m.is_zeroed(),
    ensures
        !MumbleLink::exclusive_conflict(m),
        open_decision(Result::Ok(m)) == Inner::Active,
{
}

/// Law: the conflict an exclusive open reports carries exactly the name
/// and description the occupant encoded, whenever they fit their buffers
/// and hold no NUL character.
pub proof fn lemma_conflict_reports_occupant(name: Seq<char>, description: Seq<char>)
    requires
        crate::wide::utf16_of(name).len() < crate::layout::NAME_UNITS,
        crate::wide::utf16_of(description).len() < crate::layout::DESCRIPTION_UNITS,
        forall|i: int| 0 <= i < name.len() ==> name[i] != '\u{0}',
        forall|i: int| 0 <= i < description.len() ==> description[i] != '\u{0}',
    ensures
        crate::wide::decode_utf16(
            crate::wide::zero_prefix(
                crate::wide::encoded_buffer(name, crate::layout::NAME_UNITS as int),
            ),
        ) == name,
        crate::wide::decode_utf16(
            crate::wide::zero_prefix(
                crate::wide::encoded_buffer(description, crate::layout::DESCRIPTION_UNITS as int),
            ),
        ) == description,
{
    crate::wide::lemma_encoded_buffer_read_back(name, crate::layout::NAME_UNITS as int);
    crate::wide::lemma_encoded_buffer_read_back(
        description,
        crate::layout::DESCRIPTION_UNITS as int,
    );
}

} // verus!
