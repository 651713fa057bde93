//! Compact binary event recording and decoding.
//!
//! [`RecorderSink`] implements [`TraceSink`] and encodes events into a
//! `Vec<u8>` as fixed-size little-endian records: a one-byte tag followed by
//! the event's fields. `Option<u64>` is a presence byte plus the value;
//! `Option<bool>` is one three-valued byte (0 unknown, 1 false, 2 true);
//! phases and confidence grades are one byte each. Rich events (layer
//! changes, damage rectangles) store only the frame index and a count.
//!
//! [`decode`] reads records back as a stateless cursor that yields one
//! [`RecordedEvent`] per complete record and stops on truncation or on an
//! unknown tag. The whole format is pinned by the `enc_*` spec functions and
//! the [`dec_event`] spec parser, and [`lemma_encode_decode_round_trip`]
//! proves that decoding an encoded record yields the record back.

use vstd::prelude::*;

use crate::output::OutputId;
use crate::time::HostTime;
use crate::timing::TimingConfidence;
use crate::trace::{
    DamageRect, FramePlanEvent, FrameSummary, FrameTickEvent, LayerChange, PhaseBeginEvent,
    PhaseEndEvent, PhaseKind, PresentFeedbackEvent, SubmitEvent, TraceSink,
};

verus! {

/// Record tag for [`FrameTickEvent`].
pub const TAG_FRAME_TICK: u8 = 1;

/// Record tag for [`FramePlanEvent`].
pub const TAG_FRAME_PLAN: u8 = 2;

/// Record tag for [`PhaseBeginEvent`].
pub const TAG_PHASE_BEGIN: u8 = 3;

/// Record tag for [`PhaseEndEvent`].
pub const TAG_PHASE_END: u8 = 4;

/// Record tag for [`SubmitEvent`].
pub const TAG_SUBMIT: u8 = 5;

/// Record tag for [`PresentFeedbackEvent`].
pub const TAG_PRESENT_FEEDBACK: u8 = 6;

/// Record tag for [`FrameSummary`].
pub const TAG_FRAME_SUMMARY: u8 = 7;

/// Record tag for a layer-changes count.
pub const TAG_LAYER_CHANGES_COUNT: u8 = 8;

/// Record tag for a damage-rects count.
pub const TAG_DAMAGE_RECTS_COUNT: u8 = 9;

// ---------------------------------------------------------------------------
// Encoding, as sequences of bytes
// ---------------------------------------------------------------------------

/// Encoding of an optional 64-bit value: a presence byte, then the value
/// (zero when absent).
pub open spec fn enc_opt_u64(v: Option<u64>) -> Seq<u8> {
    match v {
        Some(x) => seq![1u8] + vstd::bytes::spec_u64_to_le_bytes(x),
        None => seq![0u8] + vstd::bytes::spec_u64_to_le_bytes(0),
    }
}

/// Encoding of an optional host time, identical to [`enc_opt_u64`] on the
/// raw tick value.
pub open spec fn enc_opt_time(v: Option<HostTime>) -> Seq<u8> {
    match v {
        Some(t) => enc_opt_u64(Some(t.0)),
        None => enc_opt_u64(None),
    }
}

/// Encoding of an optional boolean: 0 unknown, 1 false, 2 true.
pub open spec fn enc_opt_bool(v: Option<bool>) -> Seq<u8> {
    match v {
        Some(true) => seq![2u8],
        Some(false) => seq![1u8],
        None => seq![0u8],
    }
}

/// Encoding of a timing confidence grade as one byte.
pub open spec fn enc_confidence(c: TimingConfidence) -> Seq<u8> {
    match c {
        TimingConfidence::Predictive => seq![0u8],
        TimingConfidence::Estimated => seq![1u8],
        TimingConfidence::PacingOnly => seq![2u8],
    }
}

/// Encoding of a phase kind as one byte.
pub open spec fn enc_phase(p: PhaseKind) -> Seq<u8> {
    match p {
        PhaseKind::Plan => seq![0u8],
        PhaseKind::Evaluate => seq![1u8],
        PhaseKind::Render => seq![2u8],
        PhaseKind::Submit => seq![3u8],
    }
}

/// Encoding of a [`FrameTickEvent`] record, tag included.
pub open spec fn enc_frame_tick(e: FrameTickEvent) -> Seq<u8> {
    seq![TAG_FRAME_TICK] + (vstd::bytes::spec_u64_to_le_bytes(e.frame_index)
        + (vstd::bytes::spec_u32_to_le_bytes(e.output.0)
        + (vstd::bytes::spec_u64_to_le_bytes(e.now.0) + (enc_opt_time(e.predicted_present)
        + (enc_opt_u64(e.refresh_interval) + enc_confidence(e.confidence))))))
}

/// Encoding of a [`FramePlanEvent`] record, tag included.
pub open spec fn enc_frame_plan(e: FramePlanEvent) -> Seq<u8> {
    seq![TAG_FRAME_PLAN] + (vstd::bytes::spec_u64_to_le_bytes(e.frame_index)
        + (vstd::bytes::spec_u32_to_le_bytes(e.output.0)
        + (vstd::bytes::spec_u64_to_le_bytes(e.semantic_time.0) + (enc_opt_time(e.present_time)
        + (vstd::bytes::spec_u64_to_le_bytes(e.commit_deadline.0) + (seq![e.pipeline_depth]
        + vstd::bytes::spec_u64_to_le_bytes(e.safety_margin_ticks)))))))
}

/// Encoding of a [`PhaseBeginEvent`] record, tag included.
pub open spec fn enc_phase_begin(e: PhaseBeginEvent) -> Seq<u8> {
    seq![TAG_PHASE_BEGIN] + vstd::bytes::spec_u64_to_le_bytes(e.frame_index) + enc_phase(e.phase)
        + vstd::bytes::spec_u64_to_le_bytes(e.timestamp.0)
}

/// Encoding of a [`PhaseEndEvent`] record, tag included.
pub open spec fn enc_phase_end(e: PhaseEndEvent) -> Seq<u8> {
    seq![TAG_PHASE_END] + vstd::bytes::spec_u64_to_le_bytes(e.frame_index) + enc_phase(e.phase)
        + vstd::bytes::spec_u64_to_le_bytes(e.timestamp.0)
}

/// Encoding of a [`SubmitEvent`] record, tag included.
pub open spec fn enc_submit(e: SubmitEvent) -> Seq<u8> {
    seq![TAG_SUBMIT] + vstd::bytes::spec_u64_to_le_bytes(e.frame_index)
        + vstd::bytes::spec_u64_to_le_bytes(e.submitted_at.0) + enc_opt_time(e.expected_present)
}

/// Encoding of a [`PresentFeedbackEvent`] record, tag included.
pub open spec fn enc_present_feedback(e: PresentFeedbackEvent) -> Seq<u8> {
    seq![TAG_PRESENT_FEEDBACK] + vstd::bytes::spec_u64_to_le_bytes(e.frame_index)
        + enc_opt_time(e.actual_present) + enc_opt_bool(e.missed_deadline)
}

/// Encoding of a [`FrameSummary`] record, tag included.
pub open spec fn enc_frame_summary(s: FrameSummary) -> Seq<u8> {
    seq![TAG_FRAME_SUMMARY] + (vstd::bytes::spec_u64_to_le_bytes(s.frame_index)
        + (vstd::bytes::spec_u32_to_le_bytes(s.output.0) + (enc_confidence(s.confidence)
        + (vstd::bytes::spec_u64_to_le_bytes(s.now.0) + (enc_opt_time(s.present_time)
        + (vstd::bytes::spec_u64_to_le_bytes(s.semantic_time.0)
        + (vstd::bytes::spec_u64_to_le_bytes(s.deadline.0) + (seq![s.pipeline_depth]
        + (vstd::bytes::spec_u64_to_le_bytes(s.plan_ticks)
        + (vstd::bytes::spec_u64_to_le_bytes(s.eval_ticks)
        + (vstd::bytes::spec_u64_to_le_bytes(s.render_ticks)
        + (vstd::bytes::spec_u64_to_le_bytes(s.submit_ticks) + seq![
        if s.missed_deadline {
            1u8
        } else {
            0u8
        },
    ]))))))))))))
}

/// Encoding of a count-only record (layer changes or damage rects).
pub open spec fn enc_count_record(tag: u8, frame_index: u64, count: u32) -> Seq<u8> {
    seq![tag] + vstd::bytes::spec_u64_to_le_bytes(frame_index)
        + vstd::bytes::spec_u32_to_le_bytes(count)
}

/// Encoding of any decoded event, as [`RecorderSink`] would have written it.
pub open spec fn enc_event(ev: RecordedEvent) -> Seq<u8> {
    match ev {
        RecordedEvent::FrameTick(e) => enc_frame_tick(e),
        RecordedEvent::FramePlan(e) => enc_frame_plan(e),
        RecordedEvent::PhaseBegin(e) => enc_phase_begin(e),
        RecordedEvent::PhaseEnd(e) => enc_phase_end(e),
        RecordedEvent::Submit(e) => enc_submit(e),
        RecordedEvent::PresentFeedback(e) => enc_present_feedback(e),
        RecordedEvent::FrameSummary(s) => enc_frame_summary(s),
        RecordedEvent::LayerChangesCount { frame_index, count } => enc_count_record(
            TAG_LAYER_CHANGES_COUNT,
            frame_index,
            count,
        ),
        RecordedEvent::DamageRectsCount { frame_index, count } => enc_count_record(
            TAG_DAMAGE_RECTS_COUNT,
            frame_index,
            count,
        ),
    }
}

// ---------------------------------------------------------------------------
// RecorderSink
// ---------------------------------------------------------------------------

/// A [`TraceSink`] that encodes events into a compact binary buffer.
#[derive(Default, Debug)]
pub struct RecorderSink {
    /// The recorded bytes.
    buf: Vec<u8>,
}

impl RecorderSink {
    /// The bytes recorded so far.
    pub closed spec fn bytes(self) -> Seq<u8> {
        self.buf@
    }

    /// Creates an empty recorder.
    pub fn new() -> (r: Self)
        ensures
            r.bytes() == Seq::<u8>::empty(),
    {
        RecorderSink { buf: Vec::new() }
    }

    /// Returns a view of the recorded bytes.
    pub fn as_bytes(&self) -> (r: &[u8])
        ensures
            r@ == self.bytes(),
    {
        self.buf.as_slice()
    }

    /// Consumes the recorder and returns the recorded bytes.
    pub fn into_bytes(self) -> (r: Vec<u8>)
        ensures
            r@ == self.bytes(),
    {
        self.buf
    }

    // -- encoding helpers ---------------------------------------------------

    /// Appends one byte.
    fn write_u8(&mut self, v: u8)
        ensures
            final(self).buf@ == old(self).buf@ + seq![v],
    {
        self.buf.push(v);
    }

    /// Appends a 32-bit value in little-endian order.
    fn write_u32(&mut self, v: u32)
        ensures
            final(self).buf@ == old(self).buf@ + vstd::bytes::spec_u32_to_le_bytes(v),
    {
        let mut bytes = vstd::bytes::u32_to_le_bytes(v);
        self.buf.append(&mut bytes);
    }

    /// Appends a 64-bit value in little-endian order.
    fn write_u64(&mut self, v: u64)
        ensures
            final(self).buf@ == old(self).buf@ + vstd::bytes::spec_u64_to_le_bytes(v),
    {
        let mut bytes = vstd::bytes::u64_to_le_bytes(v);
        self.buf.append(&mut bytes);
    }

    /// Appends an optional 64-bit value as a presence byte plus the value.
    fn write_option_u64(&mut self, v: Option<u64>)
        ensures
            final(self).buf@ == old(self).buf@ + enc_opt_u64(v),
    {
        match v {
            Some(val) => {
                self.write_u8(1);
                self.write_u64(val);
            },
            None => {
                self.write_u8(0);
                self.write_u64(0);
            },
        }
        proof {
            assert(final(self).buf@ == old(self).buf@ + enc_opt_u64(v)) by {
                assert(old(self).buf@ + enc_opt_u64(v) =~= self.buf@);
            }
        }
    }

    /// Appends an optional host time on the raw tick value.
    fn write_option_time(&mut self, v: Option<HostTime>)
        ensures
            final(self).buf@ == old(self).buf@ + enc_opt_time(v),
    {
        match v {
            Some(t) => self.write_option_u64(Some(t.0)),
            None => self.write_option_u64(None),
        }
    }

    /// Appends an optional boolean as one three-valued byte.
    fn write_option_bool(&mut self, v: Option<bool>)
        ensures
            final(self).buf@ == old(self).buf@ + enc_opt_bool(v),
    {
        match v {
            Some(true) => self.write_u8(2),
            Some(false) => self.write_u8(1),
            None => self.write_u8(0),
        }
    }

    /// Appends a timing confidence grade as one byte.
    fn write_confidence(&mut self, c: TimingConfidence)
        ensures
            final(self).buf@ == old(self).buf@ + enc_confidence(c),
    {
        match c {
            TimingConfidence::Predictive => self.write_u8(0),
            TimingConfidence::Estimated => self.write_u8(1),
            TimingConfidence::PacingOnly => self.write_u8(2),
        }
    }

    /// Appends a phase kind as one byte.
    fn write_phase(&mut self, p: PhaseKind)
        ensures
            final(self).buf@ == old(self).buf@ + enc_phase(p),
    {
        match p {
            PhaseKind::Plan => self.write_u8(0),
            PhaseKind::Evaluate => self.write_u8(1),
            PhaseKind::Render => self.write_u8(2),
            PhaseKind::Submit => self.write_u8(3),
        }
    }

    // -- one record per event -----------------------------------------------

    /// Appends one [`FrameTickEvent`] record.
    pub fn record_frame_tick(&mut self, e: &FrameTickEvent)
        ensures
            final(self).bytes() == old(self).bytes() + enc_frame_tick(*e),
    {
        self.write_u8(TAG_FRAME_TICK);
        self.write_u64(e.frame_index);
        self.write_u32(e.output.0);
        self.write_u64(e.now.0);
        self.write_option_time(e.predicted_present);
        self.write_option_u64(e.refresh_interval);
        self.write_confidence(e.confidence);
        proof {
            assert(final(self).bytes() =~= old(self).bytes() + enc_frame_tick(*e));
        }
    }

    /// Appends one [`FramePlanEvent`] record.
    pub fn record_frame_plan(&mut self, e: &FramePlanEvent)
        ensures
            final(self).bytes() == old(self).bytes() + enc_frame_plan(*e),
    {
        self.write_u8(TAG_FRAME_PLAN);
        self.write_u64(e.frame_index);
        self.write_u32(e.output.0);
        self.write_u64(e.semantic_time.0);
        self.write_option_time(e.present_time);
        self.write_u64(e.commit_deadline.0);
        self.write_u8(e.pipeline_depth);
        self.write_u64(e.safety_margin_ticks);
        proof {
            assert(final(self).bytes() =~= old(self).bytes() + enc_frame_plan(*e));
        }
    }

    /// Appends one [`PhaseBeginEvent`] record.
    pub fn record_phase_begin(&mut self, e: &PhaseBeginEvent)
        ensures
            final(self).bytes() == old(self).bytes() + enc_phase_begin(*e),
    {
        self.write_u8(TAG_PHASE_BEGIN);
        self.write_u64(e.frame_index);
        self.write_phase(e.phase);
        self.write_u64(e.timestamp.0);
        proof {
            assert(final(self).bytes() =~= old(self).bytes() + enc_phase_begin(*e));
        }
    }

    /// Appends one [`PhaseEndEvent`] record.
    pub fn record_phase_end(&mut self, e: &PhaseEndEvent)
        ensures
            final(self).bytes() == old(self).bytes() + enc_phase_end(*e),
    {
        self.write_u8(TAG_PHASE_END);
        self.write_u64(e.frame_index);
        self.write_phase(e.phase);
        self.write_u64(e.timestamp.0);
        proof {
            assert(final(self).bytes() =~= old(self).bytes() + enc_phase_end(*e));
        }
    }

    /// Appends one [`SubmitEvent`] record.
    pub fn record_submit(&mut self, e: &SubmitEvent)
        ensures
            final(self).bytes() == old(self).bytes() + enc_submit(*e),
    {
        self.write_u8(TAG_SUBMIT);
        self.write_u64(e.frame_index);
        self.write_u64(e.submitted_at.0);
        self.write_option_time(e.expected_present);
        proof {
            assert(final(self).bytes() =~= old(self).bytes() + enc_submit(*e));
        }
    }

    /// Appends one [`PresentFeedbackEvent`] record.
    pub fn record_present_feedback(&mut self, e: &PresentFeedbackEvent)
        ensures
            final(self).bytes() == old(self).bytes() + enc_present_feedback(*e),
    {
        self.write_u8(TAG_PRESENT_FEEDBACK);
        self.write_u64(e.frame_index);
        self.write_option_time(e.actual_present);
        self.write_option_bool(e.missed_deadline);
        proof {
            assert(final(self).bytes() =~= old(self).bytes() + enc_present_feedback(*e));
        }
    }

    /// Appends one [`FrameSummary`] record.
    pub fn record_frame_summary(&mut self, s: &FrameSummary)
        ensures
            final(self).bytes() == old(self).bytes() + enc_frame_summary(*s),
    {
        self.write_u8(TAG_FRAME_SUMMARY);
        self.write_u64(s.frame_index);
        self.write_u32(s.output.0);
        self.write_confidence(s.confidence);
        self.write_u64(s.now.0);
        self.write_option_time(s.present_time);
        self.write_u64(s.semantic_time.0);
        self.write_u64(s.deadline.0);
        self.write_u8(s.pipeline_depth);
        self.write_u64(s.plan_ticks);
        self.write_u64(s.eval_ticks);
        self.write_u64(s.render_ticks);
        self.write_u64(s.submit_ticks);
        self.write_u8(if s.missed_deadline {
            1
        } else {
            0
        });
        proof {
            assert(final(self).bytes() =~= old(self).bytes() + enc_frame_summary(*s));
        }
    }

    /// Appends one layer-changes count record; the payload is discarded and
    /// only the number of entries survives (clamped to 32 bits).
    pub fn record_layer_changes(&mut self, frame_index: u64, changes: &Vec<LayerChange>)
        ensures
            final(self).bytes() == old(self).bytes() + enc_count_record(
                TAG_LAYER_CHANGES_COUNT,
                frame_index,
                clamp_count(changes@.len()),
            ),
    {
        self.write_u8(TAG_LAYER_CHANGES_COUNT);
        self.write_u64(frame_index);
        let n = changes.len();
        let count: u32 = if n < u32::MAX as usize {
            n as u32
        } else {
            u32::MAX
        };
        self.write_u32(count);
        proof {
            assert(final(self).bytes() =~= old(self).bytes() + enc_count_record(
                TAG_LAYER_CHANGES_COUNT,
                frame_index,
                clamp_count(changes@.len()),
            ));
        }
    }

    /// Appends one damage-rects count record; the payload is discarded and
    /// only the number of entries survives (clamped to 32 bits).
    pub fn record_damage_rects(&mut self, frame_index: u64, rects: &Vec<DamageRect>)
        ensures
            final(self).bytes() == old(self).bytes() + enc_count_record(
                TAG_DAMAGE_RECTS_COUNT,
                frame_index,
                clamp_count(rects@.len()),
            ),
    {
        self.write_u8(TAG_DAMAGE_RECTS_COUNT);
        self.write_u64(frame_index);
        let n = rects.len();
        let count: u32 = if n < u32::MAX as usize {
            n as u32
        } else {
            u32::MAX
        };
        self.write_u32(count);
        proof {
            assert(final(self).bytes() =~= old(self).bytes() + enc_count_record(
                TAG_DAMAGE_RECTS_COUNT,
                frame_index,
                clamp_count(rects@.len()),
            ));
        }
    }
}

/// A collection length clamped to 32 bits for a count-only record.
pub open spec fn clamp_count(n: nat) -> u32 {
    if n < u32::MAX {
        n as u32
    } else {
        u32::MAX
    }
}

impl TraceSink for RecorderSink {
    fn on_frame_tick(&mut self, e: &FrameTickEvent) {
        self.record_frame_tick(e);
    }

    fn on_frame_plan(&mut self, e: &FramePlanEvent) {
        self.record_frame_plan(e);
    }

    fn on_phase_begin(&mut self, e: &PhaseBeginEvent) {
        self.record_phase_begin(e);
    }

    fn on_phase_end(&mut self, e: &PhaseEndEvent) {
        self.record_phase_end(e);
    }

    fn on_submit(&mut self, e: &SubmitEvent) {
        self.record_submit(e);
    }

    fn on_present_feedback(&mut self, e: &PresentFeedbackEvent) {
        self.record_present_feedback(e);
    }

    fn on_frame_summary(&mut self, s: &FrameSummary) {
        self.record_frame_summary(s);
    }

    fn on_layer_changes(&mut self, frame_index: u64, changes: &Vec<LayerChange>) {
        self.record_layer_changes(frame_index, changes);
    }

    fn on_damage_rects(&mut self, frame_index: u64, rects: &Vec<DamageRect>) {
        self.record_damage_rects(frame_index, rects);
    }
}

// ---------------------------------------------------------------------------
// Decoder
// ---------------------------------------------------------------------------

/// A decoded event from a binary recording.
#[derive(Clone, Copy, PartialEq, Eq, Structural, Debug)]
pub enum RecordedEvent {
    /// A [`FrameTickEvent`].
    FrameTick(FrameTickEvent),
    /// A [`FramePlanEvent`].
    FramePlan(FramePlanEvent),
    /// A [`PhaseBeginEvent`].
    PhaseBegin(PhaseBeginEvent),
    /// A [`PhaseEndEvent`].
    PhaseEnd(PhaseEndEvent),
    /// A [`SubmitEvent`].
    Submit(SubmitEvent),
    /// A [`PresentFeedbackEvent`].
    PresentFeedback(PresentFeedbackEvent),
    /// A [`FrameSummary`].
    FrameSummary(FrameSummary),
    /// Layer-change count for a frame.
    LayerChangesCount {
        /// Frame counter.
        frame_index: u64,
        /// Number of layer changes.
        count: u32,
    },
    /// Damage-rect count for a frame.
    DamageRectsCount {
        /// Frame counter.
        frame_index: u64,
        /// Number of damage rects.
        count: u32,
    },
}

// -- the specification parser ----------------------------------------------

/// Reads one byte at `pos`, if present.
pub open spec fn dec_u8(d: Seq<u8>, pos: int) -> Option<(u8, int)> {
    if 0 <= pos && pos + 1 <= d.len() {
        Some((d[pos], pos + 1))
    } else {
        None
    }
}

/// Reads a 32-bit little-endian value at `pos`, if present.
pub open spec fn dec_u32(d: Seq<u8>, pos: int) -> Option<(u32, int)> {
    if 0 <= pos && pos + 4 <= d.len() {
        Some((vstd::bytes::spec_u32_from_le_bytes(d.subrange(pos, pos + 4)), pos + 4))
    } else {
        None
    }
}

/// Reads a 64-bit little-endian value at `pos`, if present.
pub open spec fn dec_u64(d: Seq<u8>, pos: int) -> Option<(u64, int)> {
    if 0 <= pos && pos + 8 <= d.len() {
        Some((vstd::bytes::spec_u64_from_le_bytes(d.subrange(pos, pos + 8)), pos + 8))
    } else {
        None
    }
}

/// Reads an optional 64-bit value: presence byte, then the value.
pub open spec fn dec_opt_u64(d: Seq<u8>, pos: int) -> Option<(Option<u64>, int)> {
    match dec_u8(d, pos) {
        Some((flag, p1)) => match dec_u64(d, p1) {
            Some((v, p2)) => Some(
                (
                    if flag != 0 {
                        Some(v)
                    } else {
                        None
                    },
                    p2,
                ),
            ),
            None => None,
        },
        None => None,
    }
}

/// Reads an optional host time on the raw tick value.
pub open spec fn dec_opt_time(d: Seq<u8>, pos: int) -> Option<(Option<HostTime>, int)> {
    match dec_opt_u64(d, pos) {
        Some((v, p)) => Some(
            (
                match v {
                    Some(x) => Some(HostTime(x)),
                    None => None,
                },
                p,
            ),
        ),
        None => None,
    }
}

/// Reads an optional boolean from one three-valued byte.
pub open spec fn dec_opt_bool(d: Seq<u8>, pos: int) -> Option<(Option<bool>, int)> {
    match dec_u8(d, pos) {
        Some((v, p)) => Some(
            (
                if v == 0 {
                    None
                } else if v == 1 {
                    Some(false)
                } else {
                    Some(true)
                },
                p,
            ),
        ),
        None => None,
    }
}

/// Reads a timing confidence grade; bytes past the last grade fall back to
/// the loosest one.
pub open spec fn dec_confidence(d: Seq<u8>, pos: int) -> Option<(TimingConfidence, int)> {
    match dec_u8(d, pos) {
        Some((v, p)) => Some(
            (
                if v == 0 {
                    TimingConfidence::Predictive
                } else if v == 1 {
                    TimingConfidence::Estimated
                } else {
                    TimingConfidence::PacingOnly
                },
                p,
            ),
        ),
        None => None,
    }
}

/// Reads a phase kind; bytes past the last phase fall back to `Submit`.
pub open spec fn dec_phase(d: Seq<u8>, pos: int) -> Option<(PhaseKind, int)> {
    match dec_u8(d, pos) {
        Some((v, p)) => Some(
            (
                if v == 0 {
                    PhaseKind::Plan
                } else if v == 1 {
                    PhaseKind::Evaluate
                } else if v == 2 {
                    PhaseKind::Render
                } else {
                    PhaseKind::Submit
                },
                p,
            ),
        ),
        None => None,
    }
}

/// Parses one whole record beginning at `pos`: a tag byte and the fields of
/// that record. Yields the event and the position after it, `None` on
/// truncation or an unknown tag.
pub open spec fn dec_event(d: Seq<u8>, pos: int) -> Option<(RecordedEvent, int)> {
    match dec_u8(d, pos) {
        None => None,
        Some((tag, p0)) => if tag == TAG_FRAME_TICK {
            match (dec_u64(d, p0)) {
                None => None,
                Some((frame_index, p1)) => match dec_u32(d, p1) {
                    None => None,
                    Some((output, p2)) => match dec_u64(d, p2) {
                        None => None,
                        Some((now, p3)) => match dec_opt_time(d, p3) {
                            None => None,
                            Some((predicted_present, p4)) => match dec_opt_u64(d, p4) {
                                None => None,
                                Some((refresh_interval, p5)) => match dec_confidence(d, p5) {
                                    None => None,
                                    Some((confidence, p6)) => Some(
                                        (
                                            RecordedEvent::FrameTick(
                                                FrameTickEvent {
                                                    frame_index,
                                                    output: OutputId(output),
                                                    now: HostTime(now),
                                                    predicted_present,
                                                    refresh_interval,
                                                    confidence,
                                                },
                                            ),
                                            p6,
                                        ),
                                    ),
                                },
                            },
                        },
                    },
                },
            }
        } else if tag == TAG_FRAME_PLAN {
            match (dec_u64(d, p0)) {
                None => None,
                Some((frame_index, p1)) => match dec_u32(d, p1) {
                    None => None,
                    Some((output, p2)) => match dec_u64(d, p2) {
                        None => None,
                        Some((semantic_time, p3)) => match dec_opt_time(d, p3) {
                            None => None,
                            Some((present_time, p4)) => match dec_u64(d, p4) {
                                None => None,
                                Some((commit_deadline, p5)) => match dec_u8(d, p5) {
                                    None => None,
                                    Some((pipeline_depth, p6)) => match dec_u64(d, p6) {
                                        None => None,
                                        Some((safety_margin_ticks, p7)) => Some(
                                            (
                                                RecordedEvent::FramePlan(
                                                    FramePlanEvent {
                                                        frame_index,
                                                        output: OutputId(output),
                                                        semantic_time: HostTime(semantic_time),
                                                        present_time,
                                                        commit_deadline: HostTime(commit_deadline),
                                                        pipeline_depth,
                                                        safety_margin_ticks,
                                                    },
                                                ),
                                                p7,
                                            ),
                                        ),
                                    },
                                },
                            },
                        },
                    },
                },
            }
        } else if tag == TAG_PHASE_BEGIN {
            match (dec_u64(d, p0)) {
                None => None,
                Some((frame_index, p1)) => match dec_phase(d, p1) {
                    None => None,
                    Some((phase, p2)) => match dec_u64(d, p2) {
                        None => None,
                        Some((timestamp, p3)) => Some(
                            (
                                RecordedEvent::PhaseBegin(
                                    PhaseBeginEvent {
                                        frame_index,
                                        phase,
                                        timestamp: HostTime(timestamp),
                                    },
                                ),
                                p3,
                            ),
                        ),
                    },
                },
            }
        } else if tag == TAG_PHASE_END {
            match (dec_u64(d, p0)) {
                None => None,
                Some((frame_index, p1)) => match dec_phase(d, p1) {
                    None => None,
                    Some((phase, p2)) => match dec_u64(d, p2) {
                        None => None,
                        Some((timestamp, p3)) => Some(
                            (
                                RecordedEvent::PhaseEnd(
                                    PhaseEndEvent {
                                        frame_index,
                                        phase,
                                        timestamp: HostTime(timestamp),
                                    },
                                ),
                                p3,
                            ),
                        ),
                    },
                },
            }
        } else if tag == TAG_SUBMIT {
            match (dec_u64(d, p0)) {
                None => None,
                Some((frame_index, p1)) => match dec_u64(d, p1) {
                    None => None,
                    Some((submitted_at, p2)) => match dec_opt_time(d, p2) {
                        None => None,
                        Some((expected_present, p3)) => Some(
                            (
                                RecordedEvent::Submit(
                                    SubmitEvent {
                                        frame_index,
                                        submitted_at: HostTime(submitted_at),
                                        expected_present,
                                    },
                                ),
                                p3,
                            ),
                        ),
                    },
                },
            }
        } else if tag == TAG_PRESENT_FEEDBACK {
            match (dec_u64(d, p0)) {
                None => None,
                Some((frame_index, p1)) => match dec_opt_time(d, p1) {
                    None => None,
                    Some((actual_present, p2)) => match dec_opt_bool(d, p2) {
                        None => None,
                        Some((missed_deadline, p3)) => Some(
                            (
                                RecordedEvent::PresentFeedback(
                                    PresentFeedbackEvent {
                                        frame_index,
                                        actual_present,
                                        missed_deadline,
                                    },
                                ),
                                p3,
                            ),
                        ),
                    },
                },
            }
        } else if tag == TAG_FRAME_SUMMARY {
            match (dec_u64(d, p0)) {
                None => None,
                Some((frame_index, p1)) => match dec_u32(d, p1) {
                    None => None,
                    Some((output, p2)) => match dec_confidence(d, p2) {
                        None => None,
                        Some((confidence, p3)) => match dec_u64(d, p3) {
                            None => None,
                            Some((now, p4)) => match dec_opt_time(d, p4) {
                                None => None,
                                Some((present_time, p5)) => match dec_u64(d, p5) {
                                    None => None,
                                    Some((semantic_time, p6)) => match dec_u64(d, p6) {
                                        None => None,
                                        Some((deadline, p7)) => match dec_u8(d, p7) {
                                            None => None,
                                            Some((pipeline_depth, p8)) => match dec_u64(d, p8) {
                                                None => None,
                                                Some((plan_ticks, p9)) => match dec_u64(d, p9) {
                                                    None => None,
                                                    Some((eval_ticks, p10)) => match dec_u64(
                                                        d,
                                                        p10,
                                                    ) {
                                                        None => None,
                                                        Some((render_ticks, p11)) => match dec_u64(
                                                            d,
                                                            p11,
                                                        ) {
                                                            None => None,
                                                            Some((submit_ticks, p12)) => match dec_u8(
                                                                d,
                                                                p12,
                                                            ) {
                                                                None => None,
                                                                Some((missed, p13)) => Some(
                                                                    (
                                                                        RecordedEvent::FrameSummary(
                                                                            FrameSummary {
                                                                                frame_index,
                                                                                output: OutputId(
                                                                                    output,
                                                                                ),
                                                                                confidence,
                                                                                now: HostTime(now),
                                                                                present_time,
                                                                                semantic_time:
                                                                                    HostTime(
                                                                                    semantic_time,
                                                                                ),
                                                                                deadline: HostTime(
                                                                                    deadline,
                                                                                ),
                                                                                pipeline_depth,
                                                                                plan_ticks,
                                                                                eval_ticks,
                                                                                render_ticks,
                                                                                submit_ticks,
                                                                                missed_deadline:
                                                                                    missed != 0,
                                                                            },
                                                                        ),
                                                                        p13,
                                                                    ),
                                                                ),
                                                            },
                                                        },
                                                    },
                                                },
                                            },
                                        },
                                    },
                                },
                            },
                        },
                    },
                },
            }
        } else if tag == TAG_LAYER_CHANGES_COUNT {
            match (dec_u64(d, p0)) {
                None => None,
                Some((frame_index, p1)) => match dec_u32(d, p1) {
                    None => None,
                    Some((count, p2)) => Some(
                        (RecordedEvent::LayerChangesCount { frame_index, count }, p2),
                    ),
                },
            }
        } else if tag == TAG_DAMAGE_RECTS_COUNT {
            match (dec_u64(d, p0)) {
                None => None,
                Some((frame_index, p1)) => match dec_u32(d, p1) {
                    None => None,
                    Some((count, p2)) => Some(
                        (RecordedEvent::DamageRectsCount { frame_index, count }, p2),
                    ),
                },
            }
        } else {
            None
        },
    }
}

/// Decodes a byte slice produced by [`RecorderSink`] into a cursor over
/// [`RecordedEvent`]s.
pub fn decode(bytes: &[u8]) -> (r: DecodeIter<'_>)
    ensures
        r.data@ == bytes@,
        r.pos == 0,
{
    DecodeIter { data: bytes, pos: 0 }
}

/// Cursor over decoded events; call [`DecodeIter::next`] until it yields
/// `None`.
#[derive(Debug)]
pub struct DecodeIter<'a> {
    /// The recorded bytes.
    pub data: &'a [u8],
    /// The cursor position.
    pub pos: usize,
}

impl<'a> DecodeIter<'a> {
    /// How many bytes remain past the cursor.
    fn remaining(&self) -> (r: usize)
        requires
            self.pos <= self.data@.len(),
        ensures
            r == self.data@.len() - self.pos,
            self.data@.len() <= usize::MAX,
    {
        self.data.len() - self.pos
    }

    /// Reads one byte, advancing the cursor.
    fn read_u8(&mut self) -> (r: Option<u8>)
        requires
            old(self).pos <= old(self).data@.len(),
        ensures
            final(self).data == old(self).data,
            match dec_u8(old(self).data@, old(self).pos as int) {
                Some((v, p)) => r == Some(v) && final(self).pos == p,
                None => r is None && final(self).pos == old(self).pos,
            },
    {
        if self.remaining() < 1 {
            return None;
        }
        let v = self.data[self.pos];
        self.pos = self.pos + 1;
        Some(v)
    }

    /// Reads a little-endian 32-bit value, advancing the cursor.
    fn read_u32(&mut self) -> (r: Option<u32>)
        requires
            old(self).pos <= old(self).data@.len(),
        ensures
            final(self).data == old(self).data,
            final(self).pos <= final(self).data@.len(),
            match dec_u32(old(self).data@, old(self).pos as int) {
                Some((v, p)) => r == Some(v) && final(self).pos == p,
                None => r is None && final(self).pos == old(self).pos,
            },
    {
        if self.remaining() < 4 {
            return None;
        }
        let sub = vstd::slice::slice_subrange(self.data, self.pos, self.pos + 4);
        let v = vstd::bytes::u32_from_le_bytes(sub);
        self.pos = self.pos + 4;
        Some(v)
    }

    /// Reads a little-endian 64-bit value, advancing the cursor.
    fn read_u64(&mut self) -> (r: Option<u64>)
        requires
            old(self).pos <= old(self).data@.len(),
        ensures
            final(self).data == old(self).data,
            final(self).pos <= final(self).data@.len(),
            match dec_u64(old(self).data@, old(self).pos as int) {
                Some((v, p)) => r == Some(v) && final(self).pos == p,
                None => r is None && final(self).pos == old(self).pos,
            },
    {
        if self.remaining() < 8 {
            return None;
        }
        let sub = vstd::slice::slice_subrange(self.data, self.pos, self.pos + 8);
        let v = vstd::bytes::u64_from_le_bytes(sub);
        self.pos = self.pos + 8;
        Some(v)
    }

    /// Reads an optional 64-bit value, advancing the cursor.
    fn read_option_u64(&mut self) -> (r: Option<Option<u64>>)
        requires
            old(self).pos <= old(self).data@.len(),
        ensures
            final(self).data == old(self).data,
            final(self).pos <= final(self).data@.len(),
            match dec_opt_u64(old(self).data@, old(self).pos as int) {
                Some((v, p)) => r == Some(v) && final(self).pos == p,
                None => r is None,
            },
    {
        let present = match self.read_u8() {
            Some(v) => v,
            None => {
                return None;
            },
        };
        let val = match self.read_u64() {
            Some(v) => v,
            None => {
                return None;
            },
        };
        Some(
            if present != 0 {
                Some(val)
            } else {
                None
            },
        )
    }

    /// Reads an optional host time, advancing the cursor.
    fn read_option_time(&mut self) -> (r: Option<Option<HostTime>>)
        requires
            old(self).pos <= old(self).data@.len(),
        ensures
            final(self).data == old(self).data,
            final(self).pos <= final(self).data@.len(),
            match dec_opt_time(old(self).data@, old(self).pos as int) {
                Some((v, p)) => r == Some(v) && final(self).pos == p,
                None => r is None,
            },
    {
        match self.read_option_u64() {
            Some(Some(v)) => Some(Some(HostTime(v))),
            Some(None) => Some(None),
            None => None,
        }
    }

    /// Reads an optional boolean, advancing the cursor.
    fn read_option_bool(&mut self) -> (r: Option<Option<bool>>)
        requires
            old(self).pos <= old(self).data@.len(),
        ensures
            final(self).data == old(self).data,
            final(self).pos <= final(self).data@.len(),
            match dec_opt_bool(old(self).data@, old(self).pos as int) {
                Some((v, p)) => r == Some(v) && final(self).pos == p,
                None => r is None,
            },
    {
        let v = match self.read_u8() {
            Some(v) => v,
            None => {
                return None;
            },
        };
        Some(
            if v == 0 {
                None
            } else if v == 1 {
                Some(false)
            } else {
                Some(true)
            },
        )
    }

    /// Reads a timing confidence grade, advancing the cursor.
    fn read_confidence(&mut self) -> (r: Option<TimingConfidence>)
        requires
            old(self).pos <= old(self).data@.len(),
        ensures
            final(self).data == old(self).data,
            final(self).pos <= final(self).data@.len(),
            match dec_confidence(old(self).data@, old(self).pos as int) {
                Some((v, p)) => r == Some(v) && final(self).pos == p,
                None => r is None,
            },
    {
        let v = match self.read_u8() {
            Some(v) => v,
            None => {
                return None;
            },
        };
        Some(
            if v == 0 {
                TimingConfidence::Predictive
            } else if v == 1 {
                TimingConfidence::Estimated
            } else {
                TimingConfidence::PacingOnly
            },
        )
    }

    /// Reads a phase kind, advancing the cursor.
    fn read_phase(&mut self) -> (r: Option<PhaseKind>)
        requires
            old(self).pos <= old(self).data@.len(),
        ensures
            final(self).data == old(self).data,
            final(self).pos <= final(self).data@.len(),
            match dec_phase(old(self).data@, old(self).pos as int) {
                Some((v, p)) => r == Some(v) && final(self).pos == p,
                None => r is None,
            },
    {
        let v = match self.read_u8() {
            Some(v) => v,
            None => {
                return None;
            },
        };
        Some(
            if v == 0 {
                PhaseKind::Plan
            } else if v == 1 {
                PhaseKind::Evaluate
            } else if v == 2 {
                PhaseKind::Render
            } else {
                PhaseKind::Submit
            },
        )
    }

    /// Decodes the next complete record, exactly as [`dec_event`] describes:
    /// `None` on truncation or an unknown tag.
    pub fn next(&mut self) -> (r: Option<RecordedEvent>)
        requires
            old(self).pos <= old(self).data@.len(),
        ensures
            final(self).data == old(self).data,
            final(self).pos <= final(self).data@.len(),
            match dec_event(old(self).data@, old(self).pos as int) {
                Some((ev, p)) => r == Some(ev) && final(self).pos == p,
                None => r is None,
            },
    {
        let tag = match self.read_u8() {
            Some(v) => v,
            None => {
                return None;
            },
        };
        if tag == TAG_FRAME_TICK {
            let frame_index = match self.read_u64() {
                Some(v) => v,
                None => {
                    return None;
                },
            };
            let output = match self.read_u32() {
                Some(v) => v,
                None => {
                    return None;
                },
            };
            let now = match self.read_u64() {
                Some(v) => v,
                None => {
                    return None;
                },
            };
            let predicted_present = match self.read_option_time() {
                Some(v) => v,
                None => {
                    return None;
                },
            };
            let refresh_interval = match self.read_option_u64() {
                Some(v) => v,
                None => {
                    return None;
                },
            };
            let confidence = match self.read_confidence() {
                Some(v) => v,
                None => {
                    return None;
                },
            };
            Some(
                RecordedEvent::FrameTick(
                    FrameTickEvent {
                        frame_index,
                        output: OutputId(output),
                        now: HostTime(now),
                        predicted_present,
                        refresh_interval,
                        confidence,
                    },
                ),
            )
        } else if tag == TAG_FRAME_PLAN {
            let frame_index = match self.read_u64() {
                Some(v) => v,
                None => {
                    return None;
                },
            };
            let output = match self.read_u32() {
                Some(v) => v,
                None => {
                    return None;
                },
            };
            let semantic_time = match self.read_u64() {
                Some(v) => v,
                None => {
                    return None;
                },
            };
            let present_time = match self.read_option_time() {
                Some(v) => v,
                None => {
                    return None;
                },
            };
            let commit_deadline = match self.read_u64() {
                Some(v) => v,
                None => {
                    return None;
                },
            };
            let pipeline_depth = match self.read_u8() {
                Some(v) => v,
                None => {
                    return None;
                },
            };
            let safety_margin_ticks = match self.read_u64() {
                Some(v) => v,
                None => {
                    return None;
                },
            };
            Some(
                RecordedEvent::FramePlan(
                    FramePlanEvent {
                        frame_index,
                        output: OutputId(output),
                        semantic_time: HostTime(semantic_time),
                        present_time,
                        commit_deadline: HostTime(commit_deadline),
                        pipeline_depth,
                        safety_margin_ticks,
                    },
                ),
            )
        } else if tag == TAG_PHASE_BEGIN {
            let frame_index = match self.read_u64() {
                Some(v) => v,
                None => {
                    return None;
                },
            };
            let phase = match self.read_phase() {
                Some(v) => v,
                None => {
                    return None;
                },
            };
            let timestamp = match self.read_u64() {
                Some(v) => v,
                None => {
                    return None;
                },
            };
            Some(
                RecordedEvent::PhaseBegin(
                    PhaseBeginEvent { frame_index, phase, timestamp: HostTime(timestamp) },
                ),
            )
        } else if tag == TAG_PHASE_END {
            let frame_index = match self.read_u64() {
                Some(v) => v,
                None => {
                    return None;
                },
            };
            let phase = match self.read_phase() {
                Some(v) => v,
                None => {
                    return None;
                },
            };
            let timestamp = match self.read_u64() {
                Some(v) => v,
                None => {
                    return None;
                },
            };
            Some(
                RecordedEvent::PhaseEnd(
                    PhaseEndEvent { frame_index, phase, timestamp: HostTime(timestamp) },
                ),
            )
        } else if tag == TAG_SUBMIT {
            let frame_index = match self.read_u64() {
                Some(v) => v,
                None => {
                    return None;
                },
            };
            let submitted_at = match self.read_u64() {
                Some(v) => v,
                None => {
                    return None;
                },
            };
            let expected_present = match self.read_option_time() {
                Some(v) => v,
                None => {
                    return None;
                },
            };
            Some(
                RecordedEvent::Submit(
                    SubmitEvent {
                        frame_index,
                        submitted_at: HostTime(submitted_at),
                        expected_present,
                    },
                ),
            )
        } else if tag == TAG_PRESENT_FEEDBACK {
            let frame_index = match self.read_u64() {
                Some(v) => v,
                None => {
                    return None;
                },
            };
            let actual_present = match self.read_option_time() {
                Some(v) => v,
                None => {
                    return None;
                },
            };
            let missed_deadline = match self.read_option_bool() {
                Some(v) => v,
                None => {
                    return None;
                },
            };
            Some(
                RecordedEvent::PresentFeedback(
                    PresentFeedbackEvent { frame_index, actual_present, missed_deadline },
                ),
            )
        } else if tag == TAG_FRAME_SUMMARY {
            let frame_index = match self.read_u64() {
                Some(v) => v,
                None => {
                    return None;
                },
            };
            let output = match self.read_u32() {
                Some(v) => v,
                None => {
                    return None;
                },
            };
            let confidence = match self.read_confidence() {
                Some(v) => v,
                None => {
                    return None;
                },
            };
            let now = match self.read_u64() {
                Some(v) => v,
                None => {
                    return None;
                },
            };
            let present_time = match self.read_option_time() {
                Some(v) => v,
                None => {
                    return None;
                },
            };
            let semantic_time = match self.read_u64() {
                Some(v) => v,
                None => {
                    return None;
                },
            };
            let deadline = match self.read_u64() {
                Some(v) => v,
                None => {
                    return None;
                },
            };
            let pipeline_depth = match self.read_u8() {
                Some(v) => v,
                None => {
                    return None;
                },
            };
            let plan_ticks = match self.read_u64() {
                Some(v) => v,
                None => {
                    return None;
                },
            };
            let eval_ticks = match self.read_u64() {
                Some(v) => v,
                None => {
                    return None;
                },
            };
            let render_ticks = match self.read_u64() {
                Some(v) => v,
                None => {
                    return None;
                },
            };
            let submit_ticks = match self.read_u64() {
                Some(v) => v,
                None => {
                    return None;
                },
            };
            let missed = match self.read_u8() {
                Some(v) => v,
                None => {
                    return None;
                },
            };
            Some(
                RecordedEvent::FrameSummary(
                    FrameSummary {
                        frame_index,
                        output: OutputId(output),
                        confidence,
                        now: HostTime(now),
                        present_time,
                        semantic_time: HostTime(semantic_time),
                        deadline: HostTime(deadline),
                        pipeline_depth,
                        plan_ticks,
                        eval_ticks,
                        render_ticks,
                        submit_ticks,
                        missed_deadline: missed != 0,
                    },
                ),
            )
        } else if tag == TAG_LAYER_CHANGES_COUNT {
            let frame_index = match self.read_u64() {
                Some(v) => v,
                None => {
                    return None;
                },
            };
            let count = match self.read_u32() {
                Some(v) => v,
                None => {
                    return None;
                },
            };
            Some(RecordedEvent::LayerChangesCount { frame_index, count })
        } else if tag == TAG_DAMAGE_RECTS_COUNT {
            let frame_index = match self.read_u64() {
                Some(v) => v,
                None => {
                    return None;
                },
            };
            let count = match self.read_u32() {
                Some(v) => v,
                None => {
                    return None;
                },
            };
            Some(RecordedEvent::DamageRectsCount { frame_index, count })
        } else {
            None
        }
    }
}

// ---------------------------------------------------------------------------
// Round trip: decoding an encoded record yields the record back
// ---------------------------------------------------------------------------

/// Parsing a byte that an encoder just wrote peels it off the suffix.
proof fn lemma_dec_u8_prefix(d: Seq<u8>, pos: int, b: u8, tail: Seq<u8>)
    requires
        0 <= pos <= d.len(),
        d.subrange(pos, d.len() as int) == seq![b] + tail,
    ensures
        dec_u8(d, pos) == Some((b, pos + 1)),
        pos + 1 <= d.len(),
        d.subrange(pos + 1, d.len() as int) =~= tail,
{
    assert(d.subrange(pos, d.len() as int).len() == d.len() - pos);
    assert((seq![b] + tail).len() == 1 + tail.len());
    assert(d.len() - pos == 1 + tail.len());
    assert(d[pos] == (seq![b] + tail)[0]);
    assert(d.subrange(pos + 1, d.len() as int) =~= tail) by {
        assert forall|i: int| 0 <= i < tail.len() implies d.subrange(
            pos + 1,
            d.len() as int,
        )[i] == tail[i] by {
            assert(d[pos + 1 + i] == (seq![b] + tail)[1 + i]);
        }
    }
}

/// Parsing a 64-bit value that an encoder just wrote peels it off the
/// suffix.
proof fn lemma_dec_u64_prefix(d: Seq<u8>, pos: int, v: u64, tail: Seq<u8>)
    requires
        0 <= pos <= d.len(),
        d.subrange(pos, d.len() as int) == vstd::bytes::spec_u64_to_le_bytes(v) + tail,
    ensures
        dec_u64(d, pos) == Some((v, pos + 8)),
        pos + 8 <= d.len(),
        d.subrange(pos + 8, d.len() as int) =~= tail,
{
    vstd::bytes::lemma_auto_spec_u64_to_from_le_bytes();
    let enc = vstd::bytes::spec_u64_to_le_bytes(v);
    assert(enc.len() == 8);
    assert(d.subrange(pos, d.len() as int).len() == d.len() - pos);
    assert((enc + tail).len() == 8 + tail.len());
    assert(d.len() - pos == 8 + tail.len());
    assert(d.subrange(pos, pos + 8) =~= enc) by {
        assert forall|i: int| 0 <= i < 8 implies d.subrange(pos, pos + 8)[i] == enc[i] by {
            assert(d[pos + i] == (enc + tail)[i]);
        }
    }
    assert(d.subrange(pos + 8, d.len() as int) =~= tail) by {
        assert forall|i: int| 0 <= i < tail.len() implies d.subrange(
            pos + 8,
            d.len() as int,
        )[i] == tail[i] by {
            assert(d[pos + 8 + i] == (enc + tail)[8 + i]);
        }
    }
}

/// Parsing a 32-bit value that an encoder just wrote peels it off the
/// suffix.
proof fn lemma_dec_u32_prefix(d: Seq<u8>, pos: int, v: u32, tail: Seq<u8>)
    requires
        0 <= pos <= d.len(),
        d.subrange(pos, d.len() as int) == vstd::bytes::spec_u32_to_le_bytes(v) + tail,
    ensures
        dec_u32(d, pos) == Some((v, pos + 4)),
        pos + 4 <= d.len(),
        d.subrange(pos + 4, d.len() as int) =~= tail,
{
    vstd::bytes::lemma_auto_spec_u32_to_from_le_bytes();
    let enc = vstd::bytes::spec_u32_to_le_bytes(v);
    assert(enc.len() == 4);
    assert(d.subrange(pos, d.len() as int).len() == d.len() - pos);
    assert((enc + tail).len() == 4 + tail.len());
    assert(d.len() - pos == 4 + tail.len());
    assert(d.subrange(pos, pos + 4) =~= enc) by {
        assert forall|i: int| 0 <= i < 4 implies d.subrange(pos, pos + 4)[i] == enc[i] by {
            assert(d[pos + i] == (enc + tail)[i]);
        }
    }
    assert(d.subrange(pos + 4, d.len() as int) =~= tail) by {
        assert forall|i: int| 0 <= i < tail.len() implies d.subrange(
            pos + 4,
            d.len() as int,
        )[i] == tail[i] by {
            assert(d[pos + 4 + i] == (enc + tail)[4 + i]);
        }
    }
}

/// Parsing an optional 64-bit value that an encoder just wrote peels it off
/// the suffix.
proof fn lemma_dec_opt_u64_prefix(d: Seq<u8>, pos: int, v: Option<u64>, tail: Seq<u8>)
    requires
        0 <= pos <= d.len(),
        d.subrange(pos, d.len() as int) == enc_opt_u64(v) + tail,
    ensures
        dec_opt_u64(d, pos) == Some((v, pos + 9)),
        pos + 9 <= d.len(),
        d.subrange(pos + 9, d.len() as int) =~= tail,
{
    match v {
        Some(x) => {
            assert(enc_opt_u64(v) + tail =~= seq![1u8] + (vstd::bytes::spec_u64_to_le_bytes(x)
                + tail));
            lemma_dec_u8_prefix(d, pos, 1u8, vstd::bytes::spec_u64_to_le_bytes(x) + tail);
            lemma_dec_u64_prefix(d, pos + 1, x, tail);
        },
        None => {
            assert(enc_opt_u64(v) + tail =~= seq![0u8] + (vstd::bytes::spec_u64_to_le_bytes(0)
                + tail));
            lemma_dec_u8_prefix(d, pos, 0u8, vstd::bytes::spec_u64_to_le_bytes(0) + tail);
            lemma_dec_u64_prefix(d, pos + 1, 0u64, tail);
        },
    }
}

/// Parsing an optional host time that an encoder just wrote peels it off
/// the suffix.
proof fn lemma_dec_opt_time_prefix(d: Seq<u8>, pos: int, v: Option<HostTime>, tail: Seq<u8>)
    requires
        0 <= pos <= d.len(),
        d.subrange(pos, d.len() as int) == enc_opt_time(v) + tail,
    ensures
        dec_opt_time(d, pos) == Some((v, pos + 9)),
        pos + 9 <= d.len(),
        d.subrange(pos + 9, d.len() as int) =~= tail,
{
    match v {
        Some(t) => {
            lemma_dec_opt_u64_prefix(d, pos, Some(t.0), tail);
        },
        None => {
            lemma_dec_opt_u64_prefix(d, pos, None, tail);
        },
    }
}

/// Parsing an optional boolean that an encoder just wrote peels it off the
/// suffix.
proof fn lemma_dec_opt_bool_prefix(d: Seq<u8>, pos: int, v: Option<bool>, tail: Seq<u8>)
    requires
        0 <= pos <= d.len(),
        d.subrange(pos, d.len() as int) == enc_opt_bool(v) + tail,
    ensures
        dec_opt_bool(d, pos) == Some((v, pos + 1)),
        pos + 1 <= d.len(),
        d.subrange(pos + 1, d.len() as int) =~= tail,
{
    match v {
        Some(true) => lemma_dec_u8_prefix(d, pos, 2u8, tail),
        Some(false) => lemma_dec_u8_prefix(d, pos, 1u8, tail),
        None => lemma_dec_u8_prefix(d, pos, 0u8, tail),
    }
}

/// Parsing a confidence grade that an encoder just wrote peels it off the
/// suffix.
proof fn lemma_dec_confidence_prefix(d: Seq<u8>, pos: int, c: TimingConfidence, tail: Seq<u8>)
    requires
        0 <= pos <= d.len(),
        d.subrange(pos, d.len() as int) == enc_confidence(c) + tail,
    ensures
        dec_confidence(d, pos) == Some((c, pos + 1)),
        pos + 1 <= d.len(),
        d.subrange(pos + 1, d.len() as int) =~= tail,
{
    match c {
        TimingConfidence::Predictive => lemma_dec_u8_prefix(d, pos, 0u8, tail),
        TimingConfidence::Estimated => lemma_dec_u8_prefix(d, pos, 1u8, tail),
        TimingConfidence::PacingOnly => lemma_dec_u8_prefix(d, pos, 2u8, tail),
    }
}

/// Parsing a phase kind that an encoder just wrote peels it off the suffix.
proof fn lemma_dec_phase_prefix(d: Seq<u8>, pos: int, p: PhaseKind, tail: Seq<u8>)
    requires
        0 <= pos <= d.len(),
        d.subrange(pos, d.len() as int) == enc_phase(p) + tail,
    ensures
        dec_phase(d, pos) == Some((p, pos + 1)),
        pos + 1 <= d.len(),
        d.subrange(pos + 1, d.len() as int) =~= tail,
{
    match p {
        PhaseKind::Plan => lemma_dec_u8_prefix(d, pos, 0u8, tail),
        PhaseKind::Evaluate => lemma_dec_u8_prefix(d, pos, 1u8, tail),
        PhaseKind::Render => lemma_dec_u8_prefix(d, pos, 2u8, tail),
        PhaseKind::Submit => lemma_dec_u8_prefix(d, pos, 3u8, tail),
    }
}


// ---------------------------------------------------------------------------
// Round trip: decoding an encoded record yields the record back
// ---------------------------------------------------------------------------

/// Round trip for one record kind.
#[verifier::rlimit(60)]
proof fn lemma_round_trip_frame_tick(e: FrameTickEvent, rest: Seq<u8>)
    ensures
        dec_event(enc_frame_tick(e) + rest, 0) == Some(
            (RecordedEvent::FrameTick(e), enc_frame_tick(e).len() as int),
        ),
{
    let d = enc_frame_tick(e) + rest;
    let n = d.len() as int;
    vstd::bytes::lemma_auto_spec_u64_to_from_le_bytes();
    vstd::bytes::lemma_auto_spec_u32_to_from_le_bytes();
    let s6 = enc_confidence(e.confidence);
    let s5 = enc_opt_u64(e.refresh_interval) + s6;
    let s4 = enc_opt_time(e.predicted_present) + s5;
    let s3 = vstd::bytes::spec_u64_to_le_bytes(e.now.0) + s4;
    let s2 = vstd::bytes::spec_u32_to_le_bytes(e.output.0) + s3;
    let s1 = vstd::bytes::spec_u64_to_le_bytes(e.frame_index) + s2;
    assert(d.subrange(0, n) =~= d);
    vstd::seq_lib::lemma_concat_associative(seq![TAG_FRAME_TICK], s1, rest);
    lemma_dec_u8_prefix(d, 0, TAG_FRAME_TICK, s1 + rest);
    vstd::seq_lib::lemma_concat_associative(
        vstd::bytes::spec_u64_to_le_bytes(e.frame_index),
        s2,
        rest,
    );
    lemma_dec_u64_prefix(d, 1, e.frame_index, s2 + rest);
    vstd::seq_lib::lemma_concat_associative(
        vstd::bytes::spec_u32_to_le_bytes(e.output.0),
        s3,
        rest,
    );
    lemma_dec_u32_prefix(d, 9, e.output.0, s3 + rest);
    vstd::seq_lib::lemma_concat_associative(vstd::bytes::spec_u64_to_le_bytes(e.now.0), s4, rest);
    lemma_dec_u64_prefix(d, 13, e.now.0, s4 + rest);
    vstd::seq_lib::lemma_concat_associative(enc_opt_time(e.predicted_present), s5, rest);
    lemma_dec_opt_time_prefix(d, 21, e.predicted_present, s5 + rest);
    vstd::seq_lib::lemma_concat_associative(enc_opt_u64(e.refresh_interval), s6, rest);
    lemma_dec_opt_u64_prefix(d, 30, e.refresh_interval, s6 + rest);
    lemma_dec_confidence_prefix(d, 39, e.confidence, rest);
    assert(enc_frame_tick(e).len() == 40);
}


/// Round trip for one record kind.
#[verifier::rlimit(60)]
proof fn lemma_round_trip_frame_plan(e: FramePlanEvent, rest: Seq<u8>)
    ensures
        dec_event(enc_frame_plan(e) + rest, 0) == Some(
            (RecordedEvent::FramePlan(e), enc_frame_plan(e).len() as int),
        ),
{
    let d = enc_frame_plan(e) + rest;
    let n = d.len() as int;
    vstd::bytes::lemma_auto_spec_u64_to_from_le_bytes();
    vstd::bytes::lemma_auto_spec_u32_to_from_le_bytes();
    let s7 = vstd::bytes::spec_u64_to_le_bytes(e.safety_margin_ticks);
    let s6 = seq![e.pipeline_depth] + s7;
    let s5 = vstd::bytes::spec_u64_to_le_bytes(e.commit_deadline.0) + s6;
    let s4 = enc_opt_time(e.present_time) + s5;
    let s3 = vstd::bytes::spec_u64_to_le_bytes(e.semantic_time.0) + s4;
    let s2 = vstd::bytes::spec_u32_to_le_bytes(e.output.0) + s3;
    let s1 = vstd::bytes::spec_u64_to_le_bytes(e.frame_index) + s2;
    assert(d.subrange(0, n) =~= d);
    vstd::seq_lib::lemma_concat_associative(seq![TAG_FRAME_PLAN], s1, rest);
    lemma_dec_u8_prefix(d, 0, TAG_FRAME_PLAN, s1 + rest);
    vstd::seq_lib::lemma_concat_associative(
        vstd::bytes::spec_u64_to_le_bytes(e.frame_index),
        s2,
        rest,
    );
    lemma_dec_u64_prefix(d, 1, e.frame_index, s2 + rest);
    vstd::seq_lib::lemma_concat_associative(
        vstd::bytes::spec_u32_to_le_bytes(e.output.0),
        s3,
        rest,
    );
    lemma_dec_u32_prefix(d, 9, e.output.0, s3 + rest);
    vstd::seq_lib::lemma_concat_associative(
        vstd::bytes::spec_u64_to_le_bytes(e.semantic_time.0),
        s4,
        rest,
    );
    lemma_dec_u64_prefix(d, 13, e.semantic_time.0, s4 + rest);
    vstd::seq_lib::lemma_concat_associative(enc_opt_time(e.present_time), s5, rest);
    lemma_dec_opt_time_prefix(d, 21, e.present_time, s5 + rest);
    vstd::seq_lib::lemma_concat_associative(
        vstd::bytes::spec_u64_to_le_bytes(e.commit_deadline.0),
        s6,
        rest,
    );
    lemma_dec_u64_prefix(d, 30, e.commit_deadline.0, s6 + rest);
    vstd::seq_lib::lemma_concat_associative(seq![e.pipeline_depth], s7, rest);
    lemma_dec_u8_prefix(d, 38, e.pipeline_depth, s7 + rest);
    lemma_dec_u64_prefix(d, 39, e.safety_margin_ticks, rest);
    assert(enc_frame_plan(e).len() == 47);
}


/// Round trip for one record kind.
#[verifier::rlimit(60)]
proof fn lemma_round_trip_phase_begin(e: PhaseBeginEvent, rest: Seq<u8>)
    ensures
        dec_event(enc_phase_begin(e) + rest, 0) == Some(
            (RecordedEvent::PhaseBegin(e), enc_phase_begin(e).len() as int),
        ),
{
    let ev = RecordedEvent::PhaseBegin(e);
    let d = enc_phase_begin(e) + rest;
    let n = d.len() as int;

            let t1 = vstd::bytes::spec_u64_to_le_bytes(e.frame_index) + enc_phase(e.phase)
                + vstd::bytes::spec_u64_to_le_bytes(e.timestamp.0) + rest;
            assert(d.subrange(0, n) =~= seq![TAG_PHASE_BEGIN] + t1);
            lemma_dec_u8_prefix(d, 0, TAG_PHASE_BEGIN, t1);
            let t2 = enc_phase(e.phase) + vstd::bytes::spec_u64_to_le_bytes(e.timestamp.0) + rest;
            assert(t1 =~= vstd::bytes::spec_u64_to_le_bytes(e.frame_index) + t2);
            lemma_dec_u64_prefix(d, 1, e.frame_index, t2);
            let t3 = vstd::bytes::spec_u64_to_le_bytes(e.timestamp.0) + rest;
            assert(t2 =~= enc_phase(e.phase) + t3);
            lemma_dec_phase_prefix(d, 9, e.phase, t3);
            lemma_dec_u64_prefix(d, 10, e.timestamp.0, rest);
            assert(enc_event(ev).len() == 18);
        
}

/// Round trip for one record kind.
#[verifier::rlimit(60)]
proof fn lemma_round_trip_phase_end(e: PhaseEndEvent, rest: Seq<u8>)
    ensures
        dec_event(enc_phase_end(e) + rest, 0) == Some(
            (RecordedEvent::PhaseEnd(e), enc_phase_end(e).len() as int),
        ),
{
    let ev = RecordedEvent::PhaseEnd(e);
    let d = enc_phase_end(e) + rest;
    let n = d.len() as int;

            let t1 = vstd::bytes::spec_u64_to_le_bytes(e.frame_index) + enc_phase(e.phase)
                + vstd::bytes::spec_u64_to_le_bytes(e.timestamp.0) + rest;
            assert(d.subrange(0, n) =~= seq![TAG_PHASE_END] + t1);
            lemma_dec_u8_prefix(d, 0, TAG_PHASE_END, t1);
            let t2 = enc_phase(e.phase) + vstd::bytes::spec_u64_to_le_bytes(e.timestamp.0) + rest;
            assert(t1 =~= vstd::bytes::spec_u64_to_le_bytes(e.frame_index) + t2);
            lemma_dec_u64_prefix(d, 1, e.frame_index, t2);
            let t3 = vstd::bytes::spec_u64_to_le_bytes(e.timestamp.0) + rest;
            assert(t2 =~= enc_phase(e.phase) + t3);
            lemma_dec_phase_prefix(d, 9, e.phase, t3);
            lemma_dec_u64_prefix(d, 10, e.timestamp.0, rest);
            assert(enc_event(ev).len() == 18);
        
}

/// Round trip for one record kind.
#[verifier::rlimit(60)]
proof fn lemma_round_trip_submit(e: SubmitEvent, rest: Seq<u8>)
    ensures
        dec_event(enc_submit(e) + rest, 0) == Some(
            (RecordedEvent::Submit(e), enc_submit(e).len() as int),
        ),
{
    let ev = RecordedEvent::Submit(e);
    let d = enc_submit(e) + rest;
    let n = d.len() as int;

            let t1 = vstd::bytes::spec_u64_to_le_bytes(e.frame_index)
                + vstd::bytes::spec_u64_to_le_bytes(e.submitted_at.0) + enc_opt_time(
                e.expected_present,
            ) + rest;
            assert(d.subrange(0, n) =~= seq![TAG_SUBMIT] + t1);
            lemma_dec_u8_prefix(d, 0, TAG_SUBMIT, t1);
            let t2 = vstd::bytes::spec_u64_to_le_bytes(e.submitted_at.0) + enc_opt_time(
                e.expected_present,
            ) + rest;
            assert(t1 =~= vstd::bytes::spec_u64_to_le_bytes(e.frame_index) + t2);
            lemma_dec_u64_prefix(d, 1, e.frame_index, t2);
            let t3 = enc_opt_time(e.expected_present) + rest;
            assert(t2 =~= vstd::bytes::spec_u64_to_le_bytes(e.submitted_at.0) + t3);
            lemma_dec_u64_prefix(d, 9, e.submitted_at.0, t3);
            lemma_dec_opt_time_prefix(d, 17, e.expected_present, rest);
            assert(enc_event(ev).len() == 26);
        
}

/// Round trip for one record kind.
#[verifier::rlimit(60)]
proof fn lemma_round_trip_present_feedback(e: PresentFeedbackEvent, rest: Seq<u8>)
    ensures
        dec_event(enc_present_feedback(e) + rest, 0) == Some(
            (RecordedEvent::PresentFeedback(e), enc_present_feedback(e).len() as int),
        ),
{
    let ev = RecordedEvent::PresentFeedback(e);
    let d = enc_present_feedback(e) + rest;
    let n = d.len() as int;

            let t1 = vstd::bytes::spec_u64_to_le_bytes(e.frame_index) + enc_opt_time(
                e.actual_present,
            ) + enc_opt_bool(e.missed_deadline) + rest;
            assert(d.subrange(0, n) =~= seq![TAG_PRESENT_FEEDBACK] + t1);
            lemma_dec_u8_prefix(d, 0, TAG_PRESENT_FEEDBACK, t1);
            let t2 = enc_opt_time(e.actual_present) + enc_opt_bool(e.missed_deadline) + rest;
            assert(t1 =~= vstd::bytes::spec_u64_to_le_bytes(e.frame_index) + t2);
            lemma_dec_u64_prefix(d, 1, e.frame_index, t2);
            let t3 = enc_opt_bool(e.missed_deadline) + rest;
            assert(t2 =~= enc_opt_time(e.actual_present) + t3);
            lemma_dec_opt_time_prefix(d, 9, e.actual_present, t3);
            lemma_dec_opt_bool_prefix(d, 18, e.missed_deadline, rest);
            assert(enc_event(ev).len() == 19);
        
}

/// Round trip for one record kind.
#[verifier::rlimit(100)]
proof fn lemma_round_trip_frame_summary(s: FrameSummary, rest: Seq<u8>)
    ensures
        dec_event(enc_frame_summary(s) + rest, 0) == Some(
            (RecordedEvent::FrameSummary(s), enc_frame_summary(s).len() as int),
        ),
{
    let d = enc_frame_summary(s) + rest;
    let n = d.len() as int;
    vstd::bytes::lemma_auto_spec_u64_to_from_le_bytes();
    vstd::bytes::lemma_auto_spec_u32_to_from_le_bytes();
    let missed_byte: u8 = if s.missed_deadline {
        1u8
    } else {
        0u8
    };
    let s13 = seq![missed_byte];
    let s12 = vstd::bytes::spec_u64_to_le_bytes(s.submit_ticks) + s13;
    let s11 = vstd::bytes::spec_u64_to_le_bytes(s.render_ticks) + s12;
    let s10 = vstd::bytes::spec_u64_to_le_bytes(s.eval_ticks) + s11;
    let s9 = vstd::bytes::spec_u64_to_le_bytes(s.plan_ticks) + s10;
    let s8 = seq![s.pipeline_depth] + s9;
    let s7 = vstd::bytes::spec_u64_to_le_bytes(s.deadline.0) + s8;
    let s6 = vstd::bytes::spec_u64_to_le_bytes(s.semantic_time.0) + s7;
    let s5 = enc_opt_time(s.present_time) + s6;
    let s4 = vstd::bytes::spec_u64_to_le_bytes(s.now.0) + s5;
    let s3 = enc_confidence(s.confidence) + s4;
    let s2 = vstd::bytes::spec_u32_to_le_bytes(s.output.0) + s3;
    let s1 = vstd::bytes::spec_u64_to_le_bytes(s.frame_index) + s2;
    assert(d.subrange(0, n) =~= d);
    vstd::seq_lib::lemma_concat_associative(seq![TAG_FRAME_SUMMARY], s1, rest);
    lemma_dec_u8_prefix(d, 0, TAG_FRAME_SUMMARY, s1 + rest);
    vstd::seq_lib::lemma_concat_associative(
        vstd::bytes::spec_u64_to_le_bytes(s.frame_index),
        s2,
        rest,
    );
    lemma_dec_u64_prefix(d, 1, s.frame_index, s2 + rest);
    vstd::seq_lib::lemma_concat_associative(
        vstd::bytes::spec_u32_to_le_bytes(s.output.0),
        s3,
        rest,
    );
    lemma_dec_u32_prefix(d, 9, s.output.0, s3 + rest);
    vstd::seq_lib::lemma_concat_associative(enc_confidence(s.confidence), s4, rest);
    lemma_dec_confidence_prefix(d, 13, s.confidence, s4 + rest);
    vstd::seq_lib::lemma_concat_associative(vstd::bytes::spec_u64_to_le_bytes(s.now.0), s5, rest);
    lemma_dec_u64_prefix(d, 14, s.now.0, s5 + rest);
    vstd::seq_lib::lemma_concat_associative(enc_opt_time(s.present_time), s6, rest);
    lemma_dec_opt_time_prefix(d, 22, s.present_time, s6 + rest);
    vstd::seq_lib::lemma_concat_associative(
        vstd::bytes::spec_u64_to_le_bytes(s.semantic_time.0),
        s7,
        rest,
    );
    lemma_dec_u64_prefix(d, 31, s.semantic_time.0, s7 + rest);
    vstd::seq_lib::lemma_concat_associative(
        vstd::bytes::spec_u64_to_le_bytes(s.deadline.0),
        s8,
        rest,
    );
    lemma_dec_u64_prefix(d, 39, s.deadline.0, s8 + rest);
    vstd::seq_lib::lemma_concat_associative(seq![s.pipeline_depth], s9, rest);
    lemma_dec_u8_prefix(d, 47, s.pipeline_depth, s9 + rest);
    vstd::seq_lib::lemma_concat_associative(
        vstd::bytes::spec_u64_to_le_bytes(s.plan_ticks),
        s10,
        rest,
    );
    lemma_dec_u64_prefix(d, 48, s.plan_ticks, s10 + rest);
    vstd::seq_lib::lemma_concat_associative(
        vstd::bytes::spec_u64_to_le_bytes(s.eval_ticks),
        s11,
        rest,
    );
    lemma_dec_u64_prefix(d, 56, s.eval_ticks, s11 + rest);
    vstd::seq_lib::lemma_concat_associative(
        vstd::bytes::spec_u64_to_le_bytes(s.render_ticks),
        s12,
        rest,
    );
    lemma_dec_u64_prefix(d, 64, s.render_ticks, s12 + rest);
    vstd::seq_lib::lemma_concat_associative(
        vstd::bytes::spec_u64_to_le_bytes(s.submit_ticks),
        s13,
        rest,
    );
    lemma_dec_u64_prefix(d, 72, s.submit_ticks, s13 + rest);
    lemma_dec_u8_prefix(d, 80, missed_byte, rest);
    assert(enc_frame_summary(s).len() == 81);
}


/// Round trip for one record kind.
#[verifier::rlimit(60)]
proof fn lemma_round_trip_layer_changes(frame_index: u64, count: u32, rest: Seq<u8>)
    ensures
        dec_event(enc_count_record(TAG_LAYER_CHANGES_COUNT, frame_index, count) + rest, 0) == Some(
            (RecordedEvent::LayerChangesCount { frame_index, count }, enc_count_record(TAG_LAYER_CHANGES_COUNT, frame_index, count).len() as int),
        ),
{
    let ev = RecordedEvent::LayerChangesCount { frame_index, count };
    let d = enc_count_record(TAG_LAYER_CHANGES_COUNT, frame_index, count) + rest;
    let n = d.len() as int;

            let t1 = vstd::bytes::spec_u64_to_le_bytes(frame_index)
                + vstd::bytes::spec_u32_to_le_bytes(count) + rest;
            assert(d.subrange(0, n) =~= seq![TAG_LAYER_CHANGES_COUNT] + t1);
            lemma_dec_u8_prefix(d, 0, TAG_LAYER_CHANGES_COUNT, t1);
            let t2 = vstd::bytes::spec_u32_to_le_bytes(count) + rest;
            assert(t1 =~= vstd::bytes::spec_u64_to_le_bytes(frame_index) + t2);
            lemma_dec_u64_prefix(d, 1, frame_index, t2);
            lemma_dec_u32_prefix(d, 9, count, rest);
            assert(enc_event(ev).len() == 13);
        
}

/// Round trip for one record kind.
#[verifier::rlimit(60)]
proof fn lemma_round_trip_damage_rects(frame_index: u64, count: u32, rest: Seq<u8>)
    ensures
        dec_event(enc_count_record(TAG_DAMAGE_RECTS_COUNT, frame_index, count) + rest, 0) == Some(
            (RecordedEvent::DamageRectsCount { frame_index, count }, enc_count_record(TAG_DAMAGE_RECTS_COUNT, frame_index, count).len() as int),
        ),
{
    let ev = RecordedEvent::DamageRectsCount { frame_index, count };
    let d = enc_count_record(TAG_DAMAGE_RECTS_COUNT, frame_index, count) + rest;
    let n = d.len() as int;

            let t1 = vstd::bytes::spec_u64_to_le_bytes(frame_index)
                + vstd::bytes::spec_u32_to_le_bytes(count) + rest;
            assert(d.subrange(0, n) =~= seq![TAG_DAMAGE_RECTS_COUNT] + t1);
            lemma_dec_u8_prefix(d, 0, TAG_DAMAGE_RECTS_COUNT, t1);
            let t2 = vstd::bytes::spec_u32_to_le_bytes(count) + rest;
            assert(t1 =~= vstd::bytes::spec_u64_to_le_bytes(frame_index) + t2);
            lemma_dec_u64_prefix(d, 1, frame_index, t2);
            lemma_dec_u32_prefix(d, 9, count, rest);
            assert(enc_event(ev).len() == 13);
        
}

/// Round trip: a record encoded by [`RecorderSink`] and decoded by
/// [`dec_event`] yields the event back, whatever bytes follow it. Every
/// field the schema preserves is recovered exactly; count records keep the
/// frame index and count.
pub proof fn lemma_encode_decode_round_trip(ev: RecordedEvent, rest: Seq<u8>)
    ensures
        dec_event(enc_event(ev) + rest, 0) == Some((ev, enc_event(ev).len() as int)),
{
    match ev {
        RecordedEvent::FrameTick(e) => lemma_round_trip_frame_tick(e, rest),
        RecordedEvent::FramePlan(e) => lemma_round_trip_frame_plan(e, rest),
        RecordedEvent::PhaseBegin(e) => lemma_round_trip_phase_begin(e, rest),
        RecordedEvent::PhaseEnd(e) => lemma_round_trip_phase_end(e, rest),
        RecordedEvent::Submit(e) => lemma_round_trip_submit(e, rest),
        RecordedEvent::PresentFeedback(e) => lemma_round_trip_present_feedback(e, rest),
        RecordedEvent::FrameSummary(s) => lemma_round_trip_frame_summary(s, rest),
        RecordedEvent::LayerChangesCount { frame_index, count } => lemma_round_trip_layer_changes(
            frame_index,
            count,
            rest,
        ),
        RecordedEvent::DamageRectsCount { frame_index, count } => lemma_round_trip_damage_rects(
            frame_index,
            count,
            rest,
        ),
    }
}

/// An empty recording decodes to nothing.
pub proof fn lemma_decode_empty()
    ensures
        dec_event(Seq::<u8>::empty(), 0) is None,
{
}

} // verus!
