//! The key-frame animation system: a recorder that collects key frames per
//! animated parameter, and the immutable player it is frozen into.

use vstd::prelude::*;
use crate::float_bits::{F32_SIGN, Float32, Float64, is_nan32, is_positive_finite64, total_key32};
use crate::interpol_value::{PseudoComplex, SpatialExtension};
use crate::key_frame::{
    ClosedKeyFrameList, KeyFrame, KeyFrameList, is_closing_of, is_latest_defined_time, is_latest_time,
    last_defined_time, seed_frame,
};
use crate::key_time::KeyTime;

verus! {

/// The values the animation system is seeded with at time 0.
///
/// The defaults mirror those of the iteration field interface, so an
/// unconfigured animation renders the same start frame as an unconfigured
/// field interface.
#[derive(Clone, Copy, Debug)]
pub struct AnimationStartConfiguration {
    pub exponent: u32,
    pub seed_real: Float64,
    pub seed_imag: Float64,
    pub center_point_real: Float64,
    pub center_point_imag: Float64,
    pub extension: Float64,
    pub max_iterations: u16,
    pub log_strength: Float32,
}

/// The bit pattern of the `f64` value `1.5`.
pub const DEFAULT_EXTENSION_BITS: u64 = 0x3FF8_0000_0000_0000u64;

impl Default for AnimationStartConfiguration {
    /// Exponent 2, seed 0, center 0, extension 1.5, 1000 iterations, no
    /// logarithmic color scaling.
    fn default() -> (r: Self)
        ensures
            r.exponent == 2,
            r.seed_real.0 == 0,
            r.seed_imag.0 == 0,
            r.center_point_real.0 == 0,
            r.center_point_imag.0 == 0,
            r.extension.0 == DEFAULT_EXTENSION_BITS,
            r.max_iterations == 1000,
            r.log_strength.0 == 0,
    {
        AnimationStartConfiguration {
            exponent: 2,
            seed_real: Float64::zero(),
            seed_imag: Float64::zero(),
            center_point_real: Float64::zero(),
            center_point_imag: Float64::zero(),
            extension: Float64(DEFAULT_EXTENSION_BITS),
            max_iterations: 1000,
            log_strength: Float32::zero(),
        }
    }
}

/// No frame whose time is not NaN is later than `time` in the total order.
pub open spec fn no_frame_after<T>(frames: Seq<KeyFrame<T>>, time: Float32) -> bool {
    forall|i: int|
        0 <= i < frames.len() && !is_nan32(frames[i].time.0.0) ==> (#[trigger] frames[i]).time.key()
            <= total_key32(time.0)
}

/// Some frame is at `time`.
pub open spec fn frame_at<T>(frames: Seq<KeyFrame<T>>, time: Float32) -> bool {
    exists|i: int| 0 <= i < frames.len() && (#[trigger] frames[i]).time.0.0 == time.0
}

/// A time not before the latest defined time of a track (both without a sign
/// bit, so their bit patterns compare as their values) bounds every frame of
/// it whose time is not NaN.
proof fn lemma_track_end_bounds<T>(frames: Seq<KeyFrame<T>>, end: KeyTime, max: Float32)
    requires
        is_latest_defined_time(end, frames),
        end.0.0 < F32_SIGN,
        max.0 < F32_SIGN,
        end.0.0 <= max.0,
    ensures
        no_frame_after(frames, max),
{
}

/// Mutable builder for an animation. Key frames are added per parameter;
/// [`AnimationRecorder::into_player`] freezes every track into an
/// [`AnimationPlayer`].
#[derive(Clone, Debug)]
pub struct AnimationRecorder {
    exponent: KeyFrameList<u32>,
    fractal_seed_value: KeyFrameList<PseudoComplex>,
    render_center_point: KeyFrameList<PseudoComplex>,
    extension: KeyFrameList<SpatialExtension>,
    max_iterations: KeyFrameList<u16>,
    log_strength_for_color: KeyFrameList<Float32>,
}

impl Default for AnimationRecorder {
    /// A recorder seeded with the default start configuration.
    fn default() -> (r: Self)
        ensures
            r.exponent_frames() == seq![seed_frame(2u32)],
            r.max_iterations_frames() == seq![seed_frame(1000u16)],
            r.extension_frames() == seq![seed_frame(SpatialExtension(Float64(DEFAULT_EXTENSION_BITS)))],
            r.seed_frames() == seq![seed_frame(PseudoComplex { real: Float64(0), imag: Float64(0) })],
            r.center_frames() == seq![seed_frame(PseudoComplex { real: Float64(0), imag: Float64(0) })],
            r.log_strength_frames() == seq![seed_frame(Float32(0))],
    {
        Self::new(AnimationStartConfiguration::default())
    }
}

/// The message of the error for an exponent below 2.
pub const EXPONENT_ERROR: &'static str = "exponent in key frame must be at least 2";

/// The message of the error for an extension that is not positive and finite.
pub const EXTENSION_ERROR: &'static str = "extension must be a finite value greater than 0";

impl AnimationRecorder {
    /// The exponent key frames, in the order they were set.
    pub closed spec fn exponent_frames(self) -> Seq<KeyFrame<u32>> {
        self.exponent.frames()
    }

    /// The Julia seed key frames, in the order they were set.
    pub closed spec fn seed_frames(self) -> Seq<KeyFrame<PseudoComplex>> {
        self.fractal_seed_value.frames()
    }

    /// The render center key frames, in the order they were set.
    pub closed spec fn center_frames(self) -> Seq<KeyFrame<PseudoComplex>> {
        self.render_center_point.frames()
    }

    /// The extension key frames, in the order they were set.
    pub closed spec fn extension_frames(self) -> Seq<KeyFrame<SpatialExtension>> {
        self.extension.frames()
    }

    /// The maximum iteration key frames, in the order they were set.
    pub closed spec fn max_iterations_frames(self) -> Seq<KeyFrame<u16>> {
        self.max_iterations.frames()
    }

    /// The color log strength key frames, in the order they were set.
    pub closed spec fn log_strength_frames(self) -> Seq<KeyFrame<Float32>> {
        self.log_strength_for_color.frames()
    }

    /// The recorder gets constructed with the start values set for time 0.
    pub fn new(config: AnimationStartConfiguration) -> (r: Self)
        ensures
            r.exponent_frames() == seq![seed_frame(config.exponent)],
            r.seed_frames() == seq![
                seed_frame(PseudoComplex { real: config.seed_real, imag: config.seed_imag }),
            ],
            r.center_frames() == seq![
                seed_frame(
                    PseudoComplex { real: config.center_point_real, imag: config.center_point_imag },
                ),
            ],
            r.extension_frames() == seq![seed_frame(SpatialExtension(config.extension))],
            r.max_iterations_frames() == seq![seed_frame(config.max_iterations)],
            r.log_strength_frames() == seq![seed_frame(config.log_strength)],
    {
        let exponent = KeyFrameList::new(config.exponent);
        let fractal_seed_value = KeyFrameList::new(
            PseudoComplex::new(config.seed_real, config.seed_imag),
        );
        let render_center_point = KeyFrameList::new(
            PseudoComplex::new(config.center_point_real, config.center_point_imag),
        );
        let extension = KeyFrameList::new(SpatialExtension(config.extension));
        let max_iterations = KeyFrameList::new(config.max_iterations);
        let log_strength_for_color = KeyFrameList::new(config.log_strength);
        AnimationRecorder {
            exponent,
            fractal_seed_value,
            render_center_point,
            extension,
            max_iterations,
            log_strength_for_color,
        }
    }

    /// No key frame of any track whose time is not NaN is later than `time`
    /// in the total order.
    pub open spec fn no_key_frame_after(self, time: Float32) -> bool {
        &&& no_frame_after(self.exponent_frames(), time)
        &&& no_frame_after(self.seed_frames(), time)
        &&& no_frame_after(self.center_frames(), time)
        &&& no_frame_after(self.extension_frames(), time)
        &&& no_frame_after(self.max_iterations_frames(), time)
        &&& no_frame_after(self.log_strength_frames(), time)
    }

    /// Some key frame of some track is at `time`.
    pub open spec fn has_key_frame_at(self, time: Float32) -> bool {
        ||| frame_at(self.exponent_frames(), time)
        ||| frame_at(self.seed_frames(), time)
        ||| frame_at(self.center_frames(), time)
        ||| frame_at(self.extension_frames(), time)
        ||| frame_at(self.max_iterations_frames(), time)
        ||| frame_at(self.log_strength_frames(), time)
    }

    /// All tracks but the exponent track are the same in `self` and `other`.
    pub open spec fn same_except_exponent(self, other: Self) -> bool {
        &&& self.seed_frames() == other.seed_frames()
        &&& self.center_frames() == other.center_frames()
        &&& self.extension_frames() == other.extension_frames()
        &&& self.max_iterations_frames() == other.max_iterations_frames()
        &&& self.log_strength_frames() == other.log_strength_frames()
    }

    /// Adds a key frame for the exponent in the iteration. The exponent must be
    /// at least 2; otherwise an `Err` is returned and no key frame is added.
    pub fn set_keyframe_exponent(&mut self, time: KeyTime, exponent: u32) -> (r: Result<
        (),
        &'static str,
    >)
        ensures
            r is Err <==> exponent < 2,
            r matches Err(message) ==> message == EXPONENT_ERROR,
            r is Err ==> *final(self) == *old(self),
            r is Ok ==> final(self).exponent_frames() == old(self).exponent_frames().push(
                KeyFrame { time, value: exponent },
            ),
            final(self).same_except_exponent(*old(self)),
    {
        if exponent < 2 {
            Err(EXPONENT_ERROR)
        } else {
            self.exponent.add_key_frame(time, exponent);
            Ok(())
        }
    }

    /// Adds a key frame for the Julia seed value.
    pub fn set_keyframe_fractal_seed_value(&mut self, time: KeyTime, real_part: Float64, imag_part: Float64)
        ensures
            final(self).seed_frames() == old(self).seed_frames().push(
                KeyFrame { time, value: PseudoComplex { real: real_part, imag: imag_part } },
            ),
            final(self).exponent_frames() == old(self).exponent_frames(),
            final(self).center_frames() == old(self).center_frames(),
            final(self).extension_frames() == old(self).extension_frames(),
            final(self).max_iterations_frames() == old(self).max_iterations_frames(),
            final(self).log_strength_frames() == old(self).log_strength_frames(),
    {
        self.fractal_seed_value.add_key_frame(time, PseudoComplex::new(real_part, imag_part));
    }

    /// Adds a key frame for the center point to render around.
    pub fn set_keyframe_render_center_point(&mut self, time: KeyTime, real_part: Float64, imag_part: Float64)
        ensures
            final(self).center_frames() == old(self).center_frames().push(
                KeyFrame { time, value: PseudoComplex { real: real_part, imag: imag_part } },
            ),
            final(self).exponent_frames() == old(self).exponent_frames(),
            final(self).seed_frames() == old(self).seed_frames(),
            final(self).extension_frames() == old(self).extension_frames(),
            final(self).max_iterations_frames() == old(self).max_iterations_frames(),
            final(self).log_strength_frames() == old(self).log_strength_frames(),
    {
        self.render_center_point.add_key_frame(time, PseudoComplex::new(real_part, imag_part));
    }

    /// Adds a key frame for the extension (zooming). The extension is
    /// interpolated in logarithmic space, so it must be a finite value greater
    /// than 0 (which also rules out NaN); otherwise an `Err` is returned and no
    /// key frame is added.
    pub fn set_keyframe_extension(&mut self, time: KeyTime, extension: Float64) -> (r: Result<
        (),
        &'static str,
    >)
        ensures
            r is Ok <==> is_positive_finite64(extension.0),
            r matches Err(message) ==> message == EXTENSION_ERROR,
            r is Err ==> *final(self) == *old(self),
            r is Ok ==> final(self).extension_frames() == old(self).extension_frames().push(
                KeyFrame { time, value: SpatialExtension(extension) },
            ),
            final(self).exponent_frames() == old(self).exponent_frames(),
            final(self).seed_frames() == old(self).seed_frames(),
            final(self).center_frames() == old(self).center_frames(),
            final(self).max_iterations_frames() == old(self).max_iterations_frames(),
            final(self).log_strength_frames() == old(self).log_strength_frames(),
    {
        if !extension.is_positive_finite() {
            return Err(EXTENSION_ERROR);
        }
        self.extension.add_key_frame(time, SpatialExtension(extension));
        Ok(())
    }

    /// Adds a key frame for the maximum number of iterations.
    pub fn set_keyframe_max_iterations(&mut self, time: KeyTime, max_iter: u16)
        ensures
            final(self).max_iterations_frames() == old(self).max_iterations_frames().push(
                KeyFrame { time, value: max_iter },
            ),
            final(self).exponent_frames() == old(self).exponent_frames(),
            final(self).seed_frames() == old(self).seed_frames(),
            final(self).center_frames() == old(self).center_frames(),
            final(self).extension_frames() == old(self).extension_frames(),
            final(self).log_strength_frames() == old(self).log_strength_frames(),
    {
        self.max_iterations.add_key_frame(time, max_iter);
    }

    /// Adds a key frame for the logarithmic color strength.
    pub fn set_keyframe_log_strength(&mut self, time: KeyTime, log_strength: Float32)
        ensures
            final(self).log_strength_frames() == old(self).log_strength_frames().push(
                KeyFrame { time, value: log_strength },
            ),
            final(self).exponent_frames() == old(self).exponent_frames(),
            final(self).seed_frames() == old(self).seed_frames(),
            final(self).center_frames() == old(self).center_frames(),
            final(self).extension_frames() == old(self).extension_frames(),
            final(self).max_iterations_frames() == old(self).max_iterations_frames(),
    {
        self.log_strength_for_color.add_key_frame(time, log_strength);
    }

    /// Consumes the builder, sorts every track and returns the immutable,
    /// queryable animation. Its end time is the latest key frame time over all
    /// tracks (NaN times aside), found as `f32::max` folds the track end times
    /// starting from 0.
    pub fn into_player(self) -> (r: AnimationPlayer)
        ensures
            is_closing_of(r.exponent_track().frames(), self.exponent_frames()),
            is_closing_of(r.fractal_seed_value_track().frames(), self.seed_frames()),
            is_closing_of(r.render_center_point_track().frames(), self.center_frames()),
            is_closing_of(r.extension_track().frames(), self.extension_frames()),
            is_closing_of(r.max_iterations_track().frames(), self.max_iterations_frames()),
            is_closing_of(r.log_strength_for_color_track().frames(), self.log_strength_frames()),
            r.spec_max_time() == latest_end_time(r.track_end_times()),
            self.no_key_frame_after(r.spec_max_time()),
            self.has_key_frame_at(r.spec_max_time()),
            is_latest_defined_time(last_defined_time(r.exponent_track().frames()), self.exponent_frames()),
            is_latest_defined_time(last_defined_time(r.fractal_seed_value_track().frames()), self.seed_frames()),
            is_latest_defined_time(
                last_defined_time(r.render_center_point_track().frames()),
                self.center_frames(),
            ),
            is_latest_defined_time(last_defined_time(r.extension_track().frames()), self.extension_frames()),
            is_latest_defined_time(
                last_defined_time(r.max_iterations_track().frames()),
                self.max_iterations_frames(),
            ),
            is_latest_defined_time(
                last_defined_time(r.log_strength_for_color_track().frames()),
                self.log_strength_frames(),
            ),
            is_latest_time(r.exponent_track().frames().last().time, self.exponent_frames()),
            is_latest_time(r.fractal_seed_value_track().frames().last().time, self.seed_frames()),
            is_latest_time(r.render_center_point_track().frames().last().time, self.center_frames()),
            is_latest_time(r.extension_track().frames().last().time, self.extension_frames()),
            is_latest_time(r.max_iterations_track().frames().last().time, self.max_iterations_frames()),
            is_latest_time(r.log_strength_for_color_track().frames().last().time, self.log_strength_frames()),
    {
        let exponent = self.exponent.into_closed();
        let fractal_seed_value = self.fractal_seed_value.into_closed();
        let render_center_point = self.render_center_point.into_closed();
        let extension = self.extension.into_closed();
        let max_iterations = self.max_iterations.into_closed();
        let log_strength_for_color = self.log_strength_for_color.into_closed();

        let end0 = exponent.max_time();
        let end1 = fractal_seed_value.max_time();
        let end2 = render_center_point.max_time();
        let end3 = extension.max_time();
        let end4 = max_iterations.max_time();
        let end5 = log_strength_for_color.max_time();
        let ends = [end0.0, end1.0, end2.0, end3.0, end4.0, end5.0];
        let max_time = fold_latest_end_time(&ends);
        proof {
            lemma_latest_end_time(ends@);
            lemma_track_end_bounds(self.exponent_frames(), end0, max_time);
            lemma_track_end_bounds(self.seed_frames(), end1, max_time);
            lemma_track_end_bounds(self.center_frames(), end2, max_time);
            lemma_track_end_bounds(self.extension_frames(), end3, max_time);
            lemma_track_end_bounds(self.max_iterations_frames(), end4, max_time);
            lemma_track_end_bounds(self.log_strength_frames(), end5, max_time);
            if max_time.0 == 0 {
                assert(ends@[0] == end0.0);
                assert(frame_at(self.exponent_frames(), max_time));
            } else {
                let k = choose|k: int| 0 <= k < ends@.len() && #[trigger] ends@[k] == max_time;
                if k == 0 {
                    assert(frame_at(self.exponent_frames(), max_time));
                }
                if k == 1 {
                    assert(frame_at(self.seed_frames(), max_time));
                }
                if k == 2 {
                    assert(frame_at(self.center_frames(), max_time));
                }
                if k == 3 {
                    assert(frame_at(self.extension_frames(), max_time));
                }
                if k == 4 {
                    assert(frame_at(self.max_iterations_frames(), max_time));
                }
                if k == 5 {
                    assert(frame_at(self.log_strength_frames(), max_time));
                }
            }
        }
        AnimationPlayer {
            exponent,
            fractal_seed_value,
            render_center_point,
            extension,
            max_iterations,
            log_strength_for_color,
            max_time,
        }
    }
}

/// The larger of two times that are not negative as `f32::max` picks it: a
/// NaN argument yields the other argument.
pub open spec fn max_end_time(acc: Float32, time: Float32) -> Float32 {
    if is_nan32(time.0) || time.0 <= acc.0 {
        acc
    } else {
        time
    }
}

/// `f32::max` folded over the end times, starting from `0.0`.
pub open spec fn latest_end_time(times: Seq<Float32>) -> Float32
    decreases times.len(),
{
    if times.len() == 0 {
        Float32(0)
    } else {
        max_end_time(latest_end_time(times.drop_last()), times.last())
    }
}

/// `f32::max` folded from `0.0` over times without a sign bit gives the
/// latest of them: it is not NaN, not before any of them that is not NaN, and
/// it is `0.0` or one of them.
pub proof fn lemma_latest_end_time(times: Seq<Float32>)
    requires
        forall|i: int| 0 <= i < times.len() ==> (#[trigger] times[i]).0 < F32_SIGN,
    ensures
        !is_nan32(latest_end_time(times).0),
        latest_end_time(times).0 < F32_SIGN,
        forall|i: int|
            0 <= i < times.len() && !is_nan32(times[i].0) ==> (#[trigger] times[i]).0
                <= latest_end_time(times).0,
        latest_end_time(times).0 == 0 || exists|i: int|
            0 <= i < times.len() && #[trigger] times[i] == latest_end_time(times),
    decreases times.len(),
{
    if times.len() > 0 {
        let front = times.drop_last();
        assert forall|i: int| 0 <= i < front.len() implies (#[trigger] front[i]).0 < F32_SIGN by {
            assert(front[i] == times[i]);
        }
        lemma_latest_end_time(front);
        let acc = latest_end_time(front);
        assert forall|i: int|
            0 <= i < times.len() && !is_nan32(times[i].0) implies (#[trigger] times[i]).0
                <= latest_end_time(times).0 by {
            if i < front.len() {
                assert(front[i] == times[i]);
            }
        }
        if latest_end_time(times).0 != 0 {
            if latest_end_time(times) == acc {
                let i = choose|i: int| 0 <= i < front.len() && #[trigger] front[i] == acc;
                assert(times[i] == front[i]);
            } else {
                assert(times[times.len() - 1] == latest_end_time(times));
            }
        }
    }
}

/// Folds `f32::max` over non-negative end times (sign bit clear), starting
/// from `0.0`. For such values the numeric order is the order of the bit
/// patterns, and a NaN is passed over.
fn fold_latest_end_time(times: &[Float32; 6]) -> (r: Float32)
    ensures
        r == latest_end_time(times@),
{
    let mut acc = Float32::zero();
    let mut i: usize = 0;
    while i < 6
        invariant
            0 <= i <= 6,
            times@.len() == 6,
            acc == latest_end_time(times@.take(i as int)),
        decreases 6 - i,
    {
        let time = times[i];
        proof {
            assert(times@.take(i + 1).drop_last() =~= times@.take(i as int));
        }
        if !time.is_nan() && acc.0 < time.0 {
            acc = time;
        }
        i = i + 1;
    }
    proof {
        assert(times@.take(6) =~= times@);
    }
    acc
}

/// Immutable, queryable animation produced by [`AnimationRecorder::into_player`].
#[derive(Debug)]
pub struct AnimationPlayer {
    exponent: ClosedKeyFrameList<u32>,
    fractal_seed_value: ClosedKeyFrameList<PseudoComplex>,
    render_center_point: ClosedKeyFrameList<PseudoComplex>,
    extension: ClosedKeyFrameList<SpatialExtension>,
    max_iterations: ClosedKeyFrameList<u16>,
    log_strength_for_color: ClosedKeyFrameList<Float32>,
    max_time: Float32,
}

impl AnimationPlayer {
    #[verifier::type_invariant]
    spec fn end_time_is_latest(self) -> bool {
        &&& self.track_end_times().len() == 6
        &&& forall|i: int|
            0 <= i < 6 ==> (#[trigger] self.track_end_times()[i]).0 < F32_SIGN && !is_nan32(
                self.track_end_times()[i].0,
            )
        &&& self.max_time == latest_end_time(self.track_end_times())
    }

    /// The closed `exponent` track.
    pub closed spec fn exponent_track(self) -> ClosedKeyFrameList<u32> {
        self.exponent
    }

    /// The closed `fractal_seed_value` track.
    pub closed spec fn fractal_seed_value_track(self) -> ClosedKeyFrameList<PseudoComplex> {
        self.fractal_seed_value
    }

    /// The closed `render_center_point` track.
    pub closed spec fn render_center_point_track(self) -> ClosedKeyFrameList<PseudoComplex> {
        self.render_center_point
    }

    /// The closed `extension` track.
    pub closed spec fn extension_track(self) -> ClosedKeyFrameList<SpatialExtension> {
        self.extension
    }

    /// The closed `max_iterations` track.
    pub closed spec fn max_iterations_track(self) -> ClosedKeyFrameList<u16> {
        self.max_iterations
    }

    /// The closed `log_strength_for_color` track.
    pub closed spec fn log_strength_for_color_track(self) -> ClosedKeyFrameList<Float32> {
        self.log_strength_for_color
    }

    /// The end time computed when the player was created.
    pub closed spec fn spec_max_time(self) -> Float32 {
        self.max_time
    }

    /// The end times of the six tracks: the latest key frame time of each
    /// that is not NaN.
    pub open spec fn track_end_times(self) -> Seq<Float32> {
        seq![
            last_defined_time(self.exponent_track().frames()).0,
            last_defined_time(self.fractal_seed_value_track().frames()).0,
            last_defined_time(self.render_center_point_track().frames()).0,
            last_defined_time(self.extension_track().frames()).0,
            last_defined_time(self.max_iterations_track().frames()).0,
            last_defined_time(self.log_strength_for_color_track().frames()).0,
        ]
    }

    /// The end time of the animation: the latest key frame time across all
    /// tracks. Useful as the total duration when rendering or looping.
    pub fn max_time(&self) -> (r: Float32)
        ensures
            r == self.spec_max_time(),
            r == latest_end_time(self.track_end_times()),
            !is_nan32(r.0),
            r.0 < F32_SIGN,
            forall|i: int| 0 <= i < 6 ==> (#[trigger] self.track_end_times()[i]).0 <= r.0,
            r.0 == 0 || exists|i: int| 0 <= i < 6 && #[trigger] self.track_end_times()[i] == r,
    {
        proof {
            use_type_invariant(self);
            lemma_latest_end_time(self.track_end_times());
        }
        self.max_time
    }

    /// The exponent track.
    pub fn exponent(&self) -> (r: &ClosedKeyFrameList<u32>)
        ensures
            *r == self.exponent_track(),
    {
        &self.exponent
    }

    /// The Julia seed track.
    pub fn fractal_seed_value(&self) -> (r: &ClosedKeyFrameList<PseudoComplex>)
        ensures
            *r == self.fractal_seed_value_track(),
    {
        &self.fractal_seed_value
    }

    /// The render center track.
    pub fn render_center_point(&self) -> (r: &ClosedKeyFrameList<PseudoComplex>)
        ensures
            *r == self.render_center_point_track(),
    {
        &self.render_center_point
    }

    /// The extension (zoom) track.
    pub fn extension(&self) -> (r: &ClosedKeyFrameList<SpatialExtension>)
        ensures
            *r == self.extension_track(),
    {
        &self.extension
    }

    /// The maximum iterations track.
    pub fn max_iterations(&self) -> (r: &ClosedKeyFrameList<u16>)
        ensures
            *r == self.max_iterations_track(),
    {
        &self.max_iterations
    }

    /// The color log strength track.
    pub fn log_strength_for_color(&self) -> (r: &ClosedKeyFrameList<Float32>)
        ensures
            *r == self.log_strength_for_color_track(),
    {
        &self.log_strength_for_color
    }
}

} // verus!
