//! What is decided about recorded sound: how it is cut into frames, how loud the speech
//! in it is, what of it is kept, and whether it may be sent to a speech model.
//!
//! A sample is a value that only the caller computes with. Where a sum or a mean of
//! samples is needed, the caller hands in the function that takes it.

use vstd::prelude::*;
use vstd::relations::total_ordering;
use vstd::seq_lib::lemma_multiset_commutative;
use vstd::slice::{slice_subrange, slice_to_vec};

verus! {

/// A loudness, or a factor by which sound is made louder: a number that is not negative,
/// held as the bit pattern that IEEE 754 gives it in single precision. Such patterns are
/// ordered as the numbers are.
#[derive(Clone, Copy, PartialEq, Eq, Structural, Debug)]
pub struct Loudness {
    pub key: u32,
}

/// Samples in a frame: 30 ms at 16 kHz.
pub const FRAME: usize = 480;

/// Frames kept before the first loud frame and after the last one: about half a second.
pub const MARGIN: usize = 16;

/// Samples kept for drawing.
pub const KEEP: usize = 4096;

/// The pattern of 0.005: below this speech level a recording holds no speech.
pub const MIN_SPEECH_LEVEL: u32 = 0x3ba3_d70a;

/// The pattern of 0.05: below this peak a recording holds no speech.
pub const MIN_SPEECH_PEAK: u32 = 0x3d4c_cccd;

/// The pattern of 1.
pub const UNCHANGED: u32 = 0x3f80_0000;

/// The pattern of 10: no recording is raised by more than this factor.
pub const MAX_GAIN: u32 = 0x4120_0000;

/// `f` gives `out` for the samples of `frame`.
pub open spec fn gives<S, T, F: Fn(&[S]) -> T>(f: F, frame: Seq<S>, out: T) -> bool {
    exists|x: &[S]| x@ == frame && #[trigger] call_ensures(f, (x,), out)
}

/// `f` can be called on any frame of 1 to `width` samples.
pub open spec fn accepts<S, T, F: Fn(&[S]) -> T>(f: F, width: int) -> bool {
    forall|x: &[S]| 0 < x@.len() <= width ==> #[trigger] call_requires(f, (x,))
}

/// How many frames of `width` samples there are, the last one possibly shorter.
pub open spec fn frame_count(len: nat, width: nat) -> nat {
    ((len + width - 1) / width as int) as nat
}

/// Frame `i` of the samples.
pub open spec fn frame_of<S>(s: Seq<S>, width: nat, i: int) -> Seq<S> {
    let end = (i + 1) * width;
    s.subrange(
        i * width,
        if end <= s.len() {
            end
        } else {
            s.len() as int
        },
    )
}

proof fn lemma_frames(len: nat, width: nat, i: nat)
    requires
        width > 0,
        i * width < len,
    ensures
        i < frame_count(len, width),
        (i + 1) * width == i * width + width,
        (i + 1) * width >= len ==> frame_count(len, width) == i + 1,
{
    assert((i + 1) * width == i * width + width) by (nonlinear_arith);
    assert(i < (len + width - 1) / (width as int)) by (nonlinear_arith)
        requires
            width > 0,
            i * width < len,
    ;
    if (i + 1) * width >= len {
        assert((len + width - 1) / (width as int) < i + 2) by (nonlinear_arith)
            requires
                width > 0,
                len <= i * width + width,
        ;
    }
}

/// Mixes interleaved channels down to one: each frame of one sample per channel becomes
/// its mean. A frame at the end that is not complete is kept. With one channel, or with
/// none, nothing is changed.
pub fn mix_to_mono<S, F: Fn(&[S]) -> S>(buffer: Vec<S>, channels: u16, mean: F) -> (r: Vec<S>)
    requires
        channels > 1 ==> accepts(mean, channels as int),
    ensures
        channels <= 1 ==> r@ == buffer@,
        channels > 1 ==> r@.len() == frame_count(buffer@.len(), channels as nat),
        channels > 1 ==> forall|i: int|
            0 <= i < r@.len() ==> gives(
                mean,
                frame_of(buffer@, channels as nat, i),
                #[trigger] r@[i],
            ),
{
    if channels <= 1 {
        return buffer;
    }
    let n: usize = buffer.len();
    let width: usize = channels as usize;
    let mut mono: Vec<S> = Vec::new();
    let mut start: usize = 0;
    proof {
        if n == 0 {
            assert((width - 1) / (width as int) == 0) by (nonlinear_arith)
                requires
                    width > 0,
            ;
        }
    }
    while start < n
        invariant
            n == buffer@.len(),
            width == channels,
            width > 1,
            accepts(mean, channels as int),
            start < n ==> start == mono@.len() * width,
            start <= n,
            start == n ==> mono@.len() == frame_count(n as nat, width as nat),
            forall|i: int|
                0 <= i < mono@.len() ==> gives(
                    mean,
                    frame_of(buffer@, width as nat, i),
                    #[trigger] mono@[i],
                ),
        decreases n - start,
    {
        let ghost k = mono@.len();
        proof {
            lemma_frames(n as nat, width as nat, k);
        }
        let end: usize = if n - start >= width {
            start + width
        } else {
            n
        };
        let frame = slice_subrange(buffer.as_slice(), start, end);
        assert(frame@ =~= frame_of(buffer@, width as nat, k as int));
        let m = mean(frame);
        assert(gives(mean, frame_of(buffer@, width as nat, k as int), m));
        mono.push(m);
        start = end;
    }
    mono
}

/// The newest `n` of the samples.
pub open spec fn newest<S>(s: Seq<S>, n: nat) -> Seq<S> {
    if s.len() > n {
        s.skip(s.len() - n)
    } else {
        s
    }
}

/// Adds samples to a store that keeps the newest few thousand and nothing older.
pub fn keep_recent<S: Copy>(store: &mut Vec<S>, chunk: &[S])
    ensures
        final(store)@ == newest(old(store)@ + chunk@, KEEP as nat),
{
    let mut i: usize = 0;
    while i < chunk.len()
        invariant
            i <= chunk@.len(),
            store@ == old(store)@ + chunk@.take(i as int),
        decreases chunk@.len() - i,
    {
        store.push(chunk[i]);
        i += 1;
        assert(old(store)@ + chunk@.take(i as int) =~= (old(store)@ + chunk@.take(i - 1)).push(
            chunk@[i - 1],
        ));
    }
    assert(chunk@.take(chunk@.len() as int) =~= chunk@);
    if store.len() > KEEP {
        let ghost all = store@;
        let surplus: usize = store.len() - KEEP;
        let tail = store.split_off(surplus);
        *store = tail;
        assert(store@ =~= all.skip(all.len() - KEEP));
    }
}

/// Samples that arrive in pieces leave in the store what they would leave in one piece.
pub proof fn pieces_are_kept_like_the_whole<S>(s: Seq<S>, a: Seq<S>, b: Seq<S>)
    ensures
        newest(newest(s + a, KEEP as nat) + b, KEEP as nat) == newest(s + (a + b), KEEP as nat),
        newest(s + a, KEEP as nat).len() <= KEEP,
{
    assert(s + (a + b) =~= (s + a) + b);
    assert(newest(newest(s + a, KEEP as nat) + b, KEEP as nat) =~= newest(
        (s + a) + b,
        KEEP as nat,
    ));
}

/// The levels in ascending order.
pub open spec fn ascending(levels: Seq<u32>) -> Seq<u32> {
    levels.sort_by(|a: u32, b: u32| a <= b)
}

/// The place, in ascending order, of the level that a tenth of the frames reach or exceed.
pub open spec fn rank(n: nat) -> nat {
    n * 9 / 10
}

/// The level one tenth from the top, or nothing where there is no frame.
pub open spec fn ranked(levels: Seq<u32>) -> u32 {
    if levels.len() == 0 {
        0
    } else {
        ascending(levels)[rank(levels.len()) as int]
    }
}

/// How many of the levels are above `x`.
pub open spec fn count_above(levels: Seq<u32>, x: u32) -> nat
    decreases levels.len(),
{
    if levels.len() == 0 {
        0
    } else {
        count_above(levels.drop_last(), x) + if levels.last() > x {
            1nat
        } else {
            0
        }
    }
}

proof fn lemma_count_add(a: Seq<u32>, b: Seq<u32>, x: u32)
    ensures
        count_above(a + b, x) == count_above(a, x) + count_above(b, x),
    decreases b.len(),
{
    if b.len() == 0 {
        assert(a + b =~= a);
    } else {
        lemma_count_add(a, b.drop_last(), x);
        assert((a + b).drop_last() =~= a + b.drop_last());
    }
}

proof fn lemma_count_permuted(a: Seq<u32>, b: Seq<u32>, x: u32)
    requires
        a.to_multiset() == b.to_multiset(),
    ensures
        a.len() == b.len(),
        count_above(a, x) == count_above(b, x),
    decreases a.len(),
{
    broadcast use vstd::seq_lib::group_to_multiset_ensures;

    assert(a.len() == a.to_multiset().len());
    assert(b.len() == b.to_multiset().len());
    if a.len() > 0 {
        let e = a.last();
        assert(a.contains(e));
        assert(b.to_multiset().count(e) > 0);
        assert(b.contains(e));
        let j = choose|j: int| 0 <= j < b.len() && b[j] == e;
        let front = b.take(j);
        let back = b.skip(j + 1);
        assert(b =~= front + seq![e] + back);
        assert(b.remove(j) =~= front + back);
        lemma_count_add(front + seq![e], back, x);
        lemma_count_add(front, seq![e], x);
        lemma_count_add(front, back, x);
        assert(seq![e].drop_last() =~= Seq::<u32>::empty());
        assert(count_above(seq![e], x) == if e > x {
            1nat
        } else {
            0
        }) by {
            assert(count_above(Seq::<u32>::empty(), x) == 0);
        }
        assert(a.drop_last() =~= a.remove(a.len() - 1));
        assert(a.remove(a.len() - 1).to_multiset() =~= a.to_multiset().remove(e));
        assert(b.remove(j).to_multiset() =~= b.to_multiset().remove(e));
        lemma_count_permuted(a.drop_last(), b.remove(j), x);
    }
}

proof fn lemma_count_sorted(s: Seq<u32>, k: int, x: u32)
    requires
        forall|i: int, j: int| 0 <= i <= j < s.len() ==> s[i] <= s[j],
        0 <= k < s.len(),
    ensures
        s[k] > x <==> count_above(s, x) >= s.len() - k,
    decreases s.len(),
{
    let init = s.drop_last();
    if k < init.len() {
        lemma_count_sorted(init, k, x);
        assert(init[k] == s[k]);
        lemma_count_bounded(init, x);
        if s[k] > x {
            assert(s.last() > x);
        }
    } else {
        lemma_count_bounded(init, x);
        if s[k] <= x {
            assert forall|i: int| 0 <= i < s.len() implies s[i] <= x by {
                assert(s[i] <= s[k]);
            }
            lemma_count_none(s, x);
        }
    }
}

proof fn lemma_count_bounded(s: Seq<u32>, x: u32)
    ensures
        count_above(s, x) <= s.len(),
    decreases s.len(),
{
    if s.len() > 0 {
        lemma_count_bounded(s.drop_last(), x);
    }
}

proof fn lemma_count_none(s: Seq<u32>, x: u32)
    requires
        forall|i: int| 0 <= i < s.len() ==> s[i] <= x,
    ensures
        count_above(s, x) == 0,
    decreases s.len(),
{
    if s.len() > 0 {
        assert forall|i: int| 0 <= i < s.drop_last().len() implies s.drop_last()[i] <= x by {
            assert(s[i] <= x);
        }
        lemma_count_none(s.drop_last(), x);
    }
}

proof fn lemma_ascending(levels: Seq<u32>)
    ensures
        ascending(levels).to_multiset() == levels.to_multiset(),
        ascending(levels).len() == levels.len(),
        forall|i: int, j: int|
            0 <= i <= j < levels.len() ==> ascending(levels)[i] <= ascending(levels)[j],
{
    let leq = |a: u32, b: u32| a <= b;
    assert(total_ordering(leq));
    levels.lemma_sort_by_ensures(leq);
    lemma_count_permuted(ascending(levels), levels, 0);
    assert forall|i: int, j: int| 0 <= i <= j < levels.len() implies ascending(levels)[i]
        <= ascending(levels)[j] by {
        if i < j {
            assert(leq(ascending(levels)[i], ascending(levels)[j]));
        }
    }
}

/// The level one tenth from the top is above `x` exactly where enough frames are: pauses
/// do not lower it, and one loud bang among many frames does not raise it.
pub proof fn a_tenth_of_the_frames_decides(levels: Seq<u32>, x: u32)
    requires
        levels.len() > 0,
    ensures
        ranked(levels) > x <==> count_above(levels, x) >= levels.len() - rank(levels.len()),
{
    lemma_ascending(levels);
    lemma_count_permuted(ascending(levels), levels, x);
    lemma_count_sorted(ascending(levels), rank(levels.len()) as int, x);
}

/// A single frame louder than all others does not decide the level of a recording that
/// has more than ten frames.
pub proof fn one_bang_is_not_speech(levels: Seq<u32>, x: u32)
    requires
        levels.len() > 10,
        count_above(levels, x) <= 1,
    ensures
        ranked(levels) <= x,
{
    a_tenth_of_the_frames_decides(levels, x);
}

fn merge(a: &Vec<u32>, b: &Vec<u32>) -> (r: Vec<u32>)
    requires
        forall|i: int, j: int| 0 <= i <= j < a@.len() ==> a@[i] <= a@[j],
        forall|i: int, j: int| 0 <= i <= j < b@.len() ==> b@[i] <= b@[j],
    ensures
        r@.to_multiset() == (a@ + b@).to_multiset(),
        forall|i: int, j: int| 0 <= i <= j < r@.len() ==> r@[i] <= r@[j],
{
    let mut out: Vec<u32> = Vec::new();
    let mut i: usize = 0;
    let mut j: usize = 0;
    proof {
        assert(out@ + (a@.skip(0) + b@.skip(0)) =~= a@ + b@);
    }
    while i < a.len() || j < b.len()
        invariant
            i <= a@.len(),
            j <= b@.len(),
            forall|p: int, q: int| 0 <= p <= q < a@.len() ==> a@[p] <= a@[q],
            forall|p: int, q: int| 0 <= p <= q < b@.len() ==> b@[p] <= b@[q],
            forall|p: int, q: int| 0 <= p <= q < out@.len() ==> out@[p] <= out@[q],
            forall|p: int, q: int|
                0 <= p < out@.len() && i <= q < a@.len() ==> #[trigger] out@[p]
                    <= #[trigger] a@[q],
            forall|p: int, q: int|
                0 <= p < out@.len() && j <= q < b@.len() ==> #[trigger] out@[p]
                    <= #[trigger] b@[q],
            (out@ + (a@.skip(i as int) + b@.skip(j as int))).to_multiset() == (a@
                + b@).to_multiset(),
        decreases a@.len() - i + (b@.len() - j),
    {
        let ghost before = out@;
        let ghost x = a@.skip(i as int);
        let ghost y = b@.skip(j as int);
        if j >= b.len() || (i < a.len() && a[i] <= b[j]) {
            out.push(a[i]);
            i += 1;
            proof {
                assert(x =~= seq![a@[i - 1]] + a@.skip(i as int));
                assert(out@ + (a@.skip(i as int) + y) =~= before + (x + y));
            }
        } else {
            out.push(b[j]);
            j += 1;
            proof {
                let e = seq![b@[j - 1]];
                let rest = b@.skip(j as int);
                assert(y =~= e + rest);
                assert(before + (x + y) =~= (before + x) + (e + rest));
                assert(out@ + (x + rest) =~= (before + e) + (x + rest));
                lemma_multiset_commutative(before + x, e + rest);
                lemma_multiset_commutative(before, x);
                lemma_multiset_commutative(e, rest);
                lemma_multiset_commutative(before + e, x + rest);
                lemma_multiset_commutative(before, e);
                lemma_multiset_commutative(x, rest);
                assert((out@ + (x + rest)).to_multiset() =~= (before + (x + y)).to_multiset());
            }
        }
    }
    proof {
        assert(out@ + (a@.skip(i as int) + b@.skip(j as int)) =~= out@);
    }
    out
}

fn sort(v: &[u32]) -> (r: Vec<u32>)
    ensures
        r@.to_multiset() == v@.to_multiset(),
        forall|i: int, j: int| 0 <= i <= j < r@.len() ==> r@[i] <= r@[j],
    decreases v@.len(),
{
    let n: usize = v.len();
    if n <= 1 {
        return slice_to_vec(v);
    }
    let half: usize = n / 2;
    let low = slice_subrange(v, 0, half);
    let high = slice_subrange(v, half, n);
    let a = sort(low);
    let b = sort(high);
    proof {
        assert(v@ =~= low@ + high@);
        lemma_multiset_commutative(low@, high@);
        lemma_multiset_commutative(a@, b@);
    }
    merge(&a, &b)
}

/// The level one tenth from the top.
pub fn rank_levels(levels: &[u32]) -> (r: u32)
    ensures
        r == ranked(levels@),
{
    let n: usize = levels.len();
    if n == 0 {
        return 0;
    }
    let sorted = sort(levels);
    let at: usize = n - 1 - (n - 1) / 10;
    proof {
        assert(at == rank(n as nat));
        lemma_count_permuted(sorted@, levels@, 0);
        let got = sorted@[at as int];
        let want = ranked(levels@);
        lemma_ascending(levels@);
        lemma_count_permuted(sorted@, levels@, got);
        lemma_count_permuted(sorted@, levels@, want);
        lemma_count_sorted(sorted@, at as int, got);
        lemma_count_sorted(sorted@, at as int, want);
        a_tenth_of_the_frames_decides(levels@, got);
        a_tenth_of_the_frames_decides(levels@, want);
    }
    sorted[at]
}

/// Each of the levels is what `measure` gives for its frame.
pub open spec fn measured<S, F: Fn(&[S]) -> Loudness>(
    measure: F,
    samples: Seq<S>,
    levels: Seq<u32>,
) -> bool {
    forall|i: int|
        0 <= i < levels.len() ==> gives(
            measure,
            frame_of(samples, FRAME as nat, i),
            Loudness { key: #[trigger] levels[i] },
        )
}

/// How many complete frames there are.
pub open spec fn full_frames(len: nat) -> nat {
    len / FRAME as nat
}

/// The level is how loud the spoken parts of a recording are: each complete frame is
/// measured, and the level one tenth from the top is taken.
pub open spec fn is_level<S, F: Fn(&[S]) -> Loudness>(
    measure: F,
    samples: Seq<S>,
    level: Loudness,
) -> bool {
    exists|levels: Seq<u32>|
        {
            &&& levels.len() == full_frames(samples.len())
            &&& #[trigger] measured(measure, samples, levels)
            &&& level.key == ranked(levels)
        }
}

/// How loud the spoken parts of a recording are. The recording is cut into frames, each
/// complete frame is measured, and the level one tenth from the top is the answer.
pub fn speech_level<S, F: Fn(&[S]) -> Loudness>(samples: &[S], measure: F) -> (r: Loudness)
    requires
        accepts(measure, FRAME as int),
    ensures
        is_level(measure, samples@, r),
{
    let n: usize = samples.len();
    let mut levels: Vec<u32> = Vec::new();
    let mut start: usize = 0;
    while n - start >= FRAME
        invariant
            n == samples@.len(),
            start <= n,
            start == levels@.len() * FRAME,
            accepts(measure, FRAME as int),
            measured(measure, samples@, levels@),
        decreases n - start,
    {
        let ghost k = levels@.len() as int;
        let ghost before = levels@;
        let frame = slice_subrange(samples, start, start + FRAME);
        assert(frame@ =~= frame_of(samples@, FRAME as nat, k));
        let level = measure(frame);
        assert(gives(measure, frame_of(samples@, FRAME as nat, k), level));
        levels.push(level.key);
        assert(measured(measure, samples@, levels@)) by {
            assert forall|i: int| 0 <= i < levels@.len() implies gives(
                measure,
                frame_of(samples@, FRAME as nat, i),
                Loudness { key: #[trigger] levels@[i] },
            ) by {
                if i < k {
                    assert(levels@[i] == before[i]);
                } else {
                    assert(Loudness { key: levels@[i] } == level);
                }
            }
        }
        start += FRAME;
    }
    assert(levels@.len() == n / FRAME);
    Loudness { key: rank_levels(&levels) }
}

/// The complete frames of a recording.
pub open spec fn frames<S>(samples: Seq<S>) -> Seq<Seq<S>> {
    Seq::new(full_frames(samples.len()), |i: int| frame_of(samples, FRAME as nat, i))
}

/// The order of the levels does not matter: the one that is taken is the same.
pub proof fn the_order_of_levels_does_not_matter(a: Seq<u32>, b: Seq<u32>)
    requires
        a.to_multiset() == b.to_multiset(),
    ensures
        ranked(a) == ranked(b),
{
    lemma_count_permuted(a, b, 0);
    if a.len() > 0 {
        let x = ranked(a);
        let y = ranked(b);
        lemma_count_permuted(a, b, x);
        lemma_count_permuted(a, b, y);
        a_tenth_of_the_frames_decides(a, x);
        a_tenth_of_the_frames_decides(a, y);
        a_tenth_of_the_frames_decides(b, x);
        a_tenth_of_the_frames_decides(b, y);
    }
}

/// The level that is taken is that of one of the frames; without a frame it is zero.
pub proof fn the_level_is_that_of_a_frame(levels: Seq<u32>)
    ensures
        levels.len() > 0 ==> levels.contains(ranked(levels)),
        levels.len() == 0 ==> ranked(levels) == 0,
{
    broadcast use vstd::seq_lib::group_to_multiset_ensures;

    if levels.len() > 0 {
        lemma_ascending(levels);
        assert(ascending(levels).contains(ranked(levels)));
        assert(ascending(levels).to_multiset().count(ranked(levels)) > 0);
    }
}

/// Arranges `levels`, which belong to `a`, as `b` arranges what `a` holds.
proof fn lemma_rearrange<A>(a: Seq<A>, b: Seq<A>, levels: Seq<u32>) -> (r: Seq<u32>)
    requires
        a.to_multiset() == b.to_multiset(),
        a.len() == levels.len(),
    ensures
        r.len() == b.len(),
        r.to_multiset() == levels.to_multiset(),
        forall|i: int|
            0 <= i < b.len() ==> exists|k: int|
                0 <= k < a.len() && a[k] == #[trigger] b[i] && levels[k] == r[i],
    decreases a.len(),
{
    broadcast use vstd::seq_lib::group_to_multiset_ensures;

    assert(a.len() == a.to_multiset().len());
    assert(b.len() == b.to_multiset().len());
    if b.len() == 0 {
        levels
    } else {
        let e = b.last();
        assert(b.contains(e));
        assert(a.to_multiset().count(e) > 0);
        assert(a.contains(e));
        let k = choose|k: int| 0 <= k < a.len() && a[k] == e;
        let rest = a.remove(k);
        let init = b.drop_last();
        assert(init =~= b.remove(b.len() - 1));
        assert(init.to_multiset() =~= b.to_multiset().remove(e));
        assert(rest.to_multiset() =~= a.to_multiset().remove(e));
        let shorter = levels.remove(k);
        let s = lemma_rearrange(rest, init, shorter);
        let r = s.push(levels[k]);
        assert(shorter.to_multiset() =~= levels.to_multiset().remove(levels[k]));
        assert(levels.contains(levels[k]));
        assert(levels.to_multiset().count(levels[k]) > 0);
        assert(r.to_multiset() =~= levels.to_multiset());
        assert forall|i: int| 0 <= i < b.len() implies exists|j: int|
            0 <= j < a.len() && a[j] == #[trigger] b[i] && levels[j] == r[i] by {
            if i < init.len() {
                assert(init[i] == b[i]);
                let j = choose|j: int|
                    0 <= j < rest.len() && rest[j] == init[i] && shorter[j] == s[i];
                if j < k {
                    assert(a[j] == b[i] && levels[j] == r[i]);
                } else {
                    assert(a[j + 1] == b[i] && levels[j + 1] == r[i]);
                }
            } else {
                assert(a[k] == b[i] && levels[k] == r[i]);
            }
        }
        r
    }
}

/// The order of the complete frames of a recording does not matter for its level, nor does
/// what follows the last of them: two recordings with the same complete frames, in whatever
/// order, have the same level.
pub proof fn the_level_depends_on_the_complete_frames_alone<S, F: Fn(&[S]) -> Loudness>(
    measure: F,
    a: Seq<S>,
    b: Seq<S>,
    level: Loudness,
)
    requires
        frames(a).to_multiset() == frames(b).to_multiset(),
        is_level(measure, a, level),
    ensures
        is_level(measure, b, level),
{
    broadcast use vstd::seq_lib::group_to_multiset_ensures;

    let levels = choose|levels: Seq<u32>|
        {
            &&& levels.len() == full_frames(a.len())
            &&& #[trigger] measured(measure, a, levels)
            &&& level.key == ranked(levels)
        };
    assert(frames(a).len() == frames(a).to_multiset().len());
    assert(frames(b).len() == frames(b).to_multiset().len());
    let other = lemma_rearrange(frames(a), frames(b), levels);
    the_order_of_levels_does_not_matter(levels, other);
    assert forall|i: int| 0 <= i < other.len() implies gives(
        measure,
        frame_of(b, FRAME as nat, i),
        Loudness { key: #[trigger] other[i] },
    ) by {
        assert(frames(b)[i] == frame_of(b, FRAME as nat, i));
        let k = choose|k: int|
            0 <= k < frames(a).len() && frames(a)[k] == frames(b)[i] && levels[k] == other[i];
        assert(frames(a)[k] == frame_of(a, FRAME as nat, k));
        assert(Loudness { key: levels[k] } == Loudness { key: other[i] });
    }
    assert(measured(measure, b, other));
}

/// What follows the last complete frame of a recording does not matter for its level.
pub proof fn the_incomplete_frame_does_not_matter<S, F: Fn(&[S]) -> Loudness>(
    measure: F,
    a: Seq<S>,
    b: Seq<S>,
    level: Loudness,
)
    requires
        full_frames(a.len()) == full_frames(b.len()),
        a.take(full_frames(a.len()) * FRAME as int) == b.take(full_frames(b.len()) * FRAME as int),
    ensures
        is_level(measure, a, level) <==> is_level(measure, b, level),
{
    let n = full_frames(a.len());
    let whole = n * FRAME as int;
    assert forall|i: int| 0 <= i < n implies frames(a)[i] == frames(b)[i] by {
        assert(frames(a)[i] =~= a.take(whole).subrange(i * FRAME, (i + 1) * FRAME));
        assert(frames(b)[i] =~= b.take(whole).subrange(i * FRAME, (i + 1) * FRAME));
    }
    assert(frames(a) =~= frames(b));
    if is_level(measure, a, level) {
        the_level_depends_on_the_complete_frames_alone(measure, a, b, level);
    }
    if is_level(measure, b, level) {
        the_level_depends_on_the_complete_frames_alone(measure, b, a, level);
    }
}

/// Whether a recording holds speech and may be sent to a speech model: its speech level
/// and its peak both reach their thresholds.
pub open spec fn is_speech(speech_level: Loudness, peak: Loudness) -> bool {
    speech_level.key >= MIN_SPEECH_LEVEL && peak.key >= MIN_SPEECH_PEAK
}

/// Tells whether a recording holds speech.
pub fn holds_speech(speech_level: Loudness, peak: Loudness) -> (r: bool)
    ensures
        r == is_speech(speech_level, peak),
{
    speech_level.key >= MIN_SPEECH_LEVEL && peak.key >= MIN_SPEECH_PEAK
}

/// The first loud frame from `i` on, or the number of frames.
pub open spec fn first_loud(loud: Seq<bool>, i: nat) -> nat
    decreases loud.len() - i,
{
    if i >= loud.len() || loud[i as int] {
        i
    } else {
        first_loud(loud, i + 1)
    }
}

/// One past the last loud frame below `n`, or zero.
pub open spec fn past_last_loud(loud: Seq<bool>, n: nat) -> nat
    decreases n,
{
    if n == 0 || loud[n - 1] {
        n
    } else {
        past_last_loud(loud, (n - 1) as nat)
    }
}

/// What is kept of a recording of `len` samples whose frames are loud or not: from the
/// margin before the first loud frame to the margin after the last one. Where no frame
/// is loud, everything is kept.
pub open spec fn kept_range(loud: Seq<bool>, len: nat) -> (int, int) {
    let first = first_loud(loud, 0);
    if first >= loud.len() {
        (0, len as int)
    } else {
        let end = (past_last_loud(loud, loud.len()) + MARGIN) * FRAME;
        (
            if first > MARGIN {
                (first - MARGIN) * FRAME
            } else {
                0
            },
            if end < len {
                end
            } else {
                len as int
            },
        )
    }
}

proof fn lemma_first_loud(loud: Seq<bool>, i: nat)
    requires
        i <= loud.len(),
    ensures
        i <= first_loud(loud, i) <= loud.len(),
        first_loud(loud, i) < loud.len() ==> loud[first_loud(loud, i) as int],
        forall|j: int| i <= j < first_loud(loud, i) ==> !#[trigger] loud[j],
    decreases loud.len() - i,
{
    if i < loud.len() && !loud[i as int] {
        lemma_first_loud(loud, i + 1);
    }
}

proof fn lemma_past_last_loud(loud: Seq<bool>, n: nat)
    requires
        n <= loud.len(),
    ensures
        past_last_loud(loud, n) <= n,
        past_last_loud(loud, n) > 0 ==> loud[past_last_loud(loud, n) - 1],
        forall|j: int| past_last_loud(loud, n) <= j < n ==> !#[trigger] loud[j],
    decreases n,
{
    if n > 0 && !loud[n - 1] {
        lemma_past_last_loud(loud, (n - 1) as nat);
    }
}

/// What is kept is one stretch of the recording that holds every loud frame whole, so a
/// pause between two loud frames is never cut; and at least the margin, or all there is,
/// is kept before the first loud frame and after the last one.
pub proof fn every_loud_frame_is_kept(loud: Seq<bool>, len: nat, i: int)
    requires
        loud.len() == frame_count(len, FRAME as nat),
        0 <= i < loud.len(),
        loud[i],
    ensures
        ({
            let (start, end) = kept_range(loud, len);
            let frame_end = if (i + 1) * FRAME < len {
                (i + 1) * FRAME
            } else {
                len as int
            };
            &&& 0 <= start < end <= len
            &&& start <= i * FRAME
            &&& frame_end <= end
            &&& start == 0 || start + MARGIN * FRAME <= i * FRAME
            &&& end == len || frame_end + MARGIN * FRAME <= end
        }),
{
    lemma_first_loud(loud, 0);
    lemma_past_last_loud(loud, loud.len());
    let first = first_loud(loud, 0);
    let past = past_last_loud(loud, loud.len());
    assert(first <= i) by {
        if first > i {
            assert(!loud[i]);
        }
    }
    assert(i < past) by {
        if i >= past {
            assert(!loud[i]);
        }
    }
}

/// Finds the stretch of a recording to keep.
pub fn find_kept_range(loud: &[bool], len: usize) -> (r: (usize, usize))
    requires
        loud@.len() == frame_count(len as nat, FRAME as nat),
    ensures
        (r.0 as int, r.1 as int) == kept_range(loud@, len as nat),
        r.0 <= r.1 <= len,
{
    let n: usize = loud.len();
    let mut first: usize = 0;
    while first < n && !loud[first]
        invariant
            n == loud@.len(),
            first <= n,
            first_loud(loud@, 0) == first_loud(loud@, first as nat),
        decreases n - first,
    {
        first += 1;
    }
    if first == n {
        return (0, len);
    }
    let mut past: usize = n;
    while !loud[past - 1]
        invariant
            n == loud@.len(),
            first < past <= n,
            loud@[first as int],
            past_last_loud(loud@, n as nat) == past_last_loud(loud@, past as nat),
        decreases past,
    {
        past -= 1;
    }
    proof {
        every_loud_frame_is_kept(loud@, len as nat, first as int);
    }
    let start: usize = if first > MARGIN {
        (first - MARGIN) * FRAME
    } else {
        0
    };
    let end: usize = if n - past <= MARGIN {
        len
    } else {
        (past + MARGIN) * FRAME
    };
    (start, end)
}

/// Each of the flags is what `is_loud` gives for its frame.
pub open spec fn flagged<S, F: Fn(&[S]) -> bool>(
    is_loud: F,
    samples: Seq<S>,
    loud: Seq<bool>,
) -> bool {
    &&& loud.len() == frame_count(samples.len(), FRAME as nat)
    &&& forall|i: int|
        0 <= i < loud.len() ==> gives(
            is_loud,
            frame_of(samples, FRAME as nat, i),
            #[trigger] loud[i],
        )
}

/// Cuts the quiet start and end off a recording whose speech level is `level`, and
/// tells how many samples went from the start. A recording without a speech level is
/// left as it is.
pub fn trim_quiet_edges<S: Copy, F: Fn(&[S]) -> bool>(
    samples: &mut Vec<S>,
    level: Loudness,
    is_loud: F,
) -> (cut: usize)
    requires
        accepts(is_loud, FRAME as int),
    ensures
        level.key == 0 ==> final(samples)@ == old(samples)@ && cut == 0,
        level.key > 0 ==> exists|loud: Seq<bool>|
            {
                &&& #[trigger] flagged(is_loud, old(samples)@, loud)
                &&& final(samples)@ == old(samples)@.subrange(
                    kept_range(loud, old(samples)@.len()).0,
                    kept_range(loud, old(samples)@.len()).1,
                )
                &&& cut == kept_range(loud, old(samples)@.len()).0
            },
{
    if level.key == 0 {
        return 0;
    }
    let n: usize = samples.len();
    let mut loud: Vec<bool> = Vec::new();
    let mut start: usize = 0;
    while start < n
        invariant
            samples@ == old(samples)@,
            n == samples@.len(),
            start <= n,
            start < n ==> start == loud@.len() * FRAME,
            start == n ==> loud@.len() == frame_count(n as nat, FRAME as nat),
            accepts(is_loud, FRAME as int),
            forall|i: int|
                0 <= i < loud@.len() ==> gives(
                    is_loud,
                    frame_of(samples@, FRAME as nat, i),
                    #[trigger] loud@[i],
                ),
        decreases n - start,
    {
        let ghost k = loud@.len();
        proof {
            lemma_frames(n as nat, FRAME as nat, k);
        }
        let end: usize = if n - start >= FRAME {
            start + FRAME
        } else {
            n
        };
        let frame = slice_subrange(samples.as_slice(), start, end);
        assert(frame@ =~= frame_of(samples@, FRAME as nat, k as int));
        let flag = is_loud(frame);
        assert(gives(is_loud, frame_of(samples@, FRAME as nat, k as int), flag));
        loud.push(flag);
        start = end;
    }
    assert(flagged(is_loud, old(samples)@, loud@));
    let (from, to) = find_kept_range(&loud, n);
    let kept = slice_to_vec(slice_subrange(samples.as_slice(), from, to));
    *samples = kept;
    from
}

/// The factor by which a recording is raised: `to_target` brings its speech to the level
/// of normal speech, `to_headroom` brings its loudest sample just below the limit, and
/// the smallest of the two and the largest factor allowed is taken. A recording that
/// holds no speech, or that is loud enough, is not raised.
pub open spec fn gain_of(
    level: Loudness,
    peak: Loudness,
    to_target: Loudness,
    to_headroom: Loudness,
) -> Option<Loudness> {
    let smaller = if to_target.key <= to_headroom.key {
        to_target.key
    } else {
        to_headroom.key
    };
    let gain = if smaller <= MAX_GAIN {
        smaller
    } else {
        MAX_GAIN
    };
    if level.key < MIN_SPEECH_LEVEL || peak.key == 0 || gain <= UNCHANGED {
        None
    } else {
        Some(Loudness { key: gain })
    }
}

/// Chooses the factor by which a recording is raised.
pub fn boost_quiet_audio(
    level: Loudness,
    peak: Loudness,
    to_target: Loudness,
    to_headroom: Loudness,
) -> (r: Option<Loudness>)
    ensures
        r == gain_of(level, peak, to_target, to_headroom),
{
    if level.key < MIN_SPEECH_LEVEL || peak.key == 0 {
        return None;
    }
    let smaller: u32 = if to_target.key <= to_headroom.key {
        to_target.key
    } else {
        to_headroom.key
    };
    let gain: u32 = if smaller <= MAX_GAIN {
        smaller
    } else {
        MAX_GAIN
    };
    if gain <= UNCHANGED {
        None
    } else {
        Some(Loudness { key: gain })
    }
}

/// A gain never turns a recording down, never takes its loudest sample past the limit
/// and never exceeds the largest factor allowed; an empty room, whose speech level is
/// below that of speech, is never raised.
pub proof fn a_gain_stays_within_its_limits(
    level: Loudness,
    peak: Loudness,
    to_target: Loudness,
    to_headroom: Loudness,
)
    ensures
        gain_of(level, peak, to_target, to_headroom) matches Some(gain) ==> {
            &&& UNCHANGED < gain.key <= MAX_GAIN
            &&& gain.key <= to_headroom.key
            &&& gain.key <= to_target.key
        },
        level.key < MIN_SPEECH_LEVEL ==> gain_of(level, peak, to_target, to_headroom) is None,
{
}

/// What is kept of a recording is the loud frames and what lies between them, with a margin
/// of sixteen frames, about half a second, on either side, as far as there is so much: not
/// less, and not more. Where no frame is loud, everything is kept.
pub proof fn the_margin_is_kept_and_no_more(loud: Seq<bool>, len: nat, first: int, last: int)
    requires
        loud.len() == frame_count(len, FRAME as nat),
        0 <= first <= last < loud.len(),
        loud[first] && loud[last],
        forall|i: int| 0 <= i < first ==> !#[trigger] loud[i],
        forall|i: int| last < i < loud.len() ==> !#[trigger] loud[i],
    ensures
        ({
            let (start, end) = kept_range(loud, len);
            let frame_end = if (last + 1) * 480 < len {
                (last + 1) * 480
            } else {
                len as int
            };
            &&& 0 <= start <= first * 480
            &&& start == 0 || first * 480 - start == 16 * 480
            &&& start == 0 ==> first <= 16
            &&& frame_end <= end <= len
            &&& end == len || end - (last + 1) * 480 == 16 * 480
            &&& end == len ==> len <= (last + 1) * 480 + 16 * 480
        }),
{
    lemma_first_loud(loud, 0);
    lemma_past_last_loud(loud, loud.len());
    let f = first_loud(loud, 0) as int;
    let p = past_last_loud(loud, loud.len()) as int;
    assert(f == first) by {
        if f < first {
            assert(!loud[f]);
        }
        if f > first {
            assert(!loud[first]);
        }
    }
    assert(p == last + 1) by {
        if p > last + 1 {
            assert(!loud[p - 1]);
        }
        if p <= last {
            assert(!loud[last]);
        }
    }
    every_loud_frame_is_kept(loud, len, first);
    every_loud_frame_is_kept(loud, len, last);
}

/// A recording in which no frame is loud is kept whole.
pub proof fn without_a_loud_frame_everything_is_kept(loud: Seq<bool>, len: nat)
    requires
        forall|i: int| 0 <= i < loud.len() ==> !#[trigger] loud[i],
    ensures
        kept_range(loud, len) == (0int, len as int),
{
    lemma_first_loud(loud, 0);
}

/// The frames make up the samples: each sample stands in the frame of its place, every frame
/// but the last is full, and the last one is not empty.
pub proof fn frames_make_up_the_samples<S>(s: Seq<S>, width: nat, at: int)
    requires
        width > 0,
        0 <= at < s.len(),
    ensures
        ({
            let n = frame_count(s.len(), width);
            let i = at / width as int;
            &&& 0 <= i < n
            &&& frame_of(s, width, i).len() == (if i + 1 < n {
                width as int
            } else {
                s.len() - i * width
            })
            &&& 0 <= at % (width as int) < frame_of(s, width, i).len()
            &&& frame_of(s, width, i)[at % (width as int)] == s[at]
            &&& (n - 1) * width < s.len() <= n * width
        }),
{
    let w = width as int;
    let len = s.len() as int;
    let i = at / w;
    let n = frame_count(s.len(), width) as int;
    assert(at == i * w + at % w && 0 <= at % w < w && 0 <= i) by (nonlinear_arith)
        requires
            w > 0,
            at >= 0,
            i == at / w,
    ;
    assert((n - 1) * w < len <= n * w) by (nonlinear_arith)
        requires
            w > 0,
            len > 0,
            n == (len + w - 1) / w,
    ;
    assert(i < n) by (nonlinear_arith)
        requires
            w > 0,
            i * w <= at,
            at < len,
            len <= n * w,
    ;
    assert((i + 1) * w == i * w + w) by (nonlinear_arith);
    if i + 1 < n {
        assert((i + 1) * w <= (n - 1) * w) by (nonlinear_arith)
            requires
                w > 0,
                i + 1 <= n - 1,
        ;
    } else {
        assert(n * w == (i + 1) * w) by (nonlinear_arith)
            requires
                n == i + 1,
        ;
    }
}

/// The store keeps the end of what came, all of it up to 4096 samples.
pub proof fn the_store_keeps_the_newest<S>(s: Seq<S>, chunk: Seq<S>)
    ensures
        ({
            let all = s + chunk;
            let kept = newest(all, KEEP as nat);
            &&& kept.len() == (if all.len() <= 4096 {
                all.len() as int
            } else {
                4096int
            })
            &&& forall|i: int|
                0 <= i < kept.len() ==> #[trigger] kept[i] == all[all.len() - kept.len() + i]
        }),
{
}

/// How many of the levels reach `x`.
pub open spec fn count_reaching(levels: Seq<u32>, x: u32) -> nat
    decreases levels.len(),
{
    if levels.len() == 0 {
        0
    } else {
        count_reaching(levels.drop_last(), x) + if levels.last() >= x {
            1nat
        } else {
            0
        }
    }
}

proof fn lemma_reaching(levels: Seq<u32>, x: u32)
    requires
        x > 0,
    ensures
        count_reaching(levels, x) == count_above(levels, (x - 1) as u32),
    decreases levels.len(),
{
    if levels.len() > 0 {
        lemma_reaching(levels.drop_last(), x);
    }
}

proof fn lemma_all_reach(levels: Seq<u32>)
    ensures
        count_reaching(levels, 0) == levels.len(),
    decreases levels.len(),
{
    if levels.len() > 0 {
        lemma_all_reach(levels.drop_last());
    }
}

/// Less than a tenth of the frames are louder than the level of a recording, and at least a
/// tenth of them reach it.
pub proof fn a_tenth_of_the_frames_reaches_the_level(levels: Seq<u32>)
    requires
        levels.len() > 0,
    ensures
        10 * count_above(levels, ranked(levels)) < levels.len(),
        10 * count_reaching(levels, ranked(levels)) >= levels.len(),
{
    let r = ranked(levels);
    a_tenth_of_the_frames_decides(levels, r);
    if r > 0 {
        lemma_reaching(levels, r);
        a_tenth_of_the_frames_decides(levels, (r - 1) as u32);
    } else {
        lemma_all_reach(levels);
    }
}

/// A recording has a level of the frames that it holds whole: nothing shorter counts, and no
/// whole frame is left out.
pub proof fn every_whole_frame_counts(len: nat)
    ensures
        full_frames(len) * 480 <= len < (full_frames(len) + 1) * 480,
{
}

/// Speech needs both: a level of 0.005 and a peak of 0.05, given by their patterns. What is
/// louder than speech is speech.
pub proof fn speech_is_loud_in_both_ways(level: Loudness, peak: Loudness, more: Loudness)
    ensures
        level.key < 0x3ba3_d70a ==> !is_speech(level, peak),
        peak.key < 0x3d4c_cccd ==> !is_speech(level, peak),
        is_speech(Loudness { key: 0x3ba3_d70a }, Loudness { key: 0x3d4c_cccd }),
        is_speech(level, peak) && more.key >= level.key ==> is_speech(more, peak),
        is_speech(level, peak) && more.key >= peak.key ==> is_speech(level, more),
{
}

/// A quiet recording is raised as far as it may be: by the factor that brings its speech to
/// normal, by the one that brings its peak to the limit, or tenfold, whichever is least; and
/// it is left alone only where it holds no speech, has no peak, or would not grow.
pub proof fn quiet_speech_is_raised_as_far_as_it_may_be(
    level: Loudness,
    peak: Loudness,
    to_target: Loudness,
    to_headroom: Loudness,
)
    ensures
        gain_of(level, peak, to_target, to_headroom) matches Some(gain) ==> {
            &&& gain.key == to_target.key || gain.key == to_headroom.key || gain.key == 0x4120_0000
            &&& gain.key <= to_target.key
            &&& gain.key <= to_headroom.key
            &&& gain.key <= 0x4120_0000
        },
        gain_of(level, peak, to_target, to_headroom) is Some <==> {
            &&& level.key >= 0x3ba3_d70a
            &&& peak.key > 0
            &&& to_target.key > 0x3f80_0000
            &&& to_headroom.key > 0x3f80_0000
        },
{
}

} // verus!
