//! Density curves over a sample, and resampling from one.
use vstd::prelude::*;
use rand::rngs::StdRng;
use rand::{Rng, SeedableRng};
use crate::binary64::{
    all_finite, are_finite, are_not_negative, is_positive, none_negative, positive,
};
use crate::error::InvalidInput;
use crate::stable_sort::{
    arrange, arranged, ascending, lemma_order_exists, lemma_sorts_ascending, order_of, sorted,
    stable_order,
};

verus! {

/// A density curve: points `(x, y)` by ascending `x`, held as the sequence
/// of their abscissae and the sequence of their ordinates, all of them
/// binary64 patterns.
///
/// Every curve has as many ordinates as abscissae, its abscissae are finite,
/// and they never descend.
#[derive(Debug)]
pub struct PdfCurve {
    xs: Vec<u64>,
    ys: Vec<u64>,
}

impl PdfCurve {
    #[verifier::type_invariant]
    spec fn well_formed(self) -> bool {
        &&& self.xs@.len() == self.ys@.len()
        &&& all_finite(self.xs@)
        &&& ascending(self.xs@)
    }

    /// The abscissae of the points, in the order of the curve.
    pub closed spec fn abscissae(self) -> Seq<u64> {
        self.xs@
    }

    /// The ordinates of the points, in the order of the curve.
    pub closed spec fn ordinates(self) -> Seq<u64> {
        self.ys@
    }

    /// The curve through the points `(xs[i], ys[i])`, which may come in any
    /// order. Points with numerically equal abscissae keep the order in which
    /// they came.
    ///
    /// The two sequences have to be of one length, and the abscissae finite:
    /// a NaN has no place in an order, and an infinity is no sample.
    pub fn new(xs: Vec<u64>, ys: Vec<u64>) -> (r: Result<PdfCurve, InvalidInput>)
        ensures
            xs@.len() != ys@.len() ==> r == Err::<PdfCurve, InvalidInput>(
                InvalidInput::LengthMismatch,
            ),
            xs@.len() == ys@.len() && !all_finite(xs@) ==> r == Err::<PdfCurve, InvalidInput>(
                InvalidInput::NonFinite,
            ),
            xs@.len() == ys@.len() && all_finite(xs@) ==> r is Ok,
            r matches Ok(curve) ==> {
                &&& curve.abscissae() == sorted(xs@)
                &&& curve.ordinates() == arrange(ys@, order_of(xs@))
                &&& curve.ordinates().len() == curve.abscissae().len()
                &&& ascending(curve.abscissae())
            },
    {
        if xs.len() != ys.len() {
            return Err(InvalidInput::LengthMismatch);
        }
        if !are_finite(&xs) {
            return Err(InvalidInput::NonFinite);
        }
        let p = stable_order(&xs);
        let sorted_xs = arranged(&xs, &p);
        let sorted_ys = arranged(&ys, &p);
        proof {
            lemma_sorts_ascending(xs@, p@);
        }
        Ok(PdfCurve { xs: sorted_xs, ys: sorted_ys })
    }

    /// The abscissae of the curve, ascending.
    pub fn xs(&self) -> (r: &Vec<u64>)
        ensures
            r@ == self.abscissae(),
            r@.len() == self.ordinates().len(),
            all_finite(r@),
            ascending(r@),
    {
        proof {
            use_type_invariant(self);
        }
        &self.xs
    }

    /// The ordinates of the curve, each at the place of its abscissa.
    pub fn ys(&self) -> (r: &Vec<u64>)
        ensures
            r@ == self.ordinates(),
            r@.len() == self.abscissae().len(),
    {
        proof {
            use_type_invariant(self);
        }
        &self.ys
    }
}

/// The density curve of a kernel density estimate: the point
/// `(samples[i], densities[i])` for each sample, by ascending sample.
///
/// `densities[i]` is the estimate at `samples[i]`, made with the bandwidth
/// `bandwidth`. A bandwidth that is not above zero spreads no kernel, and is
/// refused before the points are looked at. A density is a number not below
/// zero; a sequence that holds anything else is refused last.
pub fn samples_to_continuous_pdf(samples: Vec<u64>, bandwidth: u64, densities: Vec<u64>) -> (r:
    Result<PdfCurve, InvalidInput>)
    ensures
        r matches Err(e) ==> e == refusal(samples@, bandwidth, densities@),
        r is Ok <==> {
            &&& positive(bandwidth)
            &&& samples@.len() == densities@.len()
            &&& all_finite(samples@)
            &&& none_negative(densities@)
        },
        r matches Ok(curve) ==> {
            &&& curve.abscissae() == sorted(samples@)
            &&& curve.ordinates() == arrange(densities@, order_of(samples@))
            &&& curve.ordinates().len() == curve.abscissae().len()
            &&& ascending(curve.abscissae())
            &&& none_negative(curve.ordinates())
        },
{
    if !is_positive(bandwidth) {
        return Err(InvalidInput::NonPositiveBandwidth);
    }
    if samples.len() != densities.len() {
        return Err(InvalidInput::LengthMismatch);
    }
    if !are_finite(&samples) {
        return Err(InvalidInput::NonFinite);
    }
    if !are_not_negative(&densities) {
        return Err(InvalidInput::NegativeDensity);
    }
    proof {
        lemma_order_exists(samples@);
        assert(none_negative(arrange(densities@, order_of(samples@))));
    }
    PdfCurve::new(samples, densities)
}

/// Why [`samples_to_continuous_pdf`] refuses what it refuses: the first of
/// its demands that is not met.
pub open spec fn refusal(samples: Seq<u64>, bandwidth: u64, densities: Seq<u64>) -> InvalidInput {
    if !positive(bandwidth) {
        InvalidInput::NonPositiveBandwidth
    } else if samples.len() != densities.len() {
        InvalidInput::LengthMismatch
    } else if !all_finite(samples) {
        InvalidInput::NonFinite
    } else {
        InvalidInput::NegativeDensity
    }
}

/// `v` is a resample of the size `n` from `xs`: it has `n` elements, or none
/// where `n` is below zero, and each of them is an element of `xs`.
pub open spec fn resamples<T>(xs: Seq<T>, n: int, v: Seq<T>) -> bool {
    &&& v.len() == if n > 0 {
        n
    } else {
        0
    }
    &&& forall|i: int| 0 <= i < v.len() ==> xs.contains(#[trigger] v[i])
}

/// One index below `bound`, drawn by `rand`'s generator of the calling thread
/// through `Rng::gen_range` on the range `0..bound`. The draw is uniform; what
/// is claimed of it here is only that it lies in the range. An empty range
/// makes `gen_range` panic, so `bound` has to be above zero.
#[verifier::external_body]
fn draw_below(bound: usize) -> (index: usize)
    requires
        bound > 0,
    ensures
        index < bound,
{
    rand::thread_rng().gen_range(0..bound)
}

/// `rand`'s standard generator. What it holds is not looked into: it is only
/// handed from one draw to the next.
#[verifier::external_type_specification]
#[verifier::external_body]
pub struct ExStdRng(rand::rngs::StdRng);

/// The generator that `rand` starts from the seed `seed`.
pub uninterp spec fn seeded_state(seed: u64) -> StdRng;

/// The generator that `SeedableRng::seed_from_u64` makes of `seed`. It is
/// claimed to be a function of the seed and of nothing else: the seed is
/// stretched to a key by a fixed sequence of multiplications and shifts, and
/// the generator is set up from that key. What the generator then holds is
/// not said.
#[verifier::external_body]
fn standard_generator(seed: u64) -> (rng: StdRng)
    ensures
        rng == seeded_state(seed),
{
    StdRng::seed_from_u64(seed)
}

/// What a draw below `bound` makes of a generator in the state `state`:
/// the index drawn, and the state that the generator is in afterwards.
pub uninterp spec fn draw(state: StdRng, bound: usize) -> (usize, StdRng);

/// One index below `bound`, drawn from `rng` through `Rng::gen_range`.
///
/// The draw is made on the range `0..bound` of 64-bit numbers, whatever the
/// width of a machine word, and the index is converted back: `gen_range`
/// consumes as many bits as the type of its range has. It is claimed that the
/// index lies below `bound`, and that the index and the state in which `rng`
/// is left are functions of the state in which `rng` came and of `bound`:
/// the generator is a stream cipher run from its key, and nothing else enters
/// a draw. `bound` has to be above zero, since `gen_range` panics on an empty
/// range.
#[verifier::external_body]
fn draw_below_from(rng: &mut StdRng, bound: usize) -> (index: usize)
    requires
        bound > 0,
    ensures
        index < bound,
        index == draw(*old(rng), bound).0,
        *final(rng) == draw(*old(rng), bound).1,
{
    let drawn: u64 = rng.gen_range(0..bound as u64);
    drawn as usize
}

/// The index that a generator in the state `state` draws below `bound`.
pub open spec fn drawn_index(state: StdRng, bound: usize) -> usize {
    draw(state, bound).0
}

/// The state of a generator after a draw below `bound` made in the state
/// `state`.
pub open spec fn state_after(state: StdRng, bound: usize) -> StdRng {
    draw(state, bound).1
}

/// The state of a generator after `count` draws below `bound`, the first of
/// them made in the state `state`.
pub open spec fn state_after_draws(state: StdRng, bound: usize, count: nat) -> StdRng
    decreases count,
{
    if count == 0 {
        state
    } else {
        state_after(state_after_draws(state, bound, (count - 1) as nat), bound)
    }
}

/// The indices that `count` draws below `bound` yield one after the other,
/// the first of them made in the state `state`.
pub open spec fn draws(state: StdRng, bound: usize, count: nat) -> Seq<usize> {
    Seq::new(count, |i: int| drawn_index(state_after_draws(state, bound, i as nat), bound))
}

/// A source of draws that the caller owns: started from a seed, and advanced
/// by every draw made from it. Two generators started from one seed make the
/// same draws, which two calls on the generator of the thread never do.
pub struct Generator {
    state: StdRng,
}

impl View for Generator {
    type V = StdRng;

    /// The state that the next draw starts from.
    closed spec fn view(&self) -> StdRng {
        self.state
    }
}

impl Generator {
    /// The generator that starts from `seed`: no draw has been made from it,
    /// and it is the same generator for the same seed.
    pub fn from_seed(seed: u64) -> (r: Generator)
        ensures
            r@ == seeded_state(seed),
    {
        Generator { state: standard_generator(seed) }
    }

    /// One index below `bound`, uniform over the indices: the index that the
    /// state of the generator yields, which moves the generator on to its
    /// next state. There is none where there is no index below `bound`, and
    /// then the generator is left as it was.
    pub fn draw_below(&mut self, bound: usize) -> (r: Option<usize>)
        ensures
            bound == 0 ==> r is None && *final(self) == *old(self),
            bound > 0 ==> r == Some(drawn_index(old(self)@, bound)),
            bound > 0 ==> final(self)@ == state_after(old(self)@, bound),
            r matches Some(index) ==> index < bound,
    {
        if bound == 0 {
            None
        } else {
            Some(draw_below_from(&mut self.state, bound))
        }
    }
}

/// What is taken from `xs` at places within it is a resample of `xs`.
proof fn lemma_arrange_resamples<T>(xs: Seq<T>, indices: Seq<usize>)
    requires
        forall|i: int| 0 <= i < indices.len() ==> (#[trigger] indices[i]) < xs.len(),
    ensures
        resamples(xs, indices.len() as int, arrange(xs, indices)),
{
    let v = arrange(xs, indices);
    assert forall|i: int| 0 <= i < v.len() implies xs.contains(#[trigger] v[i]) by {
        assert(v[i] == xs[indices[i] as int]);
    }
}

/// The resample of `xs` that the draws `indices` make: for each draw, in
/// order, the element of `xs` at that index. There is none where a draw
/// points outside `xs`.
pub fn sample_at<T: Copy>(xs: &Vec<T>, indices: &Vec<usize>) -> (r: Option<Vec<T>>)
    ensures
        r is Some <==> forall|i: int|
            0 <= i < indices@.len() ==> (#[trigger] indices@[i]) < xs@.len(),
        r matches Some(v) ==> v@ == arrange(xs@, indices@),
{
    let mut i: usize = 0;
    while i < indices.len()
        invariant
            i <= indices@.len(),
            forall|k: int| 0 <= k < i ==> (#[trigger] indices@[k]) < xs@.len(),
        decreases indices@.len() - i,
    {
        if indices[i] >= xs.len() {
            return None;
        }
        i = i + 1;
    }
    Some(arranged(xs, indices))
}

/// `n` draws from `xs`, each uniform over its elements and independent of
/// the others, so that an element may come more than once. They are made by
/// the generator of the calling thread.
///
/// A count of zero or less asks for nothing and gets the empty sequence,
/// whatever `xs` holds, and no draw is made for it. Any other count needs
/// something to draw from.
pub fn sample_n<T: Copy>(xs: Vec<T>, n: i32) -> (r: Result<Vec<T>, InvalidInput>)
    ensures
        n > 0 && xs@.len() == 0 ==> r == Err::<Vec<T>, InvalidInput>(InvalidInput::EmptySamples),
        n <= 0 || xs@.len() > 0 ==> r is Ok,
        r matches Ok(v) ==> resamples(xs@, n as int, v@),
{
    if n <= 0 {
        return Ok(Vec::new());
    }
    let m = xs.len();
    if m == 0 {
        return Err(InvalidInput::EmptySamples);
    }
    let mut indices: Vec<usize> = Vec::new();
    let mut k: i32 = 0;
    while k < n
        invariant
            0 <= k <= n,
            m > 0,
            indices@.len() == k,
            forall|i: int| 0 <= i < k ==> (#[trigger] indices@[i]) < m,
        decreases n - k,
    {
        indices.push(draw_below(m));
        k = k + 1;
    }
    proof {
        lemma_arrange_resamples(xs@, indices@);
    }
    Ok(arranged(&xs, &indices))
}

/// `n` draws from `xs` as [`sample_n`] makes them, by the generator
/// `generator` in place of the one of the thread: the resample is made of the
/// indices that the generator yields one after the other from the state in
/// which it came, and the generator is left in the state after the last of
/// them. Where no draw is made, for a count of zero or less and for a
/// refusal, the generator is left as it was.
pub fn sample_n_from<T: Copy>(generator: &mut Generator, xs: Vec<T>, n: i32) -> (r: Result<
    Vec<T>,
    InvalidInput,
>)
    ensures
        n <= 0 ==> (r matches Ok(v) && v@.len() == 0),
        n > 0 && xs@.len() == 0 ==> r == Err::<Vec<T>, InvalidInput>(InvalidInput::EmptySamples),
        n > 0 && xs@.len() > 0 ==> (r matches Ok(v) && v@ == arrange(
            xs@,
            draws(old(generator)@, xs@.len() as usize, n as nat),
        )),
        n > 0 && xs@.len() > 0 ==> final(generator)@ == state_after_draws(
            old(generator)@,
            xs@.len() as usize,
            n as nat,
        ),
        n <= 0 || xs@.len() == 0 ==> *final(generator) == *old(generator),
        r matches Ok(v) ==> resamples(xs@, n as int, v@),
{
    if n <= 0 {
        return Ok(Vec::new());
    }
    let m = xs.len();
    if m == 0 {
        return Err(InvalidInput::EmptySamples);
    }
    let ghost start = generator@;
    let mut indices: Vec<usize> = Vec::new();
    let mut k: i32 = 0;
    while k < n
        invariant
            0 <= k <= n,
            m > 0,
            indices@ == draws(start, m, k as nat),
            generator@ == state_after_draws(start, m, k as nat),
            forall|i: int| 0 <= i < k ==> (#[trigger] indices@[i]) < m,
        decreases n - k,
    {
        indices.push(draw_below_from(&mut generator.state, m));
        k = k + 1;
        assert(indices@ =~= draws(start, m, k as nat));
    }
    proof {
        lemma_arrange_resamples(xs@, indices@);
    }
    Ok(arranged(&xs, &indices))
}

/// A resample from a single element is that element, as often as was asked
/// for.
pub proof fn lemma_resample_of_one<T>(xs: Seq<T>, n: int, v: Seq<T>)
    requires
        xs.len() == 1,
        resamples(xs, n, v),
    ensures
        v == Seq::new(
            (if n > 0 {
                n
            } else {
                0
            }) as nat,
            |i: int| xs[0],
        ),
{
    assert forall|i: int| 0 <= i < v.len() implies v[i] == xs[0] by {
        assert(xs.contains(v[i]));
    }
    assert(v =~= Seq::new(
        (if n > 0 {
            n
        } else {
            0
        }) as nat,
        |i: int| xs[0],
    ));
}

} // verus!
