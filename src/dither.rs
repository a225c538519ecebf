use vstd::prelude::*;

use crate::frame::{Frame, LAYER_SIZE, VOXELS};

verus! {

/// Number of complete scans of the cube made for each frame shown.
pub const PASSES: usize = 8;

/// Bits sent for one layer: the select byte, then one bit per voxel.
pub const BITS_PER_LAYER: usize = 72;

/// Bits sent for one complete scan of the cube.
pub const BITS_PER_SCAN: usize = 576;

/// Taps of the noise generator's shift register.
pub const NOISE_TAPS: i16 = 0x428e;

/// One step of the noise generator: shift right by one and, when the bit
/// shifted out was set, flip the tap bits.
pub open spec fn next_noise(n: i16) -> i16 {
    if n % 2 == 1 {
        ((n / 2) as i16) ^ NOISE_TAPS
    } else {
        (n / 2) as i16
    }
}

/// Whether the noise state `n` nudges the next decision up (else down) by one.
pub open spec fn noise_up(n: i16) -> bool {
    n % 2 == 1
}

/// Brightness plus carried error plus the one-step nudge.
pub open spec fn candidate(brightness: u8, err: i8, up: bool) -> int {
    brightness + err + if up {
        1int
    } else {
        -1int
    }
}

/// Whether the voxel is lit in this pass: the candidate is above the mid threshold.
pub open spec fn diffuse_on(brightness: u8, err: i8, up: bool) -> bool {
    candidate(brightness, err, up) > 127
}

/// The error carried to the next pass: candidate minus what was shown (255 or
/// 0), kept as an 8-bit signed value.
pub open spec fn diffuse_err(brightness: u8, err: i8, up: bool) -> i8 {
    (candidate(brightness, err, up) - if diffuse_on(brightness, err, up) {
        255int
    } else {
        0int
    }) as i8
}

/// The pseudo-random source of the dithering nudges, shared by all voxels.
#[derive(Debug)]
pub struct PWMTicker {
    noise: i16,
}

impl PWMTicker {
    /// The state of the noise generator.
    pub closed spec fn noise(&self) -> i16 {
        self.noise
    }

    /// The generator state never goes negative.
    pub open spec fn wf(&self) -> bool {
        self.noise() >= 0
    }

    /// A generator seeded with 1.
    pub fn new() -> (r: Self)
        ensures
            r.wf(),
            r.noise() == 1,
    {
        Self { noise: 1 }
    }

    /// Advances the noise generator once, then decides whether a voxel of
    /// `brightness` with carried error `err` is lit in this pass, and updates
    /// `err` with what was left over.
    pub fn compute_pwm(&mut self, brightness: u8, err: &mut i8) -> (r: bool)
        requires
            old(self).wf(),
        ensures
            final(self).wf(),
            final(self).noise() == next_noise(old(self).noise()),
            r == diffuse_on(brightness, *old(err), noise_up(final(self).noise())),
            *final(err) == diffuse_err(brightness, *old(err), noise_up(final(self).noise())),
    {
        let n = self.noise;
        let half = n / 2;
        let low = n % 2;
        proof {
            assert(0 <= half <= 16383);
            assert(0 <= low <= 1);
            assert(half == n as int / 2);
            assert(low == n as int % 2);
            assert(0 <= half < 0x4000 ==> (half ^ 0x428e_i16) >= 0) by (bit_vector);
            assert(half ^ (0i16 & 0x428e_i16) == half) by (bit_vector);
            assert(half ^ ((-1i16) & 0x428e_i16) == half ^ 0x428e_i16) by (bit_vector);
        }
        self.noise = half ^ -low & NOISE_TAPS;
        let m = self.noise;
        proof {
            if low == 0 {
                assert(m == half ^ (0i16 & 0x428e_i16));
            } else {
                assert(m == half ^ ((-1i16) & 0x428e_i16));
            }
            assert(m == next_noise(n));
            assert(m >= 0);
        }
        proof {
            assert(m >= 0 ==> ((m & 1) == 1 <==> m % 2 == 1)) by (bit_vector);
            assert(m >= 0 ==> (m & 1) == 0 || (m & 1) == 1) by (bit_vector);
            assert((m & 1) == 1 ==> ((m & 1) << 1) == 2) by (bit_vector);
            assert((m & 1) == 0 ==> ((m & 1) << 1) == 0) by (bit_vector);
        }
        let nudge: i16 = ((m & 0x1) << 1) - 1;
        let c: i16 = brightness as i16 + *err as i16 + nudge;
        let output: i16 = if c > 127 {
            255
        } else {
            0
        };
        *err = #[verifier::truncate] ((c - output) as i8);
        output != 0
    }
}

/// A gamma-correction table: 256 levels, starting at 0, ending at 255, never decreasing.
pub open spec fn is_gamma_table(levels: Seq<u8>) -> bool {
    &&& levels.len() == 256
    &&& levels[0] == 0
    &&& levels[255] == 255
    &&& forall|i: int, j: int| 0 <= i <= j < 256 ==> #[trigger] levels[i] <= #[trigger] levels[j]
}

/// Maps raw brightness to corrected brightness.
#[derive(Debug)]
pub struct GammaTable {
    levels: Vec<u8>,
}

impl View for GammaTable {
    type V = Seq<u8>;

    closed spec fn view(&self) -> Seq<u8> {
        self.levels@
    }
}

impl GammaTable {
    /// The table meets the requirements of a gamma-correction table.
    pub open spec fn wf(&self) -> bool {
        is_gamma_table(self@)
    }

    /// The table of `levels`, if they form one: 256 entries, the first 0, the
    /// last 255, none smaller than the one before.
    pub fn new(levels: Vec<u8>) -> (r: Option<GammaTable>)
        ensures
            r.is_some() <==> is_gamma_table(levels@),
            r.is_some() ==> r.unwrap()@ == levels@ && r.unwrap().wf(),
    {
        if levels.len() != 256 || levels[0] != 0 || levels[255] != 255 {
            return None;
        }
        let mut k: usize = 1;
        while k < 256
            invariant
                1 <= k <= 256,
                levels@.len() == 256,
                forall|i: int, j: int| 0 <= i <= j < k ==> #[trigger] levels@[i] <= #[trigger] levels@[j],
            decreases 256 - k,
        {
            if levels[k - 1] > levels[k] {
                assert(!is_gamma_table(levels@)) by {
                    assert(levels@[k - 1] > levels@[k as int]);
                }
                return None;
            }
            assert forall|i: int, j: int| 0 <= i <= j < k + 1 implies #[trigger] levels@[i]
                <= #[trigger] levels@[j] by {
                if j == k && i < k {
                    assert(levels@[i] <= levels@[k - 1]);
                }
            }
            k += 1;
        }
        Some(GammaTable { levels })
    }

    /// The corrected value of raw brightness `brightness`.
    pub fn get(&self, brightness: u8) -> (r: u8)
        requires
            self.wf(),
        ensures
            r == self@[brightness as int],
    {
        self.levels[brightness as usize]
    }
}

/// A gamma table is never decreasing, sends 0 to 0 and 255 to 255.
pub proof fn lemma_gamma_table(table: GammaTable, a: u8, b: u8)
    requires
        table.wf(),
    ensures
        a <= b ==> table@[a as int] <= table@[b as int],
        table@[0] == 0,
        table@[255] == 255,
{
}

/// The bits of `byte`, least significant first.
pub open spec fn byte_bits(byte: u8) -> Seq<bool> {
    Seq::new(8, |i: int| (byte >> (i as u8)) & 1u8 == 1u8)
}

/// The select byte of layer `layer` as sent: only bit `layer` set, least significant first.
pub open spec fn select_bits(layer: int) -> Seq<bool> {
    Seq::new(8, |i: int| i == layer)
}

/// Where the `j`-th voxel of a scan is read from: the scan walks the layers
/// from the top (`y` = 7) down, each row by row.
pub open spec fn scan_source(j: int) -> int {
    (7 - j / 64) * 64 + j % 64
}

/// Noise state, errors and bits after the first `k` voxels of one scan that
/// started from `noise` and `errs`, showing `frame` through `gamma`.
pub open spec fn scan_prefix(
    noise: i16,
    errs: Seq<i8>,
    frame: Seq<u8>,
    gamma: Seq<u8>,
    k: nat,
) -> (i16, Seq<i8>, Seq<bool>)
    decreases k,
{
    if k == 0 {
        (noise, errs, Seq::empty())
    } else {
        let prev = scan_prefix(noise, errs, frame, gamma, (k - 1) as nat);
        let j = k - 1;
        let n = next_noise(prev.0);
        let b = gamma[frame[scan_source(j)] as int];
        let e = prev.1[j];
        let bits = if j % 64 == 0 {
            prev.2 + select_bits(j / 64)
        } else {
            prev.2
        };
        (n, prev.1.update(j, diffuse_err(b, e, noise_up(n))), bits.push(diffuse_on(b, e, noise_up(n))))
    }
}

/// Noise state, errors and bits after `m` complete scans.
pub open spec fn scan_passes(
    noise: i16,
    errs: Seq<i8>,
    frame: Seq<u8>,
    gamma: Seq<u8>,
    m: nat,
) -> (i16, Seq<i8>, Seq<bool>)
    decreases m,
{
    if m == 0 {
        (noise, errs, Seq::empty())
    } else {
        let prev = scan_passes(noise, errs, frame, gamma, (m - 1) as nat);
        let scan = scan_prefix(prev.0, prev.1, frame, gamma, 512);
        (scan.0, scan.1, prev.2 + scan.2)
    }
}

/// Appends the bits of `byte`, least significant first.
fn out_byte(bits: &mut Vec<bool>, byte: u8)
    ensures
        final(bits)@ == old(bits)@ + byte_bits(byte),
{
    let ghost start = bits@;
    let mut i: u8 = 0;
    while i < 8
        invariant
            i <= 8,
            bits@ == start + byte_bits(byte).take(i as int),
        decreases 8 - i,
    {
        bits.push((byte >> i) & 1 == 1);
        assert(byte_bits(byte).take(i + 1) =~= byte_bits(byte).take(i as int).push(
            (byte >> i) & 1 == 1,
        ));
        i += 1;
    }
    assert(byte_bits(byte).take(8) =~= byte_bits(byte));
}

proof fn lemma_one_hot(layer: u8)
    requires
        layer < 8,
    ensures
        byte_bits(1u8 << layer) == select_bits(layer as int),
{
    assert forall|i: int| 0 <= i < 8 implies byte_bits(1u8 << layer)[i] == select_bits(
        layer as int,
    )[i] by {
        let k = i as u8;
        assert(k < 8 && layer < 8 ==> ((((1u8 << layer) >> k) & 1u8 == 1u8) <==> k == layer))
            by (bit_vector);
    }
    assert(byte_bits(1u8 << layer) =~= select_bits(layer as int));
}

/// Turns frames into the bitstream for a cube of shift registers: for each
/// layer a select byte, then one on/off bit per voxel, chosen by error
/// diffusion over successive passes through a gamma table.
#[derive(Debug)]
pub struct DitherEngine {
    ticker: PWMTicker,
    pwm_err: Vec<i8>,
    gamma: GammaTable,
}

impl DitherEngine {
    /// The state of the shared noise generator.
    pub closed spec fn noise(&self) -> i16 {
        self.ticker.noise()
    }

    /// The carried error of each voxel, in scan order.
    pub closed spec fn errors(&self) -> Seq<i8> {
        self.pwm_err@
    }

    /// The gamma table applied before dithering.
    pub closed spec fn gamma(&self) -> Seq<u8> {
        self.gamma@
    }

    /// The engine's parts fit together.
    pub closed spec fn wf(&self) -> bool {
        &&& self.ticker.wf()
        &&& self.pwm_err@.len() == VOXELS
        &&& self.gamma.wf()
    }

    /// An engine with no carried error and a freshly seeded noise generator.
    pub fn new(gamma: GammaTable) -> (r: Self)
        requires
            gamma.wf(),
        ensures
            r.wf(),
            r.noise() == 1,
            r.errors() == Seq::new(512, |i: int| 0i8),
            r.gamma() == gamma@,
    {
        let mut pwm_err: Vec<i8> = Vec::with_capacity(VOXELS);
        let mut i: usize = 0;
        while i < VOXELS
            invariant
                i <= VOXELS,
                pwm_err@ == Seq::new(i as nat, |j: int| 0i8),
            decreases VOXELS - i,
        {
            pwm_err.push(0);
            i += 1;
        }
        assert(pwm_err@ =~= Seq::new(512, |i: int| 0i8));
        DitherEngine { ticker: PWMTicker::new(), pwm_err, gamma }
    }

    /// One scan of the cube: for each layer, top first, its select byte and
    /// then one bit per voxel, row by row.
    pub fn display_inner(&mut self, frame: &Frame) -> (r: Vec<bool>)
        requires
            old(self).wf(),
            frame.wf(),
        ensures
            final(self).wf(),
            final(self).gamma() == old(self).gamma(),
            (final(self).noise(), final(self).errors(), r@) == scan_prefix(
                old(self).noise(),
                old(self).errors(),
                frame@,
                old(self).gamma(),
                512,
            ),
    {
        let ghost noise0 = self.ticker.noise();
        let ghost errs0 = self.pwm_err@;
        let voxels = frame.layers();
        let mut bits: Vec<bool> = Vec::with_capacity(BITS_PER_SCAN);
        let mut j: usize = 0;
        while j < VOXELS
            invariant
                j <= VOXELS,
                voxels@ == frame@,
                voxels@.len() == VOXELS,
                self.wf(),
                self.gamma@ == old(self).gamma@,
                noise0 >= 0,
                (self.ticker.noise(), self.pwm_err@, bits@) == scan_prefix(
                    noise0,
                    errs0,
                    frame@,
                    self.gamma@,
                    j as nat,
                ),
            decreases VOXELS - j,
        {
            let ghost prev_bits = bits@;
            if j % LAYER_SIZE == 0 {
                let layer = (j / LAYER_SIZE) as u8;
                proof {
                    lemma_one_hot(layer);
                }
                out_byte(&mut bits, 1u8 << layer);
            }
            let src = (7 - j / LAYER_SIZE) * LAYER_SIZE + j % LAYER_SIZE;
            let brightness = self.gamma.get(voxels[src]);
            let mut err = self.pwm_err[j];
            let on = self.ticker.compute_pwm(brightness, &mut err);
            self.pwm_err.set(j, err);
            bits.push(on);
            proof {
                let prev = scan_prefix(noise0, errs0, frame@, self.gamma@, j as nat);
                assert(prev.2 == prev_bits);
                assert(scan_prefix(noise0, errs0, frame@, self.gamma@, (j + 1) as nat).2
                    =~= bits@);
            }
            j += 1;
        }
        bits
    }

    /// Everything sent for one frame: `PASSES` complete scans, one after another.
    pub fn display_frame(&mut self, frame: &Frame) -> (r: Vec<bool>)
        requires
            old(self).wf(),
            frame.wf(),
        ensures
            final(self).wf(),
            final(self).gamma() == old(self).gamma(),
            (final(self).noise(), final(self).errors(), r@) == scan_passes(
                old(self).noise(),
                old(self).errors(),
                frame@,
                old(self).gamma(),
                8,
            ),
    {
        let ghost noise0 = self.noise();
        let ghost errs0 = self.errors();
        let mut bits: Vec<bool> = Vec::with_capacity(PASSES * BITS_PER_SCAN);
        let mut m: usize = 0;
        while m < PASSES
            invariant
                m <= PASSES,
                frame.wf(),
                self.wf(),
                self.gamma() == old(self).gamma(),
                (self.noise(), self.errors(), bits@) == scan_passes(
                    noise0,
                    errs0,
                    frame@,
                    self.gamma(),
                    m as nat,
                ),
            decreases PASSES - m,
        {
            let mut scan = self.display_inner(frame);
            bits.append(&mut scan);
            m += 1;
        }
        bits
    }
}

/// Error and count of lit passes after passes of constant `brightness`,
/// starting from error `err`, with the nudges `ups` (true is up).
pub open spec fn diffuse_run(brightness: u8, err: i8, ups: Seq<bool>) -> (i8, nat)
    decreases ups.len(),
{
    if ups.len() == 0 {
        (err, 0)
    } else {
        let rest = diffuse_run(brightness, diffuse_err(brightness, err, ups[0]), ups.drop_first());
        (rest.0, rest.1 + if diffuse_on(brightness, err, ups[0]) {
            1nat
        } else {
            0nat
        })
    }
}

/// The sum of the nudges: +1 for each up, -1 for each down.
pub open spec fn nudge_sum(ups: Seq<bool>) -> int
    decreases ups.len(),
{
    if ups.len() == 0 {
        0
    } else {
        (if ups[0] {
            1int
        } else {
            -1int
        }) + nudge_sum(ups.drop_first())
    }
}

proof fn lemma_nudge_sum_bound(ups: Seq<bool>)
    ensures
        -ups.len() <= nudge_sum(ups) <= ups.len(),
    decreases ups.len(),
{
    if ups.len() > 0 {
        lemma_nudge_sum_bound(ups.drop_first());
    }
}

/// One pass of a brightness strictly between 0 and 255 loses nothing: what was
/// shown plus the new error is exactly brightness plus old error plus nudge.
proof fn lemma_diffuse_step(brightness: u8, err: i8, up: bool)
    requires
        1 <= brightness <= 254,
    ensures
        255 * (if diffuse_on(brightness, err, up) {
            1int
        } else {
            0int
        }) + diffuse_err(brightness, err, up) == candidate(brightness, err, up),
{
    let c = candidate(brightness, err, up);
    let d = c - if diffuse_on(brightness, err, up) {
        255int
    } else {
        0int
    };
    assert(-128 <= d <= 127);
    let x = d as i16;
    assert(x == d);
    assert(-128 <= x <= 127 ==> (x as i8) == x) by (bit_vector);
    assert((d as i8) == (x as i8));
}

/// Error diffusion of a constant brightness `b` strictly between 0 and 255 over
/// `K` passes conserves brightness: `255 * lit + final_error == K*b + nudges +
/// start_error`. So the error stays an 8-bit value without wrapping, the lit
/// fraction is within `(255 + |nudges|) / (255*K)` of `b/255`, and within `1/K`
/// when the nudges cancel over the cycle.
pub proof fn lemma_dither_conserves(brightness: u8, err: i8, ups: Seq<bool>)
    requires
        1 <= brightness <= 254,
    ensures
        255 * diffuse_run(brightness, err, ups).1 + diffuse_run(brightness, err, ups).0
            == ups.len() * brightness + nudge_sum(ups) + err,
        -(255 + ups.len()) <= 255 * diffuse_run(brightness, err, ups).1 - ups.len() * brightness
            <= 255 + ups.len(),
        nudge_sum(ups) == 0 ==> -255 <= 255 * diffuse_run(brightness, err, ups).1 - ups.len()
            * brightness <= 255,
    decreases ups.len(),
{
    lemma_nudge_sum_bound(ups);
    if ups.len() > 0 {
        let rest = ups.drop_first();
        let e1 = diffuse_err(brightness, err, ups[0]);
        lemma_diffuse_step(brightness, err, ups[0]);
        lemma_dither_conserves(brightness, e1, rest);
        assert(ups.len() * brightness == rest.len() * brightness + brightness) by (nonlinear_arith)
            requires
                ups.len() == rest.len() + 1,
        ;
    }
}

} // verus!
