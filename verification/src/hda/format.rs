//! The 16-bit PCM Format Structure used by both `SDnFMT` and the codec's
//! Converter Format control -- they must be programmed identically.
use vstd::prelude::*;

verus! {

#[derive(Debug, Clone, Copy, PartialEq, Eq, Structural)]
pub enum BitsPerSample {
    Eight,
    Sixteen,
    Twenty,
    TwentyFour,
    ThirtyTwo,
}

impl BitsPerSample {
    /// The BITS field value for this sample size.
    pub open spec fn spec_code(self) -> u16 {
        match self {
            BitsPerSample::Eight => 0,
            BitsPerSample::Sixteen => 1,
            BitsPerSample::Twenty => 2,
            BitsPerSample::TwentyFour => 3,
            BitsPerSample::ThirtyTwo => 4,
        }
    }

    fn code(self) -> (r: u16)
        ensures
            r == self.spec_code(),
            r < 5,
    {
        match self {
            Self::Eight => 0b000,
            Self::Sixteen => 0b001,
            Self::Twenty => 0b010,
            Self::TwentyFour => 0b011,
            Self::ThirtyTwo => 0b100,
        }
    }
}

#[derive(Debug, Clone, Copy)]
pub struct PcmFormat {
    pub sample_rate_hz: u32,
    pub bits: BitsPerSample,
    pub channels: u8,
}

/// The base rate selected by the BASE field: 48 kHz for 0, 44.1 kHz for 1.
pub open spec fn base_hz(base: int) -> int {
    if base == 0 {
        48_000
    } else {
        44_100
    }
}

/// `hz` is exactly the base rate `base` multiplied by `mult + 1` and divided
/// by `div + 1`, with every code in the range the structure can hold.
pub open spec fn rate_matches(hz: int, base: int, mult: int, div: int) -> bool {
    &&& 0 <= base < 2
    &&& 0 <= mult < 4
    &&& 0 <= div < 8
    &&& base_hz(base) * (mult + 1) == hz * (div + 1)
}

/// The order in which candidate codes are tried: base rate first, then the
/// divisor, then the multiplier.
pub open spec fn rate_rank(base: int, mult: int, div: int) -> int {
    base * 32 + div * 4 + mult
}

/// `factors` is the first matching `(base, mult, div)` in search order.
pub open spec fn is_first_rate_factors(hz: int, factors: (u16, u16, u16)) -> bool {
    &&& rate_matches(hz, factors.0 as int, factors.1 as int, factors.2 as int)
    &&& forall|b: int, m: int, d: int|
        #![trigger rate_matches(hz, b, m, d)]
        rate_matches(hz, b, m, d) ==> rate_rank(factors.0 as int, factors.1 as int, factors.2 as int)
            <= rate_rank(b, m, d)
}

/// Some `(base, mult, div)` encodes `hz`.
pub open spec fn rate_representable(hz: int) -> bool {
    exists|b: int, m: int, d: int| #[trigger] rate_matches(hz, b, m, d)
}

/// The factors the encoding uses for `hz`: the first match in search order,
/// or `None` when the rate cannot be expressed.
pub open spec fn spec_rate_factors(hz: int) -> Option<(u16, u16, u16)> {
    if rate_representable(hz) {
        Some(choose|f: (u16, u16, u16)| is_first_rate_factors(hz, f))
    } else {
        None
    }
}

/// The 16-bit structure for the given field values.
pub open spec fn pack_format(base: u16, mult: u16, div: u16, bits: u16, channels: u8) -> u16 {
    (base << 14u16) | (mult << 11u16) | (div << 8u16) | (bits << 4u16) | (((channels as u16)
        - 1) as u16 & 0xF)
}

impl PcmFormat {
    /// Common CD-quality stereo format: 48 kHz, 16-bit, 2 channels.
    #[allow(non_snake_case)]
    pub fn CD_STEREO() -> (r: Self)
        ensures
            r.sample_rate_hz == 48_000,
            r.bits == BitsPerSample::Sixteen,
            r.channels == 2,
    {
        Self { sample_rate_hz: 48_000, bits: BitsPerSample::Sixteen, channels: 2 }
    }

    /// The encoding of this format, or `None` when the rate has no factors or
    /// the channel count is outside 1..=16.
    pub open spec fn spec_encode(&self) -> Option<u16> {
        match spec_rate_factors(self.sample_rate_hz as int) {
            Some(f) => if 1 <= self.channels <= 16 {
                Some(pack_format(f.0, f.1, f.2, self.bits.spec_code(), self.channels))
            } else {
                None
            },
            None => None,
        }
    }

    /// Encodes this format into the 16-bit structure from spec section 3.7.1.
    /// Returns `None` for a sample rate this encoding can't represent (only
    /// the base 44.1/48 kHz rates and their listed multiples/divisors are
    /// representable) and for a channel count outside 1..=16.
    pub fn encode(&self) -> (r: Option<u16>)
        ensures
            r == self.spec_encode(),
            r is Some <==> (rate_representable(self.sample_rate_hz as int) && 1 <= self.channels
                <= 16),
            r matches Some(v) ==> v & 0x8000 == 0,
    {
        let (base, mult, div) = match rate_factors(self.sample_rate_hz) {
            Some(f) => f,
            None => return None,
        };
        if self.channels == 0 || self.channels > 16 {
            return None;
        }
        let mut value: u16 = 0;
        value |= base << 14;
        value |= mult << 11;
        value |= div << 8;
        value |= self.bits.code() << 4;
        value |= (self.channels as u16 - 1) & 0xF;
        proof {
            let c = self.channels as u16;
            let code = self.bits.spec_code();
            assert(0u16 | (base << 14u16) | (mult << 11u16) | (div << 8u16) | (code << 4u16) | ((
            c - 1) as u16 & 0xF) == (base << 14u16) | (mult << 11u16) | (div << 8u16) | (code
                << 4u16) | ((c - 1) as u16 & 0xF)) by (bit_vector);
            assert(((base << 14u16) | (mult << 11u16) | (div << 8u16) | (code << 4u16) | ((c - 1) as u16 & 0xF))
                & 0x8000 == 0) by (bit_vector)
                requires
                    base < 2,
                    mult < 4,
                    div < 8,
                    code < 5,
            ;
        }
        Some(value)
    }
}

/// The BITS field (bits 6:4) of an encoded format is the sample-size code
/// of the HDA format structure: 0 for 8-bit, 1 for 16-bit, 2 for 20-bit,
/// 3 for 24-bit and 4 for 32-bit samples; so two formats with different
/// sample sizes never encode to the same BITS field.
pub proof fn lemma_encode_bits_field(format: PcmFormat, other: PcmFormat)
    requires
        format.spec_encode() is Some,
        other.spec_encode() is Some,
    ensures
        (format.spec_encode().unwrap() >> 4u16) & 0x7 == match format.bits {
            BitsPerSample::Eight => 0u16,
            BitsPerSample::Sixteen => 1u16,
            BitsPerSample::Twenty => 2u16,
            BitsPerSample::TwentyFour => 3u16,
            BitsPerSample::ThirtyTwo => 4u16,
        },
        format.bits != other.bits ==> (format.spec_encode().unwrap() >> 4u16) & 0x7 != (
        other.spec_encode().unwrap() >> 4u16) & 0x7,
{
    lemma_encode_fields(format);
    lemma_encode_fields(other);
}

/// The fields of an encoded format read back as what went in: the BASE,
/// MULT, DIV, BITS and CHAN fields each hold their code, and the rate they
/// describe is the format's sample rate.
pub proof fn lemma_encode_fields(format: PcmFormat)
    requires
        format.spec_encode() is Some,
    ensures
        ({
            let v = format.spec_encode().unwrap();
            let base = (v >> 14u16) & 0x1;
            let mult = (v >> 11u16) & 0x7;
            let div = (v >> 8u16) & 0x7;
            &&& rate_matches(format.sample_rate_hz as int, base as int, mult as int, div as int)
            &&& base_hz(base as int) * (mult + 1) == format.sample_rate_hz * (div + 1)
            &&& (v >> 4u16) & 0x7 == format.bits.spec_code()
            &&& (v & 0xF) + 1 == format.channels
        }),
{
    lemma_first_rate_factors_unique(format.sample_rate_hz as int);
    let f = spec_rate_factors(format.sample_rate_hz as int).unwrap();
    let (b, m, d) = f;
    let code = format.bits.spec_code();
    let c = format.channels as u16;
    assert(b < 2 && m < 4 && d < 8 && code < 5 && 1 <= c <= 16 ==> {
        let v = (b << 14u16) | (m << 11u16) | (d << 8u16) | (code << 4u16) | ((c - 1) as u16
            & 0xF);
        &&& (v >> 14u16) & 0x1 == b
        &&& (v >> 11u16) & 0x7 == m
        &&& (v >> 8u16) & 0x7 == d
        &&& (v >> 4u16) & 0x7 == code
        &&& (v & 0xF) + 1 == c
    }) by (bit_vector);
}

/// There is exactly one first match, so the chosen factors are it.
proof fn lemma_first_rate_factors_unique(hz: int)
    ensures
        rate_representable(hz) ==> is_first_rate_factors(hz, spec_rate_factors(hz).unwrap()),
        forall|f: (u16, u16, u16), g: (u16, u16, u16)|
            is_first_rate_factors(hz, f) && is_first_rate_factors(hz, g) ==> f == g,
{
    if rate_representable(hz) {
        let (b, m, d) = choose|b: int, m: int, d: int| #[trigger] rate_matches(hz, b, m, d);
        lemma_first_exists(hz, b, m, d);
    }
}

/// Any match has a first match at or before it in search order.
proof fn lemma_first_exists(hz: int, b: int, m: int, d: int)
    requires
        rate_matches(hz, b, m, d),
    ensures
        exists|f: (u16, u16, u16)| is_first_rate_factors(hz, f),
    decreases rate_rank(b, m, d),
{
    if exists|b2: int, m2: int, d2: int|
        #[trigger] rate_matches(hz, b2, m2, d2) && rate_rank(b2, m2, d2) < rate_rank(b, m, d) {
        let (b2, m2, d2) = choose|b2: int, m2: int, d2: int|
            #[trigger] rate_matches(hz, b2, m2, d2) && rate_rank(b2, m2, d2) < rate_rank(b, m, d);
        lemma_first_exists(hz, b2, m2, d2);
    } else {
        let f = (b as u16, m as u16, d as u16);
        assert(is_first_rate_factors(hz, f));
    }
}

/// Finds `(base, mult, div)` such that `base_hz(base) * (mult+1) / (div+1) ==
/// hz`, per the base-rate table in spec section 3.7.1: the first such codes
/// trying base 48 kHz before 44.1 kHz, then divisors 1 to 8, then
/// multipliers 1 to 4.
fn rate_factors(hz: u32) -> (r: Option<(u16, u16, u16)>)
    ensures
        r == spec_rate_factors(hz as int),
        r is Some ==> r.unwrap().0 < 2 && r.unwrap().1 < 4 && r.unwrap().2 < 8,
{
    let mut base_code: u16 = 0;
    while base_code < 2
        invariant
            base_code <= 2,
            forall|b: int, m: int, d: int|
                #![trigger rate_matches(hz as int, b, m, d)]
                b < base_code ==> !rate_matches(hz as int, b, m, d),
        decreases 2 - base_code,
    {
        let base: u32 = if base_code == 0 {
            48_000
        } else {
            44_100
        };
        let mut div: u32 = 1;
        while div <= 8
            invariant
                base_code < 2,
                base == base_hz(base_code as int),
                1 <= div <= 9,
                forall|b: int, m: int, d: int|
                    #![trigger rate_matches(hz as int, b, m, d)]
                    b < base_code ==> !rate_matches(hz as int, b, m, d),
                forall|m: int, d: int|
                    #![trigger rate_matches(hz as int, base_code as int, m, d)]
                    d < div - 1 ==> !rate_matches(hz as int, base_code as int, m, d),
            decreases 9 - div,
        {
            let mut mult: u32 = 1;
            while mult <= 4
                invariant
                    base_code < 2,
                    base == base_hz(base_code as int),
                    1 <= div <= 8,
                    1 <= mult <= 5,
                    forall|b: int, m: int, d: int|
                        #![trigger rate_matches(hz as int, b, m, d)]
                        b < base_code ==> !rate_matches(hz as int, b, m, d),
                    forall|m: int, d: int|
                        #![trigger rate_matches(hz as int, base_code as int, m, d)]
                        d < div - 1 ==> !rate_matches(hz as int, base_code as int, m, d),
                    forall|m: int|
                        #![trigger rate_matches(hz as int, base_code as int, m, div - 1)]
                        m < mult - 1 ==> !rate_matches(hz as int, base_code as int, m, div - 1),
                decreases 5 - mult,
            {
                let product = base * mult;
                let hit = product / div == hz && product % div == 0;
                proof {
                    lemma_exact_division(product as int, div as int, hz as int);
                }
                if hit {
                    let f = (base_code, (mult - 1) as u16, (div - 1) as u16);
                    proof {
                        assert(rate_matches(hz as int, f.0 as int, f.1 as int, f.2 as int));
                        assert(is_first_rate_factors(hz as int, f));
                        lemma_first_rate_factors_unique(hz as int);
                    }
                    return Some(f);
                }
                mult += 1;
            }
            div += 1;
        }
        base_code += 1;
    }
    proof {
        assert(!rate_representable(hz as int));
    }
    None
}

/// For a positive divisor, `x / d == q` with no remainder exactly when
/// `x == q * d`.
proof fn lemma_exact_division(x: int, d: int, q: int)
    requires
        d > 0,
        x >= 0,
    ensures
        (x / d == q && x % d == 0) <==> x == q * d,
{
    vstd::arithmetic::div_mod::lemma_fundamental_div_mod(x, d);
    assert((x / d == q && x % d == 0) ==> x == q * d) by (nonlinear_arith)
        requires
            d > 0,
            x == d * (x / d) + x % d,
    {
    }
    assert(x == q * d ==> (x / d == q && x % d == 0)) by (nonlinear_arith)
        requires
            d > 0,
            x >= 0,
    {
        if x == q * d {
            vstd::arithmetic::div_mod::lemma_div_multiples_vanish(q, d);
            vstd::arithmetic::div_mod::lemma_mod_multiples_basic(q, d);
        }
    }
}

} // verus!
