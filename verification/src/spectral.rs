//! The spectral colour scheme.

use vstd::prelude::*;
use vstd::pervasive::unreached;
use crate::color::{NormalizedColor, QuantizedColor};
use crate::fraction::Fraction;
use crate::palette::{get_colors, is_palette, is_stop, parsed_stops, valid_specifier, MIN_STOPS, STOP_DEN};
use crate::scale::{scale_position, Colors};
use crate::spline::{interpolated, rgb_spline};

verus! {

/// The spectral scheme with three to eleven stops, from red over pale yellow
/// to blue and violet. `SpectralColors::new` takes the last and longest.
pub const SPECTRAL_COLORS_STRS: [&'static str; 9] = [
    "fc8d59ffffbf99d594",
    "d7191cfdae61abdda42b83ba",
    "d7191cfdae61ffffbfabdda42b83ba",
    "d53e4ffc8d59fee08be6f59899d5943288bd",
    "d53e4ffc8d59fee08bffffbfe6f59899d5943288bd",
    "d53e4ff46d43fdae61fee08be6f598abdda466c2a53288bd",
    "d53e4ff46d43fdae61fee08bffffbfe6f598abdda466c2a53288bd",
    "9e0142d53e4ff46d43fdae61fee08be6f598abdda466c2a53288bd5e4fa2",
    "9e0142d53e4ff46d43fdae61fee08bffffbfe6f598abdda466c2a53288bd5e4fa2",
];

/// One in the fixed-point scalars of `scale_spectral`: a scalar `x` stands
/// for the number `x / UNIT`.
pub const UNIT: i32 = 65536;

/// A palette together with the scales that run along it.
pub struct SpectralColors {
    spectral_colors: Vec<NormalizedColor>,
}

impl View for SpectralColors {
    type V = Seq<NormalizedColor>;

    closed spec fn view(&self) -> Seq<NormalizedColor> {
        self.spectral_colors@
    }
}

impl Colors for SpectralColors {}

impl SpectralColors {
    #[verifier::type_invariant]
    spec fn inv(&self) -> bool {
        is_palette(self.spectral_colors@)
    }

    /// The palette of the spectral scheme with eleven stops.
    pub fn new() -> (out: Self)
        ensures
            out@ == parsed_stops(SPECTRAL_COLORS_STRS[8]@),
            out@.len() == 11,
            is_palette(out@),
    {
        let specifier = SPECTRAL_COLORS_STRS[SPECTRAL_COLORS_STRS.len() - 1];
        proof {
            reveal_strlit("9e0142d53e4ff46d43fdae61fee08bffffbfe6f598abdda466c2a53288bd5e4fa2");
            assert(valid_specifier(specifier@));
        }
        match get_colors(specifier) {
            Ok(colors) => SpectralColors { spectral_colors: colors },
            Err(_) => unreached(),
        }
    }

    /// A palette of the given stops, if they are at least four and each is a
    /// stop of 1/255 steps with full alpha.
    pub fn from_stops(stops: Vec<NormalizedColor>) -> (res: Option<Self>)
        ensures
            res is Some <==> is_palette(stops@),
            res matches Some(p) ==> p@ == stops@,
    {
        if stops.len() < MIN_STOPS {
            return None;
        }
        let mut i: usize = 0;
        while i < stops.len()
            invariant
                i <= stops@.len(),
                forall|k: int| 0 <= k < i ==> is_stop(#[trigger] stops@[k]),
            decreases stops@.len() - i,
        {
            let c = stops[i];
            let ok = c.den == STOP_DEN && c.a == STOP_DEN && 0 <= c.r && c.r <= STOP_DEN && 0 <= c.g
                && c.g <= STOP_DEN && 0 <= c.b && c.b <= STOP_DEN;
            if !ok {
                return None;
            }
            i = i + 1;
        }
        Some(SpectralColors { spectral_colors: stops })
    }

    /// The stops of the palette.
    pub fn colors(&self) -> (stops: &[NormalizedColor])
        ensures
            stops@ == self@,
            is_palette(self@),
    {
        proof {
            use_type_invariant(self);
        }
        self.spectral_colors.as_slice()
    }

    /// The colour of the palette at the position `t`.
    pub fn interpolate_spectral(&self, t: Fraction) -> (out: NormalizedColor)
        requires
            t.wf(),
        ensures
            out == interpolated(t, self@),
            out.wf(),
            out.is_opaque(),
    {
        proof {
            use_type_invariant(self);
        }
        rgb_spline(t, self.spectral_colors.as_slice())
    }

    /// The colour for the scalar `x` on the domain from zero to `UNIT`.
    /// A scalar outside the domain reaches the spline as it is, and the
    /// spline holds it to the nearer end.
    pub fn scale_spectral(&self, x: i32) -> (out: QuantizedColor)
        ensures
            out == interpolated(scale_position(x, false, 0, UNIT), self@).quantized(),
    {
        match self.scale_sequential(x, false, 0, UNIT, SpectralColors::interpolate_spectral) {
            Ok(out) => out,
            Err(_) => unreached(),
        }
    }

    /// The colour for the scalar `x` on the domain from zero to `UNIT`, with
    /// scalars outside the domain moved to its nearer end.
    pub fn scale_spectral_clamp(&self, x: i32) -> (out: QuantizedColor)
        ensures
            out == interpolated(scale_position(x, true, 0, UNIT), self@).quantized(),
    {
        match self.scale_sequential(x, true, 0, UNIT, SpectralColors::interpolate_spectral) {
            Ok(out) => out,
            Err(_) => unreached(),
        }
    }
}

} // verus!
