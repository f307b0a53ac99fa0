use vstd::prelude::*;

verus! {

/// The parameters that can be modulated per voice. Polyphonic modulation and
/// monophonic automation events name them by their number.
#[derive(Debug, Clone, Copy, PartialEq, Eq, Structural)]
pub enum PolyModId {
    Gain,
    Osc1Gain,
    Osc2Gain,
    Osc3Gain,
    Osc1Detune,
    Osc2Detune,
    Osc3Detune,
}

/// The number by which events name a modulated parameter.
pub open spec fn poly_mod_number(m: PolyModId) -> u32 {
    match m {
        PolyModId::Gain => 0,
        PolyModId::Osc1Gain => 1,
        PolyModId::Osc2Gain => 2,
        PolyModId::Osc3Gain => 3,
        PolyModId::Osc1Detune => 4,
        PolyModId::Osc2Detune => 5,
        PolyModId::Osc3Detune => 6,
    }
}

impl PolyModId {
    /// The number by which events name this parameter.
    pub fn id(self) -> (r: u32)
        ensures
            r == poly_mod_number(self),
    {
        match self {
            PolyModId::Gain => 0,
            PolyModId::Osc1Gain => 1,
            PolyModId::Osc2Gain => 2,
            PolyModId::Osc3Gain => 3,
            PolyModId::Osc1Detune => 4,
            PolyModId::Osc2Detune => 5,
            PolyModId::Osc3Detune => 6,
        }
    }

    /// The parameter that an event names by `id`, if any.
    pub fn from_id(id: u32) -> (r: Option<PolyModId>)
        ensures
            r is Some <==> id < 7,
            r matches Some(m) ==> poly_mod_number(m) == id,
    {
        match id {
            0 => Some(PolyModId::Gain),
            1 => Some(PolyModId::Osc1Gain),
            2 => Some(PolyModId::Osc2Gain),
            3 => Some(PolyModId::Osc3Gain),
            4 => Some(PolyModId::Osc1Detune),
            5 => Some(PolyModId::Osc2Detune),
            6 => Some(PolyModId::Osc3Detune),
            _ => None,
        }
    }
}

/// Distinct parameters are named by distinct numbers, so decoding a
/// parameter's number gives the parameter back.
pub proof fn lemma_poly_mod_number_injective(a: PolyModId, b: PolyModId)
    requires
        poly_mod_number(a) == poly_mod_number(b),
    ensures
        a == b,
{
}

/// The parameters are numbered from 0 in the order gain, oscillator 1 to 3
/// gain, oscillator 1 to 3 detune: every number below 7 names exactly one
/// parameter, and the oscillator parameters follow their oscillator's order.
pub proof fn lemma_poly_mod_numbering()
    ensures
        poly_mod_number(PolyModId::Gain) == 0,
        forall|m: PolyModId| #[trigger] poly_mod_number(m) < 7,
        poly_mod_number(PolyModId::Osc2Gain) == poly_mod_number(PolyModId::Osc1Gain) + 1,
        poly_mod_number(PolyModId::Osc3Gain) == poly_mod_number(PolyModId::Osc2Gain) + 1,
        poly_mod_number(PolyModId::Osc1Gain) == poly_mod_number(PolyModId::Gain) + 1,
        poly_mod_number(PolyModId::Osc1Detune) == poly_mod_number(PolyModId::Osc3Gain) + 1,
        poly_mod_number(PolyModId::Osc2Detune) == poly_mod_number(PolyModId::Osc1Detune) + 1,
        poly_mod_number(PolyModId::Osc3Detune) == poly_mod_number(PolyModId::Osc2Detune) + 1,
{
}

} // verus!
