//! The implicit weights: the collation elements that are computed from a
//! code point, for the scripts whose characters the tables do not list.

use crate::parse::uca_cldr::allkeys::Weights;
use vstd::prelude::*;

verus! {

/// The families of code points with implicit weights. Each has its own way
/// from the code point to the two elements.
#[derive(Debug, Clone, Copy, PartialEq, Eq, Structural)]
pub enum ImplicitFamily {
    /// Tangut, with its components and its supplement.
    Tangut,
    /// Nushu.
    Nushu,
    /// The Khitan small script.
    Khitan,
    /// The ideographs of the block of the unified CJK ideographs.
    CoreHan,
    /// The ideographs of the extensions A to H.
    OtherHan,
    /// Any other code point.
    Unassigned,
}

/// The family of a code point, by the ranges of the scripts.
pub open spec fn family_of(code: u32) -> ImplicitFamily {
    if 0x17000 <= code <= 0x18aff || 0x18d00 <= code <= 0x18d8f {
        ImplicitFamily::Tangut
    } else if 0x1b170 <= code <= 0x1b2ff {
        ImplicitFamily::Nushu
    } else if 0x18b00 <= code <= 0x18cff {
        ImplicitFamily::Khitan
    } else if 0x4e00 <= code <= 0x9fff {
        ImplicitFamily::CoreHan
    } else if 0x3400 <= code <= 0x4dbf || 0x20000 <= code <= 0x2a6df || 0x2a700 <= code <= 0x2b73f
        || 0x2b740 <= code <= 0x2b81f || 0x2b820 <= code <= 0x2ceaf || 0x2ceb0 <= code <= 0x2ebef
        || 0x30000 <= code <= 0x3134f || 0x31350 <= code <= 0x323af {
        ImplicitFamily::OtherHan
    } else {
        ImplicitFamily::Unassigned
    }
}

/// The primary weight of the first element.
pub open spec fn lead_weight(code: u32) -> u16 {
    match family_of(code) {
        ImplicitFamily::Tangut => 0xfb00,
        ImplicitFamily::Nushu => 0xfb01,
        ImplicitFamily::Khitan => 0xfb02,
        ImplicitFamily::CoreHan => (0xfb40 + (code >> 15)) as u16,
        ImplicitFamily::OtherHan => (0xfb80 + (code >> 15)) as u16,
        ImplicitFamily::Unassigned => (0xfbc0 + (code >> 15)) as u16,
    }
}

/// The primary weight of the second element.
pub open spec fn trail_weight(code: u32) -> u16 {
    match family_of(code) {
        ImplicitFamily::Tangut => (((code - 0x17000) as u32) | 0x8000) as u16,
        ImplicitFamily::Nushu => (((code - 0x1b170) as u32) | 0x8000) as u16,
        ImplicitFamily::Khitan => (((code - 0x18b00) as u32) | 0x8000) as u16,
        _ => ((code & 0x7fff) | 0x8000) as u16,
    }
}

/// The two collation elements of a code point with implicit weights: the
/// first with the lead weight and the common weights of the other two
/// levels, the second with the trail weight alone. Neither is variable.
pub open spec fn implicit_weights_of(code: u32) -> Seq<Weights> {
    seq![
        Weights { l1: lead_weight(code), l2: 0x0020, l3: 0x0002, is_variable: false },
        Weights { l1: trail_weight(code), l2: 0, l3: 0, is_variable: false },
    ]
}

/// The family of a code point.
pub fn family(code: u32) -> (r: ImplicitFamily)
    ensures
        r == family_of(code),
{
    if (0x17000 <= code && code <= 0x18aff) || (0x18d00 <= code && code <= 0x18d8f) {
        ImplicitFamily::Tangut
    } else if 0x1b170 <= code && code <= 0x1b2ff {
        ImplicitFamily::Nushu
    } else if 0x18b00 <= code && code <= 0x18cff {
        ImplicitFamily::Khitan
    } else if 0x4e00 <= code && code <= 0x9fff {
        ImplicitFamily::CoreHan
    } else if (0x3400 <= code && code <= 0x4dbf) || (0x20000 <= code && code <= 0x2a6df) || (0x2a700
        <= code && code <= 0x2b73f) || (0x2b740 <= code && code <= 0x2b81f) || (0x2b820 <= code
        && code <= 0x2ceaf) || (0x2ceb0 <= code && code <= 0x2ebef) || (0x30000 <= code && code
        <= 0x3134f) || (0x31350 <= code && code <= 0x323af) {
        ImplicitFamily::OtherHan
    } else {
        ImplicitFamily::Unassigned
    }
}

/// Computes the two collation elements of a code point.
pub fn implicit_weights(code: u32) -> (r: Vec<Weights>)
    requires
        code <= 0x10ffff,
    ensures
        r@ == implicit_weights_of(code),
{
    let high: u32 = code >> 15;
    let low: u32 = (code & 0x7fff) | 0x8000;
    assert(high <= 0x21) by (bit_vector)
        requires
            high == code >> 15,
            code <= 0x10ffff,
    ;
    assert(low <= 0xffff) by (bit_vector)
        requires
            low == (code & 0x7fff) | 0x8000,
    ;
    let (lead, trail): (u16, u16) = match family(code) {
        ImplicitFamily::Tangut => {
            let offset: u32 = code - 0x17000;
            let t: u32 = offset | 0x8000;
            assert(t <= 0xffff) by (bit_vector)
                requires
                    t == offset | 0x8000,
                    offset <= 0x1d8f,
            ;
            (0xfb00, t as u16)
        },
        ImplicitFamily::Nushu => {
            let offset: u32 = code - 0x1b170;
            let t: u32 = offset | 0x8000;
            assert(t <= 0xffff) by (bit_vector)
                requires
                    t == offset | 0x8000,
                    offset <= 0x18f,
            ;
            (0xfb01, t as u16)
        },
        ImplicitFamily::Khitan => {
            let offset: u32 = code - 0x18b00;
            let t: u32 = offset | 0x8000;
            assert(t <= 0xffff) by (bit_vector)
                requires
                    t == offset | 0x8000,
                    offset <= 0x1ff,
            ;
            (0xfb02, t as u16)
        },
        ImplicitFamily::CoreHan => ((0xfb40 + high) as u16, low as u16),
        ImplicitFamily::OtherHan => ((0xfb80 + high) as u16, low as u16),
        ImplicitFamily::Unassigned => ((0xfbc0 + high) as u16, low as u16),
    };
    let mut out: Vec<Weights> = Vec::new();
    out.push(Weights { l1: lead, l2: 0x0020, l3: 0x0002, is_variable: false });
    out.push(Weights { l1: trail, l2: 0, l3: 0, is_variable: false });
    assert(out@ =~= implicit_weights_of(code));
    out
}

} // verus!
