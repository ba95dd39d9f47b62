use vstd::prelude::*;
use vstd::string::StringSliceAdditionalSpecFns;

use crate::text::owned;

verus! {

/// One version of the pricing page.
#[derive(Debug, Clone, PartialEq, Eq)]
pub struct PricingVariant {
    pub id: String,
    pub headline: String,
    pub cta: String,
}

/// The versions of the pricing page under test.
#[derive(Debug, Clone, PartialEq, Eq)]
pub struct ExperimentState {
    pub variants: Vec<PricingVariant>,
}

impl Default for ExperimentState {
    fn default() -> (r: Self)
        ensures
            r.variants@.len() == 2,
            r.variants@[0].id@ == "control"@,
            r.variants@[0].headline@ == "Pro at $29/mo"@,
            r.variants@[0].cta@ == "Start Pro trial"@,
            r.variants@[1].id@ == "annual_discount"@,
            r.variants@[1].headline@ == "Pro annual \u{2014} 2 months free"@,
            r.variants@[1].cta@ == "Save with annual"@,
    {
        let mut variants: Vec<PricingVariant> = Vec::new();
        variants.push(PricingVariant {
            id: owned("control"),
            headline: owned("Pro at $29/mo"),
            cta: owned("Start Pro trial"),
        });
        variants.push(PricingVariant {
            id: owned("annual_discount"),
            headline: owned("Pro annual \u{2014} 2 months free"),
            cta: owned("Save with annual"),
        });
        ExperimentState { variants }
    }
}

/// The sum of the bytes.
pub open spec fn byte_sum(bytes: Seq<u8>) -> nat
    decreases bytes.len(),
{
    if bytes.len() == 0 {
        0
    } else {
        byte_sum(bytes.drop_last()) + (bytes.last() as nat)
    }
}

/// The variant shown to a user: the one at the sum of the bytes of the
/// user's id, modulo the number of variants.
pub fn assign_variant(state: &ExperimentState, user_id: &str) -> (v: PricingVariant)
    requires
        state.variants@.len() > 0,
    ensures
        v == state.variants@[(byte_sum(vstd::utf8::encode_utf8(user_id@)) % state.variants@.len()) as int],
{
    let bytes = user_id.as_bytes();
    let n = bytes.len();
    let mut sum: u128 = 0;
    let mut i: usize = 0;
    while i < n
        invariant
            n == bytes@.len(),
            bytes@ == user_id.spec_bytes(),
            i <= n,
            sum == byte_sum(bytes@.take(i as int)),
            sum <= 255 * i,
        decreases n - i,
    {
        assert(bytes@.take(i + 1).drop_last() =~= bytes@.take(i as int));
        sum = sum + bytes[i] as u128;
        i = i + 1;
    }
    assert(bytes@.take(n as int) =~= bytes@);
    let len = state.variants.len();
    let index = (sum % (len as u128)) as usize;
    let chosen = &state.variants[index];
    PricingVariant { id: chosen.id.clone(), headline: chosen.headline.clone(), cta: chosen.cta.clone() }
}

} // verus!
