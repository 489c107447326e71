//! Which price list a model's requests are charged by, told from its name.
//! The charge itself is a floating-point sum and is left to the caller.

use vstd::prelude::*;
use crate::text;

verus! {

/// A price list.
#[derive(Debug, Clone, Copy, PartialEq, Eq, Structural)]
pub enum PricingTier {
    /// Credits: 2.5 per cached input token, 300 per other input token, 600
    /// per output token; a fifth off at night (0:00–8:00 UTC+8).
    MimoPro,
    /// Credits: 2 per cached input token, 100 per other input token, 200 per
    /// output token; a fifth off at night.
    Mimo,
    /// US dollars per million tokens: 2.50 input, 10.00 output.
    Gpt4o,
    /// US dollars per million tokens: 30 input, 60 output.
    Gpt4,
    /// US dollars per million tokens: 0.50 input, 1.50 output.
    Gpt35,
    /// US dollars per million tokens: 0.14 input, 0.28 output.
    Deepseek,
    /// US dollars per million tokens: 0.40 input, 1.20 output.
    Qwen,
    /// Not charged.
    Free,
}

/// The price list of a model name: the first list, in the order above, one
/// of whose name patterns the model name contains.
pub open spec fn tier_of(model: Seq<char>) -> PricingTier {
    if text::contains_seq(model, "mimo-v2.5-pro"@) || text::contains_seq(model, "mimo-v2-pro"@) {
        PricingTier::MimoPro
    } else if text::contains_seq(model, "mimo-v2.5"@) || text::contains_seq(model, "mimo-v2-omni"@) {
        PricingTier::Mimo
    } else if text::contains_seq(model, "gpt-4o"@) {
        PricingTier::Gpt4o
    } else if text::contains_seq(model, "gpt-4"@) {
        PricingTier::Gpt4
    } else if text::contains_seq(model, "gpt-3.5"@) {
        PricingTier::Gpt35
    } else if text::contains_seq(model, "deepseek"@) {
        PricingTier::Deepseek
    } else if text::contains_seq(model, "qwen"@) {
        PricingTier::Qwen
    } else {
        PricingTier::Free
    }
}

fn has(model: &[char], pat: &str) -> (b: bool)
    ensures
        b == text::contains_seq(model@, pat@),
{
    let p = text::chars_of(pat);
    text::contains_chars(model, p.as_slice())
}

/// The price list of a model.
pub fn pricing_tier(model: &str) -> (t: PricingTier)
    ensures
        t == tier_of(model@),
{
    let m = text::chars_of(model);
    let m = m.as_slice();
    if has(m, "mimo-v2.5-pro") || has(m, "mimo-v2-pro") {
        PricingTier::MimoPro
    } else if has(m, "mimo-v2.5") || has(m, "mimo-v2-omni") {
        PricingTier::Mimo
    } else if has(m, "gpt-4o") {
        PricingTier::Gpt4o
    } else if has(m, "gpt-4") {
        PricingTier::Gpt4
    } else if has(m, "gpt-3.5") {
        PricingTier::Gpt35
    } else if has(m, "deepseek") {
        PricingTier::Deepseek
    } else if has(m, "qwen") {
        PricingTier::Qwen
    } else {
        PricingTier::Free
    }
}

/// The input tokens not served from the cache (never below zero).
pub fn uncached_input(prompt_tokens: u64, cached_tokens: u64) -> (n: u64)
    ensures
        n == if prompt_tokens >= cached_tokens { prompt_tokens - cached_tokens } else { 0 },
{
    prompt_tokens.saturating_sub(cached_tokens)
}

/// Whether some stretch of the model name reads `pat`.
pub open spec fn names(model: Seq<char>, pat: Seq<char>) -> bool {
    exists|i: int| 0 <= i && i + pat.len() <= model.len() && #[trigger] model.subrange(i, i + pat.len()) == pat
}

/// Which list prices a model, by the name patterns it holds: a model is
/// priced by a list exactly when its name holds one of that list's patterns
/// and none of the patterns of the lists before it (MiMo Pro, MiMo, GPT-4o,
/// GPT-4, GPT-3.5, DeepSeek, Qwen), and is free when it holds none.
pub proof fn lemma_tier_by_name(model: Seq<char>)
    ensures
        (names(model, "mimo-v2.5-pro"@) || names(model, "mimo-v2-pro"@)) <==> tier_of(model) == PricingTier::MimoPro,
        !(names(model, "mimo-v2.5-pro"@) || names(model, "mimo-v2-pro"@)) && (names(model, "mimo-v2.5"@) || names(
            model,
            "mimo-v2-omni"@,
        )) <==> tier_of(model) == PricingTier::Mimo,
        tier_of(model) == PricingTier::Gpt4o ==> names(model, "gpt-4o"@),
        tier_of(model) == PricingTier::Gpt4 ==> names(model, "gpt-4"@) && !names(model, "gpt-4o"@),
        tier_of(model) == PricingTier::Gpt35 ==> names(model, "gpt-3.5"@) && !names(model, "gpt-4"@),
        tier_of(model) == PricingTier::Deepseek ==> names(model, "deepseek"@) && !names(model, "gpt-3.5"@)
            && !names(model, "gpt-4"@),
        tier_of(model) == PricingTier::Qwen ==> names(model, "qwen"@) && !names(model, "deepseek"@),
        ({
            let mimo = names(model, "mimo-v2.5-pro"@) || names(model, "mimo-v2-pro"@) || names(model, "mimo-v2.5"@)
                || names(model, "mimo-v2-omni"@);
            let gpt = names(model, "gpt-4"@) || names(model, "gpt-3.5"@);
            &&& !mimo && names(model, "gpt-4o"@) ==> tier_of(model) == PricingTier::Gpt4o
            &&& !mimo && !names(model, "gpt-4o"@) && names(model, "gpt-4"@) ==> tier_of(model) == PricingTier::Gpt4
            &&& !mimo && !names(model, "gpt-4"@) && names(model, "gpt-3.5"@) ==> tier_of(model) == PricingTier::Gpt35
            &&& !mimo && !gpt && names(model, "deepseek"@) ==> tier_of(model) == PricingTier::Deepseek
            &&& !mimo && !gpt && !names(model, "deepseek"@) && names(model, "qwen"@) ==> tier_of(model)
                == PricingTier::Qwen
            &&& !mimo && !gpt && !names(model, "deepseek"@) && !names(model, "qwen"@) ==> tier_of(model)
                == PricingTier::Free
        }),
{
    lemma_gpt4o_names_gpt4(model);
}

/// A name that holds `gpt-4o` holds `gpt-4`.
proof fn lemma_gpt4o_names_gpt4(model: Seq<char>)
    ensures
        names(model, "gpt-4o"@) ==> names(model, "gpt-4"@),
{
    if names(model, "gpt-4o"@) {
        reveal_strlit("gpt-4o");
        reveal_strlit("gpt-4");
        let i = choose|i: int| 0 <= i && i + 6 <= model.len() && #[trigger] model.subrange(i, i + 6) == "gpt-4o"@;
        assert(model.subrange(i, i + 5) =~= "gpt-4"@) by {
            assert(model.subrange(i, i + 6) == "gpt-4o"@);
            assert forall|k: int| 0 <= k < 5 implies model.subrange(i, i + 5)[k] == "gpt-4"@[k] by {
                assert(model.subrange(i, i + 5)[k] == model.subrange(i, i + 6)[k]);
            }
        }
    }
}

} // verus!
