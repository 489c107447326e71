use ucodex_core::pricing::{pricing_tier, uncached_input, PricingTier};

#[test]
fn tiers_by_model_name() {
    assert_eq!(pricing_tier("mimo-v2.5-pro"), PricingTier::MimoPro);
    assert_eq!(pricing_tier("xiaomi/mimo-v2-pro-latest"), PricingTier::MimoPro);
    assert_eq!(pricing_tier("mimo-v2.5"), PricingTier::Mimo);
    assert_eq!(pricing_tier("mimo-v2-omni"), PricingTier::Mimo);
    assert_eq!(pricing_tier("gpt-4o-mini"), PricingTier::Gpt4o);
    assert_eq!(pricing_tier("gpt-4-turbo"), PricingTier::Gpt4);
    assert_eq!(pricing_tier("gpt-3.5-turbo"), PricingTier::Gpt35);
    assert_eq!(pricing_tier("deepseek-chat"), PricingTier::Deepseek);
    assert_eq!(pricing_tier("qwen-max"), PricingTier::Qwen);
    assert_eq!(pricing_tier("unknown-model"), PricingTier::Free);
    assert_eq!(pricing_tier(""), PricingTier::Free);
}

#[test]
fn uncached_tokens_never_negative() {
    assert_eq!(uncached_input(1000, 500), 500);
    assert_eq!(uncached_input(10, 20), 0);
}
