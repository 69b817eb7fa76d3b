use imaging::blend::{
    compose_to_tiny_blend_mode, determine_blend_strategy, map_blend_mode, mix_to_tiny_blend_mode,
    BlendMode, BlendStrategy, Compose, Mix, SkBlendMode, TinyBlendMode,
};

#[test]
fn default_blend_is_a_single_source_over_pass() {
    let mode = BlendMode {
        mix: Mix::Normal,
        compose: Compose::SrcOver,
    };
    assert_eq!(
        determine_blend_strategy(&mode),
        BlendStrategy::SinglePass(TinyBlendMode::SourceOver)
    );
    assert_eq!(map_blend_mode(&mode), SkBlendMode::SrcOver);
}

#[test]
fn mixing_under_source_over_uses_the_mix_mode() {
    let mode = BlendMode {
        mix: Mix::Multiply,
        compose: Compose::SrcOver,
    };
    assert_eq!(
        determine_blend_strategy(&mode),
        BlendStrategy::SinglePass(TinyBlendMode::Multiply)
    );
    assert_eq!(map_blend_mode(&mode), SkBlendMode::Multiply);
}

#[test]
fn mixing_with_other_composition_takes_two_passes() {
    let mode = BlendMode {
        mix: Mix::Screen,
        compose: Compose::DestIn,
    };
    assert_eq!(
        determine_blend_strategy(&mode),
        BlendStrategy::MultiPass {
            first_pass: TinyBlendMode::DestinationIn,
            second_pass: TinyBlendMode::Screen,
        }
    );
    // Skia uses the composition alone.
    assert_eq!(map_blend_mode(&mode), SkBlendMode::DstIn);
}

#[test]
fn plus_lighter_maps_to_plus() {
    assert_eq!(compose_to_tiny_blend_mode(Compose::PlusLighter), TinyBlendMode::Plus);
    assert_eq!(compose_to_tiny_blend_mode(Compose::Copy), TinyBlendMode::Source);
    assert_eq!(mix_to_tiny_blend_mode(Mix::Normal), TinyBlendMode::SourceOver);
    assert_eq!(mix_to_tiny_blend_mode(Mix::Luminosity), TinyBlendMode::Luminosity);
    let mode = BlendMode {
        mix: Mix::Hue,
        compose: Compose::PlusLighter,
    };
    assert_eq!(map_blend_mode(&mode), SkBlendMode::Plus);
}
