//! Mapping a draw's blend mode onto the blend modes that raster backends provide.

use vstd::prelude::*;

verus! {

/// Color mixing function of a blend mode.
#[derive(Copy, Clone, Debug, PartialEq, Eq, Structural)]
pub enum Mix {
    /// `Normal` mixing.
    Normal,
    /// `Multiply` mixing.
    Multiply,
    /// `Screen` mixing.
    Screen,
    /// `Overlay` mixing.
    Overlay,
    /// `Darken` mixing.
    Darken,
    /// `Lighten` mixing.
    Lighten,
    /// `ColorDodge` mixing.
    ColorDodge,
    /// `ColorBurn` mixing.
    ColorBurn,
    /// `HardLight` mixing.
    HardLight,
    /// `SoftLight` mixing.
    SoftLight,
    /// `Difference` mixing.
    Difference,
    /// `Exclusion` mixing.
    Exclusion,
    /// `Hue` mixing.
    Hue,
    /// `Saturation` mixing.
    Saturation,
    /// `Color` mixing.
    Color,
    /// `Luminosity` mixing.
    Luminosity,
}

/// Layer composition function of a blend mode.
#[derive(Copy, Clone, Debug, PartialEq, Eq, Structural)]
pub enum Compose {
    /// `Clear` composition.
    Clear,
    /// `Copy` composition.
    Copy,
    /// `Dest` composition.
    Dest,
    /// `SrcOver` composition.
    SrcOver,
    /// `DestOver` composition.
    DestOver,
    /// `SrcIn` composition.
    SrcIn,
    /// `DestIn` composition.
    DestIn,
    /// `SrcOut` composition.
    SrcOut,
    /// `DestOut` composition.
    DestOut,
    /// `SrcAtop` composition.
    SrcAtop,
    /// `DestAtop` composition.
    DestAtop,
    /// `Xor` composition.
    Xor,
    /// `Plus` composition.
    Plus,
    /// `PlusLighter` composition.
    PlusLighter,
}

/// Blend mode of a draw: color mixing followed by composition.
#[derive(Copy, Clone, Debug, PartialEq, Eq, Structural)]
pub struct BlendMode {
    /// The color mixing function.
    pub mix: Mix,
    /// The layer composition function.
    pub compose: Compose,
}

/// Blend modes of the CPU rasterizer backend.
#[derive(Copy, Clone, Debug, PartialEq, Eq, Structural)]
pub enum TinyBlendMode {
    /// `Clear`.
    Clear,
    /// `Source`.
    Source,
    /// `Destination`.
    Destination,
    /// `SourceOver`.
    SourceOver,
    /// `DestinationOver`.
    DestinationOver,
    /// `SourceIn`.
    SourceIn,
    /// `DestinationIn`.
    DestinationIn,
    /// `SourceOut`.
    SourceOut,
    /// `DestinationOut`.
    DestinationOut,
    /// `SourceAtop`.
    SourceAtop,
    /// `DestinationAtop`.
    DestinationAtop,
    /// `Xor`.
    Xor,
    /// `Plus`.
    Plus,
    /// `Modulate`.
    Modulate,
    /// `Screen`.
    Screen,
    /// `Overlay`.
    Overlay,
    /// `Darken`.
    Darken,
    /// `Lighten`.
    Lighten,
    /// `ColorDodge`.
    ColorDodge,
    /// `ColorBurn`.
    ColorBurn,
    /// `HardLight`.
    HardLight,
    /// `SoftLight`.
    SoftLight,
    /// `Difference`.
    Difference,
    /// `Exclusion`.
    Exclusion,
    /// `Multiply`.
    Multiply,
    /// `Hue`.
    Hue,
    /// `Saturation`.
    Saturation,
    /// `Color`.
    Color,
    /// `Luminosity`.
    Luminosity,
}

/// Blend modes of the Skia backend.
#[derive(Copy, Clone, Debug, PartialEq, Eq, Structural)]
pub enum SkBlendMode {
    /// `Clear`.
    Clear,
    /// `Src`.
    Src,
    /// `Dst`.
    Dst,
    /// `SrcOver`.
    SrcOver,
    /// `DstOver`.
    DstOver,
    /// `SrcIn`.
    SrcIn,
    /// `DstIn`.
    DstIn,
    /// `SrcOut`.
    SrcOut,
    /// `DstOut`.
    DstOut,
    /// `SrcATop`.
    SrcATop,
    /// `DstATop`.
    DstATop,
    /// `Xor`.
    Xor,
    /// `Plus`.
    Plus,
    /// `Modulate`.
    Modulate,
    /// `Screen`.
    Screen,
    /// `Overlay`.
    Overlay,
    /// `Darken`.
    Darken,
    /// `Lighten`.
    Lighten,
    /// `ColorDodge`.
    ColorDodge,
    /// `ColorBurn`.
    ColorBurn,
    /// `HardLight`.
    HardLight,
    /// `SoftLight`.
    SoftLight,
    /// `Difference`.
    Difference,
    /// `Exclusion`.
    Exclusion,
    /// `Multiply`.
    Multiply,
    /// `Hue`.
    Hue,
    /// `Saturation`.
    Saturation,
    /// `Color`.
    Color,
    /// `Luminosity`.
    Luminosity,
}

/// How the CPU rasterizer backend realizes a blend mode.
#[derive(Copy, Clone, Debug, PartialEq, Eq, Structural)]
pub enum BlendStrategy {
    /// One rasterizer blend mode does it.
    SinglePass(TinyBlendMode),
    /// Composition first, then mixing.
    MultiPass {
        /// Mode of the first pass (the composition).
        first_pass: TinyBlendMode,
        /// Mode of the second pass (the mixing).
        second_pass: TinyBlendMode,
    },
}

/// Rasterizer blend mode of a composition function; `PlusLighter` has no own mode and uses `Plus`.
pub open spec fn compose_tiny_spec(compose: Compose) -> TinyBlendMode {
    match compose {
        Compose::Clear => TinyBlendMode::Clear,
        Compose::Copy => TinyBlendMode::Source,
        Compose::Dest => TinyBlendMode::Destination,
        Compose::SrcOver => TinyBlendMode::SourceOver,
        Compose::DestOver => TinyBlendMode::DestinationOver,
        Compose::SrcIn => TinyBlendMode::SourceIn,
        Compose::DestIn => TinyBlendMode::DestinationIn,
        Compose::SrcOut => TinyBlendMode::SourceOut,
        Compose::DestOut => TinyBlendMode::DestinationOut,
        Compose::SrcAtop => TinyBlendMode::SourceAtop,
        Compose::DestAtop => TinyBlendMode::DestinationAtop,
        Compose::Xor => TinyBlendMode::Xor,
        Compose::Plus => TinyBlendMode::Plus,
        Compose::PlusLighter => TinyBlendMode::Plus,
    }
}

/// Rasterizer blend mode of a mixing function; `Normal` mixing is plain source-over.
pub open spec fn mix_tiny_spec(mix: Mix) -> TinyBlendMode {
    match mix {
        Mix::Normal => TinyBlendMode::SourceOver,
        Mix::Multiply => TinyBlendMode::Multiply,
        Mix::Screen => TinyBlendMode::Screen,
        Mix::Overlay => TinyBlendMode::Overlay,
        Mix::Darken => TinyBlendMode::Darken,
        Mix::Lighten => TinyBlendMode::Lighten,
        Mix::ColorDodge => TinyBlendMode::ColorDodge,
        Mix::ColorBurn => TinyBlendMode::ColorBurn,
        Mix::HardLight => TinyBlendMode::HardLight,
        Mix::SoftLight => TinyBlendMode::SoftLight,
        Mix::Difference => TinyBlendMode::Difference,
        Mix::Exclusion => TinyBlendMode::Exclusion,
        Mix::Hue => TinyBlendMode::Hue,
        Mix::Saturation => TinyBlendMode::Saturation,
        Mix::Color => TinyBlendMode::Color,
        Mix::Luminosity => TinyBlendMode::Luminosity,
    }
}

/// How the rasterizer realizes `mode`: with normal mixing, by the composition's mode; with
/// source-over composition, by the mixing's mode; otherwise composition, then mixing.
pub open spec fn blend_strategy_spec(mode: BlendMode) -> BlendStrategy {
    if mode.mix == Mix::Normal {
        BlendStrategy::SinglePass(compose_tiny_spec(mode.compose))
    } else if mode.compose == Compose::SrcOver {
        BlendStrategy::SinglePass(mix_tiny_spec(mode.mix))
    } else {
        BlendStrategy::MultiPass {
            first_pass: compose_tiny_spec(mode.compose),
            second_pass: mix_tiny_spec(mode.mix),
        }
    }
}

/// Skia blend mode of `mode`: the mixing's mode under source-over composition, the
/// composition's mode otherwise (`PlusLighter` uses `Plus`).
pub open spec fn sk_blend_spec(mode: BlendMode) -> SkBlendMode {
    match mode.compose {
        Compose::SrcOver => match mode.mix {
            Mix::Normal => SkBlendMode::SrcOver,
            Mix::Multiply => SkBlendMode::Multiply,
            Mix::Screen => SkBlendMode::Screen,
            Mix::Overlay => SkBlendMode::Overlay,
            Mix::Darken => SkBlendMode::Darken,
            Mix::Lighten => SkBlendMode::Lighten,
            Mix::ColorDodge => SkBlendMode::ColorDodge,
            Mix::ColorBurn => SkBlendMode::ColorBurn,
            Mix::HardLight => SkBlendMode::HardLight,
            Mix::SoftLight => SkBlendMode::SoftLight,
            Mix::Difference => SkBlendMode::Difference,
            Mix::Exclusion => SkBlendMode::Exclusion,
            Mix::Hue => SkBlendMode::Hue,
            Mix::Saturation => SkBlendMode::Saturation,
            Mix::Color => SkBlendMode::Color,
            Mix::Luminosity => SkBlendMode::Luminosity,
        },
        Compose::Clear => SkBlendMode::Clear,
        Compose::Copy => SkBlendMode::Src,
        Compose::Dest => SkBlendMode::Dst,
        Compose::DestOver => SkBlendMode::DstOver,
        Compose::SrcIn => SkBlendMode::SrcIn,
        Compose::DestIn => SkBlendMode::DstIn,
        Compose::SrcOut => SkBlendMode::SrcOut,
        Compose::DestOut => SkBlendMode::DstOut,
        Compose::SrcAtop => SkBlendMode::SrcATop,
        Compose::DestAtop => SkBlendMode::DstATop,
        Compose::Xor => SkBlendMode::Xor,
        Compose::Plus => SkBlendMode::Plus,
        Compose::PlusLighter => SkBlendMode::Plus,
    }
}

/// Rasterizer blend mode of a composition function.
pub fn compose_to_tiny_blend_mode(compose: Compose) -> (r: TinyBlendMode)
    ensures
        r == compose_tiny_spec(compose),
{
    match compose {
        Compose::Clear => TinyBlendMode::Clear,
        Compose::Copy => TinyBlendMode::Source,
        Compose::Dest => TinyBlendMode::Destination,
        Compose::SrcOver => TinyBlendMode::SourceOver,
        Compose::DestOver => TinyBlendMode::DestinationOver,
        Compose::SrcIn => TinyBlendMode::SourceIn,
        Compose::DestIn => TinyBlendMode::DestinationIn,
        Compose::SrcOut => TinyBlendMode::SourceOut,
        Compose::DestOut => TinyBlendMode::DestinationOut,
        Compose::SrcAtop => TinyBlendMode::SourceAtop,
        Compose::DestAtop => TinyBlendMode::DestinationAtop,
        Compose::Xor => TinyBlendMode::Xor,
        Compose::Plus => TinyBlendMode::Plus,
        Compose::PlusLighter => TinyBlendMode::Plus,
    }
}

/// Rasterizer blend mode of a mixing function.
pub fn mix_to_tiny_blend_mode(mix: Mix) -> (r: TinyBlendMode)
    ensures
        r == mix_tiny_spec(mix),
{
    match mix {
        Mix::Normal => TinyBlendMode::SourceOver,
        Mix::Multiply => TinyBlendMode::Multiply,
        Mix::Screen => TinyBlendMode::Screen,
        Mix::Overlay => TinyBlendMode::Overlay,
        Mix::Darken => TinyBlendMode::Darken,
        Mix::Lighten => TinyBlendMode::Lighten,
        Mix::ColorDodge => TinyBlendMode::ColorDodge,
        Mix::ColorBurn => TinyBlendMode::ColorBurn,
        Mix::HardLight => TinyBlendMode::HardLight,
        Mix::SoftLight => TinyBlendMode::SoftLight,
        Mix::Difference => TinyBlendMode::Difference,
        Mix::Exclusion => TinyBlendMode::Exclusion,
        Mix::Hue => TinyBlendMode::Hue,
        Mix::Saturation => TinyBlendMode::Saturation,
        Mix::Color => TinyBlendMode::Color,
        Mix::Luminosity => TinyBlendMode::Luminosity,
    }
}

/// How the CPU rasterizer realizes `mode`.
pub fn determine_blend_strategy(mode: &BlendMode) -> (r: BlendStrategy)
    ensures
        r == blend_strategy_spec(*mode),
{
    match (mode.mix, mode.compose) {
        (Mix::Normal, compose) => BlendStrategy::SinglePass(compose_to_tiny_blend_mode(compose)),
        (mix, Compose::SrcOver) => BlendStrategy::SinglePass(mix_to_tiny_blend_mode(mix)),
        (mix, compose) => BlendStrategy::MultiPass {
            first_pass: compose_to_tiny_blend_mode(compose),
            second_pass: mix_to_tiny_blend_mode(mix),
        },
    }
}

/// Skia blend mode of `mode`.
pub fn map_blend_mode(mode: &BlendMode) -> (r: SkBlendMode)
    ensures
        r == sk_blend_spec(*mode),
{
    match mode.compose {
        Compose::SrcOver => match mode.mix {
            Mix::Normal => SkBlendMode::SrcOver,
            Mix::Multiply => SkBlendMode::Multiply,
            Mix::Screen => SkBlendMode::Screen,
            Mix::Overlay => SkBlendMode::Overlay,
            Mix::Darken => SkBlendMode::Darken,
            Mix::Lighten => SkBlendMode::Lighten,
            Mix::ColorDodge => SkBlendMode::ColorDodge,
            Mix::ColorBurn => SkBlendMode::ColorBurn,
            Mix::HardLight => SkBlendMode::HardLight,
            Mix::SoftLight => SkBlendMode::SoftLight,
            Mix::Difference => SkBlendMode::Difference,
            Mix::Exclusion => SkBlendMode::Exclusion,
            Mix::Hue => SkBlendMode::Hue,
            Mix::Saturation => SkBlendMode::Saturation,
            Mix::Color => SkBlendMode::Color,
            Mix::Luminosity => SkBlendMode::Luminosity,
        },
        Compose::Clear => SkBlendMode::Clear,
        Compose::Copy => SkBlendMode::Src,
        Compose::Dest => SkBlendMode::Dst,
        Compose::DestOver => SkBlendMode::DstOver,
        Compose::SrcIn => SkBlendMode::SrcIn,
        Compose::DestIn => SkBlendMode::DstIn,
        Compose::SrcOut => SkBlendMode::SrcOut,
        Compose::DestOut => SkBlendMode::DstOut,
        Compose::SrcAtop => SkBlendMode::SrcATop,
        Compose::DestAtop => SkBlendMode::DstATop,
        Compose::Xor => SkBlendMode::Xor,
        Compose::Plus => SkBlendMode::Plus,
        Compose::PlusLighter => SkBlendMode::Plus,
    }
}

/// Law: the default blend (normal mixing, source-over composition) is a single source-over pass
/// on the rasterizer and source-over on Skia.
pub proof fn law_default_blend_is_source_over()
    ensures
        blend_strategy_spec(BlendMode { mix: Mix::Normal, compose: Compose::SrcOver })
            == BlendStrategy::SinglePass(TinyBlendMode::SourceOver),
        sk_blend_spec(BlendMode { mix: Mix::Normal, compose: Compose::SrcOver })
            == SkBlendMode::SrcOver,
{
}

/// Law: the rasterizer needs a second pass exactly when the mode both mixes and composes other
/// than by source-over.
pub proof fn law_multipass_iff_mix_and_compose(mode: BlendMode)
    ensures
        (blend_strategy_spec(mode) is MultiPass) <==> (mode.mix != Mix::Normal && mode.compose
            != Compose::SrcOver),
{
}

/// The Skia mode that has the same name as a rasterizer mode (`Source` is Skia's `Src`, and so
/// on).
pub open spec fn sk_named_like(mode: TinyBlendMode) -> SkBlendMode {
    match mode {
        TinyBlendMode::Clear => SkBlendMode::Clear,
        TinyBlendMode::Source => SkBlendMode::Src,
        TinyBlendMode::Destination => SkBlendMode::Dst,
        TinyBlendMode::SourceOver => SkBlendMode::SrcOver,
        TinyBlendMode::DestinationOver => SkBlendMode::DstOver,
        TinyBlendMode::SourceIn => SkBlendMode::SrcIn,
        TinyBlendMode::DestinationIn => SkBlendMode::DstIn,
        TinyBlendMode::SourceOut => SkBlendMode::SrcOut,
        TinyBlendMode::DestinationOut => SkBlendMode::DstOut,
        TinyBlendMode::SourceAtop => SkBlendMode::SrcATop,
        TinyBlendMode::DestinationAtop => SkBlendMode::DstATop,
        TinyBlendMode::Xor => SkBlendMode::Xor,
        TinyBlendMode::Plus => SkBlendMode::Plus,
        TinyBlendMode::Modulate => SkBlendMode::Modulate,
        TinyBlendMode::Screen => SkBlendMode::Screen,
        TinyBlendMode::Overlay => SkBlendMode::Overlay,
        TinyBlendMode::Darken => SkBlendMode::Darken,
        TinyBlendMode::Lighten => SkBlendMode::Lighten,
        TinyBlendMode::ColorDodge => SkBlendMode::ColorDodge,
        TinyBlendMode::ColorBurn => SkBlendMode::ColorBurn,
        TinyBlendMode::HardLight => SkBlendMode::HardLight,
        TinyBlendMode::SoftLight => SkBlendMode::SoftLight,
        TinyBlendMode::Difference => SkBlendMode::Difference,
        TinyBlendMode::Exclusion => SkBlendMode::Exclusion,
        TinyBlendMode::Multiply => SkBlendMode::Multiply,
        TinyBlendMode::Hue => SkBlendMode::Hue,
        TinyBlendMode::Saturation => SkBlendMode::Saturation,
        TinyBlendMode::Color => SkBlendMode::Color,
        TinyBlendMode::Luminosity => SkBlendMode::Luminosity,
    }
}

/// Law: the two backends agree. Under source-over composition Skia uses the mode named like the
/// rasterizer's mode for the mixing; under any other composition, the mode named like the
/// rasterizer's mode for that composition.
pub proof fn law_skia_and_rasterizer_agree(mode: BlendMode)
    ensures
        mode.compose == Compose::SrcOver ==> sk_blend_spec(mode) == sk_named_like(
            mix_tiny_spec(mode.mix),
        ),
        mode.compose != Compose::SrcOver ==> sk_blend_spec(mode) == sk_named_like(
            compose_tiny_spec(mode.compose),
        ),
{
}

/// Law: under source-over composition, different mixing functions map to different Skia modes,
/// so no mix is realized as another.
pub proof fn law_skia_mixes_are_distinct(a: Mix, b: Mix)
    requires
        a != b,
    ensures
        sk_blend_spec(BlendMode { mix: a, compose: Compose::SrcOver }) != sk_blend_spec(
            BlendMode { mix: b, compose: Compose::SrcOver },
        ),
{
}

} // verus!
