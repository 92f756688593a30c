//! The asset catalogue: which images, sounds and sprite sheets exist, and
//! the static layout facts (file names, atlas grids) the loader needs.

use vstd::prelude::*;

verus! {

/// Anything that can name its asset file.
pub trait AssetClass {
    fn to_filename(&self) -> &'static str;
}

/// Every image asset of the game.
#[derive(PartialEq, Eq, Structural, Debug, Clone, Copy)]
pub enum ImageAsset {
    HaddockSpritesheet,
    HaddockSprite,
    WhaleSprite,
    SharkSpritesheet,
    CrabSpritesheet,
    ProjectileSpritesheet,
    TileMapSpritesheet,
    SnailSpritesheet,
    JellySpritesheet,
    JellyChargeIndicator,
    JellyLightning,
    VortexSprite,
    Background,
    HelpCard,
}

impl ImageAsset {
    /// Only the tile map sheet feeds the tile map renderer.
    pub fn is_for_tilemap(&self) -> (r: bool)
        ensures
            r == (*self == ImageAsset::TileMapSpritesheet),
    {
        match self {
            Self::TileMapSpritesheet => true,
            _ => false,
        }
    }
}

/// Every audio asset of the game.
#[derive(PartialEq, Eq, Structural, Debug, Clone, Copy)]
pub enum AudioAsset {
    JellyLightning,
    Hurt,
    Chomp,
    FishSlap,
    Death,
    Pickup,
}

impl AssetClass for AudioAsset {
    fn to_filename(&self) -> &'static str {
        match self {
            Self::JellyLightning => "audio/512471__michael-grinnell__electric-zap.quiet.wav",
            Self::Hurt => "audio/342229__christopherderp__hurt-1-male.wav",
            Self::Chomp => "audio/carrotnom.wav",
            Self::FishSlap => "audio/fish_slap.ogg",
            Self::Death => "audio/398068__happyparakeet__pixel-death.wav",
            Self::Pickup => "audio/608431__plasterbrain__shiny-coin-pickup.flac",
        }
    }
}

impl AssetClass for ImageAsset {
    fn to_filename(&self) -> &'static str {
        match self {
            Self::HaddockSpritesheet => "sprites/haddock_spritesheet.png",
            Self::HaddockSprite => "sprites/haddock.png",
            Self::WhaleSprite => "sprites/whale.png",
            Self::SharkSpritesheet => "sprites/shark_spritesheet.png",
            Self::CrabSpritesheet => "sprites/crab_spritesheet.png",
            Self::ProjectileSpritesheet => "sprites/projectile_spritesheet.png",
            Self::TileMapSpritesheet => "sprites/tilemap_spritesheet.png",
            Self::SnailSpritesheet => "sprites/prey_snail_spritesheet.png",
            Self::JellySpritesheet => "sprites/jelly_spritesheet.png",
            Self::VortexSprite => "sprites/vortex.png",
            Self::Background => "sprites/back.png",
            Self::JellyChargeIndicator => "sprites/jelly_charge_indicator.png",
            Self::JellyLightning => "sprites/jelly_lightning.png",
            Self::HelpCard => "ui/help_card.png",
        }
    }
}

/// The sprite sheets that are cut into texture atlases.
#[derive(PartialEq, Eq, Structural, Debug, Clone, Copy)]
pub enum TextureAtlasAsset {
    HaddockSpritesheet,
    SharkSpritesheet,
    CrabSpritesheet,
    ProjectileSpritesheet,
    SnailSpritesheet,
    JellySpritesheet,
    JellyChargeIndicator,
    JellyLightning,
}

impl TextureAtlasAsset {
    /// The image asset the atlas is cut from.
    pub fn to_image_asset(&self) -> (r: ImageAsset)
        ensures
            r == (match *self {
                TextureAtlasAsset::HaddockSpritesheet => ImageAsset::HaddockSpritesheet,
                TextureAtlasAsset::SharkSpritesheet => ImageAsset::SharkSpritesheet,
                TextureAtlasAsset::CrabSpritesheet => ImageAsset::CrabSpritesheet,
                TextureAtlasAsset::ProjectileSpritesheet => ImageAsset::ProjectileSpritesheet,
                TextureAtlasAsset::SnailSpritesheet => ImageAsset::SnailSpritesheet,
                TextureAtlasAsset::JellySpritesheet => ImageAsset::JellySpritesheet,
                TextureAtlasAsset::JellyChargeIndicator => ImageAsset::JellyChargeIndicator,
                TextureAtlasAsset::JellyLightning => ImageAsset::JellyLightning,
            }),
    {
        match self {
            Self::HaddockSpritesheet => ImageAsset::HaddockSpritesheet,
            Self::SharkSpritesheet => ImageAsset::SharkSpritesheet,
            Self::CrabSpritesheet => ImageAsset::CrabSpritesheet,
            Self::ProjectileSpritesheet => ImageAsset::ProjectileSpritesheet,
            Self::SnailSpritesheet => ImageAsset::SnailSpritesheet,
            Self::JellySpritesheet => ImageAsset::JellySpritesheet,
            Self::JellyChargeIndicator => ImageAsset::JellyChargeIndicator,
            Self::JellyLightning => ImageAsset::JellyLightning,
        }
    }

    /// Columns of the atlas grid.
    pub fn columns(&self) -> (r: usize)
        ensures
            r == (match *self {
                TextureAtlasAsset::HaddockSpritesheet => 5int,
                TextureAtlasAsset::JellyLightning => 3int,
                _ => 4int,
            }),
    {
        match self {
            Self::HaddockSpritesheet => 5,
            Self::SharkSpritesheet
            | Self::CrabSpritesheet
            | Self::ProjectileSpritesheet
            | Self::JellySpritesheet
            | Self::JellyChargeIndicator
            | Self::SnailSpritesheet => 4,
            Self::JellyLightning => 3,
        }
    }

    /// Rows of the atlas grid.
    pub fn rows(&self) -> (r: usize)
        ensures
            r == (match *self {
                TextureAtlasAsset::HaddockSpritesheet
                | TextureAtlasAsset::SharkSpritesheet
                | TextureAtlasAsset::ProjectileSpritesheet => 4int,
                _ => 1int,
            }),
    {
        match self {
            Self::HaddockSpritesheet | Self::SharkSpritesheet | Self::ProjectileSpritesheet => 4,
            Self::CrabSpritesheet
            | Self::JellySpritesheet
            | Self::JellyChargeIndicator
            | Self::JellyLightning
            | Self::SnailSpritesheet => 1,
        }
    }
}

} // verus!
