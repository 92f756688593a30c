//! User profiles: the persistent progress record and the level-derived
//! caps on health and power charges. Reading and writing save files is the
//! surrounding application's business; the core only computes.

use crate::assets::ImageAsset;
use crate::assets::TextureAtlasAsset;
use vstd::prelude::*;

verus! {

/// Which playable character the profile uses.
#[derive(Debug, Clone, Copy, PartialEq, Eq, Structural)]
pub enum HaddockVariant {
    Normal,
    Whale,
}

impl HaddockVariant {
    pub fn to_image_asset(&self) -> (r: ImageAsset)
        ensures
            r == (match *self {
                HaddockVariant::Normal => ImageAsset::HaddockSprite,
                HaddockVariant::Whale => ImageAsset::WhaleSprite,
            }),
    {
        match self {
            Self::Normal => ImageAsset::HaddockSprite,
            Self::Whale => ImageAsset::WhaleSprite,
        }
    }

    pub fn to_texture_atlas_asset(&self) -> (r: TextureAtlasAsset)
        ensures
            r == TextureAtlasAsset::HaddockSpritesheet,
    {
        match self {
            Self::Normal | Self::Whale => TextureAtlasAsset::HaddockSpritesheet,
        }
    }
}

/// A player's persistent progress.
#[derive(Debug, Clone)]
pub struct UserProfile {
    pub snail_shells: usize,
    pub level: usize,
    pub name: String,
    pub haddock_variant: HaddockVariant,
}

impl Default for UserProfile {
    fn default() -> (r: Self)
        ensures
            r.snail_shells == 0,
            r.level == 0,
            r.haddock_variant == HaddockVariant::Normal,
    {
        Self {
            snail_shells: 0,
            level: 0,
            name: "Default".to_string(),
            haddock_variant: HaddockVariant::Normal,
        }
    }
}

impl UserProfile {
    /// The power-charge cap this level grants.
    pub fn max_power_charges(&self) -> (r: usize)
        ensures
            r == (if self.level <= 4 {
                3int
            } else if self.level <= 9 {
                4int
            } else if self.level <= 14 {
                5int
            } else if self.level <= 20 {
                6int
            } else {
                7int
            }),
    {
        if self.level <= 4 {
            3
        } else if self.level <= 9 {
            4
        } else if self.level <= 14 {
            5
        } else if self.level <= 20 {
            6
        } else {
            7
        }
    }

    /// The health cap this level grants.
    pub fn max_health(&self) -> (r: usize)
        ensures
            r == (if self.level <= 2 {
                3int
            } else if self.level <= 7 {
                4int
            } else if self.level <= 14 {
                5int
            } else if self.level <= 19 {
                6int
            } else {
                7int
            }),
    {
        if self.level <= 2 {
            3
        } else if self.level <= 7 {
            4
        } else if self.level <= 14 {
            5
        } else if self.level <= 19 {
            6
        } else {
            7
        }
    }
}

/// Marks which save slot a newly created profile is loaded into.
pub struct LoadingProfileSlotNum(pub usize);

/// A profile together with the save slot it was loaded from.
#[derive(Debug, Clone)]
pub struct LoadedUserProfile {
    pub user_profile: UserProfile,
    pub file_index: usize,
}

impl LoadedUserProfile {
    pub fn new(user_profile: UserProfile, file_index: usize) -> (r: Self)
        ensures
            r.user_profile == user_profile,
            r.file_index == file_index,
    {
        Self { user_profile, file_index }
    }
}

/// One save slot: a loaded profile or a free slot index.
#[derive(Debug)]
pub enum ProfileSlot {
    Loaded(LoadedUserProfile),
    Free(usize),
}

} // verus!
