//! How TKMM identifies array entries in BYML documents.
//!
//! Many arrays in TotK are really keyed tables ("Actors" keyed by "Hash",
//! "BoneList" by "BoneName", ...). Edits to them are recorded by key instead
//! of position, so that two mods touching different rows of the same table
//! both apply. The tables below follow TKMM's key name and changelog builder
//! providers.

use vstd::prelude::*;

use crate::text::{chars_of, is_lit, last_index_of, rfind_char, slice_of, string_of};

verus! {

/// Field(s) an array entry is identified by. A dotted name reads a nested map.
#[derive(Debug, Clone, Copy, PartialEq, Eq)]
pub struct KeyName {
    pub primary: &'static str,
    pub secondary: Option<&'static str>,
}

pub struct KeyNameView {
    pub primary: Seq<char>,
    pub secondary: Option<Seq<char>>,
}

impl View for KeyName {
    type V = KeyNameView;

    open spec fn view(&self) -> KeyNameView {
        KeyNameView {
            primary: self.primary@,
            secondary: match self.secondary {
                Some(s) => Some(s@),
                None => None,
            },
        }
    }
}

pub open spec fn key_view(primary: Seq<char>) -> KeyNameView {
    KeyNameView { primary, secondary: None }
}

pub open spec fn pair_view(primary: Seq<char>, secondary: Seq<char>) -> KeyNameView {
    KeyNameView { primary, secondary: Some(secondary) }
}

pub open spec fn key_view_of(k: Option<KeyName>) -> Option<KeyNameView> {
    match k {
        Some(k) => Some(k@),
        None => None,
    }
}

pub open spec fn option_key_view(k: Option<Option<KeyName>>) -> Option<Option<KeyNameView>> {
    match k {
        Some(k) => Some(key_view_of(k)),
        None => None,
    }
}

/// Entries identified by one field.
pub fn key(primary: &'static str) -> (r: Option<KeyName>)
    ensures
        key_view_of(r) == Some(key_view(primary@)),
{
    Some(KeyName { primary, secondary: None })
}

/// Entries identified by two fields.
pub fn pair(primary: &'static str, secondary: &'static str) -> (r: Option<KeyName>)
    ensures
        key_view_of(r) == Some(pair_view(primary@, secondary@)),
{
    Some(KeyName { primary, secondary: Some(secondary) })
}

/// A hashable stand-in for the value of an entry's key fields: scalars by
/// value, floating point numbers by their exact bits.
#[derive(Debug, Clone, PartialEq, Eq, Hash)]
pub struct KeyRepr(pub ScalarRepr, pub ScalarRepr);

#[derive(Debug, Clone, PartialEq, Eq, Hash)]
pub enum ScalarRepr {
    Missing,
    Null,
    String(String),
    Bool(bool),
    Int(i32),
    UInt32(u32),
    Int64(i64),
    UInt64(u64),
    Float(u32),
    Double(u64),
    Other(u64),
}

/// How a changelog is recorded for a named array (changelog building side).
#[derive(Debug, Clone, Copy, PartialEq, Eq)]
pub enum ArrayBuilder {
    /// Entries matched by value.
    Default,
    /// Entries matched by key field(s).
    Keyed(KeyName),
    /// "Property" arrays, matched by their NameHash.
    NameHash,
    /// Entries compared position by position.
    DirectIndex,
}

pub enum ArrayBuilderView {
    Default,
    Keyed(KeyNameView),
    NameHash,
    DirectIndex,
}

impl View for ArrayBuilder {
    type V = ArrayBuilderView;

    open spec fn view(&self) -> ArrayBuilderView {
        match self {
            ArrayBuilder::Default => ArrayBuilderView::Default,
            ArrayBuilder::Keyed(k) => ArrayBuilderView::Keyed(k@),
            ArrayBuilder::NameHash => ArrayBuilderView::NameHash,
            ArrayBuilder::DirectIndex => ArrayBuilderView::DirectIndex,
        }
    }
}

pub open spec fn key_names_0(n: Seq<char>, t: Seq<char>, d: int) -> Option<Option<KeyNameView>> {
    if n == "Animal"@
        || n == "Enemy"@
        || n == "FallFloorInsect"@
        || n == "Fish"@
        || n == "GrassCut"@
        || n == "Insect"@
        || n == "NotDecayedLargeSwordList"@
        || n == "NotDecayedSmallSwordList"@
        || n == "NotDecayedSpearList"@
        || n == "RainBonusMaterial"@
        || n == "Seafood"@
        || n == "SpObjCapsuleBlockMaster"@
        || n == "Weapon"@
        || n == "bow"@
        || n == "bows"@
        || n == "shields"@
        || n == "weapons"@
        || n == "helmets"@ {
        Some(Some(key_view("name"@)))
    } else {
        None
    }
}

pub open spec fn key_names_1(n: Seq<char>, t: Seq<char>, d: int) -> Option<Option<KeyNameView>> {
    if n == "Actors"@ {
        Some(
            if t == "bcett"@ {
                Some(key_view("Hash"@))
            } else if t == "game__component__ArmyManagerParam"@ {
                Some(key_view("ActorName"@))
            } else {
                None
            }
        )
    } else if n == "Table"@ {
        Some(
            if t == "game__colorvariation__ConversionActorNameToParasailPatternSetTable"@ {
                Some(key_view("ParasailPattern"@))
            } else if t == "game__ecosystem__DecayedWeaponMappingTable"@ {
                Some(key_view("EquipmentDeathCountGmdHash"@))
            } else {
                None
            }
        )
    } else if n == "BoneInfoArray"@ {
        Some(
            if t == "game__component__DragonParam"@ {
                Some(key_view("Hash"@))
            } else if t == "phive__LookIKResourceHeaderParam"@ || t == "phive__TailBoneResourceHeaderParam"@ {
                Some(key_view("BoneName"@))
            } else {
                None
            }
        )
    } else if n == "Elements"@ {
        Some(
            if t == "game__enemy__DrakeSubModelInfo"@ {
                Some(key_view("BoneName"@))
            } else if t == "game__gamebalance__LevelSensorTargetDefine"@ {
                Some(pair_view("ActorNameHash"@, "Plus"@))
            } else {
                None
            }
        )
    } else if n == "Items"@ {
        Some(
            if t == "game__pouchcontent__EnhancementMaterial"@ {
                Some(key_view("Actor"@))
            } else {
                None
            }
        )
    } else if n == "List"@ {
        Some(
            if t == "game__sound__ShrineSpotBgmTypeInfoList"@ {
                Some(key_view("DungeonIndexStr"@))
            } else {
                None
            }
        )
    } else if n == "Contents"@ {
        Some(
            if t == "game__ui__FairyFountainGlobalSetting"@ {
                Some(key_view("Actor"@))
            } else {
                None
            }
        )
    } else if n == "SettingTable"@ {
        Some(
            if t == "game__ui__LargeDungeonFloorDefaultSettingTable"@ {
                Some(key_view("DungeonType"@))
            } else {
                None
            }
        )
    } else if n == "BrainVerbs"@ {
        Some(Some(key_view("ActionSeqContainer"@)))
    } else if n == "ActionVerbContainerElements"@ {
        Some(Some(key_view("ActionVerb"@)))
    } else if n == "ResidentActors"@
        || n == "Settings"@
        || n == "ShootableShareActorSettings"@
        || n == "GoodsList"@ {
        Some(Some(key_view("Actor"@)))
    } else {
        None
    }
}

pub open spec fn key_names_2(n: Seq<char>, t: Seq<char>, d: int) -> Option<Option<KeyNameView>> {
    if n == "BindActorInfo"@ {
        Some(Some(key_view("ActorHolderKey"@)))
    } else if n == "RegisteredActorArray"@ || n == "RequirementList"@ || n == "Rewards"@ {
        Some(Some(key_view("ActorName"@)))
    } else if n == "SharpInfoList"@ || n == "SharpInfoBowList"@ || n == "SharpInfoShieldList"@ {
        Some(Some(key_view("ActorNameHash"@)))
    } else if n == "PictureBookParamArray"@ {
        Some(Some(key_view("ActorNameShort"@)))
    } else if n == "NavMeshObjects"@ {
        Some(Some(key_view("Alias"@)))
    } else if n == "AliasEntityList"@ {
        Some(Some(key_view("AliasEntity"@)))
    } else if n == "AliasSensorList"@ {
        Some(Some(key_view("AliasSensor"@)))
    } else if n == "Anchors"@ {
        Some(Some(key_view("AnchorName"@)))
    } else if n == "ArmorEffect"@ {
        Some(Some(key_view("ArmorEffectType"@)))
    } else if n == "HornTypeAndAttachmentMapping"@ {
        Some(Some(pair_view("AttachmentName"@, "HornBoneName"@)))
    } else {
        None
    }
}

pub open spec fn key_names_3(n: Seq<char>, t: Seq<char>, d: int) -> Option<Option<KeyNameView>> {
    if n == "AttackParams"@ {
        Some(Some(key_view("AttackType"@)))
    } else if n == "BlackboardParamBoolArray"@
        || n == "BlackboardParamCustomTypeArray"@
        || n == "BlackboardParamF32Array"@
        || n == "BlackboardParamMtx33fArray"@
        || n == "BlackboardParamMtx34fArray"@
        || n == "BlackboardParamPtrArray"@
        || n == "BlackboardParamQuatfArray"@
        || n == "BlackboardParamS32Array"@
        || n == "BlackboardParamS8Array"@
        || n == "BlackboardParamStringArray"@
        || n == "BlackboardParamU32Array"@
        || n == "BlackboardParamU64Array"@
        || n == "BlackboardParamU8Array"@
        || n == "BlackboardParamVec3fArray"@
        || n == "EditBBParams"@ {
        Some(Some(key_view("BBKey"@)))
    } else {
        None
    }
}

pub open spec fn key_names_4(n: Seq<char>, t: Seq<char>, d: int) -> Option<Option<KeyNameView>> {
    if n == "DragonInfoList"@ {
        Some(Some(key_view("BindPointRespawnGameDataHash"@)))
    } else if n == "OperationAngular"@ || n == "OperationLinear"@ {
        Some(Some(key_view("Body"@)))
    } else if n == "BindBoneList"@
        || n == "BoneList"@
        || n == "BoneModifierSet"@
        || n == "Bones"@
        || n == "FruitOffsetTranslation"@
        || n == "ModelBindSettings"@
        || n == "StickWeaponBone"@ {
        Some(Some(key_view("BoneName"@)))
    } else if n == "Categories"@ {
        Some(Some(key_view("CallbackName"@)))
    } else if n == "CaveParams"@ {
        Some(Some(key_view("CaveInstanceId"@)))
    } else if n == "CheckList"@ {
        Some(Some(key_view("CheckType"@)))
    } else if n == "Object"@ {
        Some(Some(key_view("ChemicalMaterial"@)))
    } else {
        None
    }
}

pub open spec fn key_names_5(n: Seq<char>, t: Seq<char>, d: int) -> Option<Option<KeyNameView>> {
    if n == "CharacterComponentPresetCollection"@
        || n == "LayerHitMaskEntityCollection"@
        || n == "LayerHitMaskSensorCollection"@
        || n == "MaterialCollection"@
        || n == "MaterialPresetCollection"@
        || n == "MotionPropertiesCollection"@
        || n == "PhysicsMaterialMappingInfoCollection"@
        || n == "SubLayerHitMaskEntityCollection"@
        || n == "SubLayerHitMaskSensorCollection"@
        || n == "UserShapeTagMaskCollection"@ {
        Some(Some(key_view("ComponentName"@)))
    } else if n == "HingeArray"@ || n == "RangeArray"@ {
        Some(Some(key_view("ConstraintName"@)))
    } else if n == "CropYieldTable"@ {
        Some(Some(key_view("CropName"@)))
    } else if n == "DungeonBossDifficultyGameData"@ {
        Some(Some(key_view("DefeatedNumGameDataHash"@)))
    } else {
        None
    }
}

pub open spec fn key_names_6(n: Seq<char>, t: Seq<char>, d: int) -> Option<Option<KeyNameView>> {
    if n == "DoCondition"@ || n == "FinCondition"@ || n == "PickConditions"@ || n == "SuccessCondition"@ {
        Some(Some(key_view("DefineNameHash"@)))
    } else if n == "FallenActorTable"@ {
        Some(Some(key_view("DropActorName"@)))
    } else if n == "SmallDungeonLocationList"@ {
        Some(Some(key_view("DungeonIndexStr"@)))
    } else if n == "VariationListForArmorDye"@ {
        Some(Some(key_view("DyeColor"@)))
    } else if n == "HackEquip"@ {
        Some(Some(key_view("EquipUserBbKey"@)))
    } else if n == "AdventureMemorySetArray"@ || n == "GlobalResidentEventList"@ {
        Some(Some(key_view("EventName"@)))
    } else if n == "AutoPlayBoneVisibilities"@ || n == "AutoPlayMaterials"@ {
        Some(Some(key_view("FileName"@)))
    } else if n == "WinningRateTable"@ {
        Some(Some(key_view("FlintstonesNum"@)))
    } else if n == "ModelVariationAnims"@ {
        Some(Some(key_view("Fmab"@)))
    } else {
        None
    }
}

pub open spec fn key_names_7(n: Seq<char>, t: Seq<char>, d: int) -> Option<Option<KeyNameView>> {
    if n == "OptionParam"@ {
        Some(Some(key_view("FootIKMode"@)))
    } else if n == "PartialList"@ {
        Some(Some(key_view("GameData"@)))
    } else if n == "PlacementGroups"@ {
        Some(Some(key_view("GroupID"@)))
    } else if n == "EffectLimiterGroup"@ || n == "HiddenMaterialGroupList"@ {
        Some(Some(key_view("GroupName"@)))
    } else if n == "Textures"@ {
        Some(Some(key_view("guid"@)))
    } else if n == "Points"@ {
        Some(Some(key_view("Hash"@)))
    } else if n == "Rails"@ {
        Some(
            if d == 0 {
                Some(key_view("Hash"@))
            } else {
                None
            }
        )
    } else if n == "HeadshotDamageParameters"@ {
        Some(Some(key_view("HeadshotBoneName"@)))
    } else if n == "TransitionParam"@ {
        Some(Some(key_view("Index"@)))
    } else if n == "OverwriteParam"@ {
        Some(Some(key_view("InstanceId"@)))
    } else if n == "Interests"@ || n == "StrongInterests"@ {
        Some(Some(key_view("InterestType"@)))
    } else if n == "ConditionArray"@
        || n == "OverrideASEvReactVerbSettings"@
        || n == "SwitchParam"@
        || n == "TriggerParams"@
        || n == "Triggers"@ {
        Some(Some(key_view("Key"@)))
    } else {
        None
    }
}

pub open spec fn key_names_8(n: Seq<char>, t: Seq<char>, d: int) -> Option<Option<KeyNameView>> {
    if n == "OverrideASEventReactSettings"@ {
        Some(Some(pair_view("Key"@, "Intensity"@)))
    } else if n == "OverrideReactionVerbSettings"@ {
        Some(Some(pair_view("KeyActionVerb"@, "Setting.OverrideActionVerb"@)))
    } else if n == "ShootableActorSettings"@ {
        Some(Some(pair_view("KeyHash"@, "Actor"@)))
    } else if n == "AttachmentGroupList"@ || n == "EnemyGroupList"@ {
        Some(Some(key_view("Label"@)))
    } else if n == "ShopWeaponGroupList"@ || n == "WeaponGroupList"@ {
        Some(Some(pair_view("Label"@, "EquipmentType"@)))
    } else if n == "ActionSeqs"@ {
        Some(Some(key_view("LabelHash"@)))
    } else if n == "CaveEntranceNormal"@
        || n == "CaveEntranceSpecial"@
        || n == "CaveEntranceWell"@
        || n == "CheckPoint"@
        || n == "City"@
        || n == "District"@
        || n == "DragonTears"@
        || n == "Dungeon"@
        || n == "Ground"@
        || n == "ShopArmor"@
        || n == "ShopDye"@
        || n == "ShopGeneral"@
        || n == "ShopInn"@
        || n == "ShopJewelry"@
        || n == "Shrine"@
        || n == "SkyArchipelago"@
        || n == "SpotBig"@
        || n == "SpotBigArtifact"@
        || n == "SpotBigMagma"@
        || n == "SpotBigMountain"@
        || n == "SpotBigOther"@
        || n == "SpotBigTimber"@
        || n == "SpotBigWater"@
        || n == "SpotBigWithNameIcon"@
        || n == "SpotMiddle"@
        || n == "SpotMiddleArtifact"@
        || n == "SpotMiddleMagma"@
        || n == "SpotMiddleMountain"@
        || n == "SpotMiddleOther"@
        || n == "SpotMiddleTimber"@
        || n == "SpotMiddleWater"@
        || n == "SpotSmallArtifact"@
        || n == "SpotSmallMagma"@
        || n == "SpotSmallMountain"@
        || n == "SpotSmallOther"@
        || n == "SpotSmallTimber"@
        || n == "SpotSmallWater"@
        || n == "Stable"@
        || n == "Tower"@
        || n == "Underground"@ {
        Some(
            if t == "locationarea"@ {
                Some(key_view("LocationName"@))
            } else {
                None
            }
        )
    } else {
        None
    }
}

pub open spec fn key_names_9(n: Seq<char>, t: Seq<char>, d: int) -> Option<Option<KeyNameView>> {
    if n == "MiasmaAreaParam"@ {
        Some(Some(key_view("MiasmaAreaType"@)))
    } else if n == "AnimationDrive"@
        || n == "CColEntityNamePathAry"@
        || n == "CColSensorNamePathAry"@
        || n == "CheckPointSetting"@
        || n == "Cloth"@
        || n == "ClothAdvandecOption"@
        || n == "ClothList"@
        || n == "ClothReaction"@
        || n == "CollectItem"@
        || n == "CollidableList"@
        || n == "ControllerEntityNamePathAry"@
        || n == "ControllerSensorNamePathAry"@
        || n == "ControllerSensorUnitAry"@
        || n == "ExternalShapeNamePathAry"@
        || n == "HelperBoneList"@
        || n == "IntData"@
        || n == "LookIKControllerNamePathAry"@
        || n == "LookingControllerNamePathAry"@
        || n == "MatterRigidBodyNamePathAry"@
        || n == "MeshList"@
        || n == "ParamTable"@
        || n == "RagdollReaction"@
        || n == "RagdollReactionList"@
        || n == "RagdollStructure"@
        || n == "Reaction"@
        || n == "RigidBodyEntityNamePathAry"@
        || n == "RigidBodySensorNamePathAry"@
        || n == "ShapeList"@
        || n == "ShapeNamePathAry"@
        || n == "StringData"@
        || n == "TailBoneControllerNamePathAry"@
        || n == "Node"@ {
        Some(Some(key_view("Name"@)))
    } else {
        None
    }
}

pub open spec fn key_names_10(n: Seq<char>, t: Seq<char>, d: int) -> Option<Option<KeyNameView>> {
    if n == "TowingHookParams"@ {
        Some(Some(key_view("NameHash"@)))
    } else if n == "ExtraNewsSourceInfo"@ || n == "TopNewsSourceInfo"@ {
        Some(Some(key_view("NewsKeyName"@)))
    } else if n == "PictureBookPackInfoArray"@ {
        Some(Some(key_view("PackActor"@)))
    } else if n == "VariationListForParasail"@ {
        Some(Some(key_view("Pattern"@)))
    } else if n == "PhshMesh"@ {
        Some(Some(key_view("PhshMeshPath"@)))
    } else if n == "PlgGdTable"@ {
        Some(Some(key_view("PlgGuid"@)))
    } else if n == "PropertyDefinitions"@ || n == "Sources"@ {
        Some(Some(key_view("PropertyNameHash"@)))
    } else if n == "Connections"@ {
        Some(Some(key_view("RailHash"@)))
    } else if n == "CustomCullInfos"@ || n == "SpecialCullInfos"@ {
        Some(Some(key_view("ResourceName"@)))
    } else if n == "Seats"@ {
        Some(Some(key_view("RidableType"@)))
    } else if n == "VisibleSageOnNonMember"@ {
        Some(Some(key_view("SageType"@)))
    } else {
        None
    }
}

pub open spec fn key_names_11(n: Seq<char>, t: Seq<char>, d: int) -> Option<Option<KeyNameView>> {
    if n == "SeriesArmorEffectList"@ {
        Some(Some(key_view("SeriesName"@)))
    } else if n == "CropActorTable"@ {
        Some(Some(key_view("SrcActorName"@)))
    } else if n == "SuspiciosBuffs"@ {
        Some(Some(key_view("SuspiciousBuffType"@)))
    } else if n == "BoostOnlyTable"@ {
        Some(Some(key_view("Target"@)))
    } else if n == "PartialConfigs"@ {
        Some(Some(key_view("TargetName"@)))
    } else if n == "OverwritePropertiesEffect"@ || n == "OverwritePropertiesSound"@ {
        Some(Some(key_view("TargetTypeNameHash"@)))
    } else if n == "BGParamArray"@ {
        Some(Some(key_view("TexName"@)))
    } else if n == "TipsSetArray"@ {
        Some(Some(key_view("TipsType"@)))
    } else if n == "TmbMesh"@ {
        Some(Some(key_view("TmbMeshPath"@)))
    } else if n == "ActorPositionData"@ || n == "EventEntry"@ {
        Some(Some(key_view("$type"@)))
    } else if n == "SB"@ || n == "T"@ || n == "U"@ {
        Some(Some(key_view("Umii"@)))
    } else {
        None
    }
}

pub open spec fn key_names_12(n: Seq<char>, t: Seq<char>, d: int) -> Option<Option<KeyNameView>> {
    if n == "AlreadyReadInfo"@ {
        Some(Some(key_view("UpdateGameDataFlag"@)))
    } else if n == "ConditionList"@ {
        Some(Some(key_view("WeaponEssence"@)))
    } else if n == "WeaponTypeAndSubModelMapping"@ {
        Some(Some(key_view("WeaponType"@)))
    } else {
        None
    }
}

/// TKMM's key names for arrays, shared by merging and changelog building.
pub open spec fn common_key_name_spec(n: Seq<char>, t: Seq<char>, d: int) -> Option<KeyNameView> {
    match key_names_0(n, t, d) {
        Some(r) => r,
        None => match key_names_1(n, t, d) {
        Some(r) => r,
        None => match key_names_2(n, t, d) {
        Some(r) => r,
        None => match key_names_3(n, t, d) {
        Some(r) => r,
        None => match key_names_4(n, t, d) {
        Some(r) => r,
        None => match key_names_5(n, t, d) {
        Some(r) => r,
        None => match key_names_6(n, t, d) {
        Some(r) => r,
        None => match key_names_7(n, t, d) {
        Some(r) => r,
        None => match key_names_8(n, t, d) {
        Some(r) => r,
        None => match key_names_9(n, t, d) {
        Some(r) => r,
        None => match key_names_10(n, t, d) {
        Some(r) => r,
        None => match key_names_11(n, t, d) {
        Some(r) => r,
        None => match key_names_12(n, t, d) {
        Some(r) => r,
        None => None,
    },
    },
    },
    },
    },
    },
    },
    },
    },
    },
    },
    },
    }
}

fn key_names_0_of(n: &[char], t: &[char], d: i32) -> (r: Option<Option<KeyName>>)
    ensures
        option_key_view(r) == key_names_0(n@, t@, d as int),
{
    if is_lit(n, "Animal")
        || is_lit(n, "Enemy")
        || is_lit(n, "FallFloorInsect")
        || is_lit(n, "Fish")
        || is_lit(n, "GrassCut")
        || is_lit(n, "Insect")
        || is_lit(n, "NotDecayedLargeSwordList")
        || is_lit(n, "NotDecayedSmallSwordList")
        || is_lit(n, "NotDecayedSpearList")
        || is_lit(n, "RainBonusMaterial")
        || is_lit(n, "Seafood")
        || is_lit(n, "SpObjCapsuleBlockMaster")
        || is_lit(n, "Weapon")
        || is_lit(n, "bow")
        || is_lit(n, "bows")
        || is_lit(n, "shields")
        || is_lit(n, "weapons")
        || is_lit(n, "helmets") {
        Some(key("name"))
    } else {
        None
    }
}

fn key_names_1_of(n: &[char], t: &[char], d: i32) -> (r: Option<Option<KeyName>>)
    ensures
        option_key_view(r) == key_names_1(n@, t@, d as int),
{
    if is_lit(n, "Actors") {
        Some(
            if is_lit(t, "bcett") {
                key("Hash")
            } else if is_lit(t, "game__component__ArmyManagerParam") {
                key("ActorName")
            } else {
                None
            }
        )
    } else if is_lit(n, "Table") {
        Some(
            if is_lit(t, "game__colorvariation__ConversionActorNameToParasailPatternSetTable") {
                key("ParasailPattern")
            } else if is_lit(t, "game__ecosystem__DecayedWeaponMappingTable") {
                key("EquipmentDeathCountGmdHash")
            } else {
                None
            }
        )
    } else if is_lit(n, "BoneInfoArray") {
        Some(
            if is_lit(t, "game__component__DragonParam") {
                key("Hash")
            } else if is_lit(t, "phive__LookIKResourceHeaderParam")
                || is_lit(t, "phive__TailBoneResourceHeaderParam") {
                key("BoneName")
            } else {
                None
            }
        )
    } else if is_lit(n, "Elements") {
        Some(
            if is_lit(t, "game__enemy__DrakeSubModelInfo") {
                key("BoneName")
            } else if is_lit(t, "game__gamebalance__LevelSensorTargetDefine") {
                pair("ActorNameHash", "Plus")
            } else {
                None
            }
        )
    } else if is_lit(n, "Items") {
        Some(
            if is_lit(t, "game__pouchcontent__EnhancementMaterial") {
                key("Actor")
            } else {
                None
            }
        )
    } else if is_lit(n, "List") {
        Some(
            if is_lit(t, "game__sound__ShrineSpotBgmTypeInfoList") {
                key("DungeonIndexStr")
            } else {
                None
            }
        )
    } else if is_lit(n, "Contents") {
        Some(
            if is_lit(t, "game__ui__FairyFountainGlobalSetting") {
                key("Actor")
            } else {
                None
            }
        )
    } else if is_lit(n, "SettingTable") {
        Some(
            if is_lit(t, "game__ui__LargeDungeonFloorDefaultSettingTable") {
                key("DungeonType")
            } else {
                None
            }
        )
    } else if is_lit(n, "BrainVerbs") {
        Some(key("ActionSeqContainer"))
    } else if is_lit(n, "ActionVerbContainerElements") {
        Some(key("ActionVerb"))
    } else if is_lit(n, "ResidentActors")
        || is_lit(n, "Settings")
        || is_lit(n, "ShootableShareActorSettings")
        || is_lit(n, "GoodsList") {
        Some(key("Actor"))
    } else {
        None
    }
}

fn key_names_2_of(n: &[char], t: &[char], d: i32) -> (r: Option<Option<KeyName>>)
    ensures
        option_key_view(r) == key_names_2(n@, t@, d as int),
{
    if is_lit(n, "BindActorInfo") {
        Some(key("ActorHolderKey"))
    } else if is_lit(n, "RegisteredActorArray") || is_lit(n, "RequirementList") || is_lit(n, "Rewards") {
        Some(key("ActorName"))
    } else if is_lit(n, "SharpInfoList")
        || is_lit(n, "SharpInfoBowList")
        || is_lit(n, "SharpInfoShieldList") {
        Some(key("ActorNameHash"))
    } else if is_lit(n, "PictureBookParamArray") {
        Some(key("ActorNameShort"))
    } else if is_lit(n, "NavMeshObjects") {
        Some(key("Alias"))
    } else if is_lit(n, "AliasEntityList") {
        Some(key("AliasEntity"))
    } else if is_lit(n, "AliasSensorList") {
        Some(key("AliasSensor"))
    } else if is_lit(n, "Anchors") {
        Some(key("AnchorName"))
    } else if is_lit(n, "ArmorEffect") {
        Some(key("ArmorEffectType"))
    } else if is_lit(n, "HornTypeAndAttachmentMapping") {
        Some(pair("AttachmentName", "HornBoneName"))
    } else {
        None
    }
}

fn key_names_3_of(n: &[char], t: &[char], d: i32) -> (r: Option<Option<KeyName>>)
    ensures
        option_key_view(r) == key_names_3(n@, t@, d as int),
{
    if is_lit(n, "AttackParams") {
        Some(key("AttackType"))
    } else if is_lit(n, "BlackboardParamBoolArray")
        || is_lit(n, "BlackboardParamCustomTypeArray")
        || is_lit(n, "BlackboardParamF32Array")
        || is_lit(n, "BlackboardParamMtx33fArray")
        || is_lit(n, "BlackboardParamMtx34fArray")
        || is_lit(n, "BlackboardParamPtrArray")
        || is_lit(n, "BlackboardParamQuatfArray")
        || is_lit(n, "BlackboardParamS32Array")
        || is_lit(n, "BlackboardParamS8Array")
        || is_lit(n, "BlackboardParamStringArray")
        || is_lit(n, "BlackboardParamU32Array")
        || is_lit(n, "BlackboardParamU64Array")
        || is_lit(n, "BlackboardParamU8Array")
        || is_lit(n, "BlackboardParamVec3fArray")
        || is_lit(n, "EditBBParams") {
        Some(key("BBKey"))
    } else {
        None
    }
}

fn key_names_4_of(n: &[char], t: &[char], d: i32) -> (r: Option<Option<KeyName>>)
    ensures
        option_key_view(r) == key_names_4(n@, t@, d as int),
{
    if is_lit(n, "DragonInfoList") {
        Some(key("BindPointRespawnGameDataHash"))
    } else if is_lit(n, "OperationAngular") || is_lit(n, "OperationLinear") {
        Some(key("Body"))
    } else if is_lit(n, "BindBoneList")
        || is_lit(n, "BoneList")
        || is_lit(n, "BoneModifierSet")
        || is_lit(n, "Bones")
        || is_lit(n, "FruitOffsetTranslation")
        || is_lit(n, "ModelBindSettings")
        || is_lit(n, "StickWeaponBone") {
        Some(key("BoneName"))
    } else if is_lit(n, "Categories") {
        Some(key("CallbackName"))
    } else if is_lit(n, "CaveParams") {
        Some(key("CaveInstanceId"))
    } else if is_lit(n, "CheckList") {
        Some(key("CheckType"))
    } else if is_lit(n, "Object") {
        Some(key("ChemicalMaterial"))
    } else {
        None
    }
}

fn key_names_5_of(n: &[char], t: &[char], d: i32) -> (r: Option<Option<KeyName>>)
    ensures
        option_key_view(r) == key_names_5(n@, t@, d as int),
{
    if is_lit(n, "CharacterComponentPresetCollection")
        || is_lit(n, "LayerHitMaskEntityCollection")
        || is_lit(n, "LayerHitMaskSensorCollection")
        || is_lit(n, "MaterialCollection")
        || is_lit(n, "MaterialPresetCollection")
        || is_lit(n, "MotionPropertiesCollection")
        || is_lit(n, "PhysicsMaterialMappingInfoCollection")
        || is_lit(n, "SubLayerHitMaskEntityCollection")
        || is_lit(n, "SubLayerHitMaskSensorCollection")
        || is_lit(n, "UserShapeTagMaskCollection") {
        Some(key("ComponentName"))
    } else if is_lit(n, "HingeArray") || is_lit(n, "RangeArray") {
        Some(key("ConstraintName"))
    } else if is_lit(n, "CropYieldTable") {
        Some(key("CropName"))
    } else if is_lit(n, "DungeonBossDifficultyGameData") {
        Some(key("DefeatedNumGameDataHash"))
    } else {
        None
    }
}

fn key_names_6_of(n: &[char], t: &[char], d: i32) -> (r: Option<Option<KeyName>>)
    ensures
        option_key_view(r) == key_names_6(n@, t@, d as int),
{
    if is_lit(n, "DoCondition")
        || is_lit(n, "FinCondition")
        || is_lit(n, "PickConditions")
        || is_lit(n, "SuccessCondition") {
        Some(key("DefineNameHash"))
    } else if is_lit(n, "FallenActorTable") {
        Some(key("DropActorName"))
    } else if is_lit(n, "SmallDungeonLocationList") {
        Some(key("DungeonIndexStr"))
    } else if is_lit(n, "VariationListForArmorDye") {
        Some(key("DyeColor"))
    } else if is_lit(n, "HackEquip") {
        Some(key("EquipUserBbKey"))
    } else if is_lit(n, "AdventureMemorySetArray") || is_lit(n, "GlobalResidentEventList") {
        Some(key("EventName"))
    } else if is_lit(n, "AutoPlayBoneVisibilities") || is_lit(n, "AutoPlayMaterials") {
        Some(key("FileName"))
    } else if is_lit(n, "WinningRateTable") {
        Some(key("FlintstonesNum"))
    } else if is_lit(n, "ModelVariationAnims") {
        Some(key("Fmab"))
    } else {
        None
    }
}

fn key_names_7_of(n: &[char], t: &[char], d: i32) -> (r: Option<Option<KeyName>>)
    ensures
        option_key_view(r) == key_names_7(n@, t@, d as int),
{
    if is_lit(n, "OptionParam") {
        Some(key("FootIKMode"))
    } else if is_lit(n, "PartialList") {
        Some(key("GameData"))
    } else if is_lit(n, "PlacementGroups") {
        Some(key("GroupID"))
    } else if is_lit(n, "EffectLimiterGroup") || is_lit(n, "HiddenMaterialGroupList") {
        Some(key("GroupName"))
    } else if is_lit(n, "Textures") {
        Some(key("guid"))
    } else if is_lit(n, "Points") {
        Some(key("Hash"))
    } else if is_lit(n, "Rails") {
        Some(
            if d == 0 {
                key("Hash")
            } else {
                None
            }
        )
    } else if is_lit(n, "HeadshotDamageParameters") {
        Some(key("HeadshotBoneName"))
    } else if is_lit(n, "TransitionParam") {
        Some(key("Index"))
    } else if is_lit(n, "OverwriteParam") {
        Some(key("InstanceId"))
    } else if is_lit(n, "Interests") || is_lit(n, "StrongInterests") {
        Some(key("InterestType"))
    } else if is_lit(n, "ConditionArray")
        || is_lit(n, "OverrideASEvReactVerbSettings")
        || is_lit(n, "SwitchParam")
        || is_lit(n, "TriggerParams")
        || is_lit(n, "Triggers") {
        Some(key("Key"))
    } else {
        None
    }
}

fn key_names_8_of(n: &[char], t: &[char], d: i32) -> (r: Option<Option<KeyName>>)
    ensures
        option_key_view(r) == key_names_8(n@, t@, d as int),
{
    if is_lit(n, "OverrideASEventReactSettings") {
        Some(pair("Key", "Intensity"))
    } else if is_lit(n, "OverrideReactionVerbSettings") {
        Some(pair("KeyActionVerb", "Setting.OverrideActionVerb"))
    } else if is_lit(n, "ShootableActorSettings") {
        Some(pair("KeyHash", "Actor"))
    } else if is_lit(n, "AttachmentGroupList") || is_lit(n, "EnemyGroupList") {
        Some(key("Label"))
    } else if is_lit(n, "ShopWeaponGroupList") || is_lit(n, "WeaponGroupList") {
        Some(pair("Label", "EquipmentType"))
    } else if is_lit(n, "ActionSeqs") {
        Some(key("LabelHash"))
    } else if is_lit(n, "CaveEntranceNormal")
        || is_lit(n, "CaveEntranceSpecial")
        || is_lit(n, "CaveEntranceWell")
        || is_lit(n, "CheckPoint")
        || is_lit(n, "City")
        || is_lit(n, "District")
        || is_lit(n, "DragonTears")
        || is_lit(n, "Dungeon")
        || is_lit(n, "Ground")
        || is_lit(n, "ShopArmor")
        || is_lit(n, "ShopDye")
        || is_lit(n, "ShopGeneral")
        || is_lit(n, "ShopInn")
        || is_lit(n, "ShopJewelry")
        || is_lit(n, "Shrine")
        || is_lit(n, "SkyArchipelago")
        || is_lit(n, "SpotBig")
        || is_lit(n, "SpotBigArtifact")
        || is_lit(n, "SpotBigMagma")
        || is_lit(n, "SpotBigMountain")
        || is_lit(n, "SpotBigOther")
        || is_lit(n, "SpotBigTimber")
        || is_lit(n, "SpotBigWater")
        || is_lit(n, "SpotBigWithNameIcon")
        || is_lit(n, "SpotMiddle")
        || is_lit(n, "SpotMiddleArtifact")
        || is_lit(n, "SpotMiddleMagma")
        || is_lit(n, "SpotMiddleMountain")
        || is_lit(n, "SpotMiddleOther")
        || is_lit(n, "SpotMiddleTimber")
        || is_lit(n, "SpotMiddleWater")
        || is_lit(n, "SpotSmallArtifact")
        || is_lit(n, "SpotSmallMagma")
        || is_lit(n, "SpotSmallMountain")
        || is_lit(n, "SpotSmallOther")
        || is_lit(n, "SpotSmallTimber")
        || is_lit(n, "SpotSmallWater")
        || is_lit(n, "Stable")
        || is_lit(n, "Tower")
        || is_lit(n, "Underground") {
        Some(
            if is_lit(t, "locationarea") {
                key("LocationName")
            } else {
                None
            }
        )
    } else {
        None
    }
}

fn key_names_9_of(n: &[char], t: &[char], d: i32) -> (r: Option<Option<KeyName>>)
    ensures
        option_key_view(r) == key_names_9(n@, t@, d as int),
{
    if is_lit(n, "MiasmaAreaParam") {
        Some(key("MiasmaAreaType"))
    } else if is_lit(n, "AnimationDrive")
        || is_lit(n, "CColEntityNamePathAry")
        || is_lit(n, "CColSensorNamePathAry")
        || is_lit(n, "CheckPointSetting")
        || is_lit(n, "Cloth")
        || is_lit(n, "ClothAdvandecOption")
        || is_lit(n, "ClothList")
        || is_lit(n, "ClothReaction")
        || is_lit(n, "CollectItem")
        || is_lit(n, "CollidableList")
        || is_lit(n, "ControllerEntityNamePathAry")
        || is_lit(n, "ControllerSensorNamePathAry")
        || is_lit(n, "ControllerSensorUnitAry")
        || is_lit(n, "ExternalShapeNamePathAry")
        || is_lit(n, "HelperBoneList")
        || is_lit(n, "IntData")
        || is_lit(n, "LookIKControllerNamePathAry")
        || is_lit(n, "LookingControllerNamePathAry")
        || is_lit(n, "MatterRigidBodyNamePathAry")
        || is_lit(n, "MeshList")
        || is_lit(n, "ParamTable")
        || is_lit(n, "RagdollReaction")
        || is_lit(n, "RagdollReactionList")
        || is_lit(n, "RagdollStructure")
        || is_lit(n, "Reaction")
        || is_lit(n, "RigidBodyEntityNamePathAry")
        || is_lit(n, "RigidBodySensorNamePathAry")
        || is_lit(n, "ShapeList")
        || is_lit(n, "ShapeNamePathAry")
        || is_lit(n, "StringData")
        || is_lit(n, "TailBoneControllerNamePathAry")
        || is_lit(n, "Node") {
        Some(key("Name"))
    } else {
        None
    }
}

fn key_names_10_of(n: &[char], t: &[char], d: i32) -> (r: Option<Option<KeyName>>)
    ensures
        option_key_view(r) == key_names_10(n@, t@, d as int),
{
    if is_lit(n, "TowingHookParams") {
        Some(key("NameHash"))
    } else if is_lit(n, "ExtraNewsSourceInfo") || is_lit(n, "TopNewsSourceInfo") {
        Some(key("NewsKeyName"))
    } else if is_lit(n, "PictureBookPackInfoArray") {
        Some(key("PackActor"))
    } else if is_lit(n, "VariationListForParasail") {
        Some(key("Pattern"))
    } else if is_lit(n, "PhshMesh") {
        Some(key("PhshMeshPath"))
    } else if is_lit(n, "PlgGdTable") {
        Some(key("PlgGuid"))
    } else if is_lit(n, "PropertyDefinitions") || is_lit(n, "Sources") {
        Some(key("PropertyNameHash"))
    } else if is_lit(n, "Connections") {
        Some(key("RailHash"))
    } else if is_lit(n, "CustomCullInfos") || is_lit(n, "SpecialCullInfos") {
        Some(key("ResourceName"))
    } else if is_lit(n, "Seats") {
        Some(key("RidableType"))
    } else if is_lit(n, "VisibleSageOnNonMember") {
        Some(key("SageType"))
    } else {
        None
    }
}

fn key_names_11_of(n: &[char], t: &[char], d: i32) -> (r: Option<Option<KeyName>>)
    ensures
        option_key_view(r) == key_names_11(n@, t@, d as int),
{
    if is_lit(n, "SeriesArmorEffectList") {
        Some(key("SeriesName"))
    } else if is_lit(n, "CropActorTable") {
        Some(key("SrcActorName"))
    } else if is_lit(n, "SuspiciosBuffs") {
        Some(key("SuspiciousBuffType"))
    } else if is_lit(n, "BoostOnlyTable") {
        Some(key("Target"))
    } else if is_lit(n, "PartialConfigs") {
        Some(key("TargetName"))
    } else if is_lit(n, "OverwritePropertiesEffect") || is_lit(n, "OverwritePropertiesSound") {
        Some(key("TargetTypeNameHash"))
    } else if is_lit(n, "BGParamArray") {
        Some(key("TexName"))
    } else if is_lit(n, "TipsSetArray") {
        Some(key("TipsType"))
    } else if is_lit(n, "TmbMesh") {
        Some(key("TmbMeshPath"))
    } else if is_lit(n, "ActorPositionData") || is_lit(n, "EventEntry") {
        Some(key("$type"))
    } else if is_lit(n, "SB") || is_lit(n, "T") || is_lit(n, "U") {
        Some(key("Umii"))
    } else {
        None
    }
}

fn key_names_12_of(n: &[char], t: &[char], d: i32) -> (r: Option<Option<KeyName>>)
    ensures
        option_key_view(r) == key_names_12(n@, t@, d as int),
{
    if is_lit(n, "AlreadyReadInfo") {
        Some(key("UpdateGameDataFlag"))
    } else if is_lit(n, "ConditionList") {
        Some(key("WeaponEssence"))
    } else if is_lit(n, "WeaponTypeAndSubModelMapping") {
        Some(key("WeaponType"))
    } else {
        None
    }
}

/// Key names shared by both providers. `None` means "not a keyed array".
pub fn common_key_name(name: &str, bgyml_type: &str, depth: i32) -> (r: Option<KeyName>)
    ensures
        key_view_of(r) == common_key_name_spec(name@, bgyml_type@, depth as int),
{
    let nv = chars_of(name);
    let tv = chars_of(bgyml_type);
    let n = nv.as_slice();
    let t = tv.as_slice();
    let d = depth;
    if let Some(r) = key_names_0_of(n, t, d) {
        return r;
    }
    if let Some(r) = key_names_1_of(n, t, d) {
        return r;
    }
    if let Some(r) = key_names_2_of(n, t, d) {
        return r;
    }
    if let Some(r) = key_names_3_of(n, t, d) {
        return r;
    }
    if let Some(r) = key_names_4_of(n, t, d) {
        return r;
    }
    if let Some(r) = key_names_5_of(n, t, d) {
        return r;
    }
    if let Some(r) = key_names_6_of(n, t, d) {
        return r;
    }
    if let Some(r) = key_names_7_of(n, t, d) {
        return r;
    }
    if let Some(r) = key_names_8_of(n, t, d) {
        return r;
    }
    if let Some(r) = key_names_9_of(n, t, d) {
        return r;
    }
    if let Some(r) = key_names_10_of(n, t, d) {
        return r;
    }
    if let Some(r) = key_names_11_of(n, t, d) {
        return r;
    }
    if let Some(r) = key_names_12_of(n, t, d) {
        return r;
    }
    None
}

/// The key names used when merging: "Property" arrays by NameHash, game
/// data structs' "DefaultValue" by Hash, the shared names otherwise.
pub open spec fn merger_key_name_spec(n: Seq<char>, t: Seq<char>, d: int) -> Option<KeyNameView> {
    if n == "Property"@ {
        Some(key_view("NameHash"@))
    } else if n == "DefaultValue"@ {
        if t == "Struct"@ {
            Some(key_view("Hash"@))
        } else {
            None
        }
    } else {
        common_key_name_spec(n, t, d)
    }
}

pub fn merger_key_name(name: &str, bgyml_type: &str, depth: i32) -> (r: Option<KeyName>)
    ensures
        key_view_of(r) == merger_key_name_spec(name@, bgyml_type@, depth as int),
{
    let n = chars_of(name);
    let t = chars_of(bgyml_type);
    if is_lit(n.as_slice(), "Property") {
        return key("NameHash");
    }
    if is_lit(n.as_slice(), "DefaultValue") {
        if is_lit(t.as_slice(), "Struct") {
            return key("Hash");
        }
        return None;
    }
    common_key_name(name, bgyml_type, depth)
}

/// Names listed explicitly among the changelog builders, whose fallback is
/// the default builder rather than the ConditionParam special case.
pub open spec fn is_known_array_spec(n: Seq<char>) -> bool {
    n == "Actors"@
        || n == "Table"@
        || n == "BoneInfoArray"@
        || n == "Elements"@
        || n == "Items"@
        || n == "List"@
        || n == "Contents"@
        || n == "SettingTable"@
        || n == "Rails"@
        || n == "CaveEntranceNormal"@
        || n == "CaveEntranceSpecial"@
        || n == "CaveEntranceWell"@
        || n == "CheckPoint"@
        || n == "City"@
        || n == "District"@
        || n == "DragonTears"@
        || n == "Dungeon"@
        || n == "Ground"@
        || n == "ShopArmor"@
        || n == "ShopDye"@
        || n == "ShopGeneral"@
        || n == "ShopInn"@
        || n == "ShopJewelry"@
        || n == "Shrine"@
        || n == "SkyArchipelago"@
        || n == "SpotBig"@
        || n == "SpotBigArtifact"@
        || n == "SpotBigMagma"@
        || n == "SpotBigMountain"@
        || n == "SpotBigOther"@
        || n == "SpotBigTimber"@
        || n == "SpotBigWater"@
        || n == "SpotBigWithNameIcon"@
        || n == "SpotMiddle"@
        || n == "SpotMiddleArtifact"@
        || n == "SpotMiddleMagma"@
        || n == "SpotMiddleMountain"@
        || n == "SpotMiddleOther"@
        || n == "SpotMiddleTimber"@
        || n == "SpotMiddleWater"@
        || n == "SpotSmallArtifact"@
        || n == "SpotSmallMagma"@
        || n == "SpotSmallMountain"@
        || n == "SpotSmallOther"@
        || n == "SpotSmallTimber"@
        || n == "SpotSmallWater"@
        || n == "Stable"@
        || n == "Tower"@
        || n == "Underground"@
}

fn is_known_array(n: &[char]) -> (r: bool)
    ensures
        r == is_known_array_spec(n@),
{
    is_lit(n, "Actors")
        || is_lit(n, "Table")
        || is_lit(n, "BoneInfoArray")
        || is_lit(n, "Elements")
        || is_lit(n, "Items")
        || is_lit(n, "List")
        || is_lit(n, "Contents")
        || is_lit(n, "SettingTable")
        || is_lit(n, "Rails")
        || is_lit(n, "CaveEntranceNormal")
        || is_lit(n, "CaveEntranceSpecial")
        || is_lit(n, "CaveEntranceWell")
        || is_lit(n, "CheckPoint")
        || is_lit(n, "City")
        || is_lit(n, "District")
        || is_lit(n, "DragonTears")
        || is_lit(n, "Dungeon")
        || is_lit(n, "Ground")
        || is_lit(n, "ShopArmor")
        || is_lit(n, "ShopDye")
        || is_lit(n, "ShopGeneral")
        || is_lit(n, "ShopInn")
        || is_lit(n, "ShopJewelry")
        || is_lit(n, "Shrine")
        || is_lit(n, "SkyArchipelago")
        || is_lit(n, "SpotBig")
        || is_lit(n, "SpotBigArtifact")
        || is_lit(n, "SpotBigMagma")
        || is_lit(n, "SpotBigMountain")
        || is_lit(n, "SpotBigOther")
        || is_lit(n, "SpotBigTimber")
        || is_lit(n, "SpotBigWater")
        || is_lit(n, "SpotBigWithNameIcon")
        || is_lit(n, "SpotMiddle")
        || is_lit(n, "SpotMiddleArtifact")
        || is_lit(n, "SpotMiddleMagma")
        || is_lit(n, "SpotMiddleMountain")
        || is_lit(n, "SpotMiddleOther")
        || is_lit(n, "SpotMiddleTimber")
        || is_lit(n, "SpotMiddleWater")
        || is_lit(n, "SpotSmallArtifact")
        || is_lit(n, "SpotSmallMagma")
        || is_lit(n, "SpotSmallMountain")
        || is_lit(n, "SpotSmallOther")
        || is_lit(n, "SpotSmallTimber")
        || is_lit(n, "SpotSmallWater")
        || is_lit(n, "Stable")
        || is_lit(n, "Tower")
        || is_lit(n, "Underground")
}

/// The builder named arrays get before any key name is looked at.
pub open spec fn fixed_builder(n: Seq<char>, t: Seq<char>) -> Option<ArrayBuilderView> {
    if n == "Property"@ {
        Some(ArrayBuilderView::NameHash)
    } else if n == "Translate"@
        || n == "Rotate"@
        || n == "Scale"@
        || n == "MarginNegative"@
        || n == "MarginPositive"@
        || n == "Rot"@
        || n == "Trans"@
        || n == "Pivot"@
        || n == "PlayerPosOnClearEvent"@
        || n == "EnokidaCameraPos"@
        || n == "WeakPointActorArray"@
        || n == "WeakPointUser"@
        || n == "NearWoodStoragePos"@
        || n == "StaffRollSetArray"@ {
        Some(ArrayBuilderView::DirectIndex)
    } else if n == "ArmorCategory"@
        || n == "ArmorDyeColor"@
        || n == "ArmorSeries"@
        || n == "BowEffect"@
        || n == "FoodEffect"@
        || n == "MaterialBowAttachmentTag"@
        || n == "MaterialCategory"@
        || n == "ShieldEffect"@
        || n == "WeaponCategory"@
        || n == "WeaponEffect"@ {
        if t == "game__ui__PouchSortTable"@ {
            Some(ArrayBuilderView::DirectIndex)
        } else {
            Some(ArrayBuilderView::Default)
        }
    } else if n == "RecipeArray"@ {
        if t == "game__cooking__RecipeCardTable"@ {
            Some(ArrayBuilderView::DirectIndex)
        } else {
            Some(ArrayBuilderView::Default)
        }
    } else {
        None
    }
}

fn fixed_builder_of(n: &[char], t: &[char]) -> (r: Option<ArrayBuilder>)
    ensures
        match r {
            Some(b) => fixed_builder(n@, t@) == Some(b@),
            None => fixed_builder(n@, t@) is None,
        },
{
    if is_lit(n, "Property") {
        Some(ArrayBuilder::NameHash)
    } else if is_lit(n, "Translate")
        || is_lit(n, "Rotate")
        || is_lit(n, "Scale")
        || is_lit(n, "MarginNegative")
        || is_lit(n, "MarginPositive")
        || is_lit(n, "Rot")
        || is_lit(n, "Trans")
        || is_lit(n, "Pivot")
        || is_lit(n, "PlayerPosOnClearEvent")
        || is_lit(n, "EnokidaCameraPos")
        || is_lit(n, "WeakPointActorArray")
        || is_lit(n, "WeakPointUser")
        || is_lit(n, "NearWoodStoragePos")
        || is_lit(n, "StaffRollSetArray") {
        Some(ArrayBuilder::DirectIndex)
    } else if is_lit(n, "ArmorCategory")
        || is_lit(n, "ArmorDyeColor")
        || is_lit(n, "ArmorSeries")
        || is_lit(n, "BowEffect")
        || is_lit(n, "FoodEffect")
        || is_lit(n, "MaterialBowAttachmentTag")
        || is_lit(n, "MaterialCategory")
        || is_lit(n, "ShieldEffect")
        || is_lit(n, "WeaponCategory")
        || is_lit(n, "WeaponEffect") {
        if is_lit(t, "game__ui__PouchSortTable") {
            Some(ArrayBuilder::DirectIndex)
        } else {
            Some(ArrayBuilder::Default)
        }
    } else if is_lit(n, "RecipeArray") {
        if is_lit(t, "game__cooking__RecipeCardTable") {
            Some(ArrayBuilder::DirectIndex)
        } else {
            Some(ArrayBuilder::Default)
        }
    } else {
        None
    }
}

/// How a changelog is recorded for an array named `n` in a document of type `t`.
pub open spec fn array_builder_spec(n: Seq<char>, t: Seq<char>, d: int) -> ArrayBuilderView {
    match fixed_builder(n, t) {
        Some(b) => b,
        None => match common_key_name_spec(n, t, d) {
            Some(k) => ArrayBuilderView::Keyed(k),
            None => if is_known_array_spec(n) {
                ArrayBuilderView::Default
            } else if t == "game__component__ConditionParam"@ {
                ArrayBuilderView::DirectIndex
            } else {
                ArrayBuilderView::Default
            },
        },
    }
}

pub fn array_builder(name: &str, bgyml_type: &str, depth: i32) -> (r: ArrayBuilder)
    ensures
        r@ == array_builder_spec(name@, bgyml_type@, depth as int),
{
    let n = chars_of(name);
    let t = chars_of(bgyml_type);
    if let Some(b) = fixed_builder_of(n.as_slice(), t.as_slice()) {
        return b;
    }
    match common_key_name(name, bgyml_type, depth) {
        Some(k) => {
            return ArrayBuilder::Keyed(k);
        },
        None => {
            if is_known_array(n.as_slice()) {
                return ArrayBuilder::Default;
            }
            if is_lit(t.as_slice(), "game__component__ConditionParam") {
                return ArrayBuilder::DirectIndex;
            }
            return ArrayBuilder::Default;
        },
    }
}

/// The file name: what follows the last '/'.
pub open spec fn file_name_of(path: Seq<char>) -> Seq<char> {
    path.skip(last_index_of(path, '/') + 1)
}

/// The bgyml type derived from a file name: "Foo.game__Bar.bgyml" → "game__Bar".
pub open spec fn bgyml_type_spec(canonical: Seq<char>) -> Seq<char> {
    let name = file_name_of(canonical);
    let stem = if last_index_of(name, '.') >= 0 {
        name.take(last_index_of(name, '.'))
    } else {
        name
    };
    if last_index_of(stem, '.') >= 0 {
        stem.skip(last_index_of(stem, '.') + 1)
    } else {
        Seq::empty()
    }
}

pub fn bgyml_type(canonical: &str) -> (r: String)
    ensures
        r@ == bgyml_type_spec(canonical@),
{
    let c = chars_of(canonical);
    let start = match rfind_char(c.as_slice(), '/') {
        Some(i) => i + 1,
        None => 0,
    };
    let name = slice_of(c.as_slice(), start, c.len());
    assert(name@ =~= file_name_of(canonical@));
    let stem = match rfind_char(name.as_slice(), '.') {
        Some(i) => slice_of(name.as_slice(), 0, i),
        None => slice_of(name.as_slice(), 0, name.len()),
    };
    assert(name@.take(name@.len() as int) =~= name@);
    match rfind_char(stem.as_slice(), '.') {
        Some(i) => {
            let t = slice_of(stem.as_slice(), i + 1, stem.len());
            string_of(t.as_slice())
        },
        None => String::new(),
    }
}

} // verus!
