//! Plain data types of the surrounding editor: dock layout, material
//! editing state, and the serializable camera setting enums. These are the
//! value types the editor's view layer reads and writes; the widgets
//! themselves live outside this crate.

use vstd::prelude::*;
use vstd::string::StringExecFns;

verus! {

/// Which side of the viewport the editor's dock panel occupies.
#[derive(Clone, Copy, Debug, PartialEq, Eq, Structural)]
pub enum SidePanelPosition {
    Left,
    Right,
}

impl Default for SidePanelPosition {
    /// The dock starts on the right.
    fn default() -> (r: Self)
        ensures
            r == SidePanelPosition::Right,
    {
        SidePanelPosition::Right
    }
}

impl SidePanelPosition {
    /// Every position, for UI enumeration.
    pub fn all() -> (r: Vec<SidePanelPosition>)
        ensures
            r@ == seq![SidePanelPosition::Left, SidePanelPosition::Right],
    {
        let mut out: Vec<SidePanelPosition> = Vec::new();
        out.push(SidePanelPosition::Left);
        out.push(SidePanelPosition::Right);
        proof {
            assert(out@ =~= seq![SidePanelPosition::Left, SidePanelPosition::Right]);
        }
        out
    }
}

/// Which pane of the material editor is active.
#[derive(Clone, Copy, Debug, PartialEq, Eq, Structural)]
pub enum MaterialTab {
    Edit,
    Create,
}

impl Default for MaterialTab {
    /// The editor opens on the edit pane.
    fn default() -> (r: Self)
        ensures
            r == MaterialTab::Edit,
    {
        MaterialTab::Edit
    }
}

/// Serializable counterpart of the engine's bloom composite mode.
#[derive(Clone, Copy, Debug, PartialEq, Eq, Structural)]
pub enum BloomCompositeMode {
    EnergyConserving,
    Additive,
}

impl Default for BloomCompositeMode {
    /// Additive compositing is the stock setting.
    fn default() -> (r: Self)
        ensures
            r == BloomCompositeMode::Additive,
    {
        BloomCompositeMode::Additive
    }
}

/// Serializable counterpart of the engine's atmosphere rendering method.
#[derive(Clone, Copy, Debug, PartialEq, Eq, Structural)]
pub enum AtmosphereRenderingMethod {
    LookupTexture,
    Raymarched,
}

impl Default for AtmosphereRenderingMethod {
    /// The lookup-texture method is the stock setting.
    fn default() -> (r: Self)
        ensures
            r == AtmosphereRenderingMethod::LookupTexture,
    {
        AtmosphereRenderingMethod::LookupTexture
    }
}

/// One editable field of a standard material.
#[derive(Clone, Copy, Debug, PartialEq, Eq, Hash, Structural)]
pub enum EditableMaterialField {
    BaseColor,
    BaseColorTexture,
    Roughness,
    Metalness,
    MetallicRoughnessTexture,
    Emissive,
    EmissiveTexture,
    EmissiveExposureWeight,
    NormalMapTexture,
    OcclusionMap,
    Thickness,
    AttenuationColor,
    AttenuationDistance,
    Clearcoat,
    ClearcoatPerceptualRoughness,
    AnisotropyStrength,
    AnisotropyChannel,
    AnisotropyRotation,
    DoubleSided,
    Unlit,
    FogEnabled,
    AlphaMode,
    DepthBias,
    CullMode,
    UvTransform,
}

impl EditableMaterialField {
    /// Every editable field, in display order.
    pub fn all() -> (r: Vec<EditableMaterialField>)
        ensures
            r@ == seq![
                EditableMaterialField::BaseColor,
                EditableMaterialField::BaseColorTexture,
                EditableMaterialField::Roughness,
                EditableMaterialField::Metalness,
                EditableMaterialField::MetallicRoughnessTexture,
                EditableMaterialField::Emissive,
                EditableMaterialField::EmissiveTexture,
                EditableMaterialField::EmissiveExposureWeight,
                EditableMaterialField::NormalMapTexture,
                EditableMaterialField::OcclusionMap,
                EditableMaterialField::Thickness,
                EditableMaterialField::AttenuationColor,
                EditableMaterialField::AttenuationDistance,
                EditableMaterialField::Clearcoat,
                EditableMaterialField::ClearcoatPerceptualRoughness,
                EditableMaterialField::AnisotropyStrength,
                EditableMaterialField::AnisotropyChannel,
                EditableMaterialField::AnisotropyRotation,
                EditableMaterialField::DoubleSided,
                EditableMaterialField::Unlit,
                EditableMaterialField::FogEnabled,
                EditableMaterialField::AlphaMode,
                EditableMaterialField::DepthBias,
                EditableMaterialField::CullMode,
                EditableMaterialField::UvTransform,
            ],
    {
        let mut out: Vec<EditableMaterialField> = Vec::new();
        out.push(EditableMaterialField::BaseColor);
        out.push(EditableMaterialField::BaseColorTexture);
        out.push(EditableMaterialField::Roughness);
        out.push(EditableMaterialField::Metalness);
        out.push(EditableMaterialField::MetallicRoughnessTexture);
        out.push(EditableMaterialField::Emissive);
        out.push(EditableMaterialField::EmissiveTexture);
        out.push(EditableMaterialField::EmissiveExposureWeight);
        out.push(EditableMaterialField::NormalMapTexture);
        out.push(EditableMaterialField::OcclusionMap);
        out.push(EditableMaterialField::Thickness);
        out.push(EditableMaterialField::AttenuationColor);
        out.push(EditableMaterialField::AttenuationDistance);
        out.push(EditableMaterialField::Clearcoat);
        out.push(EditableMaterialField::ClearcoatPerceptualRoughness);
        out.push(EditableMaterialField::AnisotropyStrength);
        out.push(EditableMaterialField::AnisotropyChannel);
        out.push(EditableMaterialField::AnisotropyRotation);
        out.push(EditableMaterialField::DoubleSided);
        out.push(EditableMaterialField::Unlit);
        out.push(EditableMaterialField::FogEnabled);
        out.push(EditableMaterialField::AlphaMode);
        out.push(EditableMaterialField::DepthBias);
        out.push(EditableMaterialField::CullMode);
        out.push(EditableMaterialField::UvTransform);
        proof {
            assert(out@ =~= seq![
                EditableMaterialField::BaseColor,
                EditableMaterialField::BaseColorTexture,
                EditableMaterialField::Roughness,
                EditableMaterialField::Metalness,
                EditableMaterialField::MetallicRoughnessTexture,
                EditableMaterialField::Emissive,
                EditableMaterialField::EmissiveTexture,
                EditableMaterialField::EmissiveExposureWeight,
                EditableMaterialField::NormalMapTexture,
                EditableMaterialField::OcclusionMap,
                EditableMaterialField::Thickness,
                EditableMaterialField::AttenuationColor,
                EditableMaterialField::AttenuationDistance,
                EditableMaterialField::Clearcoat,
                EditableMaterialField::ClearcoatPerceptualRoughness,
                EditableMaterialField::AnisotropyStrength,
                EditableMaterialField::AnisotropyChannel,
                EditableMaterialField::AnisotropyRotation,
                EditableMaterialField::DoubleSided,
                EditableMaterialField::Unlit,
                EditableMaterialField::FogEnabled,
                EditableMaterialField::AlphaMode,
                EditableMaterialField::DepthBias,
                EditableMaterialField::CullMode,
                EditableMaterialField::UvTransform,
            ]);
        }
        out
    }
}

/// Whether a material operation hit an error.
#[derive(Clone, Copy, Debug, PartialEq, Eq, Structural)]
pub enum EditableMaterialError {
    NoError,
    PathExists,
}

/// The form state for creating a material on disk.
#[derive(Clone, Debug, PartialEq)]
pub struct NewEditableMaterial {
    pub file_name: String,
    pub file_dir: String,
    pub friendly_name: String,
    pub rel_path: String,
    pub create: bool,
}

impl Default for NewEditableMaterial {
    /// A blank form, pointed at the stock materials directory.
    fn default() -> (r: Self)
        ensures
            r.file_dir@ == "materials/"@,
            r.file_name@.len() == 0,
            r.friendly_name@.len() == 0,
            r.rel_path@.len() == 0,
            !r.create,
    {
        NewEditableMaterial {
            file_dir: String::from_str("materials/"),
            file_name: String::new(),
            friendly_name: String::new(),
            rel_path: String::new(),
            create: false,
        }
    }
}

/// Implemented by settings panes that track whether the user changed them.
pub trait ChangeTracker {
    /// Note that the pane's data changed and needs saving.
    fn mark_changed(&mut self);
}

} // verus!
