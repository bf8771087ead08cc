//! The editor's plain data types and the plugin configuration.

use bevy_granite::editor_types::{
    AtmosphereRenderingMethod, BloomCompositeMode, EditableMaterialError, EditableMaterialField,
    MaterialTab, NewEditableMaterial, SidePanelPosition,
};
use bevy_granite::BevyGranite;

#[test]
fn side_panel_positions() {
    let all = SidePanelPosition::all();
    assert_eq!(all, vec![SidePanelPosition::Left, SidePanelPosition::Right]);
    assert_eq!(SidePanelPosition::default(), SidePanelPosition::Right);
}

#[test]
fn material_editor_defaults() {
    assert_eq!(MaterialTab::default(), MaterialTab::Edit);
    let form = NewEditableMaterial::default();
    assert_eq!(form.file_dir, "materials/");
    assert_eq!(form.file_name, "");
    assert!(!form.create);
    assert_eq!(EditableMaterialError::NoError, EditableMaterialError::NoError);
    assert_ne!(EditableMaterialError::NoError, EditableMaterialError::PathExists);
}

#[test]
fn material_field_enumeration() {
    let all = EditableMaterialField::all();
    assert_eq!(all.len(), 25);
    assert_eq!(all[0], EditableMaterialField::BaseColor);
    assert_eq!(all[24], EditableMaterialField::UvTransform);
}

#[test]
fn camera_setting_defaults() {
    assert_eq!(BloomCompositeMode::default(), BloomCompositeMode::Additive);
    assert_eq!(
        AtmosphereRenderingMethod::default(),
        AtmosphereRenderingMethod::LookupTexture
    );
}

#[test]
fn plugin_configuration_defaults() {
    let config = BevyGranite::default();
    assert!(config.active);
    assert!(config.logging);
    assert_eq!(config.default_world, "scenes/default.mat");
}
