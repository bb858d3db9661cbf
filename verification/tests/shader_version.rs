use macroquad::shader_version::{GlBuild, ShaderFeatures, ShaderVersion};

fn build(gl_40: bool, gl_30: bool, wasm32: bool, android: bool, ios: bool) -> GlBuild {
    GlBuild { gl_40, gl_30, wasm32, android, ios }
}

#[test]
fn version_directives() {
    assert_eq!(ShaderVersion::GL100.version_directive(), "#version 100");
    assert_eq!(ShaderVersion::GL300.version_directive(), "#version 300 es");
    assert_eq!(ShaderVersion::GL400.version_directive(), "#version 400 core");
}

#[test]
fn features_of_each_version() {
    assert_eq!(
        ShaderVersion::GL100.supports_features(),
        ShaderFeatures { ubo: false, ssbo: false, compute: false, texture_lod: false, texture_array: false, instancing: false }
    );
    assert_eq!(
        ShaderVersion::GL300.supports_features(),
        ShaderFeatures { ubo: true, ssbo: false, compute: false, texture_lod: true, texture_array: true, instancing: true }
    );
    assert_eq!(
        ShaderVersion::GL400.supports_features(),
        ShaderFeatures { ubo: true, ssbo: true, compute: true, texture_lod: true, texture_array: true, instancing: true }
    );
}

#[test]
fn newer_versions_keep_older_features() {
    let versions = [ShaderVersion::GL100, ShaderVersion::GL300, ShaderVersion::GL400];
    for i in 0..versions.len() {
        for j in i..versions.len() {
            let a = versions[i].supports_features();
            let b = versions[j].supports_features();
            assert!(!a.ubo || b.ubo);
            assert!(!a.ssbo || b.ssbo);
            assert!(!a.compute || b.compute);
            assert!(!a.texture_lod || b.texture_lod);
            assert!(!a.texture_array || b.texture_array);
            assert!(!a.instancing || b.instancing);
        }
    }
}

#[test]
fn detect_without_features_is_gl100() {
    assert_eq!(ShaderVersion::detect(&build(false, false, false, false, false)), ShaderVersion::GL100);
    assert_eq!(ShaderVersion::detect(&build(false, false, true, true, true)), ShaderVersion::GL100);
}

#[test]
fn detect_gl40_on_desktop() {
    assert_eq!(ShaderVersion::detect(&build(true, false, false, false, false)), ShaderVersion::GL400);
    assert_eq!(ShaderVersion::detect(&build(true, true, false, false, false)), ShaderVersion::GL400);
}

#[test]
fn detect_gl40_falls_back_off_desktop() {
    assert_eq!(ShaderVersion::detect(&build(true, false, true, false, false)), ShaderVersion::GL100);
    assert_eq!(ShaderVersion::detect(&build(true, true, false, true, false)), ShaderVersion::GL300);
    assert_eq!(ShaderVersion::detect(&build(true, true, false, false, true)), ShaderVersion::GL300);
}

#[test]
fn detect_gl30() {
    assert_eq!(ShaderVersion::detect(&build(false, true, false, false, false)), ShaderVersion::GL300);
    assert_eq!(ShaderVersion::detect(&build(false, true, true, false, false)), ShaderVersion::GL300);
}
