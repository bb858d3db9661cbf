//! GLSL versions that the renderer can target and what each one offers.

use vstd::prelude::*;

verus! {

/// A GLSL dialect.
#[derive(Debug, Clone, Copy, PartialEq, Eq, Structural)]
pub enum ShaderVersion {
    /// OpenGL ES 2.0 / WebGL 1.0
    GL100,
    /// OpenGL ES 3.0 / WebGL 2.0
    GL300,
    /// OpenGL 4.0+
    GL400,
}

/// The shader capabilities that a GLSL dialect offers.
#[derive(Debug, Clone, Copy, PartialEq, Eq, Structural)]
pub struct ShaderFeatures {
    pub ubo: bool,
    pub ssbo: bool,
    pub compute: bool,
    pub texture_lod: bool,
    pub texture_array: bool,
    pub instancing: bool,
}

/// The build settings that decide which dialect is used: the enabled
/// `gl-40` and `gl-30` features and the target platform.
#[derive(Debug, Clone, Copy, PartialEq, Eq, Structural)]
pub struct GlBuild {
    pub gl_40: bool,
    pub gl_30: bool,
    pub wasm32: bool,
    pub android: bool,
    pub ios: bool,
}

/// The dialect chosen for a build: GL 4.0 on a desktop build with `gl-40`,
/// else GL 3.0 with `gl-30`, else GL 1.0.
pub open spec fn spec_detect(build: GlBuild) -> ShaderVersion {
    if build.gl_40 && !build.wasm32 && !build.android && !build.ios {
        ShaderVersion::GL400
    } else if build.gl_30 {
        ShaderVersion::GL300
    } else {
        ShaderVersion::GL100
    }
}

/// The `#version` line of each dialect.
pub open spec fn spec_version_directive(v: ShaderVersion) -> Seq<char> {
    match v {
        ShaderVersion::GL100 => "#version 100"@,
        ShaderVersion::GL300 => "#version 300 es"@,
        ShaderVersion::GL400 => "#version 400 core"@,
    }
}

/// The feature table of each dialect.
pub open spec fn spec_features(v: ShaderVersion) -> ShaderFeatures {
    match v {
        ShaderVersion::GL100 => ShaderFeatures {
            ubo: false,
            ssbo: false,
            compute: false,
            texture_lod: false,
            texture_array: false,
            instancing: false,
        },
        ShaderVersion::GL300 => ShaderFeatures {
            ubo: true,
            ssbo: false,
            compute: false,
            texture_lod: true,
            texture_array: true,
            instancing: true,
        },
        ShaderVersion::GL400 => ShaderFeatures {
            ubo: true,
            ssbo: true,
            compute: true,
            texture_lod: true,
            texture_array: true,
            instancing: true,
        },
    }
}

/// Every feature of `a` is also a feature of `b`.
pub open spec fn features_within(a: ShaderFeatures, b: ShaderFeatures) -> bool {
    &&& a.ubo ==> b.ubo
    &&& a.ssbo ==> b.ssbo
    &&& a.compute ==> b.compute
    &&& a.texture_lod ==> b.texture_lod
    &&& a.texture_array ==> b.texture_array
    &&& a.instancing ==> b.instancing
}

/// The rank of a dialect: GL 1.0 < GL 3.0 < GL 4.0.
pub open spec fn version_rank(v: ShaderVersion) -> int {
    match v {
        ShaderVersion::GL100 => 0,
        ShaderVersion::GL300 => 1,
        ShaderVersion::GL400 => 2,
    }
}

impl ShaderVersion {
    /// Picks the dialect for the given build settings.
    pub fn detect(build: &GlBuild) -> (r: ShaderVersion)
        ensures
            r == spec_detect(*build),
    {
        if build.gl_40 && !build.wasm32 && !build.android && !build.ios {
            return ShaderVersion::GL400;
        }
        if build.gl_30 {
            return ShaderVersion::GL300;
        }
        ShaderVersion::GL100
    }

    /// The `#version` directive that starts a shader of this dialect.
    pub fn version_directive(&self) -> (r: &'static str)
        ensures
            r@ == spec_version_directive(*self),
    {
        match self {
            ShaderVersion::GL100 => "#version 100",
            ShaderVersion::GL300 => "#version 300 es",
            ShaderVersion::GL400 => "#version 400 core",
        }
    }

    /// The features this dialect offers.
    pub fn supports_features(&self) -> (r: ShaderFeatures)
        ensures
            r == spec_features(*self),
    {
        match self {
            ShaderVersion::GL100 => ShaderFeatures {
                ubo: false,
                ssbo: false,
                compute: false,
                texture_lod: false,
                texture_array: false,
                instancing: false,
            },
            ShaderVersion::GL300 => ShaderFeatures {
                ubo: true,
                ssbo: false,
                compute: false,
                texture_lod: true,
                texture_array: true,
                instancing: true,
            },
            ShaderVersion::GL400 => ShaderFeatures {
                ubo: true,
                ssbo: true,
                compute: true,
                texture_lod: true,
                texture_array: true,
                instancing: true,
            },
        }
    }
}

/// A newer dialect offers every feature of an older one.
pub proof fn lemma_features_monotone(a: ShaderVersion, b: ShaderVersion)
    requires
        version_rank(a) <= version_rank(b),
    ensures
        features_within(spec_features(a), spec_features(b)),
{
}

/// Without the `gl-40` and `gl-30` features the build always gets GL 1.0;
/// a web, Android or iOS build never gets GL 4.0.
pub proof fn lemma_detect_fallbacks(build: GlBuild)
    ensures
        !build.gl_40 && !build.gl_30 ==> spec_detect(build) == ShaderVersion::GL100,
        build.wasm32 || build.android || build.ios ==> spec_detect(build) != ShaderVersion::GL400,
{
}

/// The dialect of every build: GL 4.0 exactly for a desktop build (not
/// web, Android or iOS) with `gl-40`; otherwise GL 3.0 exactly when `gl-30`
/// is enabled; otherwise GL 1.0.
pub proof fn lemma_detect_cases(build: GlBuild)
    ensures
        build.gl_40 && !build.wasm32 && !build.android && !build.ios ==> spec_detect(build)
            == ShaderVersion::GL400,
        !(build.gl_40 && !build.wasm32 && !build.android && !build.ios) && build.gl_30
            ==> spec_detect(build) == ShaderVersion::GL300,
        !(build.gl_40 && !build.wasm32 && !build.android && !build.ios) && !build.gl_30
            ==> spec_detect(build) == ShaderVersion::GL100,
        spec_detect(build) == ShaderVersion::GL400 <==> (build.gl_40 && !build.wasm32 && !build.android
            && !build.ios),
        spec_detect(build) == ShaderVersion::GL100 <==> (!build.gl_30 && !(build.gl_40 && !build.wasm32
            && !build.android && !build.ios)),
{
}

} // verus!
