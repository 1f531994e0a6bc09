use math3render::scene::{ProfilerSettings, ShaderId, ShaderInfo, TextureId};

#[test]
fn identifiers_compare_by_name() {
    let a = ShaderId(String::from("heart_sphere"));
    let b = ShaderId(String::from("heart_sphere"));
    let c = ShaderId(String::from("plane"));
    assert_eq!(a, b);
    assert!(a != c);

    let t = TextureId(String::from("diffuse"));
    assert_eq!(t.clone(), t);
}

#[test]
fn shader_info_keeps_label_and_code() {
    let info = ShaderInfo {
        label: String::from("Missing Shader"),
        code: String::from("fn sampleObject(input: vec2f) -> vec3f { return vec3f(input, 0.0); }"),
    };
    let copy = info.clone();
    assert_eq!(copy.label, "Missing Shader");
    assert_eq!(copy.code, info.code);
}

#[test]
fn profiling_starts_disabled() {
    let settings = ProfilerSettings::default();
    assert!(!settings.gpu);
}
