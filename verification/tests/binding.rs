use dust::context::{AttributeBinding, Context, UniformValue};
use dust::error::{Error, ShaderStage};
use dust::program::Program;
use dust::resource::{fragment_file_name, vertex_file_name};
use dust::shader::Shader;

const VERT: &str = "void main() { gl_Position = vec4(position, 1.0); }";
const FRAG: &str = "void main() { color = vec4(1.0); }";

#[test]
fn compile_returns_live_shader() {
    let mut ctx = Context::new();
    let shader = Shader::compile(&mut ctx, ShaderStage::Vertex, VERT).unwrap();
    assert_eq!(shader.id(), 0);
    assert!(matches!(shader.stage(), ShaderStage::Vertex));
    assert!(ctx.is_shader_live(0));
}

#[test]
fn compile_empty_source_fails_naming_stage() {
    let mut ctx = Context::new();
    let r = Shader::compile(&mut ctx, ShaderStage::Fragment, "");
    match r {
        Err(Error::ShaderCompileFailed { stage, log }) => {
            assert!(matches!(stage, ShaderStage::Fragment));
            assert_eq!(log, "shader source is empty");
        }
        _ => panic!("an empty source must fail to compile"),
    }
    assert!(!ctx.is_shader_live(0));
}

#[test]
fn from_shaders_links_vertex_and_fragment() {
    let mut ctx = Context::new();
    let vert = Shader::compile(&mut ctx, ShaderStage::Vertex, VERT).unwrap();
    let frag = Shader::compile(&mut ctx, ShaderStage::Fragment, FRAG).unwrap();
    let stages = vec![vert, frag];
    let program = Program::from_shaders(&mut ctx, &stages).unwrap();
    assert!(ctx.is_program_live(program.id()));
    assert_eq!(ctx.release_count(), 0);
}

#[test]
fn from_shaders_without_fragment_stage_fails() {
    let mut ctx = Context::new();
    let vert = Shader::compile(&mut ctx, ShaderStage::Vertex, VERT).unwrap();
    let stages = vec![vert];
    let r = Program::from_shaders(&mut ctx, &stages);
    match r {
        Err(Error::ProgramLinkFailed { log }) => {
            assert_eq!(log, "a vertex and a fragment stage are required");
        }
        _ => panic!("a link without both stages must fail"),
    }
    // The program object created for the failed attempt was released again.
    assert_eq!(ctx.release_count(), 1);
    assert!(!ctx.is_program_live(0));
}

#[test]
fn from_source_links_and_frees_the_stages() {
    let mut ctx = Context::new();
    let program = Program::from_source(&mut ctx, VERT, FRAG).unwrap();
    assert!(ctx.is_program_live(program.id()));
    // The stage objects were deleted once the program held them linked.
    assert!(!ctx.is_shader_live(0));
    assert!(!ctx.is_shader_live(1));
}

#[test]
fn from_source_reports_failing_vertex_stage() {
    let mut ctx = Context::new();
    let r = Program::from_source(&mut ctx, "", FRAG);
    match r {
        Err(Error::ShaderCompileFailed { stage, .. }) => {
            assert!(matches!(stage, ShaderStage::Vertex));
        }
        _ => panic!("a failing vertex stage must be reported"),
    }
    assert!(!ctx.is_program_live(0));
}

#[test]
fn from_source_reports_failing_fragment_stage() {
    let mut ctx = Context::new();
    let r = Program::from_source(&mut ctx, VERT, "");
    match r {
        Err(Error::ShaderCompileFailed { stage, .. }) => {
            assert!(matches!(stage, ShaderStage::Fragment));
        }
        _ => panic!("a failing fragment stage must be reported"),
    }
    assert!(!ctx.is_program_live(0));
}

#[test]
fn resource_file_names_are_exact() {
    assert_eq!(vertex_file_name("foo"), "foo.vert");
    assert_eq!(fragment_file_name("foo"), "foo.frag");
    assert_eq!(vertex_file_name("shaders/sky"), "shaders/sky.vert");
}

#[test]
fn from_resource_links_when_both_files_load() {
    let mut ctx = Context::new();
    let program = Program::from_resource(&mut ctx, "foo", Some(VERT), Some(FRAG)).unwrap();
    assert!(ctx.is_program_live(program.id()));
}

#[test]
fn from_resource_reports_missing_vertex_file() {
    let mut ctx = Context::new();
    let r = Program::from_resource(&mut ctx, "foo", None, Some(FRAG));
    match r {
        Err(Error::ResourceLoadFailed { filename }) => assert_eq!(filename, "foo.vert"),
        _ => panic!("a missing vertex file must be reported by name"),
    }
}

#[test]
fn from_resource_reports_missing_fragment_file() {
    let mut ctx = Context::new();
    let r = Program::from_resource(&mut ctx, "foo", Some(VERT), None);
    match r {
        Err(Error::ResourceLoadFailed { filename }) => assert_eq!(filename, "foo.frag"),
        _ => panic!("a missing fragment file must be reported by name"),
    }
}

#[test]
fn setting_a_uniform_activates_the_program() {
    let mut ctx = Context::new();
    let program = Program::from_source(&mut ctx, VERT, FRAG).unwrap();
    assert_eq!(ctx.use_call_count(), 0);
    program.add_uniform_int(&mut ctx, "alpha", &7).unwrap();
    assert_eq!(ctx.current_program(), Some(program.id()));
    assert_eq!(ctx.use_call_count(), 1);
}

#[test]
fn repeated_sets_never_reissue_the_activation_call() {
    let mut ctx = Context::new();
    let program = Program::from_source(&mut ctx, VERT, FRAG).unwrap();
    program.add_uniform_int(&mut ctx, "alpha", &1).unwrap();
    program.add_uniform_int(&mut ctx, "alpha", &1).unwrap();
    program.add_uniform_int(&mut ctx, "beta", &2).unwrap();
    assert_eq!(ctx.use_call_count(), 1);
    let other = Program::from_source(&mut ctx, VERT, FRAG).unwrap();
    other.add_uniform_int(&mut ctx, "alpha", &3).unwrap();
    assert_eq!(ctx.use_call_count(), 2);
    program.add_uniform_int(&mut ctx, "alpha", &4).unwrap();
    assert_eq!(ctx.use_call_count(), 3);
}

#[test]
fn set_used_is_idempotent() {
    let mut ctx = Context::new();
    let program = Program::from_source(&mut ctx, VERT, FRAG).unwrap();
    program.set_used(&mut ctx);
    program.set_used(&mut ctx);
    assert_eq!(ctx.use_call_count(), 1);
    assert_eq!(ctx.current_program(), Some(program.id()));
}

#[test]
fn uniform_location_round_trip_is_stable() {
    let mut ctx = Context::new();
    let program = Program::from_source(&mut ctx, VERT, FRAG).unwrap();
    program.add_uniform_int(&mut ctx, "alpha", &7).unwrap();
    let first = program.get_uniform_location(&mut ctx, "alpha").unwrap();
    let second = program.get_uniform_location(&mut ctx, "alpha").unwrap();
    assert_eq!(first, second);
    let slot = &ctx.programs[program.id() as usize].uniforms[first as usize];
    assert!(matches!(slot.value, Some(UniformValue::Int(7))));
}

#[test]
fn uniform_locations_are_handed_out_in_first_ask_order() {
    let mut ctx = Context::new();
    let program = Program::from_source(&mut ctx, VERT, FRAG).unwrap();
    let a = program.get_uniform_location(&mut ctx, "alpha").unwrap();
    let b = program.get_uniform_location(&mut ctx, "beta").unwrap();
    let c = program.get_uniform_location(&mut ctx, "gamma").unwrap();
    let a_again = program.get_uniform_location(&mut ctx, "alpha").unwrap();
    assert_eq!((a, b, c), (0, 1, 2));
    assert_eq!(a_again, 0);
}

#[test]
fn overwriting_a_uniform_keeps_its_location() {
    let mut ctx = Context::new();
    let program = Program::from_source(&mut ctx, VERT, FRAG).unwrap();
    program.add_uniform_int(&mut ctx, "alpha", &1).unwrap();
    program.add_uniform_int(&mut ctx, "alpha", &2).unwrap();
    let loc = program.get_uniform_location(&mut ctx, "alpha").unwrap();
    assert_eq!(loc, 0);
    let slot = &ctx.programs[program.id() as usize].uniforms[0];
    assert!(matches!(slot.value, Some(UniformValue::Int(2))));
}

#[test]
fn embedded_nul_in_a_name_is_rejected() {
    let mut ctx = Context::new();
    let program = Program::from_source(&mut ctx, VERT, FRAG).unwrap();
    let r = program.add_uniform_int(&mut ctx, "bad\0name", &1);
    match r {
        Err(Error::InvalidIdentifier { name }) => assert_eq!(name, "bad\0name"),
        _ => panic!("an embedded NUL must be rejected"),
    }
    // The program was still made current before the name was inspected.
    assert_eq!(ctx.current_program(), Some(program.id()));
    assert_eq!(ctx.use_call_count(), 1);
}

#[test]
fn float_uniforms_store_their_bit_patterns() {
    let mut ctx = Context::new();
    let program = Program::from_source(&mut ctx, VERT, FRAG).unwrap();
    program.add_uniform_float(&mut ctx, "gloss", &1.5f32.to_bits()).unwrap();
    let x = 0.25f32.to_bits();
    let y = (-2.0f32).to_bits();
    let z = 3.5f32.to_bits();
    program.add_uniform_vec2(&mut ctx, "uv", &(x, y)).unwrap();
    program.add_uniform_vec3(&mut ctx, "normal", &(x, y, z)).unwrap();
    program.add_uniform_vec4(&mut ctx, "tint", &(x, y, z, x)).unwrap();
    let pid = program.id() as usize;
    assert!(
        matches!(ctx.programs[pid].uniforms[0].value, Some(UniformValue::Float(b)) if b == 1.5f32.to_bits())
    );
    assert!(
        matches!(ctx.programs[pid].uniforms[1].value, Some(UniformValue::Vec2(a, b)) if (a, b) == (x, y))
    );
    assert!(
        matches!(ctx.programs[pid].uniforms[2].value, Some(UniformValue::Vec3(a, b, c)) if (a, b, c) == (x, y, z))
    );
    assert!(
        matches!(ctx.programs[pid].uniforms[3].value, Some(UniformValue::Vec4(a, b, c, d)) if (a, b, c, d) == (x, y, z, x))
    );
}

#[test]
fn delete_releases_the_handle_exactly_once() {
    let mut ctx = Context::new();
    let program = Program::from_source(&mut ctx, VERT, FRAG).unwrap();
    let id = program.id();
    program.set_used(&mut ctx);
    program.delete(&mut ctx);
    assert_eq!(ctx.release_count(), 1);
    assert_eq!(ctx.released_at(0), id);
    assert!(!ctx.is_program_live(id));
    // The released program also stopped being current.
    assert_eq!(ctx.current_program(), None);
}

#[test]
fn deleting_one_program_leaves_others_alone() {
    let mut ctx = Context::new();
    let first = Program::from_source(&mut ctx, VERT, FRAG).unwrap();
    let second = Program::from_source(&mut ctx, VERT, FRAG).unwrap();
    first.delete(&mut ctx);
    assert_eq!(ctx.release_count(), 1);
    assert!(ctx.is_program_live(second.id()));
    second.delete(&mut ctx);
    assert_eq!(ctx.release_count(), 2);
    assert_ne!(ctx.released_at(0), ctx.released_at(1));
}

#[test]
fn setup_attributes_uploads_and_binds_position() {
    let mut ctx = Context::new();
    let program = Program::from_source(&mut ctx, VERT, FRAG).unwrap();
    let data: Vec<u32> = [1.0f32, 2.0, 3.0, 4.0, 5.0, 6.0].iter().map(|v| v.to_bits()).collect();
    program.setup_attributes(&mut ctx, &data).unwrap();
    assert_eq!(ctx.buffer_count(), 1);
    assert_eq!(ctx.buffers[0], data);
    let pid = program.id() as usize;
    let loc = program.get_attribute_location(&mut ctx, "Position").unwrap();
    let slot = &ctx.programs[pid].attributes[loc as usize];
    assert_eq!(
        slot.binding,
        Some(AttributeBinding { buffer: 0, components: 3, stride_bytes: 12 })
    );
}

#[test]
fn mat4_scenario_links_sets_and_activates_once() {
    let mut ctx = Context::new();
    let program = Program::from_source(&mut ctx, VERT, FRAG).unwrap();
    let identity: Vec<u32> = [
        1.0f32, 0.0, 0.0, 0.0, 0.0, 1.0, 0.0, 0.0, 0.0, 0.0, 1.0, 0.0, 0.0, 0.0, 0.0, 1.0,
    ]
    .iter()
    .map(|v| v.to_bits())
    .collect();
    let r = program.add_uniform_mat4(&mut ctx, "modelMatrix", &identity);
    assert!(r.is_ok());
    // Exactly one activation call was issued for the whole scenario.
    assert_eq!(ctx.use_call_count(), 1);
    let slot = &ctx.programs[program.id() as usize].uniforms[0];
    match &slot.value {
        Some(UniformValue::Mat4(stored)) => assert_eq!(stored, &identity),
        _ => panic!("the matrix must be stored at the resolved location"),
    }
}

#[test]
fn invalidating_the_cache_reissues_the_activation_call() {
    let mut ctx = Context::new();
    let program = Program::from_source(&mut ctx, VERT, FRAG).unwrap();
    program.set_used(&mut ctx);
    assert_eq!(ctx.use_call_count(), 1);
    // Foreign code bound another program behind the cache's back.
    ctx.invalidate_current();
    assert_eq!(ctx.current_program(), None);
    program.set_used(&mut ctx);
    assert_eq!(ctx.use_call_count(), 2);
}
