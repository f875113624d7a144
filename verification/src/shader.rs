//! A single compiled shader stage.

use vstd::prelude::*;

use crate::context::{Context, ShaderRecord, spec_compile_ok, spec_delete_shader};
use crate::error::{Error, ShaderStage};

verus! {

/// An owned handle to one compiled shader stage. It is created by
/// [`Shader::compile`] and consumed by [`Shader::delete`]; the handle itself
/// cannot be duplicated, so the shader object is deleted at most once.
pub struct Shader {
    id: u32,
    stage: ShaderStage,
}

impl Shader {
    /// The shader object this handle owns.
    pub closed spec fn id_spec(self) -> u32 {
        self.id
    }

    /// The pipeline stage this shader was compiled for.
    pub closed spec fn stage_spec(self) -> ShaderStage {
        self.stage
    }

    /// The shader object this handle owns.
    pub fn id(&self) -> (id: u32)
        ensures
            id == self.id_spec(),
    {
        self.id
    }

    /// The pipeline stage this shader was compiled for.
    pub fn stage(&self) -> (stage: ShaderStage)
        ensures
            stage == self.stage_spec(),
    {
        self.stage
    }

    /// Compiles one stage from source text. The modelled driver accepts any
    /// non-empty source; an empty source fails to compile, and the failure
    /// names the stage and leaves the context unchanged.
    pub fn compile(ctx: &mut Context, stage: ShaderStage, source: &str) -> (r: Result<
        Shader,
        Error,
    >)
        requires
            old(ctx)@.wf(),
            old(ctx)@.shaders.len() < 0xFFFF_FFFF,
        ensures
            final(ctx)@.wf(),
            source@.len() > 0 ==> {
                &&& r matches Ok(s) ==> {
                    &&& s.id_spec() == old(ctx)@.shaders.len()
                    &&& s.stage_spec() == stage
                    &&& final(ctx)@ == spec_compile_ok(old(ctx)@, stage)
                    &&& final(ctx)@.shader_live(s.id_spec())
                }
                &&& r is Ok
            },
            source@.len() == 0 ==> {
                &&& crate::error::names_compile_failure(r, stage)
                &&& (r matches Err(Error::ShaderCompileFailed { stage: s, log }) ==> (s == stage
                    && log@ == "shader source is empty"@))
                &&& final(ctx)@ == old(ctx)@
            },
    {
        if source.unicode_len() == 0 {
            return Err(
                Error::ShaderCompileFailed {
                    stage,
                    log: String::from_str("shader source is empty"),
                },
            );
        }
        let id = ctx.shaders.len() as u32;
        ctx.shaders.push(ShaderRecord { live: true, stage });
        proof {
            assert(ctx@ =~= spec_compile_ok(old(ctx)@, stage));
            assert(ctx@.shaders[id as int].live);
        }
        Ok(Shader { id, stage })
    }

    /// Deletes the shader object, consuming the handle.
    pub fn delete(self, ctx: &mut Context)
        requires
            old(ctx)@.wf(),
            old(ctx)@.shader_live(self.id_spec()),
        ensures
            final(ctx)@ == spec_delete_shader(old(ctx)@, self.id_spec()),
            final(ctx)@.wf(),
    {
        let i = self.id as usize;
        let stage = ctx.shaders[i].stage;
        ctx.shaders.set(i, ShaderRecord { live: false, stage });
        proof {
            assert(ctx@ =~= spec_delete_shader(old(ctx)@, self.id_spec()));
        }
    }
}

} // verus!
