//! A linked, executable pipeline program: construction by linking shader
//! stages, uniform and attribute binding by name, activation with a cached
//! "currently used" state, and exactly-once release of the native handle.

use vstd::prelude::*;

use crate::context::{
    AttributeBinding, AttributeSlot, AttributeSlotView, Context, ContextView, ProgramRecord,
    ProgramRecordView,
    UniformSlot, UniformSlotView, UniformValue, UniformValueView, attribute_names, fresh_program,
    has_name, lemma_ensure_attribute, lemma_ensure_uniform, lemma_name_lookup,
    lemma_wf_update_tables, name_lookup, spec_add_uniform, spec_bind_attribute,
    spec_delete_program, spec_ensure_attribute, spec_ensure_uniform, spec_link_failed,
    spec_link_ok, spec_use, uniform_names,
};
use crate::context::ShaderRecordView;
use crate::error::{
    Error, ShaderStage, names_compile_failure, names_invalid_identifier, names_link_failure,
    names_missing_file,
};
use crate::resource::{
    fragment_file_name, spec_fragment_file_name, spec_vertex_file_name, vertex_file_name,
};
use crate::shader::Shader;

verus! {

/// An owned handle to one linked program. The handle cannot be duplicated,
/// and [`Program::delete`] consumes it, so the native program object is
/// released exactly once.
pub struct Program {
    id: u32,
}

/// The characters hold an embedded NUL, which no identifier handed to the
/// driver may contain.
pub open spec fn has_nul(s: Seq<char>) -> bool {
    exists|i: int| 0 <= i < s.len() && s[i] == '\0'
}

/// Some shader in the slice was compiled for the given stage.
pub open spec fn has_stage(shaders: Seq<Shader>, stage: ShaderStage) -> bool {
    exists|i: int| 0 <= i < shaders.len() && shaders[i].stage_spec() == stage
}

/// Whether `s` holds an embedded NUL character.
fn str_contains_nul(s: &str) -> (b: bool)
    ensures
        b == has_nul(s@),
{
    let n = s.unicode_len();
    let mut i: usize = 0;
    while i < n
        invariant
            i <= n,
            n == s@.len(),
            forall|j: int| 0 <= j < i ==> s@[j] != '\0',
        decreases n - i,
    {
        if s.get_char(i) == '\0' {
            return true;
        }
        i += 1;
    }
    false
}

impl Program {
    /// The program object this handle owns.
    pub closed spec fn id_spec(self) -> u32 {
        self.id
    }

    /// The program object this handle owns.
    pub fn id(&self) -> (id: u32)
        ensures
            id == self.id_spec(),
    {
        self.id
    }

    /// Makes this program the currently used one. A program that is current
    /// already stays current with no further driver call; otherwise exactly
    /// one activation call is issued and counted.
    pub fn set_used(&self, ctx: &mut Context)
        requires
            old(ctx)@.wf(),
            old(ctx)@.program_live(self.id_spec()),
            old(ctx)@.use_calls < 0xFFFF_FFFF_FFFF_FFFF,
        ensures
            final(ctx)@ == spec_use(old(ctx)@, self.id_spec()),
            final(ctx)@.wf(),
            final(ctx)@.current == Some(self.id_spec()),
            old(ctx)@.current == Some(self.id_spec()) ==> final(ctx)@ == old(ctx)@,
            old(ctx)@.current != Some(self.id_spec()) ==> final(ctx)@.use_calls == old(ctx)@.use_calls + 1,
    {
        let already = match ctx.current {
            Some(c) => c == self.id,
            None => false,
        };
        if !already {
            ctx.current = Some(self.id);
            ctx.use_calls = ctx.use_calls + 1;
        }
        proof {
            assert(ctx@ =~= spec_use(old(ctx)@, self.id_spec()));
        }
    }

    /// Releases the native program object, consuming the handle: the record
    /// dies, the release is logged once, and the program stops being current
    /// if it was.
    pub fn delete(self, ctx: &mut Context)
        requires
            old(ctx)@.wf(),
            old(ctx)@.program_live(self.id_spec()),
        ensures
            final(ctx)@ == spec_delete_program(old(ctx)@, self.id_spec()),
            final(ctx)@.wf(),
            final(ctx)@.program_dead(self.id_spec()),
            final(ctx)@.released == old(ctx)@.released.push(self.id_spec()),
    {
        let i = self.id as usize;
        let mut rec = ctx.programs.remove(i);
        rec.live = false;
        ctx.programs.insert(i, rec);
        ctx.released.push(self.id);
        let was_current = match ctx.current {
            Some(c) => c == self.id,
            None => false,
        };
        if was_current {
            ctx.current = None;
        }
        proof {
            let id = self.id_spec();
            assert(ctx.programs@ =~= old(ctx).programs@.update(id as int, ctx.programs@[id as int]));
            assert(ctx@ =~~= spec_delete_program(old(ctx)@, id));
            let c2 = ctx@;
            assert forall|k: int| 0 <= k < c2.released.len() implies c2.program_dead(
                #[trigger] c2.released[k],
            ) by {
                if k < old(ctx)@.released.len() {
                    assert(old(ctx)@.program_dead(old(ctx)@.released[k]));
                }
            }
            assert forall|k: int, l: int|
                0 <= k < l < c2.released.len() implies c2.released[k] != c2.released[l] by {
                if l == c2.released.len() - 1 {
                    assert(old(ctx)@.program_dead(old(ctx)@.released[k]));
                }
            }
        }
    }

    /// Links a program from the given shader stages. The modelled driver
    /// links exactly when at least one vertex and one fragment stage are
    /// present; otherwise the attempt fails, the program object created for
    /// it is released again, and no usable program is returned. The shaders
    /// are attached only for the duration of the link and are handed back
    /// untouched, still owned by the caller.
    pub fn from_shaders(ctx: &mut Context, shaders: &Vec<Shader>) -> (r: Result<Program, Error>)
        requires
            old(ctx)@.wf(),
            old(ctx)@.programs.len() < 0xFFFF_FFFF,
            forall|i: int|
                0 <= i < shaders@.len() ==> old(ctx)@.shader_live(#[trigger] shaders@[i].id_spec()),
        ensures
            final(ctx)@.wf(),
            final(ctx)@.current == old(ctx)@.current,
            final(ctx)@.use_calls == old(ctx)@.use_calls,
            final(ctx)@.shaders == old(ctx)@.shaders,
            final(ctx)@.buffers == old(ctx)@.buffers,
            (has_stage(shaders@, ShaderStage::Vertex) && has_stage(
                shaders@,
                ShaderStage::Fragment,
            )) ==> {
                &&& r is Ok
                &&& final(ctx)@ == spec_link_ok(old(ctx)@)
                &&& (r matches Ok(p) ==> p.id_spec() == old(ctx)@.programs.len()
                    && final(ctx)@.program_live(p.id_spec()))
            },
            !(has_stage(shaders@, ShaderStage::Vertex) && has_stage(
                shaders@,
                ShaderStage::Fragment,
            )) ==> {
                &&& names_link_failure::<Program>(r)
                &&& (r matches Err(Error::ProgramLinkFailed { log }) ==> log@
                    == "a vertex and a fragment stage are required"@)
                &&& final(ctx)@ == spec_link_failed(old(ctx)@)
            },
    {
        let id = ctx.programs.len() as u32;
        // Attach each stage and ask the driver to link: the modelled link
        // inspects the attached stages.
        let n = shaders.len();
        let mut has_vert = false;
        let mut has_frag = false;
        let mut i: usize = 0;
        while i < n
            invariant
                i <= n,
                n == shaders@.len(),
                has_vert == has_stage(shaders@.take(i as int), ShaderStage::Vertex),
                has_frag == has_stage(shaders@.take(i as int), ShaderStage::Fragment),
            decreases n - i,
        {
            match shaders[i].stage() {
                ShaderStage::Vertex => { has_vert = true },
                ShaderStage::Fragment => { has_frag = true },
            }
            proof {
                assert(shaders@.take(i + 1).drop_last() =~= shaders@.take(i as int));
                assert(shaders@.take(i + 1).last() == shaders@[i as int]);
                assert forall|st: ShaderStage|
                    has_stage(shaders@.take(i + 1), st) == (has_stage(shaders@.take(i as int), st)
                        || shaders@[i as int].stage_spec() == st) by {
                    let pre = shaders@.take(i as int);
                    let cur = shaders@.take(i + 1);
                    if has_stage(pre, st) {
                        let w = choose|w: int| 0 <= w < pre.len() && pre[w].stage_spec() == st;
                        assert(cur[w].stage_spec() == st);
                    }
                    if shaders@[i as int].stage_spec() == st {
                        assert(cur[i as int].stage_spec() == st);
                    }
                    if has_stage(cur, st) && !has_stage(pre, st) {
                        let w = choose|w: int| 0 <= w < cur.len() && cur[w].stage_spec() == st;
                        if w < i as int {
                            assert(pre[w].stage_spec() == st);
                        }
                    }
                }
            }
            i += 1;
        }
        proof {
            assert(shaders@.take(n as int) =~= shaders@);
        }
        if has_vert && has_frag {
            // The link succeeded: detach the stages and keep the handle.
            ctx.programs.push(ProgramRecord { live: true, uniforms: Vec::new(), attributes: Vec::new() });
            proof {
                assert(ctx@ =~~= spec_link_ok(old(ctx)@));
                assert(ctx@.program_live(id));
            }
            Ok(Program { id })
        } else {
            // The link failed: release the program object created for the
            // attempt before reporting, so the handle does not leak.
            ctx.programs.push(ProgramRecord { live: false, uniforms: Vec::new(), attributes: Vec::new() });
            ctx.released.push(id);
            proof {
                assert(ctx@ =~~= spec_link_failed(old(ctx)@));
                let c2 = ctx@;
                assert forall|k: int| 0 <= k < c2.released.len() implies c2.program_dead(
                    #[trigger] c2.released[k],
                ) by {
                    if k < old(ctx)@.released.len() {
                        assert(old(ctx)@.program_dead(old(ctx)@.released[k]));
                    }
                }
                assert forall|k: int, l: int|
                    0 <= k < l < c2.released.len() implies c2.released[k] != c2.released[l] by {
                    if l == c2.released.len() - 1 {
                        assert(old(ctx)@.program_dead(old(ctx)@.released[k]));
                    }
                }
            }
            Err(
                Error::ProgramLinkFailed {
                    log: String::from_str("a vertex and a fragment stage are required"),
                },
            )
        }
    }

    /// Compiles a vertex and a fragment stage from source text and links
    /// them into a program. A stage that fails to compile is reported with
    /// its stage name and no program is created; with both stages compiled
    /// the link succeeds, and the two stage objects are deleted again once
    /// the program holds them linked.
    pub fn from_source(
        ctx: &mut Context,
        vertex_shader_source: &str,
        fragment_shader_source: &str,
    ) -> (r: Result<Program, Error>)
        requires
            old(ctx)@.wf(),
            old(ctx)@.programs.len() < 0xFFFF_FFFF,
            old(ctx)@.shaders.len() + 2 <= 0xFFFF_FFFF,
        ensures
            final(ctx)@.wf(),
            final(ctx)@.current == old(ctx)@.current,
            final(ctx)@.use_calls == old(ctx)@.use_calls,
            final(ctx)@.released == old(ctx)@.released,
            final(ctx)@.buffers == old(ctx)@.buffers,
            vertex_shader_source@.len() == 0 ==> ({
                &&& names_compile_failure(r, ShaderStage::Vertex)
                &&& final(ctx)@ == old(ctx)@
            }),
            (vertex_shader_source@.len() > 0 && fragment_shader_source@.len() == 0) ==> ({
                &&& names_compile_failure(r, ShaderStage::Fragment)
                &&& final(ctx)@.programs == old(ctx)@.programs
                &&& final(ctx)@.shaders == old(ctx)@.shaders.push(
                    (ShaderRecordView { live: false, stage: ShaderStage::Vertex }),
                )
            }),
            (vertex_shader_source@.len() > 0 && fragment_shader_source@.len() > 0) ==> ({
                &&& r is Ok
                &&& final(ctx)@.programs == old(ctx)@.programs.push(fresh_program())
                &&& final(ctx)@.shaders == old(ctx)@.shaders.push(
                    (ShaderRecordView { live: false, stage: ShaderStage::Vertex }),
                ).push((ShaderRecordView { live: false, stage: ShaderStage::Fragment }))
                &&& (r matches Ok(p) ==> p.id_spec() == old(ctx)@.programs.len()
                    && final(ctx)@.program_live(p.id_spec()))
            }),
    {
        let vert = match Shader::compile(ctx, ShaderStage::Vertex, vertex_shader_source) {
            Ok(s) => s,
            Err(e) => { return Err(e) },
        };
        let frag = match Shader::compile(ctx, ShaderStage::Fragment, fragment_shader_source) {
            Ok(s) => s,
            Err(e) => {
                vert.delete(ctx);
                proof {
                    assert(ctx@.shaders =~= old(ctx)@.shaders.push(
                        ShaderRecordView { live: false, stage: ShaderStage::Vertex },
                    ));
                }
                return Err(e);
            },
        };
        let mut stages: Vec<Shader> = Vec::new();
        stages.push(vert);
        stages.push(frag);
        proof {
            assert(stages@[0].stage_spec() == ShaderStage::Vertex);
            assert(stages@[1].stage_spec() == ShaderStage::Fragment);
            assert(has_stage(stages@, ShaderStage::Vertex));
            assert(has_stage(stages@, ShaderStage::Fragment));
        }
        let r = Program::from_shaders(ctx, &stages);
        let frag_done = stages.pop().unwrap();
        let vert_done = stages.pop().unwrap();
        frag_done.delete(ctx);
        vert_done.delete(ctx);
        proof {
            assert(ctx@.shaders =~= old(ctx)@.shaders.push(
                ShaderRecordView { live: false, stage: ShaderStage::Vertex },
            ).push(ShaderRecordView { live: false, stage: ShaderStage::Fragment }));
        }
        r
    }

    /// Builds a program from a named resource pair: the embedding
    /// application loads `<name>.vert` and `<name>.frag` and hands the
    /// results over, `None` standing for a file that was missing or
    /// unreadable. The first missing file is reported by its exact name and
    /// nothing is created; with both sources present this behaves as
    /// [`Program::from_source`].
    pub fn from_resource(
        ctx: &mut Context,
        name: &str,
        vertex_source: Option<&str>,
        fragment_source: Option<&str>,
    ) -> (r: Result<Program, Error>)
        requires
            old(ctx)@.wf(),
            old(ctx)@.programs.len() < 0xFFFF_FFFF,
            old(ctx)@.shaders.len() + 2 <= 0xFFFF_FFFF,
        ensures
            final(ctx)@.wf(),
            final(ctx)@.current == old(ctx)@.current,
            final(ctx)@.use_calls == old(ctx)@.use_calls,
            final(ctx)@.released == old(ctx)@.released,
            final(ctx)@.buffers == old(ctx)@.buffers,
            vertex_source is None ==> ({
                &&& names_missing_file(r, spec_vertex_file_name(name@))
                &&& final(ctx)@ == old(ctx)@
            }),
            (vertex_source is Some && fragment_source is None) ==> ({
                &&& names_missing_file(r, spec_fragment_file_name(name@))
                &&& final(ctx)@ == old(ctx)@
            }),
            vertex_source matches Some(vs) ==> fragment_source matches Some(fs) ==> ({
                &&& vs@.len() == 0 ==> ({
                    &&& names_compile_failure(r, ShaderStage::Vertex)
                    &&& final(ctx)@ == old(ctx)@
                })
                &&& (vs@.len() > 0 && fs@.len() == 0) ==> ({
                    &&& names_compile_failure(r, ShaderStage::Fragment)
                    &&& final(ctx)@.programs == old(ctx)@.programs
                })
                &&& (vs@.len() > 0 && fs@.len() > 0) ==> ({
                    &&& r is Ok
                    &&& final(ctx)@.programs == old(ctx)@.programs.push(fresh_program())
                    &&& (r matches Ok(p) ==> p.id_spec() == old(ctx)@.programs.len()
                        && final(ctx)@.program_live(p.id_spec()))
                })
            }),
    {
        let vs = match vertex_source {
            Some(v) => v,
            None => {
                return Err(Error::ResourceLoadFailed { filename: vertex_file_name(name) });
            },
        };
        let fs = match fragment_source {
            Some(f) => f,
            None => {
                return Err(Error::ResourceLoadFailed { filename: fragment_file_name(name) });
            },
        };
        Program::from_source(ctx, vs, fs)
    }

    /// Resolves a uniform name to its location, making this program current
    /// first. A name not seen before is given the next free location; asking
    /// for the same name again returns the same location and changes
    /// nothing. A name with an embedded NUL is rejected without touching the
    /// tables.
    pub fn get_uniform_location(&self, ctx: &mut Context, name: &str) -> (r: Result<i32, Error>)
        requires
            old(ctx)@.can_bind(self.id_spec()),
        ensures
            final(ctx)@.wf(),
            final(ctx)@.current == Some(self.id_spec()),
            has_nul(name@) ==> ({
                &&& names_invalid_identifier(r, name@)
                &&& final(ctx)@ == spec_use(old(ctx)@, self.id_spec())
            }),
            !has_nul(name@) ==> ({
                &&& final(ctx)@ == spec_ensure_uniform(
                    spec_use(old(ctx)@, self.id_spec()),
                    self.id_spec(),
                    name@,
                )
                &&& (r matches Ok(loc) && loc == name_lookup(
                    uniform_names(old(ctx)@.programs[self.id_spec() as int]),
                    name@,
                ))
            }),
    {
        self.set_used(ctx);
        if str_contains_nul(name) {
            return Err(Error::InvalidIdentifier { name: String::from_str(name) });
        }
        let ghost c1 = ctx@;
        let ghost pid = self.id_spec() as int;
        let p = self.id as usize;
        let key = String::from_str(name);
        let n = ctx.programs[p].uniforms.len();
        let mut i: usize = 0;
        while i < n
            invariant
                i <= n,
                ctx@ == c1,
                c1 == spec_use(old(ctx)@, self.id_spec()),
                old(ctx)@.can_bind(self.id_spec()),
                pid == self.id_spec() as int,
                p as int == pid,
                p < ctx.programs@.len(),
                n == c1.programs[pid].uniforms.len(),
                n < 0x7FFF_FFFF,
                key@ == name@,
                !has_nul(name@),
                forall|j: int| 0 <= j < i ==> uniform_names(c1.programs[pid])[j] != name@,
            decreases n - i,
        {
            if ctx.programs[p].uniforms[i].name == key {
                proof {
                    let names = uniform_names(c1.programs[pid]);
                    assert(names[i as int] == name@);
                    lemma_name_lookup(names, name@);
                    assert(has_name(names, name@));
                    assert(name_lookup(names, name@) == i as int);
                    assert(spec_ensure_uniform(c1, self.id_spec(), name@) == c1);
                }
                return Ok(i as i32);
            }
            i += 1;
        }
        proof {
            let names = uniform_names(c1.programs[pid]);
            lemma_name_lookup(names, name@);
            assert(!has_name(names, name@)) by {
                if has_name(names, name@) {
                    let w = choose|w: int| 0 <= w < names.len() && names[w] == name@;
                    assert(uniform_names(c1.programs[pid])[w] != name@);
                }
            }
        }
        let ghost s0 = ctx.programs@;
        let ghost keyv = key@;
        let mut rec = ctx.programs.remove(p);
        rec.uniforms.push(UniformSlot { name: key, value: None });
        let ghost rec2 = rec;
        ctx.programs.insert(p, rec);
        proof {
            let cf = spec_ensure_uniform(c1, self.id_spec(), name@);
            s0.remove_ensures(pid);
            s0.remove(pid).insert_ensures(pid, rec2);
            assert(ctx.programs@ =~= s0.update(pid, rec2));
            assert(rec2.uniforms@ == s0[pid].uniforms@.push(
                UniformSlot { name: key, value: None },
            ));
            assert(ctx@.programs =~= c1.programs.update(pid, rec2@));
            assert(rec2@.uniforms =~= c1.programs[pid].uniforms.push(
                UniformSlotView { name: name@, value: None },
            ));
            assert(ctx@ =~~= cf);
            lemma_ensure_uniform(c1, self.id_spec(), name@);
        }
        Ok(n as i32)
    }

    /// Uploads an integer uniform: the name is resolved to its location, the
    /// program becomes current, and the slot holds the value.
    pub fn add_uniform_int(&self, ctx: &mut Context, name: &str, data: &i32) -> (r: Result<
        (),
        Error,
    >)
        requires
            old(ctx)@.can_bind(self.id_spec()),
        ensures
            final(ctx)@.wf(),
            final(ctx)@.current == Some(self.id_spec()),
            has_nul(name@) ==> ({
                &&& names_invalid_identifier(r, name@)
                &&& final(ctx)@ == spec_use(old(ctx)@, self.id_spec())
            }),
            !has_nul(name@) ==> ({
                &&& r is Ok
                &&& final(ctx)@ == spec_add_uniform(
                    old(ctx)@,
                    self.id_spec(),
                    name@,
                    UniformValueView::Int(*data),
                )
                &&& final(ctx)@.uniform_value(self.id_spec(), name@) == Some(
                    UniformValueView::Int(*data),
                )
            }),
    {
        let loc = match self.get_uniform_location(ctx, name) {
            Ok(l) => l,
            Err(e) => { return Err(e) },
        };
        proof {
            lemma_add_uniform_post(old(ctx)@, self.id_spec(), name@, UniformValueView::Int(*data));
        }
        store_uniform(ctx, self.id, loc as usize, UniformValue::Int(*data));
        Ok(())
    }

    /// Uploads a one-scalar uniform; the payload is carried as IEEE-754 bit
    /// patterns. The name is resolved to its location, the program becomes
    /// current, and the slot holds the value.
    pub fn add_uniform_float(&self, ctx: &mut Context, name: &str, data: &u32) -> (r: Result<
        (),
        Error,
    >)
        requires
            old(ctx)@.can_bind(self.id_spec()),
        ensures
            final(ctx)@.wf(),
            final(ctx)@.current == Some(self.id_spec()),
            has_nul(name@) ==> ({
                &&& names_invalid_identifier(r, name@)
                &&& final(ctx)@ == spec_use(old(ctx)@, self.id_spec())
            }),
            !has_nul(name@) ==> ({
                &&& r is Ok
                &&& final(ctx)@ == spec_add_uniform(
                    old(ctx)@,
                    self.id_spec(),
                    name@,
                    UniformValueView::Float(*data),
                )
                &&& final(ctx)@.uniform_value(self.id_spec(), name@) == Some(
                    UniformValueView::Float(*data),
                )
            }),
    {
        let loc = match self.get_uniform_location(ctx, name) {
            Ok(l) => l,
            Err(e) => { return Err(e) },
        };
        proof {
            lemma_add_uniform_post(old(ctx)@, self.id_spec(), name@, UniformValueView::Float(*data));
        }
        store_uniform(ctx, self.id, loc as usize, UniformValue::Float(*data));
        Ok(())
    }

    /// Uploads a two-component vector uniform; the payload is carried as IEEE-754 bit
    /// patterns. The name is resolved to its location, the program becomes
    /// current, and the slot holds the value.
    pub fn add_uniform_vec2(&self, ctx: &mut Context, name: &str, data: &(u32, u32)) -> (r: Result<
        (),
        Error,
    >)
        requires
            old(ctx)@.can_bind(self.id_spec()),
        ensures
            final(ctx)@.wf(),
            final(ctx)@.current == Some(self.id_spec()),
            has_nul(name@) ==> ({
                &&& names_invalid_identifier(r, name@)
                &&& final(ctx)@ == spec_use(old(ctx)@, self.id_spec())
            }),
            !has_nul(name@) ==> ({
                &&& r is Ok
                &&& final(ctx)@ == spec_add_uniform(
                    old(ctx)@,
                    self.id_spec(),
                    name@,
                    UniformValueView::Vec2(data.0, data.1),
                )
                &&& final(ctx)@.uniform_value(self.id_spec(), name@) == Some(
                    UniformValueView::Vec2(data.0, data.1),
                )
            }),
    {
        let loc = match self.get_uniform_location(ctx, name) {
            Ok(l) => l,
            Err(e) => { return Err(e) },
        };
        proof {
            lemma_add_uniform_post(old(ctx)@, self.id_spec(), name@, UniformValueView::Vec2(data.0, data.1));
        }
        store_uniform(ctx, self.id, loc as usize, UniformValue::Vec2(data.0, data.1));
        Ok(())
    }

    /// Uploads a three-component vector uniform; the payload is carried as IEEE-754 bit
    /// patterns. The name is resolved to its location, the program becomes
    /// current, and the slot holds the value.
    pub fn add_uniform_vec3(&self, ctx: &mut Context, name: &str, data: &(u32, u32, u32)) -> (r: Result<
        (),
        Error,
    >)
        requires
            old(ctx)@.can_bind(self.id_spec()),
        ensures
            final(ctx)@.wf(),
            final(ctx)@.current == Some(self.id_spec()),
            has_nul(name@) ==> ({
                &&& names_invalid_identifier(r, name@)
                &&& final(ctx)@ == spec_use(old(ctx)@, self.id_spec())
            }),
            !has_nul(name@) ==> ({
                &&& r is Ok
                &&& final(ctx)@ == spec_add_uniform(
                    old(ctx)@,
                    self.id_spec(),
                    name@,
                    UniformValueView::Vec3(data.0, data.1, data.2),
                )
                &&& final(ctx)@.uniform_value(self.id_spec(), name@) == Some(
                    UniformValueView::Vec3(data.0, data.1, data.2),
                )
            }),
    {
        let loc = match self.get_uniform_location(ctx, name) {
            Ok(l) => l,
            Err(e) => { return Err(e) },
        };
        proof {
            lemma_add_uniform_post(old(ctx)@, self.id_spec(), name@, UniformValueView::Vec3(data.0, data.1, data.2));
        }
        store_uniform(ctx, self.id, loc as usize, UniformValue::Vec3(data.0, data.1, data.2));
        Ok(())
    }

    /// Uploads a four-component vector uniform; the payload is carried as IEEE-754 bit
    /// patterns. The name is resolved to its location, the program becomes
    /// current, and the slot holds the value.
    pub fn add_uniform_vec4(&self, ctx: &mut Context, name: &str, data: &(u32, u32, u32, u32)) -> (r: Result<
        (),
        Error,
    >)
        requires
            old(ctx)@.can_bind(self.id_spec()),
        ensures
            final(ctx)@.wf(),
            final(ctx)@.current == Some(self.id_spec()),
            has_nul(name@) ==> ({
                &&& names_invalid_identifier(r, name@)
                &&& final(ctx)@ == spec_use(old(ctx)@, self.id_spec())
            }),
            !has_nul(name@) ==> ({
                &&& r is Ok
                &&& final(ctx)@ == spec_add_uniform(
                    old(ctx)@,
                    self.id_spec(),
                    name@,
                    UniformValueView::Vec4(data.0, data.1, data.2, data.3),
                )
                &&& final(ctx)@.uniform_value(self.id_spec(), name@) == Some(
                    UniformValueView::Vec4(data.0, data.1, data.2, data.3),
                )
            }),
    {
        let loc = match self.get_uniform_location(ctx, name) {
            Ok(l) => l,
            Err(e) => { return Err(e) },
        };
        proof {
            lemma_add_uniform_post(old(ctx)@, self.id_spec(), name@, UniformValueView::Vec4(data.0, data.1, data.2, data.3));
        }
        store_uniform(ctx, self.id, loc as usize, UniformValue::Vec4(data.0, data.1, data.2, data.3));
        Ok(())
    }

    /// Uploads a four-by-four matrix uniform: sixteen scalars, column-major,
    /// carried as IEEE-754 bit patterns. The name is resolved to its
    /// location, the program becomes current, and the slot holds the value.
    pub fn add_uniform_mat4(&self, ctx: &mut Context, name: &str, data: &Vec<u32>) -> (r: Result<
        (),
        Error,
    >)
        requires
            old(ctx)@.can_bind(self.id_spec()),
            data@.len() == 16,
        ensures
            final(ctx)@.wf(),
            final(ctx)@.current == Some(self.id_spec()),
            has_nul(name@) ==> ({
                &&& names_invalid_identifier(r, name@)
                &&& final(ctx)@ == spec_use(old(ctx)@, self.id_spec())
            }),
            !has_nul(name@) ==> ({
                &&& r is Ok
                &&& final(ctx)@ == spec_add_uniform(
                    old(ctx)@,
                    self.id_spec(),
                    name@,
                    UniformValueView::Mat4(data@),
                )
                &&& final(ctx)@.uniform_value(self.id_spec(), name@) == Some(
                    UniformValueView::Mat4(data@),
                )
            }),
    {
        let loc = match self.get_uniform_location(ctx, name) {
            Ok(l) => l,
            Err(e) => { return Err(e) },
        };
        let copy = data.clone();
        proof {
            assert(copy@ =~= data@);
            lemma_add_uniform_post(old(ctx)@, self.id_spec(), name@, UniformValueView::Mat4(data@));
        }
        store_uniform(ctx, self.id, loc as usize, UniformValue::Mat4(copy));
        Ok(())
    }

    /// Resolves an attribute name to its location, making this program
    /// current first, exactly as [`Program::get_uniform_location`] does for
    /// uniforms.
    pub fn get_attribute_location(&self, ctx: &mut Context, name: &str) -> (r: Result<i32, Error>)
        requires
            old(ctx)@.can_bind(self.id_spec()),
        ensures
            final(ctx)@.wf(),
            final(ctx)@.current == Some(self.id_spec()),
            has_nul(name@) ==> ({
                &&& names_invalid_identifier(r, name@)
                &&& final(ctx)@ == spec_use(old(ctx)@, self.id_spec())
            }),
            !has_nul(name@) ==> ({
                &&& final(ctx)@ == spec_ensure_attribute(
                    spec_use(old(ctx)@, self.id_spec()),
                    self.id_spec(),
                    name@,
                )
                &&& (r matches Ok(loc) && loc == name_lookup(
                    attribute_names(old(ctx)@.programs[self.id_spec() as int]),
                    name@,
                ))
            }),
    {
        self.set_used(ctx);
        if str_contains_nul(name) {
            return Err(Error::InvalidIdentifier { name: String::from_str(name) });
        }
        let ghost c1 = ctx@;
        let ghost pid = self.id_spec() as int;
        let p = self.id as usize;
        let key = String::from_str(name);
        let n = ctx.programs[p].attributes.len();
        let mut i: usize = 0;
        while i < n
            invariant
                i <= n,
                ctx@ == c1,
                c1 == spec_use(old(ctx)@, self.id_spec()),
                old(ctx)@.can_bind(self.id_spec()),
                pid == self.id_spec() as int,
                p as int == pid,
                p < ctx.programs@.len(),
                n == c1.programs[pid].attributes.len(),
                n < 0x7FFF_FFFF,
                key@ == name@,
                !has_nul(name@),
                forall|j: int| 0 <= j < i ==> attribute_names(c1.programs[pid])[j] != name@,
            decreases n - i,
        {
            if ctx.programs[p].attributes[i].name == key {
                proof {
                    let names = attribute_names(c1.programs[pid]);
                    assert(names[i as int] == name@);
                    lemma_name_lookup(names, name@);
                    assert(has_name(names, name@));
                    assert(name_lookup(names, name@) == i as int);
                    assert(spec_ensure_attribute(c1, self.id_spec(), name@) == c1);
                }
                return Ok(i as i32);
            }
            i += 1;
        }
        proof {
            let names = attribute_names(c1.programs[pid]);
            lemma_name_lookup(names, name@);
            assert(!has_name(names, name@)) by {
                if has_name(names, name@) {
                    let w = choose|w: int| 0 <= w < names.len() && names[w] == name@;
                    assert(attribute_names(c1.programs[pid])[w] != name@);
                }
            }
        }
        let ghost s0 = ctx.programs@;
        let mut rec = ctx.programs.remove(p);
        rec.attributes.push(AttributeSlot { name: key, binding: None });
        let ghost rec2 = rec;
        ctx.programs.insert(p, rec);
        proof {
            let cf = spec_ensure_attribute(c1, self.id_spec(), name@);
            s0.remove_ensures(pid);
            s0.remove(pid).insert_ensures(pid, rec2);
            assert(ctx.programs@ =~= s0.update(pid, rec2));
            assert(rec2.attributes@ == s0[pid].attributes@.push(
                AttributeSlot { name: key, binding: None },
            ));
            assert(ctx@.programs =~= c1.programs.update(pid, rec2@));
            assert(rec2@.attributes =~= c1.programs[pid].attributes.push(
                AttributeSlotView { name: name@, binding: None },
            ));
            assert(ctx@ =~~= cf);
            lemma_ensure_attribute(c1, self.id_spec(), name@);
        }
        Ok(n as i32)
    }

    /// Creates a vertex buffer holding `data`, uploads it, and binds it to
    /// the attribute named "Position": three scalars per vertex, packed, as
    /// the mesh consumers of this layer lay their positions out. The fixed
    /// name holds no NUL, so the call always succeeds.
    pub fn setup_attributes(&self, ctx: &mut Context, data: &Vec<u32>) -> (r: Result<(), Error>)
        requires
            old(ctx)@.can_bind(self.id_spec()),
            old(ctx)@.buffers.len() < 0xFFFF_FFFF,
        ensures
            final(ctx)@.wf(),
            final(ctx)@.current == Some(self.id_spec()),
            r is Ok,
            final(ctx)@ == spec_bind_attribute(
                (ContextView { buffers: old(ctx)@.buffers.push(data@), ..old(ctx)@ }),
                self.id_spec(),
                "Position"@,
                (AttributeBinding {
                    buffer: old(ctx)@.buffers.len() as u32,
                    components: 3,
                    stride_bytes: 12,
                }),
            ),
            final(ctx)@.buffers == old(ctx)@.buffers.push(data@),
            final(ctx)@.attribute_binding(self.id_spec(), "Position"@) == Some(
                AttributeBinding {
                    buffer: old(ctx)@.buffers.len() as u32,
                    components: 3,
                    stride_bytes: 12,
                },
            ),
    {
        proof {
            reveal_strlit("Position");
            assert(!has_nul("Position"@)) by {
                assert(forall|i: int| 0 <= i < "Position"@.len() ==> "Position"@[i] != '\0');
            }
        }
        let buffer_id = ctx.buffers.len() as u32;
        ctx.buffers.push(data.clone());
        let ghost cb = ctx@;
        let ghost b = AttributeBinding { buffer: buffer_id, components: 3, stride_bytes: 12 };
        proof {
            assert(cb =~~= (ContextView { buffers: old(ctx)@.buffers.push(data@), ..old(ctx)@ }));
            assert(cb.can_bind(self.id_spec()));
        }
        let loc = match self.get_attribute_location(ctx, "Position") {
            Ok(l) => l,
            Err(e) => {
                proof {
                    assert(false);
                }
                return Err(e);
            },
        };
        proof {
            lemma_bind_attribute_post(cb, self.id_spec(), "Position"@, b);
        }
        store_binding(
            ctx,
            self.id,
            loc as usize,
            AttributeBinding { buffer: buffer_id, components: 3, stride_bytes: 12 },
        );
        Ok(())
    }
}

/// Stores a value in an existing uniform slot, leaving its name in place.
#[verifier::rlimit(50)]
fn store_uniform(ctx: &mut Context, id: u32, loc: usize, value: UniformValue)
    requires
        old(ctx)@.wf(),
        old(ctx)@.program_live(id),
        loc < old(ctx)@.programs[id as int].uniforms.len(),
    ensures
        final(ctx)@.wf(),
        final(ctx)@ == (ContextView {
            programs: old(ctx)@.programs.update(
                id as int,
                ProgramRecordView {
                    uniforms: old(ctx)@.programs[id as int].uniforms.update(
                        loc as int,
                        UniformSlotView {
                            name: old(ctx)@.programs[id as int].uniforms[loc as int].name,
                            value: Some(value@),
                        },
                    ),
                    ..old(ctx)@.programs[id as int]
                },
            ),
            ..old(ctx)@
        }),
{
    let ghost v = value@;
    let ghost pid = id as int;
    let ghost s0 = ctx.programs@;
    let i = id as usize;
    let mut rec = ctx.programs.remove(i);
    let ghost us0 = rec.uniforms@;
    let mut slot = rec.uniforms.remove(loc);
    slot.value = Some(value);
    let ghost slot2 = slot;
    rec.uniforms.insert(loc, slot);
    let ghost rec2 = rec;
    ctx.programs.insert(i, rec);
    proof {
        s0.remove_ensures(pid);
        s0.remove(pid).insert_ensures(pid, rec2);
        assert(ctx.programs@ =~= s0.update(pid, rec2));
        us0.remove_ensures(loc as int);
        us0.remove(loc as int).insert_ensures(loc as int, slot2);
        assert(rec2.uniforms@ =~= us0.update(loc as int, slot2));
        let p2 = ProgramRecordView {
            uniforms: old(ctx)@.programs[pid].uniforms.update(
                loc as int,
                UniformSlotView {
                    name: old(ctx)@.programs[pid].uniforms[loc as int].name,
                    value: Some(v),
                },
            ),
            ..old(ctx)@.programs[pid]
        };
        assert(rec2@.uniforms =~= p2.uniforms);
        assert(ctx@.programs =~= old(ctx)@.programs.update(pid, rec2@));
        assert(rec2@ =~~= p2);
        assert(ctx@ =~~= (ContextView { programs: old(ctx)@.programs.update(pid, p2), ..old(ctx)@ }));
        lemma_wf_update_tables(old(ctx)@, id, p2);
    }
}

/// Stores a binding in an existing attribute slot, leaving its name in
/// place.
#[verifier::rlimit(50)]
fn store_binding(ctx: &mut Context, id: u32, loc: usize, b: AttributeBinding)
    requires
        old(ctx)@.wf(),
        old(ctx)@.program_live(id),
        loc < old(ctx)@.programs[id as int].attributes.len(),
    ensures
        final(ctx)@.wf(),
        final(ctx)@ == (ContextView {
            programs: old(ctx)@.programs.update(
                id as int,
                ProgramRecordView {
                    attributes: old(ctx)@.programs[id as int].attributes.update(
                        loc as int,
                        AttributeSlotView {
                            name: old(ctx)@.programs[id as int].attributes[loc as int].name,
                            binding: Some(b),
                        },
                    ),
                    ..old(ctx)@.programs[id as int]
                },
            ),
            ..old(ctx)@
        }),
{
    let ghost pid = id as int;
    let ghost s0 = ctx.programs@;
    let i = id as usize;
    let mut rec = ctx.programs.remove(i);
    let ghost as0 = rec.attributes@;
    let mut slot = rec.attributes.remove(loc);
    slot.binding = Some(b);
    let ghost slot2 = slot;
    rec.attributes.insert(loc, slot);
    let ghost rec2 = rec;
    ctx.programs.insert(i, rec);
    proof {
        s0.remove_ensures(pid);
        s0.remove(pid).insert_ensures(pid, rec2);
        assert(ctx.programs@ =~= s0.update(pid, rec2));
        as0.remove_ensures(loc as int);
        as0.remove(loc as int).insert_ensures(loc as int, slot2);
        assert(rec2.attributes@ =~= as0.update(loc as int, slot2));
        let p2 = ProgramRecordView {
            attributes: old(ctx)@.programs[pid].attributes.update(
                loc as int,
                AttributeSlotView {
                    name: old(ctx)@.programs[pid].attributes[loc as int].name,
                    binding: Some(b),
                },
            ),
            ..old(ctx)@.programs[pid]
        };
        assert(rec2@.attributes =~= p2.attributes);
        assert(ctx@.programs =~= old(ctx)@.programs.update(pid, rec2@));
        assert(rec2@ =~~= p2);
        assert(ctx@ =~~= (ContextView { programs: old(ctx)@.programs.update(pid, p2), ..old(ctx)@ }));
        lemma_wf_update_tables(old(ctx)@, id, p2);
    }
}

/// What binding an attribute leaves behind: the composed transition equals a
/// single table update, the context invariant is kept, the program is
/// current, and the name now resolves to the stored binding.
proof fn lemma_bind_attribute_post(c: ContextView, id: u32, name: Seq<char>, b: AttributeBinding)
    ensures
        c.can_bind(id) ==> ({
            let cu = spec_use(c, id);
            let c1 = spec_ensure_attribute(cu, id, name);
            let loc = name_lookup(attribute_names(c.programs[id as int]), name);
            let cf = spec_bind_attribute(c, id, name, b);
            &&& cu.wf()
            &&& c1.wf()
            &&& c1.program_live(id)
            &&& 0 <= loc < c1.programs[id as int].attributes.len()
            &&& cf == (ContextView {
                programs: c1.programs.update(
                    id as int,
                    ProgramRecordView {
                        attributes: c1.programs[id as int].attributes.update(
                            loc,
                            AttributeSlotView {
                                name: c1.programs[id as int].attributes[loc].name,
                                binding: Some(b),
                            },
                        ),
                        ..c1.programs[id as int]
                    },
                ),
                ..c1
            })
            &&& cf.wf()
            &&& cf.current == Some(id)
            &&& cf.attribute_binding(id, name) == Some(b)
        }),
{
    if c.can_bind(id) {
        let cu = spec_use(c, id);
        assert(cu.wf());
        let c1 = spec_ensure_attribute(cu, id, name);
        let loc = name_lookup(attribute_names(c.programs[id as int]), name);
        let cf = spec_bind_attribute(c, id, name, b);
        lemma_ensure_attribute(cu, id, name);
        let p2 = ProgramRecordView {
            attributes: c1.programs[id as int].attributes.update(
                loc,
                AttributeSlotView {
                    name: c1.programs[id as int].attributes[loc].name,
                    binding: Some(b),
                },
            ),
            ..c1.programs[id as int]
        };
        assert(c1.programs[id as int].attributes[loc].name == name);
        assert(cf =~~= (ContextView { programs: c1.programs.update(id as int, p2), ..c1 }));
        lemma_wf_update_tables(c1, id, p2);
        assert(attribute_names(cf.programs[id as int]) =~= attribute_names(
            c1.programs[id as int],
        ));
        assert(cf.attribute_binding(id, name) == Some(b));
    }
}

/// What uploading a uniform leaves behind, stated once for every value
/// shape: the composed transition equals a single table update, the context
/// invariant is kept, the program is current, and the name now resolves to
/// the stored value.
pub proof fn lemma_add_uniform_post(c: ContextView, id: u32, name: Seq<char>, v: UniformValueView)
    ensures
        c.can_bind(id) ==> ({
            let cu = spec_use(c, id);
            let c1 = spec_ensure_uniform(cu, id, name);
            let loc = name_lookup(uniform_names(c.programs[id as int]), name);
            let cf = spec_add_uniform(c, id, name, v);
            &&& cu.wf()
            &&& c1.wf()
            &&& c1.program_live(id)
            &&& 0 <= loc < c1.programs[id as int].uniforms.len()
            &&& cf == (ContextView {
                programs: c1.programs.update(
                    id as int,
                    ProgramRecordView {
                        uniforms: c1.programs[id as int].uniforms.update(
                            loc,
                            UniformSlotView {
                                name: c1.programs[id as int].uniforms[loc].name,
                                value: Some(v),
                            },
                        ),
                        ..c1.programs[id as int]
                    },
                ),
                ..c1
            })
            &&& cf.wf()
            &&& cf.current == Some(id)
            &&& cf.uniform_value(id, name) == Some(v)
        }),
{
    if c.can_bind(id) {
        let cu = spec_use(c, id);
        assert(cu.wf());
        let c1 = spec_ensure_uniform(cu, id, name);
        let loc = name_lookup(uniform_names(c.programs[id as int]), name);
        let cf = spec_add_uniform(c, id, name, v);
        lemma_ensure_uniform(cu, id, name);
        let p2 = ProgramRecordView {
            uniforms: c1.programs[id as int].uniforms.update(
                loc,
                UniformSlotView { name: c1.programs[id as int].uniforms[loc].name, value: Some(v) },
            ),
            ..c1.programs[id as int]
        };
        assert(c1.programs[id as int].uniforms[loc].name == name);
        assert(cf =~~= (ContextView { programs: c1.programs.update(id as int, p2), ..c1 }));
        lemma_wf_update_tables(c1, id, p2);
        assert(uniform_names(cf.programs[id as int]) =~= uniform_names(c1.programs[id as int]));
        assert(cf.uniform_value(id, name) == Some(v));
    }
}

} // verus!
