//! The modelled graphics driver.
//!
//! [`Context`] stands for the live connection to the driver. It carries, as
//! explicit state, everything the binding layer reads or writes through that
//! connection: the shader and program objects that have been created, the
//! per-program name-to-location tables, the vertex buffers, the identifier of
//! the currently used program, and a counter of how many "use this program"
//! calls were issued. The counter lets a caller observe that redundant
//! activation calls are never issued.
//!
//! The modelled driver is deterministic: it rejects a shader source exactly
//! when the source is empty, it links a program exactly when at least one
//! vertex and one fragment stage are attached, and it resolves every
//! well-formed name, handing out locations in the order the names are first
//! asked for.

use vstd::prelude::*;

use crate::error::ShaderStage;

verus! {

/// A uniform value as handed to the driver. Floating-point payloads are
/// carried as their IEEE-754 bit patterns, so the table the model keeps is
/// exact; a caller converts at the boundary.
pub enum UniformValue {
    Int(i32),
    Float(u32),
    Vec2(u32, u32),
    Vec3(u32, u32, u32),
    Vec4(u32, u32, u32, u32),
    /// Sixteen scalars, column-major.
    Mat4(Vec<u32>),
}

#[verifier::ext_equal]
pub ghost enum UniformValueView {
    Int(i32),
    Float(u32),
    Vec2(u32, u32),
    Vec3(u32, u32, u32),
    Vec4(u32, u32, u32, u32),
    Mat4(Seq<u32>),
}

impl View for UniformValue {
    type V = UniformValueView;

    open spec fn view(&self) -> UniformValueView {
        match self {
            UniformValue::Int(v) => UniformValueView::Int(*v),
            UniformValue::Float(v) => UniformValueView::Float(*v),
            UniformValue::Vec2(a, b) => UniformValueView::Vec2(*a, *b),
            UniformValue::Vec3(a, b, c) => UniformValueView::Vec3(*a, *b, *c),
            UniformValue::Vec4(a, b, c, d) => UniformValueView::Vec4(*a, *b, *c, *d),
            UniformValue::Mat4(v) => UniformValueView::Mat4(v@),
        }
    }
}

/// How a per-vertex attribute reads its buffer: which buffer, how many
/// scalars per vertex, and the byte stride between consecutive vertices.
#[derive(Clone, Copy, Debug, PartialEq, Eq, Structural)]
pub struct AttributeBinding {
    pub buffer: u32,
    pub components: u32,
    pub stride_bytes: u32,
}

/// One named uniform slot of a linked program. Its location is its index in
/// the program's uniform table.
pub struct UniformSlot {
    pub name: String,
    pub value: Option<UniformValue>,
}

#[verifier::ext_equal]
pub ghost struct UniformSlotView {
    pub name: Seq<char>,
    pub value: Option<UniformValueView>,
}

impl View for UniformSlot {
    type V = UniformSlotView;

    open spec fn view(&self) -> UniformSlotView {
        UniformSlotView {
            name: self.name@,
            value: match self.value {
                Some(v) => Some(v@),
                None => None,
            },
        }
    }
}

/// One named attribute slot of a linked program. Its location is its index
/// in the program's attribute table.
pub struct AttributeSlot {
    pub name: String,
    pub binding: Option<AttributeBinding>,
}

#[verifier::ext_equal]
pub ghost struct AttributeSlotView {
    pub name: Seq<char>,
    pub binding: Option<AttributeBinding>,
}

impl View for AttributeSlot {
    type V = AttributeSlotView;

    open spec fn view(&self) -> AttributeSlotView {
        AttributeSlotView { name: self.name@, binding: self.binding }
    }
}

/// One shader object the driver has created. A dead record stands for a
/// handle whose shader has been deleted.
pub struct ShaderRecord {
    pub live: bool,
    pub stage: ShaderStage,
}

#[verifier::ext_equal]
pub ghost struct ShaderRecordView {
    pub live: bool,
    pub stage: ShaderStage,
}

impl View for ShaderRecord {
    type V = ShaderRecordView;

    open spec fn view(&self) -> ShaderRecordView {
        ShaderRecordView { live: self.live, stage: self.stage }
    }
}

/// One program object the driver has created, with its name-to-location
/// tables. A dead record stands for a handle that has been released.
pub struct ProgramRecord {
    pub live: bool,
    pub uniforms: Vec<UniformSlot>,
    pub attributes: Vec<AttributeSlot>,
}

#[verifier::ext_equal]
pub ghost struct ProgramRecordView {
    pub live: bool,
    pub uniforms: Seq<UniformSlotView>,
    pub attributes: Seq<AttributeSlotView>,
}

impl View for ProgramRecord {
    type V = ProgramRecordView;

    open spec fn view(&self) -> ProgramRecordView {
        ProgramRecordView {
            live: self.live,
            uniforms: self.uniforms@.map_values(|s: UniformSlot| s@),
            attributes: self.attributes@.map_values(|s: AttributeSlot| s@),
        }
    }
}

/// The live connection to the modelled driver. Shader, program and buffer
/// identifiers are indices into the respective tables; a released handle
/// leaves a dead record behind, so identifiers are never reused.
pub struct Context {
    pub shaders: Vec<ShaderRecord>,
    pub programs: Vec<ProgramRecord>,
    /// Program identifiers whose native handle has been released, in order.
    pub released: Vec<u32>,
    /// The currently used program, as cached by the binding layer.
    pub current: Option<u32>,
    /// How many "use this program" calls have been issued to the driver.
    pub use_calls: u64,
    pub buffers: Vec<Vec<u32>>,
}

#[verifier::ext_equal]
pub ghost struct ContextView {
    pub shaders: Seq<ShaderRecordView>,
    pub programs: Seq<ProgramRecordView>,
    pub released: Seq<u32>,
    pub current: Option<u32>,
    pub use_calls: int,
    pub buffers: Seq<Seq<u32>>,
}

impl View for Context {
    type V = ContextView;

    open spec fn view(&self) -> ContextView {
        ContextView {
            shaders: self.shaders@.map_values(|r: ShaderRecord| r@),
            programs: self.programs@.map_values(|p: ProgramRecord| p@),
            released: self.released@,
            current: self.current,
            use_calls: self.use_calls as int,
            buffers: self.buffers@.map_values(|b: Vec<u32>| b@),
        }
    }
}

impl ContextView {
    /// The identifier names a program whose handle is still owned.
    pub open spec fn program_live(self, id: u32) -> bool {
        (id as int) < self.programs.len() && self.programs[id as int].live
    }

    /// The identifier names a program whose handle has been released.
    pub open spec fn program_dead(self, id: u32) -> bool {
        (id as int) < self.programs.len() && !self.programs[id as int].live
    }

    /// The identifier names a shader that has not been deleted.
    pub open spec fn shader_live(self, id: u32) -> bool {
        (id as int) < self.shaders.len() && self.shaders[id as int].live
    }

    /// The invariant every operation preserves: the current program is live,
    /// and the release log names only dead programs, each at most once — a
    /// handle is released at most once over the life of the context.
    pub open spec fn wf(self) -> bool {
        &&& match self.current {
            Some(id) => self.program_live(id),
            None => true,
        }
        &&& forall|i: int|
            0 <= i < self.released.len() ==> self.program_dead(#[trigger] self.released[i])
        &&& forall|i: int, j: int|
            0 <= i < j < self.released.len() ==> self.released[i] != self.released[j]
    }

    /// The program may be used and its tables may grow by one entry: it is
    /// live, and the machine limits on locations, buffer handles and the
    /// activation counter are not hit.
    pub open spec fn can_bind(self, id: u32) -> bool {
        &&& self.wf()
        &&& self.program_live(id)
        &&& self.use_calls < 0xFFFF_FFFF_FFFF_FFFF
        &&& self.programs[id as int].uniforms.len() < 0x7FFF_FFFF
        &&& self.programs[id as int].attributes.len() < 0x7FFF_FFFF
    }

    /// The value stored for a uniform name of a program, if any.
    pub open spec fn uniform_value(self, id: u32, name: Seq<char>) -> Option<UniformValueView> {
        let us = self.programs[id as int].uniforms;
        let i = name_lookup(uniform_names(self.programs[id as int]), name);
        if 0 <= i < us.len() {
            us[i].value
        } else {
            None
        }
    }

    /// The binding stored for an attribute name of a program, if any.
    pub open spec fn attribute_binding(self, id: u32, name: Seq<char>) -> Option<AttributeBinding> {
        let ats = self.programs[id as int].attributes;
        let i = name_lookup(attribute_names(self.programs[id as int]), name);
        if 0 <= i < ats.len() {
            ats[i].binding
        } else {
            None
        }
    }
}

/// The names of a program's uniform slots, by location.
pub open spec fn uniform_names(p: ProgramRecordView) -> Seq<Seq<char>> {
    p.uniforms.map_values(|s: UniformSlotView| s.name)
}

/// The names of a program's attribute slots, by location.
pub open spec fn attribute_names(p: ProgramRecordView) -> Seq<Seq<char>> {
    p.attributes.map_values(|s: AttributeSlotView| s.name)
}

/// The location the driver resolves `name` to: the first slot of that name,
/// or, when the name has no slot yet, the index the new slot will get.
pub open spec fn name_lookup(names: Seq<Seq<char>>, name: Seq<char>) -> int
    decreases names.len(),
{
    if names.len() == 0 {
        0
    } else if names[0] == name {
        0
    } else {
        1 + name_lookup(names.drop_first(), name)
    }
}

/// Some slot already carries `name`.
pub open spec fn has_name(names: Seq<Seq<char>>, name: Seq<char>) -> bool {
    exists|i: int| 0 <= i < names.len() && names[i] == name
}

/// What `name_lookup` returns: a position no greater than the table's length,
/// carrying `name` when within it, with no earlier slot of that name; the
/// length itself exactly when the name is absent.
pub proof fn lemma_name_lookup(names: Seq<Seq<char>>, name: Seq<char>)
    ensures
        0 <= name_lookup(names, name) <= names.len(),
        name_lookup(names, name) < names.len() ==> names[name_lookup(names, name)] == name,
        forall|j: int| 0 <= j < name_lookup(names, name) ==> names[j] != name,
        (name_lookup(names, name) == names.len()) <==> !has_name(names, name),
    decreases names.len(),
{
    if names.len() == 0 {
        assert(!has_name(names, name));
    } else if names[0] == name {
        assert(has_name(names, name));
    } else {
        let rest = names.drop_first();
        lemma_name_lookup(rest, name);
        let r = name_lookup(rest, name);
        assert forall|j: int| 0 <= j < 1 + r implies names[j] != name by {
            if j > 0 {
                assert(rest[j - 1] == names[j]);
            }
        }
        if r < rest.len() {
            assert(names[1 + r] == rest[r]);
            assert(has_name(names, name));
        } else {
            assert(!has_name(names, name)) by {
                if has_name(names, name) {
                    let i = choose|i: int| 0 <= i < names.len() && names[i] == name;
                    assert(i > 0);
                    assert(rest[i - 1] == names[i]);
                    assert(has_name(rest, name));
                }
            }
        }
    }
}

/// Appending a fresh slot for an absent name puts it exactly at the old
/// length, where `name_lookup` already pointed.
pub proof fn lemma_name_lookup_push(names: Seq<Seq<char>>, name: Seq<char>)
    requires
        !has_name(names, name),
    ensures
        name_lookup(names.push(name), name) == names.len(),
        has_name(names.push(name), name),
    decreases names.len(),
{
    lemma_name_lookup(names, name);
    assert(names.push(name)[names.len() as int] == name);
    if names.len() == 0 {
    } else {
        assert(names[0] != name);
        assert(names.push(name)[0] == names[0]);
        assert(!has_name(names.drop_first(), name)) by {
            lemma_name_lookup(names, name);
            lemma_name_lookup(names.drop_first(), name);
            if has_name(names.drop_first(), name) {
                let i = choose|i: int|
                    0 <= i < names.drop_first().len() && names.drop_first()[i] == name;
                assert(names[i + 1] == names.drop_first()[i]);
            }
        }
        lemma_name_lookup_push(names.drop_first(), name);
        assert(names.push(name).drop_first() =~= names.drop_first().push(name));
    }
}

/// Replacing a live program's record by another live one preserves the
/// context invariant: liveness is unchanged everywhere, so the release log
/// still names only dead programs.
pub proof fn lemma_wf_update_tables(c: ContextView, id: u32, p2: ProgramRecordView)
    requires
        c.wf(),
        c.program_live(id),
        p2.live,
    ensures
        (ContextView { programs: c.programs.update(id as int, p2), ..c }).wf(),
{
    let c2 = ContextView { programs: c.programs.update(id as int, p2), ..c };
    assert forall|i: int| 0 <= i < c2.released.len() implies c2.program_dead(
        #[trigger] c2.released[i],
    ) by {
        assert(c.program_dead(c.released[i]));
    }
}

/// What resolving a uniform name leaves behind: the table gains the name if
/// it was absent, the location is the stable one `name_lookup` gives, the
/// slot at that location carries the name, and nothing else of the context
/// changes.
pub proof fn lemma_ensure_uniform(c: ContextView, id: u32, name: Seq<char>)
    requires
        c.wf(),
        c.program_live(id),
        c.programs[id as int].uniforms.len() < 0x7FFF_FFFF,
    ensures
        ({
            let c1 = spec_ensure_uniform(c, id, name);
            let loc = name_lookup(uniform_names(c.programs[id as int]), name);
            &&& c1.wf()
            &&& c1.program_live(id)
            &&& c1.programs.len() == c.programs.len()
            &&& 0 <= loc < c1.programs[id as int].uniforms.len()
            &&& c1.programs[id as int].uniforms.len() <= c.programs[id as int].uniforms.len() + 1
            &&& c1.programs[id as int].uniforms[loc].name == name
            &&& name_lookup(uniform_names(c1.programs[id as int]), name) == loc
            &&& has_name(uniform_names(c1.programs[id as int]), name)
            &&& c1.programs[id as int].attributes == c.programs[id as int].attributes
            &&& forall|k: int|
                0 <= k < c.programs.len() && k != id as int ==> c1.programs[k] == c.programs[k]
            &&& c1.shaders == c.shaders
            &&& c1.released == c.released
            &&& c1.current == c.current
            &&& c1.use_calls == c.use_calls
            &&& c1.buffers == c.buffers
        }),
{
    let p = c.programs[id as int];
    let names = uniform_names(p);
    let loc = name_lookup(names, name);
    lemma_name_lookup(names, name);
    if has_name(names, name) {
    } else {
        let p2 = ProgramRecordView {
            uniforms: p.uniforms.push(UniformSlotView { name, value: None }),
            ..p
        };
        let c1 = spec_ensure_uniform(c, id, name);
        assert(c1.programs[id as int] == p2);
        assert(uniform_names(p2) =~= names.push(name));
        lemma_name_lookup_push(names, name);
        lemma_wf_update_tables(c, id, p2);
    }
}

/// The attribute counterpart of [`lemma_ensure_uniform`].
pub proof fn lemma_ensure_attribute(c: ContextView, id: u32, name: Seq<char>)
    requires
        c.wf(),
        c.program_live(id),
        c.programs[id as int].attributes.len() < 0x7FFF_FFFF,
    ensures
        ({
            let c1 = spec_ensure_attribute(c, id, name);
            let loc = name_lookup(attribute_names(c.programs[id as int]), name);
            &&& c1.wf()
            &&& c1.program_live(id)
            &&& c1.programs.len() == c.programs.len()
            &&& 0 <= loc < c1.programs[id as int].attributes.len()
            &&& c1.programs[id as int].attributes.len() <= c.programs[id as int].attributes.len()
                + 1
            &&& c1.programs[id as int].attributes[loc].name == name
            &&& name_lookup(attribute_names(c1.programs[id as int]), name) == loc
            &&& has_name(attribute_names(c1.programs[id as int]), name)
            &&& c1.programs[id as int].uniforms == c.programs[id as int].uniforms
            &&& forall|k: int|
                0 <= k < c.programs.len() && k != id as int ==> c1.programs[k] == c.programs[k]
            &&& c1.shaders == c.shaders
            &&& c1.released == c.released
            &&& c1.current == c.current
            &&& c1.use_calls == c.use_calls
            &&& c1.buffers == c.buffers
        }),
{
    let p = c.programs[id as int];
    let names = attribute_names(p);
    let loc = name_lookup(names, name);
    lemma_name_lookup(names, name);
    if has_name(names, name) {
    } else {
        let p2 = ProgramRecordView {
            attributes: p.attributes.push(AttributeSlotView { name, binding: None }),
            ..p
        };
        let c1 = spec_ensure_attribute(c, id, name);
        assert(c1.programs[id as int] == p2);
        assert(attribute_names(p2) =~= names.push(name));
        lemma_name_lookup_push(names, name);
        lemma_wf_update_tables(c, id, p2);
    }
}

/// Making a program current. When it is current already, nothing happens and
/// no activation call is issued; otherwise one call is issued and counted.
pub open spec fn spec_use(c: ContextView, id: u32) -> ContextView {
    if c.current == Some(id) {
        c
    } else {
        ContextView { current: Some(id), use_calls: c.use_calls + 1, ..c }
    }
}

/// A successful compile: the driver hands out the next shader identifier.
pub open spec fn spec_compile_ok(c: ContextView, stage: ShaderStage) -> ContextView {
    ContextView {
        shaders: c.shaders.push(ShaderRecordView { live: true, stage }),
        ..c
    }
}

/// Deleting a shader object.
pub open spec fn spec_delete_shader(c: ContextView, id: u32) -> ContextView {
    ContextView {
        shaders: c.shaders.update(
            id as int,
            ShaderRecordView { live: false, stage: c.shaders[id as int].stage },
        ),
        ..c
    }
}

/// A freshly linked program: live, with empty location tables.
pub open spec fn fresh_program() -> ProgramRecordView {
    ProgramRecordView { live: true, uniforms: Seq::empty(), attributes: Seq::empty() }
}

/// A successful link: the driver hands out the next program identifier.
pub open spec fn spec_link_ok(c: ContextView) -> ContextView {
    ContextView { programs: c.programs.push(fresh_program()), ..c }
}

/// A failed link: the program object created for the attempt is released
/// again before the error is reported, so no handle leaks.
pub open spec fn spec_link_failed(c: ContextView) -> ContextView {
    ContextView {
        programs: c.programs.push(
            ProgramRecordView { live: false, uniforms: Seq::empty(), attributes: Seq::empty() },
        ),
        released: c.released.push(c.programs.len() as u32),
        ..c
    }
}

/// Releasing a program's native handle: the record dies, the release is
/// logged, and a current program that dies stops being current.
pub open spec fn spec_delete_program(c: ContextView, id: u32) -> ContextView {
    ContextView {
        programs: c.programs.update(
            id as int,
            ProgramRecordView { live: false, ..c.programs[id as int] },
        ),
        released: c.released.push(id),
        current: if c.current == Some(id) {
            None
        } else {
            c.current
        },
        ..c
    }
}

/// Resolving a uniform name: a name not seen before gets the next location,
/// with no value stored yet; a known name changes nothing.
pub open spec fn spec_ensure_uniform(c: ContextView, id: u32, name: Seq<char>) -> ContextView {
    let p = c.programs[id as int];
    if has_name(uniform_names(p), name) {
        c
    } else {
        ContextView {
            programs: c.programs.update(
                id as int,
                ProgramRecordView {
                    uniforms: p.uniforms.push(UniformSlotView { name, value: None }),
                    ..p
                },
            ),
            ..c
        }
    }
}

/// Resolving an attribute name, as for uniforms.
pub open spec fn spec_ensure_attribute(c: ContextView, id: u32, name: Seq<char>) -> ContextView {
    let p = c.programs[id as int];
    if has_name(attribute_names(p), name) {
        c
    } else {
        ContextView {
            programs: c.programs.update(
                id as int,
                ProgramRecordView {
                    attributes: p.attributes.push(AttributeSlotView { name, binding: None }),
                    ..p
                },
            ),
            ..c
        }
    }
}

/// Binding a per-vertex attribute: the program becomes current, the name
/// gets its location, and the slot at that location holds the binding.
pub open spec fn spec_bind_attribute(
    c: ContextView,
    id: u32,
    name: Seq<char>,
    b: AttributeBinding,
) -> ContextView {
    let c1 = spec_ensure_attribute(spec_use(c, id), id, name);
    let p = c1.programs[id as int];
    let loc = name_lookup(attribute_names(c.programs[id as int]), name);
    ContextView {
        programs: c1.programs.update(
            id as int,
            ProgramRecordView {
                attributes: p.attributes.update(loc, AttributeSlotView { name, binding: Some(b) }),
                ..p
            },
        ),
        ..c1
    }
}

/// Uploading a uniform value: the program becomes current, the name gets its
/// location, and the slot at that location holds the value.
pub open spec fn spec_add_uniform(
    c: ContextView,
    id: u32,
    name: Seq<char>,
    value: UniformValueView,
) -> ContextView {
    let c1 = spec_ensure_uniform(spec_use(c, id), id, name);
    let p = c1.programs[id as int];
    let loc = name_lookup(uniform_names(c.programs[id as int]), name);
    ContextView {
        programs: c1.programs.update(
            id as int,
            ProgramRecordView {
                uniforms: p.uniforms.update(loc, UniformSlotView { name, value: Some(value) }),
                ..p
            },
        ),
        ..c1
    }
}

impl Context {
    /// A fresh connection: no objects, no current program, no calls issued.
    pub fn new() -> (c: Context)
        ensures
            c@ == (ContextView {
                shaders: Seq::empty(),
                programs: Seq::empty(),
                released: Seq::empty(),
                current: None,
                use_calls: 0,
                buffers: Seq::empty(),
            }),
            c@.wf(),
    {
        let c = Context {
            shaders: Vec::new(),
            programs: Vec::new(),
            released: Vec::new(),
            current: None,
            use_calls: 0,
            buffers: Vec::new(),
        };
        proof {
            assert(c@ =~= ContextView {
                shaders: Seq::empty(),
                programs: Seq::empty(),
                released: Seq::empty(),
                current: None,
                use_calls: 0,
                buffers: Seq::empty(),
            });
        }
        c
    }

    /// Drops the cached "currently used program". After a context loss, or
    /// after foreign code has bound a program behind the cache's back, the
    /// cache no longer describes the device; dropping it makes the next
    /// activation issue a driver call again.
    pub fn invalidate_current(&mut self)
        ensures
            final(self)@ == (ContextView { current: None, ..old(self)@ }),
            old(self)@.wf() ==> final(self)@.wf(),
    {
        self.current = None;
        proof {
            assert(self@ =~= (ContextView { current: None, ..old(self)@ }));
        }
    }

    /// How many activation calls the driver has seen.
    pub fn use_call_count(&self) -> (n: u64)
        ensures
            n == self@.use_calls,
    {
        self.use_calls
    }

    /// The currently used program, if any.
    pub fn current_program(&self) -> (r: Option<u32>)
        ensures
            r == self@.current,
    {
        self.current
    }

    /// Whether the program's handle is still owned.
    pub fn is_program_live(&self, id: u32) -> (b: bool)
        ensures
            b == self@.program_live(id),
    {
        (id as usize) < self.programs.len() && self.programs[id as usize].live
    }

    /// Whether the shader has not been deleted.
    pub fn is_shader_live(&self, id: u32) -> (b: bool)
        ensures
            b == self@.shader_live(id),
    {
        (id as usize) < self.shaders.len() && self.shaders[id as usize].live
    }

    /// How many program handles have been released so far.
    pub fn release_count(&self) -> (n: usize)
        ensures
            n == self@.released.len(),
    {
        self.released.len()
    }

    /// The identifier in the release log at `i`.
    pub fn released_at(&self, i: usize) -> (id: u32)
        requires
            i < self@.released.len(),
        ensures
            id == self@.released[i as int],
    {
        self.released[i]
    }

    /// How many vertex buffers have been created.
    pub fn buffer_count(&self) -> (n: usize)
        ensures
            n == self@.buffers.len(),
    {
        self.buffers.len()
    }
}

} // verus!
