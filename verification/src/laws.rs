//! The binding layer's global laws, stated over the driver model and proved
//! once for every context, program, name and value.

use vstd::prelude::*;

use crate::context::{
    ContextView, lemma_ensure_uniform, name_lookup, spec_add_uniform, spec_delete_program,
    spec_ensure_uniform, spec_use, uniform_names,
};
use crate::program::lemma_add_uniform_post;

verus! {

/// Activation is idempotent: activating a program makes it current, a second
/// activation of the same program changes nothing at all — in particular it
/// issues no further driver call — and activating a program that is already
/// current is free.
pub proof fn lemma_use_idempotent(c: ContextView, id: u32)
    ensures
        spec_use(c, id).current == Some(id),
        spec_use(spec_use(c, id), id) == spec_use(c, id),
        c.current == Some(id) ==> spec_use(c, id) == c,
        spec_use(c, id).use_calls == c.use_calls + (if c.current == Some(id) {
            0int
        } else {
            1int
        }),
{
}

/// Resolving a name is stable: once a uniform name has been resolved, asking
/// for it again yields the same location and leaves the whole context
/// unchanged — location caching would be externally invisible.
pub proof fn lemma_location_stable(c: ContextView, id: u32, name: Seq<char>)
    requires
        c.can_bind(id),
    ensures
        ({
            let c1 = spec_ensure_uniform(c, id, name);
            &&& name_lookup(uniform_names(c1.programs[id as int]), name) == name_lookup(
                uniform_names(c.programs[id as int]),
                name,
            )
            &&& spec_ensure_uniform(c1, id, name) == c1
        }),
{
    lemma_ensure_uniform(c, id, name);
}

/// Setting a uniform twice with the same name and value behaves exactly as
/// setting it once: the program is current after the first set, so the
/// repeat issues no activation call, resolves the same location, and
/// rewrites the same slot with the same value.
pub proof fn lemma_add_uniform_idempotent(
    c: ContextView,
    id: u32,
    name: Seq<char>,
    v: crate::context::UniformValueView,
)
    requires
        c.can_bind(id),
    ensures
        spec_add_uniform(c, id, name, v).current == Some(id),
        spec_add_uniform(spec_add_uniform(c, id, name, v), id, name, v) == spec_add_uniform(
            c,
            id,
            name,
            v,
        ),
{
    lemma_add_uniform_post(c, id, name, v);
    let cu = spec_use(c, id);
    let c1 = spec_ensure_uniform(cu, id, name);
    let loc = name_lookup(uniform_names(c.programs[id as int]), name);
    let cf = spec_add_uniform(c, id, name, v);
    lemma_ensure_uniform(cu, id, name);
    // The repeat: cf is current, so activation changes nothing.
    assert(spec_use(cf, id) == cf);
    // The name still sits at its slot, so resolving changes nothing.
    assert(uniform_names(cf.programs[id as int]) =~= uniform_names(c1.programs[id as int]));
    assert(crate::context::has_name(uniform_names(cf.programs[id as int]), name));
    assert(spec_ensure_uniform(cf, id, name) == cf);
    assert(name_lookup(uniform_names(cf.programs[id as int]), name) == loc);
    // The slot already holds exactly the value the repeat writes.
    assert(cf.programs[id as int].uniforms[loc] == (crate::context::UniformSlotView {
        name,
        value: Some(v),
    }));
    let cff = spec_add_uniform(cf, id, name, v);
    assert(cff.programs[id as int].uniforms =~= cf.programs[id as int].uniforms);
    assert(cff.programs =~~= cf.programs);
    assert(cff =~~= cf);
}

/// How often an identifier occurs in the release log.
pub open spec fn count_released(log: Seq<u32>, id: u32) -> int
    decreases log.len(),
{
    if log.len() == 0 {
        0
    } else {
        count_released(log.drop_last(), id) + (if log.last() == id {
            1int
        } else {
            0int
        })
    }
}

/// An identifier that occurs nowhere in the log has count zero.
proof fn lemma_count_absent(log: Seq<u32>, id: u32)
    requires
        forall|i: int| 0 <= i < log.len() ==> log[i] != id,
    ensures
        count_released(log, id) == 0,
    decreases log.len(),
{
    if log.len() > 0 {
        lemma_count_absent(log.drop_last(), id);
    }
}

/// Under the context invariant no handle is ever released twice: every
/// program identifier occurs at most once in the release log, however the
/// context was driven.
pub proof fn lemma_release_at_most_once(c: ContextView, id: u32)
    requires
        c.wf(),
    ensures
        count_released(c.released, id) <= 1,
{
    lemma_count_distinct(c.released, id);
}

/// A pairwise-distinct log counts every identifier at most once.
proof fn lemma_count_distinct(log: Seq<u32>, id: u32)
    requires
        forall|i: int, j: int| 0 <= i < j < log.len() ==> log[i] != log[j],
    ensures
        count_released(log, id) <= 1,
    decreases log.len(),
{
    if log.len() > 0 {
        let dl = log.drop_last();
        lemma_count_distinct(dl, id);
        if log.last() == id {
            assert forall|i: int| 0 <= i < dl.len() implies dl[i] != id by {
                assert(log[i] != log[log.len() - 1]);
            }
            lemma_count_absent(dl, id);
        }
    }
}

/// Releasing a live program's handle releases it for the first and only
/// time: its count in the release log rises from zero to one, and the
/// record left behind is dead, so the invariant forbids a second release
/// for the rest of the context's life.
pub proof fn lemma_release_exactly_once(c: ContextView, id: u32)
    requires
        c.wf(),
        c.program_live(id),
    ensures
        count_released(c.released, id) == 0,
        count_released(spec_delete_program(c, id).released, id) == 1,
        spec_delete_program(c, id).program_dead(id),
{
    assert forall|i: int| 0 <= i < c.released.len() implies c.released[i] != id by {
        assert(c.program_dead(c.released[i]));
    }
    lemma_count_absent(c.released, id);
    let log2 = spec_delete_program(c, id).released;
    assert(log2 =~= c.released.push(id));
    assert(log2.drop_last() =~= c.released);
}

} // verus!
