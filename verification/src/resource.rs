//! Naming of on-disk shader resources: a program named `foo` is loaded from
//! exactly `foo.vert` and `foo.frag`. Reading the files is the embedding
//! application's business; this module only fixes the names.

use vstd::prelude::*;

verus! {

/// The name of the file a program's vertex stage is loaded from.
pub open spec fn spec_vertex_file_name(name: Seq<char>) -> Seq<char> {
    name + ".vert"@
}

/// The name of the file a program's fragment stage is loaded from.
pub open spec fn spec_fragment_file_name(name: Seq<char>) -> Seq<char> {
    name + ".frag"@
}

/// The file the vertex stage of the program named `name` is loaded from:
/// `<name>.vert`.
pub fn vertex_file_name(name: &str) -> (r: String)
    ensures
        r@ == spec_vertex_file_name(name@),
{
    String::from_str(name).concat(".vert")
}

/// The file the fragment stage of the program named `name` is loaded from:
/// `<name>.frag`.
pub fn fragment_file_name(name: &str) -> (r: String)
    ensures
        r@ == spec_fragment_file_name(name@),
{
    String::from_str(name).concat(".frag")
}

} // verus!
