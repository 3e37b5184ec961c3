//! Where a schema package keeps its modules: the file of a module is its
//! `:`-separated name with `/` between the segments and a `.schema`
//! extension, and a module's identity is the crate name and the module
//! name joined by `:`, at the package's version.
use vstd::prelude::*;
use crate::asschema::{Name, SchemaIdentity};
use crate::text::{chars_of, push_char, string_of};

verus! {

/// `t` with every `:` replaced by `/`.
pub open spec fn colons_to_slashes(t: Seq<char>) -> Seq<char> {
    Seq::new(t.len(), |i: int| if t[i] == ':' { '/' } else { t[i] })
}

/// The file, relative to the schema directory, that holds a module.
pub fn module_file_name(module: &Name) -> (r: String)
    ensures
        r@ == colons_to_slashes(module.text()) + ".schema"@,
{
    let chars = chars_of(module.as_str());
    let mut out = String::new();
    let mut i: usize = 0;
    while i < chars.len()
        invariant
            chars@ == module.text(),
            0 <= i <= chars@.len(),
            out@ == colons_to_slashes(chars@.take(i as int)),
        decreases chars@.len() - i,
    {
        if chars[i] == ':' {
            push_char(&mut out, '/');
        } else {
            push_char(&mut out, chars[i]);
        }
        i = i + 1;
        assert(out@ =~= colons_to_slashes(chars@.take(i as int)));
    }
    assert(chars@.take(chars@.len() as int) =~= chars@);
    out.append(".schema");
    out
}

/// The identity of a package's module: `crate:module` at the version.
pub fn module_identity(crate_name: &Name, module_name: &Name, version: &str) -> (r: SchemaIdentity)
    ensures
        r.component_text() == crate_name.text() + ":"@ + module_name.text(),
        r.version_text() == version@,
{
    let mut component = string_of(crate_name.as_str());
    component.append(":");
    component.append(module_name.as_str());
    SchemaIdentity::new(component.as_str(), version)
}

} // verus!
