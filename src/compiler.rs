use vstd::prelude::*;

verus! {

/// The options of one compilation: the files, and the flags that the type
/// checker and the code generator read.
pub struct Compiler {
    pub files: Vec<String>,
    pub strict_mode: bool,
    pub mangle_names: bool,
    pub bundle: bool,
}

impl Compiler {
    pub fn new(files: Vec<String>, strict_mode: bool, mangle_names: bool, bundle: bool) -> (r:
        Compiler)
        ensures
            r.files@ == files@,
            r.strict_mode == strict_mode,
            r.mangle_names == mangle_names,
            r.bundle == bundle,
    {
        Compiler { files, strict_mode, mangle_names, bundle }
    }
}

} // verus!
