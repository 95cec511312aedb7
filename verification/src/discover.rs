//! The rules of the walk that discovers a description's markdown files: which directories
//! are not entered, and how a file's path relative to the root is written.
use vstd::prelude::*;
use crate::text::{chars_of, push_char, str_eq};

verus! {

/// Directories that never hold resources: version control, dependencies and build output.
pub open spec fn is_skipped_dir(name: Seq<char>) -> bool {
    ||| name == ".git"@
    ||| name == "node_modules"@
    ||| name == "target"@
    ||| name == "dist"@
    ||| (name.len() > 0 && name[0] == '.')
}

/// Whether the walk leaves out a directory named `name` (hidden directories too).
pub fn skipped_dir(name: &str) -> (b: bool)
    ensures
        b == is_skipped_dir(name@),
{
    let v = chars_of(name);
    str_eq(name, ".git") || str_eq(name, "node_modules") || str_eq(name, "target") || str_eq(
        name,
        "dist",
    ) || (v.len() > 0 && v[0] == '.')
}

/// A path written with `/` between its components, whatever the platform's separator.
pub open spec fn slashed(p: Seq<char>) -> Seq<char> {
    p.map_values(|c: char| if c == '\\' { '/' } else { c })
}

/// Writes a relative path with forward slashes (`\` becomes `/`).
pub fn to_slashes(p: &str) -> (r: String)
    ensures
        r@ == slashed(p@),
{
    let v = chars_of(p);
    let mut r = String::new();
    let mut i: usize = 0;
    while i < v.len()
        invariant
            v@ == p@,
            i <= v@.len(),
            r@ == slashed(v@.take(i as int)),
        decreases v@.len() - i,
    {
        let c = v[i];
        if c == '\\' {
            push_char(&mut r, '/');
        } else {
            push_char(&mut r, c);
        }
        assert(slashed(v@.take(i + 1)) =~= slashed(v@.take(i as int)).push(
            if c == '\\' {
                '/'
            } else {
                c
            },
        ));
        i = i + 1;
    }
    assert(v@.take(v@.len() as int) =~= v@);
    r
}

} // verus!
