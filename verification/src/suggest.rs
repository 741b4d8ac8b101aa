//! The suggestion engine: when an identifier is reported as undefined,
//! every known environment is probed for it, and the matches become
//! human-readable notes, with configuration guidance when none is set.
use vstd::prelude::*;

use crate::field::FieldModel;
use crate::library::{
    names_contain, path_view, spec_find_global, spec_from_name, StandardLibrary,
    StandardLibraryModel,
};
use vstd::string::StringExecFns;

verus! {

broadcast use {
    vstd::map::group_map_axioms,
    vstd::set::group_set_axioms,
    vstd::std_specs::vec::group_vec_axioms,
};

/// A host-specific extension environment: its name, the root identifiers
/// special to it, and its own flattened description.
pub struct ExtensionLibrary {
    pub name: String,
    pub roots: Vec<String>,
    pub library: StandardLibrary,
}

/// Mathematical model of `ExtensionLibrary`.
pub struct ExtensionLibraryModel {
    pub name: Seq<char>,
    pub roots: Seq<Seq<char>>,
    pub library: StandardLibraryModel,
}

impl View for ExtensionLibrary {
    type V = ExtensionLibraryModel;

    open spec fn view(&self) -> ExtensionLibraryModel {
        ExtensionLibraryModel {
            name: self.name@,
            roots: path_view(self.roots@),
            library: self.library@,
        }
    }
}

impl ExtensionLibrary {
    /// The extension's description is well formed.
    pub open spec fn wf(self) -> bool {
        self.library.wf()
    }
}

/// Whether a bundled environment of this name recognizes the path.
pub open spec fn builtin_matches(name: Seq<char>, path: Seq<Seq<char>>) -> bool {
    match spec_from_name(name) {
        Option::Some(lib) => spec_find_global(lib.globals, path) is Some,
        Option::None => false,
    }
}

/// Whether the extension environment claims the path: either its first
/// segment is one of the extension's root identifiers, or the extension's
/// own description recognizes the whole path.
pub open spec fn extension_matches(e: ExtensionLibraryModel, path: Seq<Seq<char>>) -> bool {
    e.roots.contains(path[0]) || spec_find_global(e.library.globals, path) is Some
}

/// The model of an optional extension argument.
pub open spec fn ext_model(e: Option<&ExtensionLibrary>) -> Option<ExtensionLibraryModel> {
    match e {
        Option::Some(x) => Option::Some(x@),
        Option::None => Option::None,
    }
}

/// The names of the environments that recognize the path: the bundled
/// ones in their lexicographic order, and a matching extension first of
/// all, being the statistically likeliest.
pub open spec fn spec_possible_libraries(
    path: Seq<Seq<char>>,
    e: Option<ExtensionLibraryModel>,
) -> Seq<Seq<char>> {
    let builtins = (if builtin_matches("lua51"@, path) {
        seq!["lua51"@]
    } else {
        Seq::<Seq<char>>::empty()
    }) + (if builtin_matches("lua52"@, path) {
        seq!["lua52"@]
    } else {
        Seq::<Seq<char>>::empty()
    });
    match e {
        Option::Some(x) => if extension_matches(x, path) {
            seq![x.name] + builtins
        } else {
            builtins
        },
        Option::None => builtins,
    }
}

/// A matching extension stands first in the suggestion list, wherever
/// its name would fall alphabetically among the bundled ones.
pub proof fn lemma_extension_first(path: Seq<Seq<char>>, x: ExtensionLibraryModel)
    requires
        extension_matches(x, path),
    ensures
        spec_possible_libraries(path, Option::Some(x)).len() > 0,
        spec_possible_libraries(path, Option::Some(x))[0] == x.name,
{
}

/// Whether this bundled name recognizes the path.
fn builtin_match(name: &str, path: &[String]) -> (b: bool)
    requires
        path@.len() > 0,
    ensures
        b == builtin_matches(name@, path_view(path@)),
{
    match StandardLibrary::from_name(name) {
        Option::Some(lib) => lib.find_global(path).is_some(),
        Option::None => false,
    }
}

/// The names of the environments that recognize the path.
pub fn possible_standard_libraries(name_path: &[String], extension: Option<&ExtensionLibrary>) -> (
    r: Vec<String>)
    requires
        name_path@.len() > 0,
        extension matches Option::Some(e) ==> e.wf(),
    ensures
        path_view(r@) == spec_possible_libraries(path_view(name_path@), ext_model(extension)),
{
    let ghost path = path_view(name_path@);
    let mut libs: Vec<String> = Vec::new();
    match extension {
        Option::Some(ext) => {
            let from_extension = if names_contain(&ext.roots, &name_path[0]) {
                proof {
                    assert(path[0] == name_path@[0]@);
                }
                true
            } else {
                ext.library.find_global(name_path).is_some()
            };
            if from_extension {
                libs.push(ext.name.clone());
            }
        },
        Option::None => {},
    }
    if builtin_match("lua51", name_path) {
        libs.push(String::from_str("lua51"));
    }
    if builtin_match("lua52", name_path) {
        libs.push(String::from_str("lua52"));
    }
    proof {
        assert(path_view(libs@) =~= spec_possible_libraries(path, ext_model(extension)));
    }
    libs
}

/// The segments joined with dots: the spelling of the path in a note.
pub open spec fn dot_join(path: Seq<Seq<char>>) -> Seq<char>
    decreases path.len(),
{
    if path.len() == 0 {
        Seq::empty()
    } else if path.len() == 1 {
        path[0]
    } else {
        dot_join(path.drop_last()) + "."@ + path.last()
    }
}

/// The items joined with commas, every pair separated by ", ".
pub open spec fn comma_join(items: Seq<Seq<char>>) -> Seq<char>
    decreases items.len(),
{
    if items.len() == 0 {
        Seq::empty()
    } else if items.len() == 1 {
        items[0]
    } else {
        comma_join(items.drop_last()) + ", "@ + items.last()
    }
}

/// A natural-language list: one item stands alone, two are joined by
/// "and", three or more take commas with ", and" before the last.
pub open spec fn english_list(items: Seq<Seq<char>>) -> Seq<char> {
    if items.len() == 1 {
        items[0]
    } else if items.len() == 2 {
        items[0] + " and "@ + items[1]
    } else {
        comma_join(items.drop_last()) + ", and "@ + items.last()
    }
}

/// The first note: where the path was found.
pub open spec fn note_found(path: Seq<Seq<char>>, libs: Seq<Seq<char>>) -> Seq<char> {
    "`"@ + dot_join(path) + "` was found in the "@ + english_list(libs) + " standard librar"@ + (
    if libs.len() == 1 {
        "y"@
    } else {
        "ies"@
    })
}

/// One `std = "<name>"` line per match, joined by newlines.
pub open spec fn std_lines(libs: Seq<Seq<char>>) -> Seq<char>
    decreases libs.len(),
{
    if libs.len() == 0 {
        Seq::empty()
    } else if libs.len() == 1 {
        "std = \""@ + libs[0] + "\""@
    } else {
        std_lines(libs.drop_last()) + "\nstd = \""@ + libs.last() + "\""@
    }
}

/// The second note: the configuration guidance.
pub open spec fn note_config(libs: Seq<Seq<char>>) -> Seq<char> {
    "you can set the standard library by putting the following inside selene.toml:\n"@
        + std_lines(libs)
}

/// The path's segments joined with dots.
#[verifier::loop_isolation(false)]
fn dot_join_exec(path: &[String]) -> (r: String)
    requires
        path@.len() > 0,
    ensures
        r@ == dot_join(path_view(path@)),
{
    let n = path.len();
    let mut out = path[0].clone();
    let mut i: usize = 1;
    proof {
        assert(path_view(path@).subrange(0, 1)[0] == path@[0]@);
    }
    while i < n
        invariant
            1 <= i <= n,
            out@ == dot_join(path_view(path@).subrange(0, i as int)),
        decreases n - i,
    {
        let ghost prefix = path_view(path@).subrange(0, i as int);
        let ghost next = path_view(path@).subrange(0, i as int + 1);
        out.append(".");
        out.append(path[i].as_str());
        proof {
            assert(next.drop_last() =~= prefix);
            assert(next.last() == path@[i as int]@);
            assert(out@ == dot_join(next));
        }
        i = i + 1;
    }
    proof {
        assert(path_view(path@).subrange(0, n as int) =~= path_view(path@));
    }
    out
}

/// The items as a natural-language list.
#[verifier::loop_isolation(false)]
fn english_list_exec(items: &Vec<String>) -> (r: String)
    requires
        items@.len() > 0,
    ensures
        r@ == english_list(path_view(items@)),
{
    let n = items.len();
    if n == 1 {
        items[0].clone()
    } else if n == 2 {
        let mut out = items[0].clone();
        out.append(" and ");
        out.append(items[1].as_str());
        out
    } else {
        let mut out = items[0].clone();
        let mut i: usize = 1;
        proof {
            assert(path_view(items@).subrange(0, 1)[0] == items@[0]@);
        }
        while i < n - 1
            invariant
                1 <= i <= n - 1,
                out@ == comma_join(path_view(items@).subrange(0, i as int)),
            decreases n - i,
        {
            let ghost prefix = path_view(items@).subrange(0, i as int);
            let ghost next = path_view(items@).subrange(0, i as int + 1);
            out.append(", ");
            out.append(items[i].as_str());
            proof {
                assert(next.drop_last() =~= prefix);
                assert(next.last() == items@[i as int]@);
                assert(out@ == comma_join(next));
            }
            i = i + 1;
        }
        out.append(", and ");
        out.append(items[n - 1].as_str());
        proof {
            let whole = path_view(items@);
            assert(whole.subrange(0, n as int - 1) =~= whole.drop_last());
            assert(whole.last() == items@[n as int - 1]@);
        }
        out
    }
}

/// The configuration guidance lines.
#[verifier::loop_isolation(false)]
fn std_lines_exec(libs: &Vec<String>) -> (r: String)
    ensures
        r@ == std_lines(path_view(libs@)),
{
    let n = libs.len();
    let mut out = String::new();
    if n == 0 {
        proof {
            assert(out@ =~= std_lines(path_view(libs@)));
        }
        return out;
    }
    out.append("std = \"");
    out.append(libs[0].as_str());
    out.append("\"");
    let mut i: usize = 1;
    proof {
        assert(path_view(libs@).subrange(0, 1)[0] == libs@[0]@);
        assert(out@ =~= std_lines(path_view(libs@).subrange(0, 1)));
    }
    while i < n
        invariant
            1 <= i <= n,
            out@ == std_lines(path_view(libs@).subrange(0, i as int)),
        decreases n - i,
    {
        let ghost prefix = path_view(libs@).subrange(0, i as int);
        let ghost next = path_view(libs@).subrange(0, i as int + 1);
        out.append("\nstd = \"");
        out.append(libs[i].as_str());
        out.append("\"");
        proof {
            assert(next.drop_last() =~= prefix);
            assert(next.last() == libs@[i as int]@);
            assert(out@ =~= std_lines(next));
        }
        i = i + 1;
    }
    proof {
        assert(path_view(libs@).subrange(0, n as int) =~= path_view(libs@));
    }
    out
}

/// The suggestion notes for an undefined identifier: nothing when no
/// environment recognizes the path; otherwise one note naming the
/// matches, and, when no standard library is configured yet, a second
/// note with one `std = "<name>"` line per match.
pub fn possible_standard_library_notes(
    name_path: &[String],
    standard_library_is_set: bool,
    extension: Option<&ExtensionLibrary>,
) -> (r: Vec<String>)
    requires
        name_path@.len() > 0,
        extension matches Option::Some(e) ==> e.wf(),
    ensures
        ({
            let path = path_view(name_path@);
            let libs = spec_possible_libraries(path, ext_model(extension));
            if libs.len() == 0 {
                r@.len() == 0
            } else if standard_library_is_set {
                r@.len() == 1 && r@[0]@ == note_found(path, libs)
            } else {
                r@.len() == 2 && r@[0]@ == note_found(path, libs) && r@[1]@ == note_config(libs)
            }
        }),
{
    let ghost path = path_view(name_path@);
    let libs = possible_standard_libraries(name_path, extension);
    let ghost libs_model = spec_possible_libraries(path, ext_model(extension));
    let mut notes: Vec<String> = Vec::new();
    if libs.len() == 0 {
        return notes;
    }
    let mut note = String::new();
    note.append("`");
    let joined = dot_join_exec(name_path);
    note.append(joined.as_str());
    note.append("` was found in the ");
    let listed = english_list_exec(&libs);
    note.append(listed.as_str());
    note.append(" standard librar");
    if libs.len() == 1 {
        note.append("y");
    } else {
        note.append("ies");
    }
    proof {
        assert(note@ =~= note_found(path, libs_model));
    }
    notes.push(note);
    if !standard_library_is_set {
        let mut guidance = String::new();
        guidance.append("you can set the standard library by putting the following inside selene.toml:\n");
        let lines = std_lines_exec(&libs);
        guidance.append(lines.as_str());
        proof {
            assert(guidance@ =~= note_config(libs_model));
        }
        notes.push(guidance);
    }
    notes
}

} // verus!
