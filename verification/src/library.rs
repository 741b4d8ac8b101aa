//! Whole standard-library descriptions: the registry of bundled
//! environments, the dotted-path lookup, and the inflate step that folds
//! an inheritance base into a flattened set of globals.
use vstd::prelude::*;

use crate::field::{lemma_map_of_finite, Field, FieldMap, FieldModel};
use crate::merge::{
    lemma_merge_removed_free, lemma_strip_is_merge_empty, lemma_strip_map_free, merge_globals,
    merge_maps, removed_free_map, strip_map,
};
use crate::raw::{
    key_is, library_from_raw, spec_library_from_raw, RawValue, SchemaError, SchemaErrorModel,
};

verus! {

broadcast use {
    vstd::map::group_map_axioms,
    vstd::set::group_set_axioms,
    vstd::std_specs::vec::group_vec_axioms,
};

/// How far a base chain may reach. Two environments are bundled, so any
/// longer chain must have revisited a name.
pub const BASE_CHAIN_LIMIT: usize = 4;

/// One named environment: an optional inheritance base, kept for
/// provenance, and the globals it defines.
#[derive(Debug, PartialEq, Eq)]
pub struct StandardLibrary {
    pub base: Option<String>,
    pub globals: FieldMap,
}

/// Mathematical model of `StandardLibrary`.
pub struct StandardLibraryModel {
    pub base: Option<Seq<char>>,
    pub globals: Map<Seq<char>, FieldModel>,
}

impl View for StandardLibrary {
    type V = StandardLibraryModel;

    open spec fn view(&self) -> StandardLibraryModel {
        StandardLibraryModel {
            base: match self.base {
                Option::Some(b) => Option::Some(b@),
                Option::None => Option::None,
            },
            globals: self.globals@,
        }
    }
}

impl StandardLibrary {
    /// Every table in the description has unique keys.
    pub open spec fn wf(self) -> bool {
        self.globals.wf()
    }
}

/// Why a description could not be produced.
#[derive(Debug, PartialEq, Eq)]
pub enum LibraryError {
    /// The source text is not a well-formed document of the expected format.
    Parse,
    /// The document parsed, but a definition in it broke the field schema.
    Schema(SchemaError),
    /// The document names a base that no known library has; carries the name.
    UnknownBase(String),
    /// The chain of bases comes back to a name already being resolved;
    /// carries the name.
    CyclicBase(String),
}

/// Mathematical model of `LibraryError`.
pub enum LibraryErrorModel {
    Parse,
    Schema(SchemaErrorModel),
    UnknownBase(Seq<char>),
    CyclicBase(Seq<char>),
}

impl View for LibraryError {
    type V = LibraryErrorModel;

    open spec fn view(&self) -> LibraryErrorModel {
        match self {
            LibraryError::Parse => LibraryErrorModel::Parse,
            LibraryError::Schema(e) => LibraryErrorModel::Schema(e@),
            LibraryError::UnknownBase(s) => LibraryErrorModel::UnknownBase(s@),
            LibraryError::CyclicBase(s) => LibraryErrorModel::CyclicBase(s@),
        }
    }
}

/// The views of a sequence of names.
pub open spec fn path_view(names: Seq<String>) -> Seq<Seq<char>> {
    names.map_values(|s: String| s@)
}

/// The dotted-path lookup: every segment but the last must name a table
/// to descend through; the last may name any field.
pub open spec fn spec_find_global(
    globals: Map<Seq<char>, FieldModel>,
    path: Seq<Seq<char>>,
) -> Option<FieldModel>
    decreases path.len(),
{
    if path.len() == 0 {
        Option::None
    } else if path.len() == 1 {
        if globals.dom().contains(path[0]) {
            Option::Some(globals[path[0]])
        } else {
            Option::None
        }
    } else if globals.dom().contains(path[0]) {
        match globals[path[0]] {
            FieldModel::Table(children) => spec_find_global(children, path.drop_first()),
            _ => Option::None,
        }
    } else {
        Option::None
    }
}

impl StandardLibrary {
    /// Resolve a dotted path against the globals: the field it names, or
    /// nothing. Exactly `spec_find_global` on the model.
    #[verifier::loop_isolation(false)]
    pub fn find_global<'a>(&'a self, names: &[String]) -> (r: Option<&'a Field>)
        requires
            self.wf(),
            names@.len() > 0,
        ensures
            match r {
                Option::Some(f) => spec_find_global(self@.globals, path_view(names@))
                    == Option::Some(f@) && f.wf(),
                Option::None => spec_find_global(self@.globals, path_view(names@)) is None,
            },
    {
        let n = names.len();
        let mut current: &'a FieldMap = &self.globals;
        let mut i: usize = 0;
        proof {
            assert(names@.skip(0) =~= names@);
        }
        while i + 1 < n
            invariant
                i < n,
                current.wf(),
                spec_find_global(self@.globals, path_view(names@)) == spec_find_global(
                    current@,
                    path_view(names@.skip(i as int)),
                ),
            decreases n - i,
        {
            let ghost rest = path_view(names@.skip(i as int));
            proof {
                assert(rest.len() == n - i && rest.len() >= 2);
                assert(rest[0] == names@[i as int]@);
            }
            match current.get(&names[i]) {
                Option::Some(child) => {
                    match child {
                        Field::Table(children) => {
                            proof {
                                assert(rest.drop_first() =~= path_view(
                                    names@.skip(i as int + 1),
                                ));
                            }
                            current = children;
                        },
                        _ => {
                            return Option::None;
                        },
                    }
                },
                Option::None => {
                    return Option::None;
                },
            }
            i = i + 1;
        }
        let ghost rest = path_view(names@.skip(i as int));
        proof {
            assert(rest.len() == 1);
            assert(rest[0] == names@[i as int]@);
        }
        current.get(&names[i])
    }
}

/// The bundled text of the base environment.
pub open spec fn lua51_text() -> Seq<char> {
    "[print]\nargs = [{ type = \"...\", required = false }]\n[tostring]\nargs = [{ type = \"any\" }]\n[tonumber]\nargs = [{ type = \"any\" }, { type = \"number\", required = false }]\n[getfenv]\nargs = [{ type = \"number\", required = false }]\n[setfenv]\nargs = [{ type = \"number\" }, { type = \"table\" }]\n[string.format]\nargs = [{ type = \"string\" }, { type = \"...\", required = false }]\n[string.len]\nargs = [{ type = \"string\" }]\n[string.rep]\nargs = [{ type = \"string\" }, { type = \"number\" }]\n[os.time]\nargs = [{ type = \"table\", required = false }]\n[os.clock]\nargs = []\n[_G]\nproperty = true\nwritable = \"new-fields\"\n[_VERSION]\nproperty = true\n"@
}

/// The bundled text of the newer environment, extending the base.
pub open spec fn lua52_text() -> Seq<char> {
    "base = \"lua51\"\n[getfenv]\nremoved = true\n[setfenv]\nremoved = true\n[rawlen]\nargs = [{ type = { display = \"table or string\" } }]\n[string.rep]\nargs = [{ type = \"string\" }, { type = \"number\" }, { type = \"string\", required = false }]\n[bit32.band]\nargs = [{ type = \"...\", required = false }]\n"@
}

/// The text a bundled name stands for.
pub open spec fn spec_builtin_text(name: Seq<char>) -> Option<Seq<char>> {
    if name == "lua51"@ {
        Option::Some(lua51_text())
    } else if name == "lua52"@ {
        Option::Some(lua52_text())
    } else {
        Option::None
    }
}

/// The bundled description texts, by name.
fn builtin_text(name: &String) -> (r: Option<&'static str>)
    ensures
        match r {
            Option::Some(t) => spec_builtin_text(name@) == Option::Some(t@),
            Option::None => spec_builtin_text(name@) is None,
        },
{
    if key_is(name, "lua51") {
        Option::Some(
            "[print]\nargs = [{ type = \"...\", required = false }]\n[tostring]\nargs = [{ type = \"any\" }]\n[tonumber]\nargs = [{ type = \"any\" }, { type = \"number\", required = false }]\n[getfenv]\nargs = [{ type = \"number\", required = false }]\n[setfenv]\nargs = [{ type = \"number\" }, { type = \"table\" }]\n[string.format]\nargs = [{ type = \"string\" }, { type = \"...\", required = false }]\n[string.len]\nargs = [{ type = \"string\" }]\n[string.rep]\nargs = [{ type = \"string\" }, { type = \"number\" }]\n[os.time]\nargs = [{ type = \"table\", required = false }]\n[os.clock]\nargs = []\n[_G]\nproperty = true\nwritable = \"new-fields\"\n[_VERSION]\nproperty = true\n",
        )
    } else if key_is(name, "lua52") {
        Option::Some(
            "base = \"lua51\"\n[getfenv]\nremoved = true\n[setfenv]\nremoved = true\n[rawlen]\nargs = [{ type = { display = \"table or string\" } }]\n[string.rep]\nargs = [{ type = \"string\" }, { type = \"number\" }, { type = \"string\", required = false }]\n[bit32.band]\nargs = [{ type = \"...\", required = false }]\n",
        )
    } else {
        Option::None
    }
}

/// The tree a document text parses to, if it parses and holds only
/// booleans, strings, sequences and keyed tables. The text alone decides.
pub uninterp spec fn parsed_document(text: Seq<char>) -> Option<RawValue>;

/// Relies on the toml crate's `Value` tree: the variants are told apart
/// one by one and their contents moved over; integers, floats and
/// datetimes have no place in the schema, so a tree holding one is
/// rejected as a whole.
#[verifier::external_body]
fn value_to_raw(v: &toml::Value) -> Option<RawValue> {
    match v {
        toml::Value::Boolean(b) => Option::Some(RawValue::Bool(*b)),
        toml::Value::String(s) => Option::Some(RawValue::Str(s.clone())),
        toml::Value::Array(xs) => xs.iter().map(value_to_raw).collect::<Option<Vec<RawValue>>>(
        ).map(RawValue::Arr),
        toml::Value::Table(tb) => tb.iter().map(
            |kv: (&std::string::String, &toml::Value)| value_to_raw(kv.1).map(|r| (kv.0.clone(), r)),
        ).collect::<Option<Vec<(String, RawValue)>>>().map(RawValue::Tbl),
        _ => Option::None,
    }
}

/// The declared shape of the toml crate's generic value.
#[verifier::external_type_specification]
#[verifier::external_body]
pub struct ExTomlValue(toml::Value);

/// Relies on `toml::from_str`: TOML text parses deterministically into a
/// `toml::Value` tree, so the result is a function of the text alone;
/// `value_to_raw` then moves that tree over variant by variant.
#[verifier::external_body]
fn parse_document(text: &str) -> (r: Option<RawValue>)
    ensures
        r == parsed_document(text@),
{
    match toml::from_str::<toml::Value>(text) {
        Result::Ok(v) => value_to_raw(&v),
        Result::Err(_) => Option::None,
    }
}

/// Resolving a bundled name: a name already on the resolution stack is a
/// cycle; an unknown name is missing; otherwise its text is loaded with
/// the name pushed onto the stack.
pub open spec fn spec_resolve_name(
    name: Seq<char>,
    visiting: Seq<Seq<char>>,
    fuel: nat,
) -> Result<StandardLibraryModel, LibraryErrorModel>
    decreases fuel, 1int,
{
    if visiting.contains(name) {
        Result::Err(LibraryErrorModel::CyclicBase(name))
    } else {
        match spec_builtin_text(name) {
            Option::None => Result::Err(LibraryErrorModel::UnknownBase(name)),
            Option::Some(text) => spec_load(text, visiting.push(name), fuel),
        }
    }
}

/// Loading a description text: parse, validate the schema, then fold an
/// optional base in by resolving it first and merging over its globals.
pub open spec fn spec_load(text: Seq<char>, visiting: Seq<Seq<char>>, fuel: nat) -> Result<
    StandardLibraryModel,
    LibraryErrorModel,
>
    decreases fuel, 0int,
{
    match parsed_document(text) {
        Option::None => Result::Err(LibraryErrorModel::Parse),
        Option::Some(raw) => match spec_library_from_raw(raw) {
            Result::Err(e) => Result::Err(LibraryErrorModel::Schema(e)),
            Result::Ok(parts) => match parts.0 {
                Option::None => Result::Ok(
                    StandardLibraryModel { base: Option::None, globals: strip_map(parts.1) },
                ),
                Option::Some(bname) => if fuel == 0 {
                    Result::Err(LibraryErrorModel::CyclicBase(bname))
                } else {
                    match spec_resolve_name(bname, visiting, (fuel - 1) as nat) {
                        Result::Err(e) => Result::Err(e),
                        Result::Ok(base_lib) => Result::Ok(
                            StandardLibraryModel {
                                base: Option::Some(bname),
                                globals: merge_globals(base_lib.globals, parts.1),
                            },
                        ),
                    }
                },
            },
        },
    }
}

/// Whether a name is on the resolution stack.
#[verifier::loop_isolation(false)]
pub(crate) fn names_contain(visiting: &Vec<String>, name: &String) -> (b: bool)
    ensures
        b == path_view(visiting@).contains(name@),
{
    let n = visiting.len();
    let mut i: usize = 0;
    while i < n
        invariant
            i <= n,
            forall|j: int| 0 <= j < i ==> (#[trigger] visiting@[j])@ != name@,
        decreases n - i,
    {
        if visiting[i] == *name {
            proof {
                assert(path_view(visiting@)[i as int] == name@);
            }
            return true;
        }
        i = i + 1;
    }
    proof {
        assert forall|j: int| 0 <= j < path_view(visiting@).len() implies path_view(visiting@)[j]
            != name@ by {
            assert(visiting@[j]@ != name@);
        }
    }
    false
}

/// A copy of the resolution stack with one more name on it.
#[verifier::loop_isolation(false)]
fn push_name(visiting: &Vec<String>, name: &String) -> (r: Vec<String>)
    ensures
        path_view(r@) == path_view(visiting@).push(name@),
{
    let n = visiting.len();
    let mut copied: Vec<String> = Vec::new();
    let mut i: usize = 0;
    while i < n
        invariant
            i <= n,
            copied@.len() == i,
            forall|j: int| 0 <= j < i ==> (#[trigger] copied@[j])@ == visiting@[j]@,
        decreases n - i,
    {
        copied.push(visiting[i].clone());
        i = i + 1;
    }
    copied.push(name.clone());
    proof {
        assert(path_view(copied@) =~= path_view(visiting@).push(name@));
    }
    copied
}

/// Resolve a bundled name against the resolution stack.
fn resolve_name(name: &String, visiting: &Vec<String>, fuel: usize) -> (r: Result<
    StandardLibrary,
    LibraryError,
>)
    ensures
        match r {
            Result::Ok(lib) => spec_resolve_name(name@, path_view(visiting@), fuel as nat)
                == Result::Ok::<StandardLibraryModel, LibraryErrorModel>(lib@) && lib.wf(),
            Result::Err(e) => spec_resolve_name(name@, path_view(visiting@), fuel as nat)
                == Result::Err::<StandardLibraryModel, LibraryErrorModel>(e@),
        },
    decreases fuel, 1int,
{
    if names_contain(visiting, name) {
        Result::Err(LibraryError::CyclicBase(name.clone()))
    } else {
        match builtin_text(name) {
            Option::None => Result::Err(LibraryError::UnknownBase(name.clone())),
            Option::Some(text) => {
                let extended = push_name(visiting, name);
                load_text(text, &extended, fuel)
            },
        }
    }
}

/// Load a description text against the resolution stack.
fn load_text(text: &str, visiting: &Vec<String>, fuel: usize) -> (r: Result<
    StandardLibrary,
    LibraryError,
>)
    ensures
        match r {
            Result::Ok(lib) => spec_load(text@, path_view(visiting@), fuel as nat)
                == Result::Ok::<StandardLibraryModel, LibraryErrorModel>(lib@) && lib.wf(),
            Result::Err(e) => spec_load(text@, path_view(visiting@), fuel as nat)
                == Result::Err::<StandardLibraryModel, LibraryErrorModel>(e@),
        },
    decreases fuel, 0int,
{
    match parse_document(text) {
        Option::None => Result::Err(LibraryError::Parse),
        Option::Some(raw) => match library_from_raw(&raw) {
            Result::Err(e) => Result::Err(LibraryError::Schema(e)),
            Result::Ok(parts) => {
                let (base_opt, globals) = parts;
                match base_opt {
                    Option::None => {
                        let empty_seed = FieldMap::new_empty();
                        proof {
                            lemma_map_of_finite(globals.0@, 0);
                            lemma_strip_is_merge_empty(globals@);
                        }
                        Result::Ok(
                            StandardLibrary {
                                base: Option::None,
                                globals: merge_maps(empty_seed, &globals),
                            },
                        )
                    },
                    Option::Some(bname) => if fuel == 0 {
                        Result::Err(LibraryError::CyclicBase(bname))
                    } else {
                        match resolve_name(&bname, visiting, fuel - 1) {
                            Result::Err(e) => Result::Err(e),
                            Result::Ok(base_lib) => Result::Ok(
                                StandardLibrary {
                                    base: Option::Some(bname),
                                    globals: merge_maps(base_lib.globals, &globals),
                                },
                            ),
                        }
                    },
                }
            },
        },
    }
}

/// What resolving a bundled name yields: nothing for an unknown name,
/// nothing if its description cannot be produced, the flattened
/// description otherwise.
pub open spec fn spec_from_name(name: Seq<char>) -> Option<StandardLibraryModel> {
    if spec_builtin_text(name) is None {
        Option::None
    } else {
        match spec_resolve_name(name, Seq::empty(), BASE_CHAIN_LIMIT as nat) {
            Result::Ok(m) => Option::Some(m),
            Result::Err(_) => Option::None,
        }
    }
}

impl StandardLibrary {
    /// The bundled description a name stands for, fully inflated, or
    /// nothing for an unknown name.
    pub fn from_name(name: &str) -> (r: Option<StandardLibrary>)
        ensures
            match r {
                Option::Some(lib) => spec_from_name(name@) == Option::Some(lib@) && lib.wf()
                    && removed_free_map(lib@.globals),
                Option::None => spec_from_name(name@) is None,
            },
    {
        let owned = name.to_owned();
        match builtin_text(&owned) {
            Option::None => Option::None,
            Option::Some(_) => {
                let visiting: Vec<String> = Vec::new();
                proof {
                    assert(path_view(visiting@) =~= Seq::<Seq<char>>::empty());
                }
                proof {
                    lemma_resolve_removed_free(owned@, Seq::empty(), BASE_CHAIN_LIMIT as nat);
                }
                match resolve_name(&owned, &visiting, BASE_CHAIN_LIMIT) {
                    Result::Ok(lib) => Option::Some(lib),
                    Result::Err(_) => Option::None,
                }
            },
        }
    }

    /// A description from externally supplied text: schema and base
    /// problems come back as recoverable errors.
    pub fn from_source(text: &str) -> (r: Result<StandardLibrary, LibraryError>)
        ensures
            match r {
                Result::Ok(lib) => spec_load(text@, Seq::empty(), BASE_CHAIN_LIMIT as nat)
                    == Result::Ok::<StandardLibraryModel, LibraryErrorModel>(lib@) && lib.wf()
                    && removed_free_map(lib@.globals),
                Result::Err(e) => spec_load(text@, Seq::empty(), BASE_CHAIN_LIMIT as nat)
                    == Result::Err::<StandardLibraryModel, LibraryErrorModel>(e@),
            },
    {
        let visiting: Vec<String> = Vec::new();
        proof {
            assert(path_view(visiting@) =~= Seq::<Seq<char>>::empty());
            lemma_load_removed_free(text@, Seq::empty(), BASE_CHAIN_LIMIT as nat);
        }
        load_text(text, &visiting, BASE_CHAIN_LIMIT)
    }

    /// Fold this description's base, if it names one, into the globals:
    /// the base resolves through the registry and the own globals merge
    /// over its. The base name itself is kept.
    pub fn inflate(&mut self) -> (r: Result<(), LibraryError>)
        requires
            old(self).wf(),
        ensures
            final(self).wf(),
            match r {
                Result::Ok(_) => spec_inflate(*old(self)) == Result::Ok::<
                    StandardLibraryModel,
                    LibraryErrorModel,
                >(final(self)@) && removed_free_map(final(self)@.globals),
                Result::Err(e) => spec_inflate(*old(self)) == Result::Err::<
                    StandardLibraryModel,
                    LibraryErrorModel,
                >(e@) && final(self)@ == old(self)@,
            },
    {
        let base_name = match &self.base {
            Option::None => {
                let empty_seed = FieldMap::new_empty();
                let own = self.globals.clone();
                proof {
                    lemma_map_of_finite(own.0@, 0);
                    lemma_strip_is_merge_empty(own@);
                    lemma_strip_map_free(own@);
                }
                self.globals = merge_maps(empty_seed, &own);
                return Result::Ok(());
            },
            Option::Some(b) => b.clone(),
        };
        let visiting: Vec<String> = Vec::new();
        proof {
            assert(path_view(visiting@) =~= Seq::<Seq<char>>::empty());
        }
        match resolve_name(&base_name, &visiting, BASE_CHAIN_LIMIT) {
            Result::Err(e) => Result::Err(e),
            Result::Ok(base_lib) => {
                proof {
                    lemma_resolve_removed_free(
                        base_name@,
                        Seq::empty(),
                        BASE_CHAIN_LIMIT as nat,
                    );
                    lemma_merge_removed_free(base_lib.globals@, old(self).globals@);
                }
                let own = self.globals.clone();
                self.globals = merge_maps(base_lib.globals, &own);
                Result::Ok(())
            },
        }
    }
}

/// What `inflate` computes on the model: without a base, the own globals
/// with their sentinels consumed; with one, the base's flattened globals
/// seed the merge.
pub open spec fn spec_inflate(lib: StandardLibrary) -> Result<
    StandardLibraryModel,
    LibraryErrorModel,
> {
    match lib@.base {
        Option::None => Result::Ok(
            StandardLibraryModel { base: Option::None, globals: strip_map(lib@.globals) },
        ),
        Option::Some(bname) => match spec_resolve_name(
            bname,
            Seq::empty(),
            BASE_CHAIN_LIMIT as nat,
        ) {
            Result::Err(e) => Result::Err(e),
            Result::Ok(base_lib) => Result::Ok(
                StandardLibraryModel {
                    base: lib@.base,
                    globals: merge_globals(base_lib.globals, lib@.globals),
                },
            ),
        },
    }
}

/// A successfully loaded description holds no `Removed` sentinel at any
/// depth: the sentinel is consumed during merging.
pub proof fn lemma_load_removed_free(text: Seq<char>, visiting: Seq<Seq<char>>, fuel: nat)
    ensures
        spec_load(text, visiting, fuel) matches Result::Ok(lib) ==> removed_free_map(lib.globals),
    decreases fuel, 0int,
{
    match parsed_document(text) {
        Option::None => {},
        Option::Some(raw) => match spec_library_from_raw(raw) {
            Result::Err(_) => {},
            Result::Ok(parts) => match parts.0 {
                Option::None => {
                    lemma_strip_map_free(parts.1);
                },
                Option::Some(bname) => {
                    if fuel > 0 {
                        lemma_resolve_removed_free(bname, visiting, (fuel - 1) as nat);
                        match spec_resolve_name(bname, visiting, (fuel - 1) as nat) {
                            Result::Err(_) => {},
                            Result::Ok(base_lib) => {
                                lemma_merge_removed_free(base_lib.globals, parts.1);
                            },
                        }
                    }
                },
            },
        },
    }
}

/// A successfully resolved bundled description holds no `Removed`
/// sentinel at any depth.
pub proof fn lemma_resolve_removed_free(name: Seq<char>, visiting: Seq<Seq<char>>, fuel: nat)
    ensures
        spec_resolve_name(name, visiting, fuel) matches Result::Ok(lib) ==> removed_free_map(
            lib.globals,
        ),
    decreases fuel, 1int,
{
    if !visiting.contains(name) {
        match spec_builtin_text(name) {
            Option::None => {},
            Option::Some(text) => {
                lemma_load_removed_free(text, visiting.push(name), fuel);
            },
        }
    }
}

impl Clone for StandardLibrary {
    /// A deep copy: the same model and the same well-formedness.
    fn clone(&self) -> (r: Self)
        ensures
            r@ == self@,
            r.wf() <==> self.wf(),
    {
        StandardLibrary {
            base: match &self.base {
                Option::Some(b) => Option::Some(b.clone()),
                Option::None => Option::None,
            },
            globals: self.globals.clone(),
        }
    }
}

impl Default for StandardLibrary {
    /// A description with no base and no globals.
    fn default() -> (r: Self)
        ensures
            r@ == (StandardLibraryModel {
                base: Option::None,
                globals: Map::<Seq<char>, FieldModel>::empty(),
            }),
            r.wf(),
    {
        StandardLibrary { base: Option::None, globals: FieldMap::new_empty() }
    }
}

} // verus!
