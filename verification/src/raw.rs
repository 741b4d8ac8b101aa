//! Interpreting raw structured values as schema fields: a raw definition
//! arrives as a tree of booleans, strings, sequences and keyed tables, and
//! is validated into a `Field`, an `Argument`, or a whole library's globals.
use vstd::prelude::*;

use crate::field::{
    Argument, ArgumentModel, ArgumentType, ArgumentTypeModel, Field, FieldMap, FieldModel,
    Required, RequiredModel, Writable,
};
use vstd::string::StringExecFns;

verus! {

broadcast use {
    vstd::map::group_map_axioms,
    vstd::set::group_set_axioms,
    vstd::std_specs::vec::group_vec_axioms,
};

/// A generic structured value, as a deserializer hands it over.
#[derive(Debug, PartialEq, Eq)]
pub enum RawValue {
    Bool(bool),
    Str(String),
    Arr(Vec<RawValue>),
    Tbl(Vec<(String, RawValue)>),
}

/// Why a raw definition was rejected.
#[derive(Debug, PartialEq, Eq)]
pub enum SchemaError {
    /// No marker and no children: the kind of the field cannot be determined.
    UndeterminableKind,
    /// Marked as a property and as a function at once.
    PropertyAndFunction,
    /// An argument type token outside the fixed vocabulary; carries the token.
    UnknownArgumentType(String),
    /// A keyed value standing for an argument type without a `display` entry.
    DisplayMissing,
    /// A value of a shape the schema does not accept at that place.
    WrongShape,
    /// The same name defined twice at one level; carries the name.
    DuplicateKey(String),
}

/// Mathematical model of `SchemaError`.
pub enum SchemaErrorModel {
    UndeterminableKind,
    PropertyAndFunction,
    UnknownArgumentType(Seq<char>),
    DisplayMissing,
    WrongShape,
    DuplicateKey(Seq<char>),
}

impl View for SchemaError {
    type V = SchemaErrorModel;

    open spec fn view(&self) -> SchemaErrorModel {
        match self {
            SchemaError::UndeterminableKind => SchemaErrorModel::UndeterminableKind,
            SchemaError::PropertyAndFunction => SchemaErrorModel::PropertyAndFunction,
            SchemaError::UnknownArgumentType(s) => SchemaErrorModel::UnknownArgumentType(s@),
            SchemaError::DisplayMissing => SchemaErrorModel::DisplayMissing,
            SchemaError::WrongShape => SchemaErrorModel::WrongShape,
            SchemaError::DuplicateKey(s) => SchemaErrorModel::DuplicateKey(s@),
        }
    }
}

/// The first entry with key `k`, from index `i` on.
pub open spec fn find_entry_from(
    s: Seq<(String, RawValue)>,
    k: Seq<char>,
    i: int,
) -> Option<RawValue>
    decreases s.len() - i,
{
    if i < 0 || i >= s.len() {
        Option::None
    } else if s[i].0@ == k {
        Option::Some(s[i].1)
    } else {
        find_entry_from(s, k, i + 1)
    }
}

/// A boolean marker: absent means false; any non-boolean value is rejected.
pub open spec fn spec_flag(s: Seq<(String, RawValue)>, name: Seq<char>) -> Result<
    bool,
    SchemaErrorModel,
> {
    match find_entry_from(s, name, 0) {
        Option::None => Result::Ok(false),
        Option::Some(RawValue::Bool(b)) => Result::Ok(b),
        Option::Some(_) => Result::Err(SchemaErrorModel::WrongShape),
    }
}

/// The writability vocabulary, in its kebab-cased spelling.
pub open spec fn spec_writable_name(ss: Seq<char>) -> Option<Writable> {
    if ss == "new-fields"@ {
        Option::Some(Writable::NewFields)
    } else if ss == "overridden"@ {
        Option::Some(Writable::Overridden)
    } else if ss == "full"@ {
        Option::Some(Writable::Full)
    } else {
        Option::None
    }
}

/// The optional `writable` marker of a raw field definition.
pub open spec fn spec_writable(s: Seq<(String, RawValue)>) -> Result<
    Option<Writable>,
    SchemaErrorModel,
> {
    match find_entry_from(s, "writable"@, 0) {
        Option::None => Result::Ok(Option::None),
        Option::Some(RawValue::Str(w)) => match spec_writable_name(w@) {
            Option::Some(x) => Result::Ok(Option::Some(x)),
            Option::None => Result::Err(SchemaErrorModel::WrongShape),
        },
        Option::Some(_) => Result::Err(SchemaErrorModel::WrongShape),
    }
}

/// A requirement marker: `true` and `false` say whether the argument is
/// needed, a string is a custom explanatory message.
pub open spec fn spec_required_from_raw(v: RawValue) -> Result<RequiredModel, SchemaErrorModel> {
    match v {
        RawValue::Bool(b) => if b {
            Result::Ok(RequiredModel::Required(Option::None))
        } else {
            Result::Ok(RequiredModel::NotRequired)
        },
        RawValue::Str(s) => Result::Ok(RequiredModel::Required(Option::Some(s@))),
        _ => Result::Err(SchemaErrorModel::WrongShape),
    }
}

/// The fixed vocabulary of argument type tokens.
pub open spec fn spec_type_name(ss: Seq<char>) -> Option<ArgumentTypeModel> {
    if ss == "any"@ {
        Option::Some(ArgumentTypeModel::Any)
    } else if ss == "bool"@ {
        Option::Some(ArgumentTypeModel::Bool)
    } else if ss == "function"@ {
        Option::Some(ArgumentTypeModel::Function)
    } else if ss == "nil"@ {
        Option::Some(ArgumentTypeModel::Nil)
    } else if ss == "number"@ {
        Option::Some(ArgumentTypeModel::Number)
    } else if ss == "string"@ {
        Option::Some(ArgumentTypeModel::String)
    } else if ss == "table"@ {
        Option::Some(ArgumentTypeModel::Table)
    } else if ss == "..."@ {
        Option::Some(ArgumentTypeModel::Vararg)
    } else {
        Option::None
    }
}

/// The literal strings of a constant list, in order; every item must be
/// a string.
pub open spec fn spec_constant_items(
    items: Seq<RawValue>,
    i: int,
    acc: Seq<Seq<char>>,
) -> Result<Seq<Seq<char>>, SchemaErrorModel>
    decreases items.len() - i,
{
    if i < 0 || i >= items.len() {
        Result::Ok(acc)
    } else {
        match items[i] {
            RawValue::Str(s) => spec_constant_items(items, i + 1, acc.push(s@)),
            _ => Result::Err(SchemaErrorModel::WrongShape),
        }
    }
}

/// Every value of a keyed list is a string, from index `i` on.
pub open spec fn all_values_strings_from(s: Seq<(String, RawValue)>, i: int) -> bool
    decreases s.len() - i,
{
    i < 0 || i >= s.len() || (s[i].1 is Str && all_values_strings_from(s, i + 1))
}

/// When every value is a string, each one is.
proof fn lemma_all_strings_pointwise(s: Seq<(String, RawValue)>, i: int, j: int)
    requires
        0 <= i <= j < s.len(),
        all_values_strings_from(s, i),
    ensures
        s[j].1 is Str,
    decreases j - i,
{
    if i < j {
        lemma_all_strings_pointwise(s, i + 1, j);
    }
}

/// The value of the first `display` entry, from index `i` on.
pub open spec fn first_display_from(s: Seq<(String, RawValue)>, i: int) -> Option<Seq<char>>
    decreases s.len() - i,
{
    if i < 0 || i >= s.len() {
        Option::None
    } else if s[i].0@ == "display"@ {
        match s[i].1 {
            RawValue::Str(d) => Option::Some(d@),
            _ => Option::None,
        }
    } else {
        first_display_from(s, i + 1)
    }
}

/// An argument type from a keyed value: all values must be strings and a
/// `display` entry must be present.
pub open spec fn spec_display(s: Seq<(String, RawValue)>) -> Result<
    ArgumentTypeModel,
    SchemaErrorModel,
> {
    if !all_values_strings_from(s, 0) {
        Result::Err(SchemaErrorModel::WrongShape)
    } else {
        match first_display_from(s, 0) {
            Option::Some(d) => Result::Ok(ArgumentTypeModel::Display(d)),
            Option::None => Result::Err(SchemaErrorModel::DisplayMissing),
        }
    }
}

/// An argument type, by the shape of the raw value: a string is matched
/// against the fixed vocabulary, a sequence of strings is a constant list,
/// a keyed value must carry a `display` label.
pub open spec fn spec_argument_type_from_raw(v: RawValue) -> Result<
    ArgumentTypeModel,
    SchemaErrorModel,
> {
    match v {
        RawValue::Str(s) => match spec_type_name(s@) {
            Option::Some(t) => Result::Ok(t),
            Option::None => Result::Err(SchemaErrorModel::UnknownArgumentType(s@)),
        },
        RawValue::Arr(items) => match spec_constant_items(items@, 0, Seq::empty()) {
            Result::Ok(cs) => Result::Ok(ArgumentTypeModel::Constant(cs)),
            Result::Err(e) => Result::Err(e),
        },
        RawValue::Tbl(entries) => spec_display(entries@),
        RawValue::Bool(_) => Result::Err(SchemaErrorModel::WrongShape),
    }
}

/// One argument: an optional `required` marker (required by default) and
/// a mandatory `type`.
pub open spec fn spec_argument_from_raw(v: RawValue) -> Result<ArgumentModel, SchemaErrorModel> {
    match v {
        RawValue::Tbl(entries) => {
            let req = match find_entry_from(entries@, "required"@, 0) {
                Option::None => Result::Ok(RequiredModel::Required(Option::None)),
                Option::Some(rv) => spec_required_from_raw(rv),
            };
            match req {
                Result::Err(e) => Result::Err(e),
                Result::Ok(r) => match find_entry_from(entries@, "type"@, 0) {
                    Option::None => Result::Err(SchemaErrorModel::WrongShape),
                    Option::Some(tv) => match spec_argument_type_from_raw(tv) {
                        Result::Err(e) => Result::Err(e),
                        Result::Ok(t) => Result::Ok(
                            ArgumentModel { required: r, argument_type: t },
                        ),
                    },
                },
            }
        },
        _ => Result::Err(SchemaErrorModel::WrongShape),
    }
}

/// The arguments of a callable, in order.
pub open spec fn spec_arguments_from(
    items: Seq<RawValue>,
    i: int,
    acc: Seq<ArgumentModel>,
) -> Result<Seq<ArgumentModel>, SchemaErrorModel>
    decreases items.len() - i,
{
    if i < 0 || i >= items.len() {
        Result::Ok(acc)
    } else {
        match spec_argument_from_raw(items[i]) {
            Result::Err(e) => Result::Err(e),
            Result::Ok(a) => spec_arguments_from(items, i + 1, acc.push(a)),
        }
    }
}

/// The optional `args` list of a raw field definition.
pub open spec fn spec_args_opt(s: Seq<(String, RawValue)>) -> Result<
    Option<Seq<ArgumentModel>>,
    SchemaErrorModel,
> {
    match find_entry_from(s, "args"@, 0) {
        Option::None => Result::Ok(Option::None),
        Option::Some(RawValue::Arr(items)) => match spec_arguments_from(items@, 0, Seq::empty()) {
            Result::Ok(a) => Result::Ok(Option::Some(a)),
            Result::Err(e) => Result::Err(e),
        },
        Option::Some(_) => Result::Err(SchemaErrorModel::WrongShape),
    }
}

/// The keys of a raw field definition that are markers, not child names.
pub open spec fn is_marker_key(k: Seq<char>) -> bool {
    k == "property"@ || k == "method"@ || k == "removed"@ || k == "writable"@ || k == "args"@
}

/// The children of a raw field definition: every key that is not a marker
/// names a nested field; a name may not be defined twice.
pub open spec fn spec_children_from(
    s: Seq<(String, RawValue)>,
    i: int,
    acc: Map<Seq<char>, FieldModel>,
) -> Result<Map<Seq<char>, FieldModel>, SchemaErrorModel>
    decreases s, s.len() - i,
{
    if i < 0 || i >= s.len() {
        Result::Ok(acc)
    } else if is_marker_key(s[i].0@) {
        spec_children_from(s, i + 1, acc)
    } else if acc.dom().contains(s[i].0@) {
        Result::Err(SchemaErrorModel::DuplicateKey(s[i].0@))
    } else {
        match spec_field_from_raw(s[i].1) {
            Result::Err(e) => Result::Err(e),
            Result::Ok(f) => spec_children_from(s, i + 1, acc.insert(s[i].0@, f)),
        }
    }
}

/// A whole field from a raw definition, after the rules of the schema:
/// a `removed` marker wins; a property marker and a function marker
/// together are ambiguous; no marker and no children is undeterminable;
/// otherwise the markers decide among property, function and table.
pub open spec fn spec_field_from_raw(v: RawValue) -> Result<FieldModel, SchemaErrorModel>
    decreases v, 0int,
{
    match v {
        RawValue::Tbl(entries) => match spec_flag(entries@, "removed"@) {
            Result::Err(e) => Result::Err(e),
            Result::Ok(removed) => match spec_flag(entries@, "property"@) {
                Result::Err(e) => Result::Err(e),
                Result::Ok(property) => match spec_flag(entries@, "method"@) {
                    Result::Err(e) => Result::Err(e),
                    Result::Ok(method) => match spec_writable(entries@) {
                        Result::Err(e) => Result::Err(e),
                        Result::Ok(writable) => match spec_args_opt(entries@) {
                            Result::Err(e) => Result::Err(e),
                            Result::Ok(args_opt) => match spec_children_from(
                                entries@,
                                0,
                                Map::empty(),
                            ) {
                                Result::Err(e) => Result::Err(e),
                                Result::Ok(children) => spec_field_kind(
                                    removed,
                                    property,
                                    method,
                                    writable,
                                    args_opt,
                                    children,
                                ),
                            },
                        },
                    },
                },
            },
        },
        _ => Result::Err(SchemaErrorModel::WrongShape),
    }
}

/// The kind decision of the schema, once the markers are in hand.
pub open spec fn spec_field_kind(
    removed: bool,
    property: bool,
    method: bool,
    writable: Option<Writable>,
    args_opt: Option<Seq<ArgumentModel>>,
    children: Map<Seq<char>, FieldModel>,
) -> Result<FieldModel, SchemaErrorModel> {
    if removed {
        Result::Ok(FieldModel::Removed)
    } else {
        let is_function = args_opt is Some || method;
        if !property && !is_function && children == Map::<Seq<char>, FieldModel>::empty() {
            Result::Err(SchemaErrorModel::UndeterminableKind)
        } else if property && is_function {
            Result::Err(SchemaErrorModel::PropertyAndFunction)
        } else if property {
            Result::Ok(FieldModel::Property { writable })
        } else if is_function {
            Result::Ok(
                FieldModel::Function {
                    arguments: match args_opt {
                        Option::Some(a) => a,
                        Option::None => Seq::empty(),
                    },
                    method,
                },
            )
        } else {
            Result::Ok(FieldModel::Table(children))
        }
    }
}

/// The optional `base` name of a whole library document.
pub open spec fn spec_base_name(s: Seq<(String, RawValue)>) -> Result<
    Option<Seq<char>>,
    SchemaErrorModel,
> {
    match find_entry_from(s, "base"@, 0) {
        Option::None => Result::Ok(Option::None),
        Option::Some(RawValue::Str(b)) => Result::Ok(Option::Some(b@)),
        Option::Some(_) => Result::Err(SchemaErrorModel::WrongShape),
    }
}

/// The globals of a whole library document: every key but `base` names a
/// global field.
pub open spec fn spec_globals_from(
    s: Seq<(String, RawValue)>,
    i: int,
    acc: Map<Seq<char>, FieldModel>,
) -> Result<Map<Seq<char>, FieldModel>, SchemaErrorModel>
    decreases s.len() - i,
{
    if i < 0 || i >= s.len() {
        Result::Ok(acc)
    } else if s[i].0@ == "base"@ {
        spec_globals_from(s, i + 1, acc)
    } else if acc.dom().contains(s[i].0@) {
        Result::Err(SchemaErrorModel::DuplicateKey(s[i].0@))
    } else {
        match spec_field_from_raw(s[i].1) {
            Result::Err(e) => Result::Err(e),
            Result::Ok(f) => spec_globals_from(s, i + 1, acc.insert(s[i].0@, f)),
        }
    }
}

/// A whole library document: an optional `base` name, and the globals.
pub open spec fn spec_library_from_raw(v: RawValue) -> Result<
    (Option<Seq<char>>, Map<Seq<char>, FieldModel>),
    SchemaErrorModel,
> {
    match v {
        RawValue::Tbl(entries) => match spec_base_name(entries@) {
            Result::Err(e) => Result::Err(e),
            Result::Ok(base) => match spec_globals_from(entries@, 0, Map::empty()) {
                Result::Err(e) => Result::Err(e),
                Result::Ok(globals) => Result::Ok((base, globals)),
            },
        },
        _ => Result::Err(SchemaErrorModel::WrongShape),
    }
}

/// Whether `k` reads as `lit`.
pub(crate) fn key_is(k: &String, lit: &str) -> (b: bool)
    ensures
        b == (k@ == lit@),
{
    let l = String::from_str(lit);
    *k == l
}

/// The first entry named `name`, if any.
fn find_entry<'a>(s: &'a Vec<(String, RawValue)>, name: &str) -> (r: Option<&'a RawValue>)
    ensures
        match r {
            Option::Some(v) => find_entry_from(s@, name@, 0) == Option::Some(*v),
            Option::None => find_entry_from(s@, name@, 0) is None,
        },
{
    let n = s.len();
    let mut i: usize = 0;
    while i < n
        invariant
            n == s@.len(),
            i <= n,
            find_entry_from(s@, name@, 0) == find_entry_from(s@, name@, i as int),
        decreases n - i,
    {
        if key_is(&s[i].0, name) {
            return Option::Some(&s[i].1);
        }
        i = i + 1;
    }
    Option::None
}

/// A boolean marker of a raw field definition.
fn flag_value(s: &Vec<(String, RawValue)>, name: &str) -> (r: Result<bool, SchemaError>)
    ensures
        match r {
            Result::Ok(b) => spec_flag(s@, name@) == Result::Ok::<bool, SchemaErrorModel>(b),
            Result::Err(e) => spec_flag(s@, name@) == Result::Err::<bool, SchemaErrorModel>(e@),
        },
{
    match find_entry(s, name) {
        Option::None => Result::Ok(false),
        Option::Some(RawValue::Bool(b)) => Result::Ok(*b),
        Option::Some(_) => Result::Err(SchemaError::WrongShape),
    }
}

/// Interpret a raw value as a requirement marker.
pub fn required_from_raw(v: &RawValue) -> (r: Result<Required, SchemaError>)
    ensures
        match r {
            Result::Ok(q) => spec_required_from_raw(*v) == Result::Ok::<
                RequiredModel,
                SchemaErrorModel,
            >(q@),
            Result::Err(e) => spec_required_from_raw(*v) == Result::Err::<
                RequiredModel,
                SchemaErrorModel,
            >(e@),
        },
{
    match v {
        RawValue::Bool(b) => if *b {
            Result::Ok(Required::Required(Option::None))
        } else {
            Result::Ok(Required::NotRequired)
        },
        RawValue::Str(s) => Result::Ok(Required::Required(Option::Some(s.clone()))),
        _ => Result::Err(SchemaError::WrongShape),
    }
}

/// Interpret a raw value as an argument type.
#[verifier::loop_isolation(false)]
pub fn argument_type_from_raw(v: &RawValue) -> (r: Result<ArgumentType, SchemaError>)
    ensures
        match r {
            Result::Ok(t) => spec_argument_type_from_raw(*v) == Result::Ok::<
                ArgumentTypeModel,
                SchemaErrorModel,
            >(t@),
            Result::Err(e) => spec_argument_type_from_raw(*v) == Result::Err::<
                ArgumentTypeModel,
                SchemaErrorModel,
            >(e@),
        },
{
    match v {
        RawValue::Str(s) => {
            if key_is(s, "any") {
                Result::Ok(ArgumentType::Any)
            } else if key_is(s, "bool") {
                Result::Ok(ArgumentType::Bool)
            } else if key_is(s, "function") {
                Result::Ok(ArgumentType::Function)
            } else if key_is(s, "nil") {
                Result::Ok(ArgumentType::Nil)
            } else if key_is(s, "number") {
                Result::Ok(ArgumentType::Number)
            } else if key_is(s, "string") {
                Result::Ok(ArgumentType::String)
            } else if key_is(s, "table") {
                Result::Ok(ArgumentType::Table)
            } else if key_is(s, "...") {
                Result::Ok(ArgumentType::Vararg)
            } else {
                Result::Err(SchemaError::UnknownArgumentType(s.clone()))
            }
        },
        RawValue::Arr(items) => {
            let n = items.len();
            let mut constants: Vec<String> = Vec::new();
            proof {
                assert(constants@.map_values(|s: String| s@) =~= Seq::<Seq<char>>::empty());
            }
            let mut i: usize = 0;
            while i < n
                invariant
                    n == items@.len(),
                    i <= n,
                    spec_constant_items(items@, 0, Seq::empty()) == spec_constant_items(
                        items@,
                        i as int,
                        constants@.map_values(|s: String| s@),
                    ),
                decreases n - i,
            {
                match &items[i] {
                    RawValue::Str(s) => {
                        let ghost before = constants@.map_values(|s: String| s@);
                        constants.push(s.clone());
                        proof {
                            assert(constants@.map_values(|s: String| s@) =~= before.push(
                                items@[i as int]->Str_0@,
                            ));
                        }
                    },
                    _ => {
                        return Result::Err(SchemaError::WrongShape);
                    },
                }
                i = i + 1;
            }
            Result::Ok(ArgumentType::Constant(constants))
        },
        RawValue::Tbl(entries) => {
            let n = entries.len();
            let mut i: usize = 0;
            while i < n
                invariant
                    n == entries@.len(),
                    i <= n,
                    all_values_strings_from(entries@, 0) == all_values_strings_from(
                        entries@,
                        i as int,
                    ),
                decreases n - i,
            {
                match &entries[i].1 {
                    RawValue::Str(_) => {},
                    _ => {
                        proof {
                            assert(!all_values_strings_from(entries@, i as int));
                        }
                        return Result::Err(SchemaError::WrongShape);
                    },
                }
                i = i + 1;
            }
            proof {
                assert(all_values_strings_from(entries@, n as int));
            }
            let mut j: usize = 0;
            while j < n
                invariant
                    n == entries@.len(),
                    j <= n,
                    all_values_strings_from(entries@, 0),
                    first_display_from(entries@, 0) == first_display_from(entries@, j as int),
                decreases n - j,
            {
                if key_is(&entries[j].0, "display") {
                    match &entries[j].1 {
                        RawValue::Str(d) => {
                            return Result::Ok(ArgumentType::Display(d.clone()));
                        },
                        _ => {
                            proof {
                                lemma_all_strings_pointwise(entries@, 0, j as int);
                            }
                            return Result::Err(SchemaError::WrongShape);
                        },
                    }
                }
                j = j + 1;
            }
            Result::Err(SchemaError::DisplayMissing)
        },
        RawValue::Bool(_) => Result::Err(SchemaError::WrongShape),
    }
}

/// Interpret a raw value as one argument of a callable.
pub fn argument_from_raw(v: &RawValue) -> (r: Result<Argument, SchemaError>)
    ensures
        match r {
            Result::Ok(a) => spec_argument_from_raw(*v) == Result::Ok::<
                ArgumentModel,
                SchemaErrorModel,
            >(a@),
            Result::Err(e) => spec_argument_from_raw(*v) == Result::Err::<
                ArgumentModel,
                SchemaErrorModel,
            >(e@),
        },
{
    match v {
        RawValue::Tbl(entries) => {
            let required = match find_entry(entries, "required") {
                Option::None => Required::Required(Option::None),
                Option::Some(rv) => match required_from_raw(rv) {
                    Result::Ok(q) => q,
                    Result::Err(e) => {
                        return Result::Err(e);
                    },
                },
            };
            match find_entry(entries, "type") {
                Option::None => Result::Err(SchemaError::WrongShape),
                Option::Some(tv) => match argument_type_from_raw(tv) {
                    Result::Err(e) => Result::Err(e),
                    Result::Ok(t) => Result::Ok(
                        Argument { required, argument_type: t },
                    ),
                },
            }
        },
        _ => Result::Err(SchemaError::WrongShape),
    }
}

/// Interpret the items of an `args` list.
#[verifier::loop_isolation(false)]
fn arguments_from_raw(items: &Vec<RawValue>) -> (r: Result<Vec<Argument>, SchemaError>)
    ensures
        match r {
            Result::Ok(a) => spec_arguments_from(items@, 0, Seq::empty()) == Result::Ok::<
                Seq<ArgumentModel>,
                SchemaErrorModel,
            >(a@.map_values(|x: Argument| x@)),
            Result::Err(e) => spec_arguments_from(items@, 0, Seq::empty()) == Result::Err::<
                Seq<ArgumentModel>,
                SchemaErrorModel,
            >(e@),
        },
{
    let n = items.len();
    let mut collected: Vec<Argument> = Vec::new();
    proof {
        assert(collected@.map_values(|x: Argument| x@) =~= Seq::<ArgumentModel>::empty());
    }
    let mut i: usize = 0;
    while i < n
        invariant
            n == items@.len(),
            i <= n,
            spec_arguments_from(items@, 0, Seq::empty()) == spec_arguments_from(
                items@,
                i as int,
                collected@.map_values(|x: Argument| x@),
            ),
        decreases n - i,
    {
        match argument_from_raw(&items[i]) {
            Result::Err(e) => {
                return Result::Err(e);
            },
            Result::Ok(a) => {
                let ghost before = collected@.map_values(|x: Argument| x@);
                let ghost av = a@;
                collected.push(a);
                proof {
                    assert(collected@.map_values(|x: Argument| x@) =~= before.push(av));
                }
            },
        }
        i = i + 1;
    }
    Result::Ok(collected)
}

/// Interpret a raw value as a whole field definition.
#[verifier::loop_isolation(false)]
pub fn field_from_raw(v: &RawValue) -> (r: Result<Field, SchemaError>)
    ensures
        match r {
            Result::Ok(f) => spec_field_from_raw(*v) == Result::Ok::<
                FieldModel,
                SchemaErrorModel,
            >(f@) && f.wf(),
            Result::Err(e) => spec_field_from_raw(*v) == Result::Err::<
                FieldModel,
                SchemaErrorModel,
            >(e@),
        },
    decreases v,
{
    match v {
        RawValue::Tbl(entries) => {
            let removed = match flag_value(entries, "removed") {
                Result::Ok(b) => b,
                Result::Err(e) => {
                    return Result::Err(e);
                },
            };
            let property = match flag_value(entries, "property") {
                Result::Ok(b) => b,
                Result::Err(e) => {
                    return Result::Err(e);
                },
            };
            let method = match flag_value(entries, "method") {
                Result::Ok(b) => b,
                Result::Err(e) => {
                    return Result::Err(e);
                },
            };
            let writable = match find_entry(entries, "writable") {
                Option::None => Option::None,
                Option::Some(RawValue::Str(w)) => {
                    if key_is(w, "new-fields") {
                        Option::Some(Writable::NewFields)
                    } else if key_is(w, "overridden") {
                        Option::Some(Writable::Overridden)
                    } else if key_is(w, "full") {
                        Option::Some(Writable::Full)
                    } else {
                        return Result::Err(SchemaError::WrongShape);
                    }
                },
                Option::Some(_) => {
                    return Result::Err(SchemaError::WrongShape);
                },
            };
            let args_opt = match find_entry(entries, "args") {
                Option::None => Option::None,
                Option::Some(RawValue::Arr(items)) => match arguments_from_raw(items) {
                    Result::Ok(a) => Option::Some(a),
                    Result::Err(e) => {
                        return Result::Err(e);
                    },
                },
                Option::Some(_) => {
                    return Result::Err(SchemaError::WrongShape);
                },
            };
            let n = entries.len();
            let mut children = FieldMap::new_empty();
            let mut i: usize = 0;
            while i < n
                invariant
                    n == entries@.len(),
                    i <= n,
                    children.wf(),
                    spec_children_from(entries@, 0, Map::empty()) == spec_children_from(
                        entries@,
                        i as int,
                        children@,
                    ),
                decreases n - i,
            {
                let key = &entries[i].0;
                let marker = key_is(key, "property") || key_is(key, "method") || key_is(
                    key,
                    "removed",
                ) || key_is(key, "writable") || key_is(key, "args");
                if !marker {
                    if children.get(key).is_some() {
                        proof {
                            assert(spec_children_from(entries@, i as int, children@)
                                == Result::Err::<Map<Seq<char>, FieldModel>, SchemaErrorModel>(
                                SchemaErrorModel::DuplicateKey(entries@[i as int].0@),
                            ));
                        }
                        return Result::Err(SchemaError::DuplicateKey(key.clone()));
                    }
                    proof {
                        assert(decreases_to!(*v => entries@[i as int].1));
                    }
                    match field_from_raw(&entries[i].1) {
                        Result::Err(e) => {
                            return Result::Err(e);
                        },
                        Result::Ok(f) => {
                            children.insert_entry(key.clone(), f);
                        },
                    }
                }
                i = i + 1;
            }
            field_kind(removed, property, method, writable, args_opt, children)
        },
        _ => Result::Err(SchemaError::WrongShape),
    }
}

/// The kind decision of the schema, on executable values.
fn field_kind(
    removed: bool,
    property: bool,
    method: bool,
    writable: Option<Writable>,
    args_opt: Option<Vec<Argument>>,
    children: FieldMap,
) -> (r: Result<Field, SchemaError>)
    requires
        children.wf(),
    ensures
        ({
            let args_model = match args_opt {
                Option::Some(a) => Option::Some(a@.map_values(|x: Argument| x@)),
                Option::None => Option::None,
            };
            match r {
                Result::Ok(f) => spec_field_kind(removed, property, method, writable, args_model, children@)
                    == Result::Ok::<FieldModel, SchemaErrorModel>(f@) && f.wf(),
                Result::Err(e) => spec_field_kind(removed, property, method, writable, args_model, children@)
                    == Result::Err::<FieldModel, SchemaErrorModel>(e@),
            }
        }),
{
    if removed {
        Result::Ok(Field::Removed)
    } else {
        let is_function = args_opt.is_some() || method;
        let no_children = children.0.len() == 0;
        proof {
            if children.0@.len() == 0 {
                assert(children@ =~= Map::<Seq<char>, FieldModel>::empty());
            } else {
                crate::field::lemma_map_of_value(children.0@, 0, 0);
                assert(children@.dom().contains(children.0@[0].0@));
                assert(children@ != Map::<Seq<char>, FieldModel>::empty());
            }
        }
        if !property && !is_function && no_children {
            Result::Err(SchemaError::UndeterminableKind)
        } else if property && is_function {
            Result::Err(SchemaError::PropertyAndFunction)
        } else if property {
            Result::Ok(Field::Property { writable })
        } else if is_function {
            let arguments: Vec<Argument> = match args_opt {
                Option::Some(a) => a,
                Option::None => Vec::new(),
            };
            proof {
                if arguments@.len() == 0 {
                    assert(arguments@.map_values(|x: Argument| x@) =~= Seq::<
                        ArgumentModel,
                    >::empty());
                }
            }
            Result::Ok(Field::Function { arguments, method })
        } else {
            Result::Ok(Field::Table(children))
        }
    }
}

/// Interpret a raw value as a whole library document: the optional base
/// name and the raw (not yet merged) globals.
#[verifier::loop_isolation(false)]
pub fn library_from_raw(v: &RawValue) -> (r: Result<(Option<String>, FieldMap), SchemaError>)
    ensures
        match r {
            Result::Ok(p) => spec_library_from_raw(*v) matches Result::Ok(q) && q.0 == (match p.0 {
                Option::Some(b) => Option::Some(b@),
                Option::None => Option::<Seq<char>>::None,
            }) && q.1 == p.1@ && p.1.wf(),
            Result::Err(e) => spec_library_from_raw(*v) == Result::Err::<
                (Option<Seq<char>>, Map<Seq<char>, FieldModel>),
                SchemaErrorModel,
            >(e@),
        },
{
    match v {
        RawValue::Tbl(entries) => {
            let base = match find_entry(entries, "base") {
                Option::None => Option::None,
                Option::Some(RawValue::Str(b)) => Option::Some(b.clone()),
                Option::Some(_) => {
                    return Result::Err(SchemaError::WrongShape);
                },
            };
            let n = entries.len();
            let mut globals = FieldMap::new_empty();
            let mut i: usize = 0;
            while i < n
                invariant
                    n == entries@.len(),
                    i <= n,
                    globals.wf(),
                    spec_globals_from(entries@, 0, Map::empty()) == spec_globals_from(
                        entries@,
                        i as int,
                        globals@,
                    ),
                decreases n - i,
            {
                let key = &entries[i].0;
                if !key_is(key, "base") {
                    if globals.get(key).is_some() {
                        proof {
                            assert(spec_globals_from(entries@, i as int, globals@)
                                == Result::Err::<Map<Seq<char>, FieldModel>, SchemaErrorModel>(
                                SchemaErrorModel::DuplicateKey(entries@[i as int].0@),
                            ));
                        }
                        return Result::Err(SchemaError::DuplicateKey(key.clone()));
                    }
                    match field_from_raw(&entries[i].1) {
                        Result::Err(e) => {
                            return Result::Err(e);
                        },
                        Result::Ok(f) => {
                            globals.insert_entry(key.clone(), f);
                        },
                    }
                }
                i = i + 1;
            }
            Result::Ok((base, globals))
        },
        _ => Result::Err(SchemaError::WrongShape),
    }
}

} // verus!
