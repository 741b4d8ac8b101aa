//! The field schema: kinds of globals, argument descriptors, and the
//! name-to-field maps that make up a standard library's tree of globals.
use vstd::prelude::*;
use vstd::string::StringExecFns;

verus! {

broadcast use {vstd::map::group_map_axioms, vstd::set::group_set_axioms};

/// Policy for how a property may be reassigned or extended.
#[derive(Clone, Copy, Debug, PartialEq, Eq, Structural)]
pub enum Writable {
    /// New sub-fields can be added and set, but the name itself cannot be rebound.
    NewFields,
    /// The name can be rebound, but no new sub-fields can be added.
    Overridden,
    /// Both: sub-fields can be added and the name can be rebound.
    Full,
}

/// Whether an argument must be supplied, with an optional explanatory message.
#[derive(Debug, PartialEq, Eq)]
pub enum Required {
    NotRequired,
    Required(Option<String>),
}

/// Mathematical model of `Required`.
pub enum RequiredModel {
    NotRequired,
    Required(Option<Seq<char>>),
}

impl View for Required {
    type V = RequiredModel;

    open spec fn view(&self) -> RequiredModel {
        match self {
            Required::NotRequired => RequiredModel::NotRequired,
            Required::Required(m) => RequiredModel::Required(
                match m {
                    Option::Some(s) => Option::Some(s@),
                    Option::None => Option::None,
                },
            ),
        }
    }
}

impl Default for Required {
    /// An argument with no explicit requirement marker is required.
    fn default() -> (r: Self)
        ensures
            r@ == (RequiredModel::Required(Option::<Seq<char>>::None)),
    {
        Required::Required(Option::None)
    }
}

/// The type vocabulary of one function argument.
#[derive(Debug, PartialEq, Eq)]
pub enum ArgumentType {
    Any,
    Bool,
    /// One of a fixed list of literal strings, in the order they were given.
    Constant(Vec<String>),
    /// A custom human-readable label.
    Display(String),
    Function,
    Nil,
    Number,
    String,
    Table,
    Vararg,
}

/// Mathematical model of `ArgumentType`.
pub enum ArgumentTypeModel {
    Any,
    Bool,
    Constant(Seq<Seq<char>>),
    Display(Seq<char>),
    Function,
    Nil,
    Number,
    String,
    Table,
    Vararg,
}

impl View for ArgumentType {
    type V = ArgumentTypeModel;

    open spec fn view(&self) -> ArgumentTypeModel {
        match self {
            ArgumentType::Any => ArgumentTypeModel::Any,
            ArgumentType::Bool => ArgumentTypeModel::Bool,
            ArgumentType::Constant(cs) => ArgumentTypeModel::Constant(
                cs@.map_values(|s: String| s@),
            ),
            ArgumentType::Display(d) => ArgumentTypeModel::Display(d@),
            ArgumentType::Function => ArgumentTypeModel::Function,
            ArgumentType::Nil => ArgumentTypeModel::Nil,
            ArgumentType::Number => ArgumentTypeModel::Number,
            ArgumentType::String => ArgumentTypeModel::String,
            ArgumentType::Table => ArgumentTypeModel::Table,
            ArgumentType::Vararg => ArgumentTypeModel::Vararg,
        }
    }
}

/// One argument of a callable global.
#[derive(Debug, PartialEq, Eq)]
pub struct Argument {
    pub required: Required,
    pub argument_type: ArgumentType,
}

/// Mathematical model of `Argument`.
pub struct ArgumentModel {
    pub required: RequiredModel,
    pub argument_type: ArgumentTypeModel,
}

impl View for Argument {
    type V = ArgumentModel;

    open spec fn view(&self) -> ArgumentModel {
        ArgumentModel { required: self.required@, argument_type: self.argument_type@ }
    }
}

/// One global or nested member of a standard library.
#[derive(Debug, PartialEq, Eq)]
pub enum Field {
    /// A callable; `method` marks an implicit-self calling convention.
    Function { arguments: Vec<Argument>, method: bool },
    /// A plain value; an absent `writable` means read-only.
    Property { writable: Option<Writable> },
    /// A namespace, itself queryable by further path segments.
    Table(FieldMap),
    /// Sentinel deleting a name inherited from a base; never present
    /// in a finalized description.
    Removed,
}

/// A mapping from member names to fields, kept as an association list
/// whose keys are unique.
#[derive(Debug, PartialEq, Eq)]
pub struct FieldMap(pub Vec<(String, Field)>);

/// Mathematical model of `Field`: tables become finite maps.
pub enum FieldModel {
    Function { arguments: Seq<ArgumentModel>, method: bool },
    Property { writable: Option<Writable> },
    Table(Map<Seq<char>, FieldModel>),
    Removed,
}

impl View for Field {
    type V = FieldModel;

    open spec fn view(&self) -> FieldModel
        decreases self, 0int,
    {
        match self {
            Field::Function { arguments, method } => FieldModel::Function {
                arguments: arguments@.map_values(|a: Argument| a@),
                method: *method,
            },
            Field::Property { writable } => FieldModel::Property { writable: *writable },
            Field::Table(children) => FieldModel::Table(map_of_from(children.0@, 0)),
            Field::Removed => FieldModel::Removed,
        }
    }
}

/// The map described by the entries of an association list from index
/// `i` on; an earlier entry wins over a later one with the same key.
pub open spec fn map_of_from(s: Seq<(String, Field)>, i: int) -> Map<Seq<char>, FieldModel>
    decreases s, s.len() - i,
{
    if i < 0 || i >= s.len() {
        Map::empty()
    } else {
        map_of_from(s, i + 1).insert(s[i].0@, s[i].1@)
    }
}

impl View for FieldMap {
    type V = Map<Seq<char>, FieldModel>;

    open spec fn view(&self) -> Map<Seq<char>, FieldModel> {
        map_of_from(self.0@, 0)
    }
}

impl Field {
    /// A field is well formed when every table below it has unique keys.
    pub open spec fn wf(self) -> bool
        decreases self, 0int,
    {
        match self {
            Field::Table(children) => entries_wf_from(children.0@, 0),
            _ => true,
        }
    }
}

/// Unique keys among the entries of an association list from index `i` on,
/// with every entry's field well formed.
pub open spec fn entries_wf_from(s: Seq<(String, Field)>, i: int) -> bool
    decreases s, s.len() - i,
{
    i < 0 || i >= s.len() || {
        &&& (forall|j: int| i < j < s.len() ==> s[i].0@ != #[trigger] s[j].0@)
        &&& s[i].1.wf()
        &&& entries_wf_from(s, i + 1)
    }
}

impl FieldMap {
    /// Keys are unique at this level and every field below is well formed.
    pub open spec fn wf(self) -> bool {
        entries_wf_from(self.0@, 0)
    }
}

/// Well-formedness is pointwise: each entry's field is well formed and
/// no two entries share a key.
pub proof fn lemma_entries_wf_pointwise(s: Seq<(String, Field)>, i: int)
    requires
        0 <= i <= s.len(),
        entries_wf_from(s, i),
    ensures
        forall|j: int| i <= j < s.len() ==> (#[trigger] s[j].1).wf(),
        forall|j1: int, j2: int|
            i <= j1 < j2 < s.len() ==> (#[trigger] s[j1].0)@ != (#[trigger] s[j2].0)@,
    decreases s.len() - i,
{
    if i < s.len() {
        lemma_entries_wf_pointwise(s, i + 1);
    }
}

/// The converse: pointwise uniqueness and well-formedness give `entries_wf_from`.
pub proof fn lemma_entries_wf_intro(s: Seq<(String, Field)>, i: int)
    requires
        0 <= i <= s.len(),
        forall|j: int| i <= j < s.len() ==> (#[trigger] s[j].1).wf(),
        forall|j1: int, j2: int|
            i <= j1 < j2 < s.len() ==> (#[trigger] s[j1].0)@ != (#[trigger] s[j2].0)@,
    ensures
        entries_wf_from(s, i),
    decreases s.len() - i,
{
    if i < s.len() {
        lemma_entries_wf_intro(s, i + 1);
    }
}

/// A key is in the map of an association list exactly when some entry has it.
pub proof fn lemma_map_of_contains(s: Seq<(String, Field)>, i: int, k: Seq<char>)
    requires
        0 <= i <= s.len(),
    ensures
        map_of_from(s, i).dom().contains(k) <==> exists|j: int|
            i <= j < s.len() && (#[trigger] s[j].0)@ == k,
    decreases s.len() - i,
{
    if i < s.len() {
        lemma_map_of_contains(s, i + 1, k);
        assert(map_of_from(s, i) == map_of_from(s, i + 1).insert(s[i].0@, s[i].1@));
        if s[i].0@ == k {
            assert(i <= i < s.len() && (s[i].0)@ == k);
        } else {
            assert(map_of_from(s, i).dom().contains(k) <==> map_of_from(s, i + 1).dom().contains(
                k,
            ));
            assert forall|j: int| i <= j < s.len() && (#[trigger] s[j].0)@ == k implies i + 1 <= j
                < s.len() && (s[j].0)@ == k by {}
        }
    }
}

/// With unique keys, the map of an association list holds each entry's field.
pub proof fn lemma_map_of_value(s: Seq<(String, Field)>, i: int, j: int)
    requires
        0 <= i <= j < s.len(),
        entries_wf_from(s, i),
    ensures
        map_of_from(s, i).dom().contains(s[j].0@),
        map_of_from(s, i)[s[j].0@] == s[j].1@,
    decreases j - i,
{
    assert(map_of_from(s, i) == map_of_from(s, i + 1).insert(s[i].0@, s[i].1@));
    if i < j {
        lemma_map_of_value(s, i + 1, j);
        assert(s[i].0@ != s[j].0@);
    }
}

/// The map of an association list is finite.
pub proof fn lemma_map_of_finite(s: Seq<(String, Field)>, i: int)
    requires
        0 <= i <= s.len(),
    ensures
        map_of_from(s, i).dom().finite(),
    decreases s.len() - i,
{
    if i < s.len() {
        lemma_map_of_finite(s, i + 1);
        assert(map_of_from(s, i) == map_of_from(s, i + 1).insert(s[i].0@, s[i].1@));
    } else {
        assert(map_of_from(s, i) == Map::<Seq<char>, FieldModel>::empty());
    }
}

/// Entries past the removed index shift down by one.
proof fn lemma_map_of_remove_tail(s: Seq<(String, Field)>, idx: int, j: int)
    requires
        0 <= idx < s.len(),
        idx <= j <= s.len() - 1,
    ensures
        map_of_from(s.remove(idx), j) == map_of_from(s, j + 1),
    decreases s.len() - j,
{
    if j < s.len() - 1 {
        lemma_map_of_remove_tail(s, idx, j + 1);
        assert(map_of_from(s.remove(idx), j) =~= map_of_from(s, j + 1));
    } else {
        assert(map_of_from(s.remove(idx), j) =~= map_of_from(s, j + 1));
    }
}

/// Removing an entry removes exactly its key from the map.
pub proof fn lemma_map_of_remove(s: Seq<(String, Field)>, i: int, idx: int)
    requires
        0 <= i <= idx < s.len(),
        entries_wf_from(s, i),
    ensures
        map_of_from(s.remove(idx), i) =~= map_of_from(s, i).remove(s[idx].0@),
    decreases idx - i,
{
    let k = s[idx].0@;
    if i < idx {
        lemma_map_of_remove(s, i + 1, idx);
        assert(s.remove(idx)[i] == s[i]);
        assert(map_of_from(s.remove(idx), i) == map_of_from(s.remove(idx), i + 1).insert(
            s[i].0@,
            s[i].1@,
        ));
        assert(map_of_from(s, i) == map_of_from(s, i + 1).insert(s[i].0@, s[i].1@));
        assert(s[i].0@ != k);
        assert(map_of_from(s.remove(idx), i) =~= map_of_from(s, i).remove(k));
    } else {
        lemma_map_of_remove_tail(s, idx, idx);
        lemma_map_of_contains(s, idx + 1, k);
        lemma_entries_wf_pointwise(s, idx);
        assert forall|j: int| idx + 1 <= j < s.len() implies (#[trigger] s[j].0)@ != k by {}
        assert(!map_of_from(s, idx + 1).dom().contains(k));
        assert(map_of_from(s, idx) == map_of_from(s, idx + 1).insert(s[idx].0@, s[idx].1@));
        assert(map_of_from(s.remove(idx), idx) =~= map_of_from(s, idx).remove(k));
    }
}

/// Appending an entry with a fresh key inserts it into the map.
pub proof fn lemma_map_of_push(s: Seq<(String, Field)>, i: int, p: (String, Field))
    requires
        0 <= i <= s.len(),
        forall|j: int| i <= j < s.len() ==> (#[trigger] s[j].0)@ != p.0@,
    ensures
        map_of_from(s.push(p), i) =~= map_of_from(s, i).insert(p.0@, p.1@),
    decreases s.len() - i,
{
    if i < s.len() {
        lemma_map_of_push(s, i + 1, p);
        assert(s.push(p)[i] == s[i]);
        assert(map_of_from(s.push(p), i) == map_of_from(s.push(p), i + 1).insert(
            s[i].0@,
            s[i].1@,
        ));
        assert(map_of_from(s, i) == map_of_from(s, i + 1).insert(s[i].0@, s[i].1@));
        assert(s[i].0@ != p.0@);
        assert(map_of_from(s.push(p), i) =~= map_of_from(s, i).insert(p.0@, p.1@));
    } else {
        assert(s.push(p)[i] == p);
        assert(map_of_from(s.push(p), i + 1) =~= Map::<Seq<char>, FieldModel>::empty());
        assert(map_of_from(s.push(p), i) =~= map_of_from(s, i).insert(p.0@, p.1@));
    }
}

impl FieldMap {
    /// A map with no entries.
    pub fn new_empty() -> (r: Self)
        ensures
            r@ == Map::<Seq<char>, FieldModel>::empty(),
            r.wf(),
            r.0@.len() == 0,
    {
        FieldMap(Vec::new())
    }

    /// The index of the entry with key `k`, if any.
    fn find_index(&self, k: &String) -> (r: Option<usize>)
        ensures
            match r {
                Option::Some(i) => i < self.0@.len() && self.0@[i as int].0@ == k@,
                Option::None => forall|j: int|
                    0 <= j < self.0@.len() ==> (#[trigger] self.0@[j].0)@ != k@,
            },
    {
        let n = self.0.len();
        let mut i: usize = 0;
        while i < n
            invariant
                n == self.0@.len(),
                i <= n,
                forall|j: int| 0 <= j < i ==> (#[trigger] self.0@[j].0)@ != k@,
            decreases n - i,
        {
            if self.0[i].0 == *k {
                return Option::Some(i);
            }
            i = i + 1;
        }
        Option::None
    }

    /// Look a name up at this level.
    pub fn get<'a>(&'a self, k: &String) -> (r: Option<&'a Field>)
        requires
            self.wf(),
        ensures
            match r {
                Option::Some(f) => self@.dom().contains(k@) && f@ == self@[k@] && f.wf(),
                Option::None => !self@.dom().contains(k@),
            },
    {
        proof {
            lemma_map_of_contains(self.0@, 0, k@);
        }
        match self.find_index(k) {
            Option::Some(i) => {
                proof {
                    lemma_map_of_value(self.0@, 0, i as int);
                    lemma_entries_wf_pointwise(self.0@, 0);
                }
                Option::Some(&self.0[i].1)
            },
            Option::None => Option::None,
        }
    }

    /// Remove the entry with key `k`, handing its field out.
    pub fn take_entry(&mut self, k: &String) -> (r: Option<Field>)
        requires
            old(self).wf(),
        ensures
            final(self).wf(),
            final(self)@ == old(self)@.remove(k@),
            match r {
                Option::Some(f) => old(self)@.dom().contains(k@) && f@ == old(self)@[k@]
                    && f.wf(),
                Option::None => !old(self)@.dom().contains(k@) && final(self)@ == old(self)@,
            },
    {
        proof {
            lemma_map_of_contains(self.0@, 0, k@);
        }
        match self.find_index(k) {
            Option::Some(i) => {
                proof {
                    lemma_map_of_value(self.0@, 0, i as int);
                    lemma_map_of_remove(self.0@, 0, i as int);
                    lemma_entries_wf_pointwise(self.0@, 0);
                }
                let pair = self.0.remove(i);
                proof {
                    lemma_entries_wf_intro(self.0@, 0);
                }
                Option::Some(pair.1)
            },
            Option::None => {
                proof {
                    assert(old(self)@.remove(k@) =~= old(self)@);
                }
                Option::None
            },
        }
    }

    /// Bind `k` to `v` at this level, replacing any entry it had.
    pub fn insert_entry(&mut self, k: String, v: Field)
        requires
            old(self).wf(),
            v.wf(),
        ensures
            final(self).wf(),
            final(self)@ == old(self)@.insert(k@, v@),
    {
        let ghost kk = k@;
        let ghost vv = v@;
        let _ = self.take_entry(&k);
        proof {
            lemma_map_of_contains(self.0@, 0, kk);
            lemma_map_of_push(self.0@, 0, (k, v));
            lemma_entries_wf_pointwise(self.0@, 0);
        }
        self.0.push((k, v));
        proof {
            lemma_entries_wf_intro(self.0@, 0);
            assert(self@ =~= old(self)@.insert(kk, vv));
        }
    }
}


impl Clone for Required {
    fn clone(&self) -> (r: Self)
        ensures
            r@ == self@,
    {
        match self {
            Required::NotRequired => Required::NotRequired,
            Required::Required(m) => Required::Required(
                match m {
                    Option::Some(s) => Option::Some(s.clone()),
                    Option::None => Option::None,
                },
            ),
        }
    }
}

impl Clone for ArgumentType {
    fn clone(&self) -> (r: Self)
        ensures
            r@ == self@,
    {
        match self {
            ArgumentType::Any => ArgumentType::Any,
            ArgumentType::Bool => ArgumentType::Bool,
            ArgumentType::Constant(cs) => {
                let mut copied: Vec<String> = Vec::new();
                let n = cs.len();
                let mut i: usize = 0;
                while i < n
                    invariant
                        n == cs@.len(),
                        i <= n,
                        copied@.len() == i,
                        forall|j: int| 0 <= j < i ==> (#[trigger] copied@[j])@ == cs@[j]@,
                    decreases n - i,
                {
                    copied.push(cs[i].clone());
                    i = i + 1;
                }
                proof {
                    assert(copied@.map_values(|s: String| s@) =~= cs@.map_values(
                        |s: String| s@,
                    ));
                }
                ArgumentType::Constant(copied)
            },
            ArgumentType::Display(d) => ArgumentType::Display(d.clone()),
            ArgumentType::Function => ArgumentType::Function,
            ArgumentType::Nil => ArgumentType::Nil,
            ArgumentType::Number => ArgumentType::Number,
            ArgumentType::String => ArgumentType::String,
            ArgumentType::Table => ArgumentType::Table,
            ArgumentType::Vararg => ArgumentType::Vararg,
        }
    }
}

impl Clone for Argument {
    fn clone(&self) -> (r: Self)
        ensures
            r@ == self@,
    {
        Argument { required: self.required.clone(), argument_type: self.argument_type.clone() }
    }
}

/// Two association lists with the same keys and fields, seen through the
/// view, describe the same map.
proof fn lemma_map_of_congruence(s1: Seq<(String, Field)>, s2: Seq<(String, Field)>, i: int)
    requires
        0 <= i <= s1.len(),
        s1.len() == s2.len(),
        forall|j: int|
            0 <= j < s1.len() ==> (#[trigger] s1[j].0)@ == (#[trigger] s2[j].0)@ && s1[j].1@
                == s2[j].1@,
    ensures
        map_of_from(s1, i) =~= map_of_from(s2, i),
    decreases s1.len() - i,
{
    if i < s1.len() {
        lemma_map_of_congruence(s1, s2, i + 1);
        assert(map_of_from(s1, i) =~= map_of_from(s2, i));
    }
}

/// As `lemma_map_of_congruence`, for well-formedness.
proof fn lemma_entries_wf_congruence(s1: Seq<(String, Field)>, s2: Seq<(String, Field)>, i: int)
    requires
        0 <= i <= s1.len(),
        s1.len() == s2.len(),
        forall|j: int|
            0 <= j < s1.len() ==> (#[trigger] s1[j].0)@ == (#[trigger] s2[j].0)@
                && ((s1[j].1).wf() <==> (s2[j].1).wf()),
    ensures
        entries_wf_from(s1, i) == entries_wf_from(s2, i),
{
    if entries_wf_from(s1, i) {
        lemma_entries_wf_pointwise(s1, i);
        assert forall|j: int| i <= j < s2.len() implies (#[trigger] s2[j].1).wf() by {
            assert(s1[j].0@ == s2[j].0@);
            assert(s1[j].1.wf());
        }
        assert forall|j1: int, j2: int|
            i <= j1 < j2 < s2.len() implies (#[trigger] s2[j1].0)@ != (#[trigger] s2[j2].0)@ by {
            assert(s1[j1].0@ != s1[j2].0@);
        }
        lemma_entries_wf_intro(s2, i);
    }
    if entries_wf_from(s2, i) {
        lemma_entries_wf_pointwise(s2, i);
        assert forall|j: int| i <= j < s1.len() implies (#[trigger] s1[j].1).wf() by {
            assert(s1[j].0@ == s2[j].0@);
            assert(s2[j].1.wf());
        }
        assert forall|j1: int, j2: int|
            i <= j1 < j2 < s1.len() implies (#[trigger] s1[j1].0)@ != (#[trigger] s1[j2].0)@ by {
            assert(s2[j1].0@ != s2[j2].0@);
        }
        lemma_entries_wf_intro(s1, i);
    }
}

impl Clone for Field {
    /// A deep copy: the same model and the same well-formedness.
    fn clone(&self) -> (r: Self)
        ensures
            r@ == self@,
            r.wf() <==> self.wf(),
        decreases self,
    {
        match self {
            Field::Function { arguments, method } => {
                let mut copied: Vec<Argument> = Vec::new();
                let n = arguments.len();
                let mut i: usize = 0;
                while i < n
                    invariant
                        n == arguments@.len(),
                        i <= n,
                        copied@.len() == i,
                        forall|j: int| 0 <= j < i ==> (#[trigger] copied@[j])@ == arguments@[j]@,
                    decreases n - i,
                {
                    copied.push(arguments[i].clone());
                    i = i + 1;
                }
                proof {
                    assert(copied@.map_values(|a: Argument| a@) =~= arguments@.map_values(
                        |a: Argument| a@,
                    ));
                }
                Field::Function { arguments: copied, method: *method }
            },
            Field::Property { writable } => Field::Property { writable: *writable },
            Field::Table(children) => Field::Table(children.clone()),
            Field::Removed => Field::Removed,
        }
    }
}

impl Clone for FieldMap {
    /// A deep copy: the same model and the same well-formedness.
    fn clone(&self) -> (r: Self)
        ensures
            r@ == self@,
            r.wf() <==> self.wf(),
        decreases self,
    {
        let mut copied: Vec<(String, Field)> = Vec::new();
        let n = self.0.len();
        let mut i: usize = 0;
        while i < n
            invariant
                n == self.0@.len(),
                i <= n,
                copied@.len() == i,
                forall|j: int|
                    0 <= j < i ==> (#[trigger] copied@[j].0)@ == (#[trigger] self.0@[j].0)@
                        && copied@[j].1@ == self.0@[j].1@ && ((copied@[j].1).wf() <==> (
                    self.0@[j].1).wf()),
            decreases n - i,
        {
            let key = self.0[i].0.clone();
            let value = self.0[i].1.clone();
            copied.push((key, value));
            i = i + 1;
        }
        proof {
            lemma_map_of_congruence(copied@, self.0@, 0);
            lemma_entries_wf_congruence(copied@, self.0@, 0);
        }
        FieldMap(copied)
    }
}
/// The literal strings of a constant list, each in quotes, joined by ", ".
pub open spec fn quoted_join(items: Seq<Seq<char>>) -> Seq<char>
    decreases items.len(),
{
    if items.len() == 0 {
        Seq::empty()
    } else if items.len() == 1 {
        "\""@ + items[0] + "\""@
    } else {
        quoted_join(items.drop_last()) + ", \""@ + items.last() + "\""@
    }
}

/// How an argument type reads in a diagnostic.
pub open spec fn display_model(t: ArgumentTypeModel) -> Seq<char> {
    match t {
        ArgumentTypeModel::Any => "any"@,
        ArgumentTypeModel::Bool => "bool"@,
        ArgumentTypeModel::Constant(cs) => quoted_join(cs),
        ArgumentTypeModel::Display(d) => d,
        ArgumentTypeModel::Function => "function"@,
        ArgumentTypeModel::Nil => "nil"@,
        ArgumentTypeModel::Number => "number"@,
        ArgumentTypeModel::String => "string"@,
        ArgumentTypeModel::Table => "table"@,
        ArgumentTypeModel::Vararg => "..."@,
    }
}

impl ArgumentType {
    /// The type as it reads in a diagnostic: a vocabulary token, a custom
    /// label, or the quoted constants joined by commas.
    #[verifier::loop_isolation(false)]
    pub fn display_text(&self) -> (r: String)
        ensures
            r@ == display_model(self@),
    {
        match self {
            ArgumentType::Any => String::from_str("any"),
            ArgumentType::Bool => String::from_str("bool"),
            ArgumentType::Constant(cs) => {
                let ghost model = cs@.map_values(|s: String| s@);
                let n = cs.len();
                let mut out = String::new();
                if n == 0 {
                    proof {
                        assert(out@ =~= quoted_join(model));
                    }
                    return out;
                }
                out.append("\"");
                out.append(cs[0].as_str());
                out.append("\"");
                let mut i: usize = 1;
                proof {
                    assert(model.subrange(0, 1)[0] == cs@[0]@);
                    assert(out@ =~= quoted_join(model.subrange(0, 1)));
                }
                while i < n
                    invariant
                        1 <= i <= n,
                        out@ == quoted_join(model.subrange(0, i as int)),
                    decreases n - i,
                {
                    let ghost prefix = model.subrange(0, i as int);
                    let ghost next = model.subrange(0, i as int + 1);
                    out.append(", \"");
                    out.append(cs[i].as_str());
                    out.append("\"");
                    proof {
                        assert(next.drop_last() =~= prefix);
                        assert(next.last() == cs@[i as int]@);
                        assert(out@ =~= quoted_join(next));
                    }
                    i = i + 1;
                }
                proof {
                    assert(model.subrange(0, n as int) =~= model);
                }
                out
            },
            ArgumentType::Display(d) => d.clone(),
            ArgumentType::Function => String::from_str("function"),
            ArgumentType::Nil => String::from_str("nil"),
            ArgumentType::Number => String::from_str("number"),
            ArgumentType::String => String::from_str("string"),
            ArgumentType::Table => String::from_str("table"),
            ArgumentType::Vararg => String::from_str("..."),
        }
    }
}

} // verus!
