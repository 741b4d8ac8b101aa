use selene_lib::field::{Argument, ArgumentType, Field, FieldMap, Required, Writable};
use selene_lib::library::{LibraryError, StandardLibrary};
use selene_lib::merge::merge_maps;
use selene_lib::raw::{
    argument_type_from_raw, field_from_raw, required_from_raw, RawValue, SchemaError,
};

fn s(text: &str) -> String {
    text.to_string()
}

#[test]
fn valid_serde() {
    StandardLibrary::from_name("lua51").expect("lua51.toml wasn't found");
    StandardLibrary::from_name("lua52").expect("lua52.toml wasn't found");
}

#[test]
fn builtin_libraries_are_nonempty() {
    for name in ["lua51", "lua52"] {
        let lib = StandardLibrary::from_name(name).expect("bundled library must load");
        assert!(!lib.globals.0.is_empty(), "{name} has no globals");
    }
}

#[test]
fn unknown_name_is_not_found() {
    assert!(StandardLibrary::from_name("lua99").is_none());
}

#[test]
fn merge_deep_override_and_removal() {
    let base = FieldMap(vec![
        (
            s("a"),
            Field::Table(FieldMap(vec![(s("b"), Field::Property { writable: None })])),
        ),
        (
            s("c"),
            Field::Function {
                arguments: vec![],
                method: false,
            },
        ),
    ]);
    let override_map = FieldMap(vec![
        (
            s("a"),
            Field::Table(FieldMap(vec![(s("d"), Field::Property { writable: None })])),
        ),
        (s("c"), Field::Removed),
        (s("e"), Field::Property { writable: None }),
    ]);

    let merged = merge_maps(base, &override_map);
    let lib = StandardLibrary {
        base: None,
        globals: merged,
    };

    // `a` was deep-merged: both old `b` and new `d` are there.
    assert_eq!(
        lib.find_global(&[s("a"), s("b")]),
        Some(&Field::Property { writable: None })
    );
    assert_eq!(
        lib.find_global(&[s("a"), s("d")]),
        Some(&Field::Property { writable: None })
    );
    // `c` was removed, `e` added.
    assert_eq!(lib.find_global(&[s("c")]), None);
    assert_eq!(
        lib.find_global(&[s("e")]),
        Some(&Field::Property { writable: None })
    );
    // Cannot descend through a non-table.
    assert_eq!(lib.find_global(&[s("a"), s("b"), s("x")]), None);
    // Exactly the keys a and e remain at the top level.
    assert_eq!(lib.globals.0.len(), 2);
}

#[test]
fn validation_property_with_args_is_ambiguous() {
    let raw = RawValue::Tbl(vec![
        (s("property"), RawValue::Bool(true)),
        (
            s("args"),
            RawValue::Arr(vec![RawValue::Tbl(vec![(
                s("type"),
                RawValue::Str(s("any")),
            )])]),
        ),
    ]);
    assert_eq!(field_from_raw(&raw), Err(SchemaError::PropertyAndFunction));
}

#[test]
fn validation_no_markers_no_children_is_undeterminable() {
    let raw = RawValue::Tbl(vec![]);
    assert_eq!(field_from_raw(&raw), Err(SchemaError::UndeterminableKind));
}

#[test]
fn validation_only_children_is_a_table() {
    let raw = RawValue::Tbl(vec![(
        s("inner"),
        RawValue::Tbl(vec![(s("property"), RawValue::Bool(true))]),
    )]);
    match field_from_raw(&raw) {
        Ok(Field::Table(children)) => {
            assert_eq!(children.0.len(), 1);
            assert_eq!(children.0[0].0, "inner");
            assert_eq!(children.0[0].1, Field::Property { writable: None });
        }
        other => panic!("expected a table, got {other:?}"),
    }
}

#[test]
fn validation_removed_marker_wins() {
    let raw = RawValue::Tbl(vec![
        (s("removed"), RawValue::Bool(true)),
        (s("property"), RawValue::Bool(true)),
    ]);
    assert_eq!(field_from_raw(&raw), Ok(Field::Removed));
}

#[test]
fn validation_duplicate_child_is_rejected() {
    let raw = RawValue::Tbl(vec![
        (s("x"), RawValue::Tbl(vec![(s("property"), RawValue::Bool(true))])),
        (s("x"), RawValue::Tbl(vec![(s("property"), RawValue::Bool(true))])),
    ]);
    assert_eq!(field_from_raw(&raw), Err(SchemaError::DuplicateKey(s("x"))));
}

#[test]
fn argument_type_shapes() {
    assert_eq!(
        argument_type_from_raw(&RawValue::Str(s("..."))),
        Ok(ArgumentType::Vararg)
    );
    assert_eq!(
        argument_type_from_raw(&RawValue::Arr(vec![
            RawValue::Str(s("A")),
            RawValue::Str(s("B")),
        ])),
        Ok(ArgumentType::Constant(vec![s("A"), s("B")]))
    );
    assert_eq!(
        argument_type_from_raw(&RawValue::Tbl(vec![(
            s("display"),
            RawValue::Str(s("custom"))
        )])),
        Ok(ArgumentType::Display(s("custom")))
    );
    assert_eq!(
        argument_type_from_raw(&RawValue::Str(s("frobnicate"))),
        Err(SchemaError::UnknownArgumentType(s("frobnicate")))
    );
    assert_eq!(
        argument_type_from_raw(&RawValue::Tbl(vec![(
            s("label"),
            RawValue::Str(s("custom"))
        )])),
        Err(SchemaError::DisplayMissing)
    );
}

#[test]
fn argument_type_vocabulary() {
    for (token, expected) in [
        ("any", ArgumentType::Any),
        ("bool", ArgumentType::Bool),
        ("function", ArgumentType::Function),
        ("nil", ArgumentType::Nil),
        ("number", ArgumentType::Number),
        ("string", ArgumentType::String),
        ("table", ArgumentType::Table),
    ] {
        assert_eq!(argument_type_from_raw(&RawValue::Str(s(token))), Ok(expected));
    }
}

#[test]
fn required_markers() {
    assert_eq!(
        required_from_raw(&RawValue::Bool(true)),
        Ok(Required::Required(None))
    );
    assert_eq!(
        required_from_raw(&RawValue::Bool(false)),
        Ok(Required::NotRequired)
    );
    assert_eq!(
        required_from_raw(&RawValue::Str(s("only with io"))),
        Ok(Required::Required(Some(s("only with io"))))
    );
    assert_eq!(
        required_from_raw(&RawValue::Arr(vec![])),
        Err(SchemaError::WrongShape)
    );
    assert_eq!(Required::default(), Required::Required(None));
}

#[test]
fn lua52_inherits_and_overrides() {
    let lua52 = StandardLibrary::from_name("lua52").unwrap();
    // Inherited from the base environment.
    assert!(lua52.find_global(&[s("print")]).is_some());
    assert!(lua52.find_global(&[s("string"), s("format")]).is_some());
    // Removed relative to the base.
    assert_eq!(lua52.find_global(&[s("getfenv")]), None);
    assert_eq!(lua52.find_global(&[s("setfenv")]), None);
    // Added in the newer environment.
    assert!(lua52.find_global(&[s("rawlen")]).is_some());
    assert!(lua52.find_global(&[s("bit32"), s("band")]).is_some());
    // Deep-merged: string.rep was overridden, string.len kept.
    match lua52.find_global(&[s("string"), s("rep")]) {
        Some(Field::Function { arguments, .. }) => assert_eq!(arguments.len(), 3),
        other => panic!("expected a function, got {other:?}"),
    }
    assert!(lua52.find_global(&[s("string"), s("len")]).is_some());
    // The base name is retained for provenance.
    assert_eq!(lua52.base, Some(s("lua51")));
}

#[test]
fn builtin_display_argument_comes_through() {
    let lua52 = StandardLibrary::from_name("lua52").unwrap();
    match lua52.find_global(&[s("rawlen")]) {
        Some(Field::Function { arguments, .. }) => {
            assert_eq!(
                arguments[0],
                Argument {
                    required: Required::Required(None),
                    argument_type: ArgumentType::Display(s("table or string")),
                }
            );
        }
        other => panic!("expected a function, got {other:?}"),
    }
}

#[test]
fn builtin_writable_property_comes_through() {
    let lua51 = StandardLibrary::from_name("lua51").unwrap();
    assert_eq!(
        lua51.find_global(&[s("_G")]),
        Some(&Field::Property {
            writable: Some(Writable::NewFields)
        })
    );
    assert_eq!(
        lua51.find_global(&[s("_VERSION")]),
        Some(&Field::Property { writable: None })
    );
}

#[test]
fn from_source_with_base_inflates() {
    let lib = StandardLibrary::from_source(
        "base = \"lua51\"\n[myglobal]\nproperty = true\n",
    )
    .unwrap();
    assert!(lib.find_global(&[s("myglobal")]).is_some());
    assert!(lib.find_global(&[s("print")]).is_some());
    assert_eq!(lib.base, Some(s("lua51")));
}

#[test]
fn from_source_unknown_base_is_reported() {
    let err = StandardLibrary::from_source("base = \"luajit\"\n[x]\nproperty = true\n")
        .unwrap_err();
    assert_eq!(err, LibraryError::UnknownBase(s("luajit")));
}

#[test]
fn from_source_bad_text_is_a_parse_error() {
    let err = StandardLibrary::from_source("= not toml at all").unwrap_err();
    assert_eq!(err, LibraryError::Parse);
}

#[test]
fn from_source_schema_error_is_reported() {
    let err = StandardLibrary::from_source("[x]\nargs = [{ type = \"frobnicate\" }]\n")
        .unwrap_err();
    assert_eq!(
        err,
        LibraryError::Schema(SchemaError::UnknownArgumentType(s("frobnicate")))
    );
}

#[test]
fn inflate_folds_the_base_in() {
    let mut lib = StandardLibrary {
        base: Some(s("lua51")),
        globals: FieldMap(vec![(s("extra"), Field::Property { writable: None })]),
    };
    lib.inflate().unwrap();
    assert!(lib.find_global(&[s("extra")]).is_some());
    assert!(lib.find_global(&[s("tostring")]).is_some());

    let mut orphan = StandardLibrary {
        base: Some(s("nosuch")),
        globals: FieldMap(vec![]),
    };
    assert_eq!(orphan.inflate(), Err(LibraryError::UnknownBase(s("nosuch"))));

    let mut baseless = StandardLibrary {
        base: None,
        globals: FieldMap(vec![(s("only"), Field::Property { writable: None })]),
    };
    baseless.inflate().unwrap();
    assert_eq!(baseless.globals.0.len(), 1);
}

#[test]
fn find_global_needs_tables_on_the_way() {
    let lua51 = StandardLibrary::from_name("lua51").unwrap();
    // `print` is a function, not a table: cannot descend through it.
    assert_eq!(lua51.find_global(&[s("print"), s("x")]), None);
    assert_eq!(lua51.find_global(&[s("nosuch")]), None);
    assert_eq!(lua51.find_global(&[s("string"), s("nosuch")]), None);
}

#[test]
fn argument_type_display_text() {
    assert_eq!(
        ArgumentType::Constant(vec![s("A"), s("B")]).display_text(),
        "\"A\", \"B\""
    );
    assert_eq!(ArgumentType::Constant(vec![s("solo")]).display_text(), "\"solo\"");
    assert_eq!(ArgumentType::Display(s("custom")).display_text(), "custom");
    assert_eq!(ArgumentType::Vararg.display_text(), "...");
    assert_eq!(ArgumentType::Any.display_text(), "any");
    assert_eq!(ArgumentType::Number.display_text(), "number");
}

#[test]
fn removed_never_survives_a_merge() {
    // A nested sentinel inside a subtree the base lacks is consumed, not kept.
    let base = FieldMap(vec![]);
    let override_map = FieldMap(vec![(
        s("x"),
        Field::Table(FieldMap(vec![(s("y"), Field::Removed)])),
    )]);
    let merged = merge_maps(base, &override_map);
    let lib = StandardLibrary {
        base: None,
        globals: merged,
    };
    assert_eq!(lib.find_global(&[s("x")]), Some(&Field::Table(FieldMap(vec![]))));
    assert_eq!(lib.find_global(&[s("x"), s("y")]), None);
}

#[test]
fn inflate_consumes_sentinels_without_a_base() {
    let mut lib = StandardLibrary {
        base: None,
        globals: FieldMap(vec![
            (s("gone"), Field::Removed),
            (s("keep"), Field::Property { writable: None }),
        ]),
    };
    lib.inflate().unwrap();
    assert_eq!(lib.find_global(&[s("gone")]), None);
    assert_eq!(
        lib.find_global(&[s("keep")]),
        Some(&Field::Property { writable: None })
    );
    assert_eq!(lib.globals.0.len(), 1);
}

#[test]
fn from_source_consumes_sentinels() {
    // Top-level sentinel in a base-less document.
    let lib = StandardLibrary::from_source("[x]\nremoved = true\n[keep]\nproperty = true\n")
        .unwrap();
    assert_eq!(lib.find_global(&[s("x")]), None);
    assert!(lib.find_global(&[s("keep")]).is_some());

    // Nested sentinel under a key the base lacks.
    let lib = StandardLibrary::from_source("base = \"lua51\"\n[x.y]\nremoved = true\n").unwrap();
    assert_eq!(lib.find_global(&[s("x"), s("y")]), None);
    assert_eq!(lib.find_global(&[s("x")]), Some(&Field::Table(FieldMap(vec![]))));
}

#[test]
fn library_clone_and_default() {
    let lua51 = StandardLibrary::from_name("lua51").unwrap();
    let copied = lua51.clone();
    assert_eq!(copied, lua51);

    let empty = StandardLibrary::default();
    assert_eq!(empty.base, None);
    assert!(empty.globals.0.is_empty());
}
