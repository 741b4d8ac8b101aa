use selene_lib::field::{Field, FieldMap};
use selene_lib::library::StandardLibrary;
use selene_lib::suggest::{possible_standard_libraries, possible_standard_library_notes, ExtensionLibrary};

fn s(text: &str) -> String {
    text.to_string()
}

fn roblox_like_extension() -> ExtensionLibrary {
    ExtensionLibrary {
        name: s("roblox"),
        roots: vec![s("game"), s("plugin"), s("script"), s("workspace")],
        library: StandardLibrary {
            base: None,
            globals: FieldMap(vec![(
                s("print"),
                Field::Function {
                    arguments: vec![],
                    method: false,
                },
            )]),
        },
    }
}

#[test]
fn two_matches_use_and_with_plural() {
    let notes = possible_standard_library_notes(&[s("print")], true, None);
    assert_eq!(notes.len(), 1);
    assert_eq!(
        notes[0],
        "`print` was found in the lua51 and lua52 standard libraries"
    );
}

#[test]
fn one_match_is_singular() {
    // rawlen exists only in the newer environment.
    let notes = possible_standard_library_notes(&[s("rawlen")], true, None);
    assert_eq!(notes.len(), 1);
    assert_eq!(notes[0], "`rawlen` was found in the lua52 standard library");
}

#[test]
fn three_matches_use_commas() {
    let ext = roblox_like_extension();
    let notes = possible_standard_library_notes(&[s("print")], true, Some(&ext));
    assert_eq!(notes.len(), 1);
    assert_eq!(
        notes[0],
        "`print` was found in the roblox, lua51, and lua52 standard libraries"
    );
}

#[test]
fn extension_comes_first_despite_sorting_later() {
    let ext = roblox_like_extension();
    let libs = possible_standard_libraries(&[s("print")], Some(&ext));
    assert_eq!(libs, vec![s("roblox"), s("lua51"), s("lua52")]);
}

#[test]
fn extension_root_identifier_matches_alone() {
    let ext = roblox_like_extension();
    let libs = possible_standard_libraries(&[s("game"), s("Workspace")], Some(&ext));
    assert_eq!(libs, vec![s("roblox")]);
}

#[test]
fn no_match_no_notes() {
    let notes = possible_standard_library_notes(&[s("definitely_nowhere")], false, None);
    assert!(notes.is_empty());
}

#[test]
fn dotted_path_is_spelled_out() {
    let notes = possible_standard_library_notes(&[s("string"), s("format")], true, None);
    assert_eq!(
        notes[0],
        "`string.format` was found in the lua51 and lua52 standard libraries"
    );
}

#[test]
fn guidance_note_only_when_unconfigured() {
    let configured = possible_standard_library_notes(&[s("print")], true, None);
    assert_eq!(configured.len(), 1);

    let unconfigured = possible_standard_library_notes(&[s("print")], false, None);
    assert_eq!(unconfigured.len(), 2);
    assert_eq!(
        unconfigured[1],
        "you can set the standard library by putting the following inside selene.toml:\nstd = \"lua51\"\nstd = \"lua52\""
    );

    let single = possible_standard_library_notes(&[s("rawlen")], false, None);
    assert_eq!(single.len(), 2);
    assert_eq!(
        single[1],
        "you can set the standard library by putting the following inside selene.toml:\nstd = \"lua52\""
    );
}
