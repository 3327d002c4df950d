use minework::text::{decimal_string, trimmed};
use minework::utils::{
    extract_values, pascalize, values_from_env, values_from_stdin, FieldCountError,
    InputError, NonInteractiveInput,
};

fn strings(v: &[&str]) -> Vec<String> {
    v.iter().map(|s| s.to_string()).collect()
}

#[test]
fn pascalize_capitalises_each_word() {
    assert_eq!(pascalize("fabric"), "Fabric");
    assert_eq!(pascalize("none"), "None");
    assert_eq!(pascalize("hello world-foo_bar"), "HelloWorldFooBar");
    assert_eq!(pascalize("  forge  "), "Forge");
    assert_eq!(pascalize("x1 2y"), "X12y");
    assert_eq!(pascalize(""), "");
    assert_eq!(pascalize("--"), "");
}

#[test]
fn pascalize_keeps_non_ascii_inside_words() {
    assert_eq!(pascalize("naïve approach"), "NaïveApproach");
    assert_eq!(pascalize("a€b"), "AB");
}

#[test]
fn pascalize_capitalises_words_that_start_beyond_ascii() {
    assert_eq!(pascalize("élan vital"), "ÉlanVital");
    assert_eq!(pascalize("a-élan"), "AÉlan");
    assert_eq!(pascalize("straße ßa"), "StraßeSSa");
    assert_eq!(pascalize("quilt loader"), "QuiltLoader");
}

#[test]
fn pascalize_is_idempotent() {
    for s in ["fabric", "hello world", "x1 2y", "Already", "mixed-Case_input"] {
        let once = pascalize(s);
        assert_eq!(pascalize(&once), once);
    }
}

#[test]
fn trimmed_removes_unicode_white_space() {
    assert_eq!(trimmed("\t x y \n"), "x y");
    assert_eq!(trimmed("\u{3000}x\u{a0}"), "x");
    assert_eq!(trimmed("   "), "");
}

#[test]
fn decimal_string_formats_numbers() {
    assert_eq!(decimal_string(0), "0");
    assert_eq!(decimal_string(7), "7");
    assert_eq!(decimal_string(1234), "1234");
    assert_eq!(decimal_string(usize::MAX), usize::MAX.to_string());
}

#[test]
fn extract_values_splits_and_trims() {
    assert_eq!(extract_values("a, b ,c"), strings(&["a", "b", "c"]));
    assert_eq!(
        extract_values("MineWorld, 1.21.5, ~/.minecraft, fabric"),
        strings(&["MineWorld", "1.21.5", "~/.minecraft", "fabric"])
    );
}

#[test]
fn extract_values_drops_blank_entries() {
    assert_eq!(extract_values(",, ,x,"), strings(&["x"]));
    assert_eq!(extract_values(""), Vec::<String>::new());
    assert_eq!(extract_values("   "), Vec::<String>::new());
}

#[test]
fn extract_values_honours_escapes() {
    assert_eq!(extract_values("a\\,b, c"), strings(&["a,b", "c"]));
    assert_eq!(extract_values("a\\\\,b"), strings(&["a\\", "b"]));
    assert_eq!(extract_values("a\\"), strings(&["a"]));
    assert_eq!(extract_values("\\x"), strings(&["x"]));
}

#[test]
fn extract_values_gives_back_joined_values() {
    let values = strings(&["one", "two words", "three"]);
    assert_eq!(extract_values(&values.join(",")), values);
}

#[test]
fn extract_values_results_are_trimmed_and_non_empty() {
    for v in extract_values(" a ,\u{2003}b\u{2003}, ,\\ c ") {
        assert!(!v.is_empty());
        assert_eq!(v.trim(), v);
    }
}

#[test]
fn suggestion_message_lists_fields_and_examples() {
    let input = NonInteractiveInput {
        fields: 2,
        descriptions: &["A unique profile name.", "The Minecraft version to target."],
        examples: &["minework -I pr c", "echo x | minework"],
    };
    assert_eq!(
        input.build_suggestion_message(),
        "\n   Input is expected to have 2 field(s) concatenated using commas with each position mapping to:\n      1. A unique profile name.\n      2. The Minecraft version to target.\n\n   Here are some examples for your reference:\n      $ minework -I pr c\n      $ echo x | minework"
    );
}

#[test]
fn suggestion_message_with_nothing_to_list() {
    let input = NonInteractiveInput { fields: 0, descriptions: &[], examples: &[] };
    assert_eq!(
        input.build_suggestion_message(),
        "\n   Input is expected to have 0 field(s) concatenated using commas with each position mapping to:\n\n\n   Here are some examples for your reference:\n"
    );
}

#[test]
fn parse_keeps_the_expected_fields() {
    let input = NonInteractiveInput { fields: 2, descriptions: &[], examples: &[] };
    let r = input.parse(strings(&["a", "b", "c"]));
    assert_eq!(r.ok(), Some(strings(&["a", "b"])));
}

#[test]
fn parse_refuses_too_few_fields() {
    let input = NonInteractiveInput { fields: 4, descriptions: &[], examples: &[] };
    match input.parse(strings(&["a", "b"])) {
        Err(FieldCountError { got, expected }) => {
            assert_eq!((got, expected), (2, 4));
            let e = FieldCountError { got, expected };
            assert_eq!(e.message(), "Got 2 field(s) while expecting 4.");
        }
        Ok(_) => panic!("too few fields were accepted"),
    }
}

#[test]
fn values_from_env_needs_a_value() {
    assert!(values_from_env(None).is_none());
    assert!(values_from_env(Some(" , ")).is_none());
    assert_eq!(values_from_env(Some("a,b")), Some(strings(&["a", "b"])));
}

#[test]
fn values_from_stdin_needs_a_value() {
    assert!(matches!(values_from_stdin(None), Err(InputError::Missing)));
    assert!(matches!(values_from_stdin(Some("\n")), Err(InputError::Missing)));
    assert_eq!(values_from_stdin(Some("x\n")).ok(), Some(strings(&["x"])));
    assert_eq!(
        InputError::Missing.message(),
        "Non-interactive mode expects input either via the $MINEWORK_ENVIN environment variable or stdin with the former getting higher priority."
    );
}

#[test]
fn extract_values_gives_back_escaped_values() {
    let values = strings(&["a,b", "back\\slash", "plain", "x, y\\,z"]);
    let joined = values
        .iter()
        .map(|v| v.replace('\\', "\\\\").replace(',', "\\,"))
        .collect::<Vec<_>>()
        .join(", ");
    assert_eq!(extract_values(&joined), values);
}

#[test]
fn extract_values_of_joined_inputs() {
    let (a, b) = ("x, ,y", " z,w ");
    let mut both = extract_values(a);
    both.extend(extract_values(b));
    assert_eq!(extract_values(&format!("{a},{b}")), both);
}
