use converter::annotation::{parse_run, Annotation, AnnotationMap, Label};
use converter::error::ConversionError;

fn annotation(label: Label, value: &str) -> Annotation {
    Annotation { label, value: value.to_string() }
}

fn value_of(map: &AnnotationMap, label: Label) -> Option<String> {
    map.get(label).cloned()
}

#[test]
fn difficulty_run_yields_an_entry() {
    assert_eq!(parse_run("Difficulty: Hard"), Ok(Some(annotation(Label::Difficulty, "Hard"))));
    let mut map = AnnotationMap::new();
    assert_eq!(map.read_run("Difficulty: Hard"), Ok(true));
    assert_eq!(value_of(&map, Label::Difficulty), Some("Hard".to_string()));
    assert_eq!(value_of(&map, Label::Name), None);
    assert_eq!(Label::Difficulty.key(), "difficulty");
}

#[test]
fn unknown_label_yields_no_entry() {
    assert_eq!(parse_run("Unknown: X"), Err(ConversionError::UnknownAnnotationLabel));
    let mut map = AnnotationMap::new();
    assert_eq!(map.read_run("Unknown: X"), Err(ConversionError::UnknownAnnotationLabel));
    assert_eq!(map, AnnotationMap::new());
    assert!(map.entries().is_empty());
}

#[test]
fn run_ending_in_its_colon_is_malformed() {
    assert_eq!(parse_run("Name:"), Err(ConversionError::MalformedAnnotation));
    let mut map = AnnotationMap::new();
    assert_eq!(map.read_run("Name:"), Err(ConversionError::MalformedAnnotation));
    assert_eq!(map, AnnotationMap::new());
    assert_eq!(parse_run(":"), Err(ConversionError::MalformedAnnotation));
    assert_eq!(parse_run("Other:"), Err(ConversionError::MalformedAnnotation));
}

#[test]
fn run_without_a_colon_is_skipped() {
    assert_eq!(parse_run(""), Ok(None));
    assert_eq!(parse_run("Difficulty Hard"), Ok(None));
    assert_eq!(parse_run("#1"), Ok(None));
    let mut map = AnnotationMap::new();
    assert_eq!(map.read_run("just text"), Ok(false));
    assert_eq!(map, AnnotationMap::new());
}

#[test]
fn name_label_maps_to_its_key() {
    assert_eq!(parse_run("Name: Spiral"), Ok(Some(annotation(Label::Name, "Spiral"))));
    assert_eq!(Label::Name.key(), "name");
    assert_eq!(Label::from_text("Name"), Some(Label::Name));
    assert_eq!(Label::from_text("Difficulty"), Some(Label::Difficulty));
    assert_eq!(Label::from_text("name"), None);
    assert_eq!(Label::from_text("difficulty"), None);
    assert_eq!(Label::from_text(""), None);
    assert_eq!(Label::from_text("Names"), None);
}

#[test]
fn exactly_one_character_after_the_colon_is_skipped() {
    assert_eq!(parse_run("Name:xSpiral"), Ok(Some(annotation(Label::Name, "Spiral"))));
    assert_eq!(parse_run("Name::Spiral"), Ok(Some(annotation(Label::Name, "Spiral"))));
    assert_eq!(parse_run("Name:\u{e9}Spiral"), Ok(Some(annotation(Label::Name, "Spiral"))));
    assert_eq!(parse_run("Name: :a: b"), Ok(Some(annotation(Label::Name, ":a: b"))));
}

#[test]
fn label_and_value_are_trimmed() {
    assert_eq!(parse_run("  Name : \t Spiral one \n"), Ok(Some(annotation(Label::Name, "Spiral one"))));
    assert_eq!(
        parse_run("\u{a0}Difficulty\u{2003}: \u{3000}Hard\u{2028}"),
        Ok(Some(annotation(Label::Difficulty, "Hard")))
    );
    assert_eq!(parse_run("Difficulty: Hard\n"), Ok(Some(annotation(Label::Difficulty, "Hard"))));
    assert_eq!(parse_run("Na me: x"), Err(ConversionError::UnknownAnnotationLabel));
}

#[test]
fn empty_value_is_rejected() {
    assert_eq!(parse_run("Name: "), Ok(None));
    assert_eq!(parse_run("Name:x"), Ok(None));
    assert_eq!(parse_run("Name:    \t\n"), Ok(None));
    let mut map = AnnotationMap::new();
    assert_eq!(map.read_run("Name:   "), Ok(false));
    assert_eq!(map, AnnotationMap::new());
}

#[test]
fn empty_label_is_not_a_known_label() {
    assert_eq!(parse_run(": value"), Err(ConversionError::UnknownAnnotationLabel));
    assert_eq!(parse_run("   : value"), Err(ConversionError::UnknownAnnotationLabel));
}

#[test]
fn malformed_comes_before_the_label_is_looked_at() {
    assert_eq!(parse_run("Bogus:"), Err(ConversionError::MalformedAnnotation));
    assert_eq!(parse_run("Bogus:x"), Err(ConversionError::UnknownAnnotationLabel));
}

#[test]
fn values_keep_characters_outside_ascii() {
    assert_eq!(
        parse_run("Name: \u{c9}toile \u{2605}"),
        Ok(Some(annotation(Label::Name, "\u{c9}toile \u{2605}")))
    );
}

#[test]
fn later_runs_overwrite_earlier_ones() {
    let mut map = AnnotationMap::new();
    let runs = vec![
        "#1:\n".to_string(),
        "Difficulty: Hard\n".to_string(),
        "Other: Property".to_string(),
        "Name: First".to_string(),
        "Difficulty: Easy".to_string(),
        "Name:".to_string(),
    ];
    map.read_runs(&runs);
    assert_eq!(value_of(&map, Label::Difficulty), Some("Easy".to_string()));
    assert_eq!(value_of(&map, Label::Name), Some("First".to_string()));
    assert_eq!(
        map.entries(),
        vec![annotation(Label::Difficulty, "Easy"), annotation(Label::Name, "First")]
    );
}

#[test]
fn insert_replaces_the_value_of_a_label() {
    let mut map = AnnotationMap::new();
    assert_eq!(map.get(Label::Name), None);
    map.insert(Label::Name, "a".to_string());
    map.insert(Label::Name, "b".to_string());
    assert_eq!(value_of(&map, Label::Name), Some("b".to_string()));
    assert_eq!(value_of(&map, Label::Difficulty), None);
    assert_eq!(map.entries(), vec![annotation(Label::Name, "b")]);
    map.insert(Label::Difficulty, "c".to_string());
    assert_eq!(
        map.entries(),
        vec![annotation(Label::Difficulty, "c"), annotation(Label::Name, "b")]
    );
}

#[test]
fn reading_runs_in_two_parts_is_reading_them_at_once() {
    let runs: Vec<String> =
        ["Name: a", "x", "Difficulty: 1", "Name: b", "Nope: c", "Difficulty:"].map(String::from).to_vec();
    let mut whole = AnnotationMap::new();
    whole.read_runs(&runs);
    for cut in 0..=runs.len() {
        let mut parts = AnnotationMap::new();
        parts.read_runs(&runs[..cut].to_vec());
        parts.read_runs(&runs[cut..].to_vec());
        assert_eq!(parts, whole);
    }
}
