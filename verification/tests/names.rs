use crux_cli::attrs::{find_first_capture, find_last_capture, matches_any, RENAME, RENAME_ALL, SKIP, WITH};
use crux_cli::case::{
    to_dashed, to_lower, to_lower_first, to_pascal, to_snake, to_upper, RenameRule,
};
use crux_cli::formatter::{field_name, resolve_field_name, resolve_variant_name, variant_name};
use crux_cli::text::{last_segment, rank, str_equal, to_ascii_lower, to_ascii_upper, Rank};

fn strings(items: &[&str]) -> Vec<String> {
    items.iter().map(|s| s.to_string()).collect()
}

#[test]
fn variant_renaming_plain() {
    assert_eq!(variant_name("foo", &strings(&[""]), &strings(&[])), "foo");
}

#[test]
fn variant_renaming_rename() {
    assert_eq!(
        variant_name("foo", &strings(&["#[serde(rename = \"bar\")]"]), &strings(&[])),
        "bar"
    );
}

#[test]
fn variant_renaming_camel_case() {
    assert_eq!(
        variant_name("FooBar", &strings(&[]), &strings(&["#[serde(rename_all = \"camelCase\")]"])),
        "fooBar"
    );
}

#[test]
fn variant_renaming_snake_case() {
    assert_eq!(
        variant_name(
            "FooBar",
            &strings(&[""]),
            &strings(&["#[serde(with = \"something\")]", "#[serde(rename_all = \"snake_case\")]"])
        ),
        "foo_bar"
    );
}

#[test]
fn variant_renaming_rename_wins() {
    assert_eq!(
        variant_name(
            "FooBar",
            &strings(&["#[serde(rename = \"bar\")]"]),
            &strings(&["#[serde(with = \"something\")]", "#[serde(rename_all = \"snake_case\")]"])
        ),
        "bar"
    );
}

#[test]
fn field_renaming_plain() {
    assert_eq!(field_name("foo", &strings(&[""]), &strings(&[])), "foo");
}

#[test]
fn field_renaming_rename() {
    assert_eq!(
        field_name("foo", &strings(&["#[serde(rename = \"bar\")]"]), &strings(&[])),
        "bar"
    );
}

#[test]
fn field_renaming_camel_case() {
    assert_eq!(
        field_name("foo_bar", &strings(&[]), &strings(&["#[serde(rename_all = \"camelCase\")]"])),
        "fooBar"
    );
}

#[test]
fn field_renaming_pascal_case() {
    assert_eq!(
        field_name(
            "foo_bar",
            &strings(&[""]),
            &strings(&["#[serde(with = \"something\")]", "#[serde(rename_all = \"PascalCase\")]"])
        ),
        "FooBar"
    );
}

#[test]
fn field_renaming_rename_wins() {
    assert_eq!(
        field_name(
            "foo_bar",
            &strings(&["#[serde(rename = \"bar\")]"]),
            &strings(&["#[serde(with = \"something\")]", "#[serde(rename_all = \"PascalCase\")]"])
        ),
        "bar"
    );
}

#[test]
fn member_names_take_the_first_rename() {
    let attrs = strings(&["#[serde(rename = \"one\")]", "#[serde(rename = \"two\")]"]);
    assert_eq!(field_name("foo", &attrs, &strings(&[])), "one");
    assert_eq!(variant_name("Foo", &attrs, &strings(&[])), "one");
}

#[test]
fn unknown_rules_leave_names_alone() {
    let attrs = strings(&["#[serde(rename_all = \"none\")]"]);
    assert_eq!(field_name("foo_bar", &strings(&[]), &attrs), "foo_bar");
    assert_eq!(variant_name("FooBar", &strings(&[]), &attrs), "FooBar");
    let attrs = strings(&["#[serde(rename_all = \"Title_Case\")]"]);
    assert_eq!(field_name("foo_bar", &strings(&[]), &attrs), "foo_bar");
    assert_eq!(variant_name("FooBar", &strings(&[]), &attrs), "FooBar");
}

#[test]
fn resolved_names_follow_the_captures() {
    assert_eq!(resolve_field_name("foo_bar", None, None), "foo_bar");
    assert_eq!(resolve_field_name("foo_bar", Some("x"), Some("camelCase")), "x");
    assert_eq!(resolve_field_name("foo_bar", None, Some("camelCase")), "fooBar");
    assert_eq!(resolve_field_name("foo_bar", None, Some("SCREAMING-KEBAB-CASE")), "FOO-BAR");
    assert_eq!(resolve_variant_name("FooBar", None, None), "FooBar");
    assert_eq!(resolve_variant_name("FooBar", Some("x"), Some("snake_case")), "x");
    assert_eq!(resolve_variant_name("FooBar", None, Some("kebab-case")), "foo-bar");
    assert_eq!(resolve_variant_name("FooBar", None, Some("bogus")), "FooBar");
}

#[test]
fn rules_are_named_by_their_tokens() {
    assert_eq!(RenameRule::from_str("lowercase"), Some(RenameRule::LowerCase));
    assert_eq!(RenameRule::from_str("UPPERCASE"), Some(RenameRule::UpperCase));
    assert_eq!(RenameRule::from_str("PascalCase"), Some(RenameRule::PascalCase));
    assert_eq!(RenameRule::from_str("camelCase"), Some(RenameRule::CamelCase));
    assert_eq!(RenameRule::from_str("snake_case"), Some(RenameRule::SnakeCase));
    assert_eq!(RenameRule::from_str("SCREAMING_SNAKE_CASE"), Some(RenameRule::ScreamingSnakeCase));
    assert_eq!(RenameRule::from_str("kebab-case"), Some(RenameRule::KebabCase));
    assert_eq!(RenameRule::from_str("SCREAMING-KEBAB-CASE"), Some(RenameRule::ScreamingKebabCase));
    assert_eq!(RenameRule::from_str("none"), None);
    assert_eq!(RenameRule::from_str("Lowercase"), None);
    assert_eq!(RenameRule::from_str(""), None);
    assert_eq!(RenameRule::for_token("none"), RenameRule::Unchanged);
    assert_eq!(RenameRule::for_token("kebab-case"), RenameRule::KebabCase);
}

#[test]
fn every_rule_on_a_variant() {
    let name = "VeryTasty";
    assert_eq!(RenameRule::Unchanged.apply_to_variant(name), "VeryTasty");
    assert_eq!(RenameRule::LowerCase.apply_to_variant(name), "verytasty");
    assert_eq!(RenameRule::UpperCase.apply_to_variant(name), "VERYTASTY");
    assert_eq!(RenameRule::PascalCase.apply_to_variant(name), "VeryTasty");
    assert_eq!(RenameRule::CamelCase.apply_to_variant(name), "veryTasty");
    assert_eq!(RenameRule::SnakeCase.apply_to_variant(name), "very_tasty");
    assert_eq!(RenameRule::ScreamingSnakeCase.apply_to_variant(name), "VERY_TASTY");
    assert_eq!(RenameRule::KebabCase.apply_to_variant(name), "very-tasty");
    assert_eq!(RenameRule::ScreamingKebabCase.apply_to_variant(name), "VERY-TASTY");
}

#[test]
fn every_rule_on_a_field() {
    let name = "very_tasty";
    assert_eq!(RenameRule::Unchanged.apply_to_field(name), "very_tasty");
    assert_eq!(RenameRule::LowerCase.apply_to_field(name), "very_tasty");
    assert_eq!(RenameRule::UpperCase.apply_to_field(name), "VERY_TASTY");
    assert_eq!(RenameRule::PascalCase.apply_to_field(name), "VeryTasty");
    assert_eq!(RenameRule::CamelCase.apply_to_field(name), "veryTasty");
    assert_eq!(RenameRule::SnakeCase.apply_to_field(name), "very_tasty");
    assert_eq!(RenameRule::ScreamingSnakeCase.apply_to_field(name), "VERY_TASTY");
    assert_eq!(RenameRule::KebabCase.apply_to_field(name), "very-tasty");
    assert_eq!(RenameRule::ScreamingKebabCase.apply_to_field(name), "VERY-TASTY");
}

#[test]
fn rules_on_short_and_odd_names() {
    assert_eq!(RenameRule::CamelCase.apply_to_variant(""), "");
    assert_eq!(RenameRule::CamelCase.apply_to_field(""), "");
    assert_eq!(RenameRule::CamelCase.apply_to_field("_"), "");
    assert_eq!(RenameRule::SnakeCase.apply_to_variant("A"), "a");
    assert_eq!(RenameRule::SnakeCase.apply_to_variant("ABC"), "a_b_c");
    assert_eq!(RenameRule::PascalCase.apply_to_field("a__b_"), "AB");
    assert_eq!(RenameRule::CamelCase.apply_to_variant("Émile"), "Émile");
    assert_eq!(RenameRule::SnakeCase.apply_to_variant("AÉtat"), "a_État");
    assert_eq!(RenameRule::UpperCase.apply_to_field("größe"), "GRößE");
}

#[test]
fn text_helpers() {
    assert_eq!(to_upper("aZ_9é"), "AZ_9é");
    assert_eq!(to_lower("aZ_9É"), "az_9É");
    assert_eq!(to_dashed("a_b__c-d"), "a-b--c-d");
    assert_eq!(to_lower_first("ABC"), "aBC");
    assert_eq!(to_snake("FooBarBaz"), "foo_bar_baz");
    assert_eq!(to_pascal("foo_bar_baz"), "FooBarBaz");
    assert_eq!(to_ascii_upper('a'), 'A');
    assert_eq!(to_ascii_upper('z'), 'Z');
    assert_eq!(to_ascii_upper('{'), '{');
    assert_eq!(to_ascii_upper('`'), '`');
    assert_eq!(to_ascii_lower('A'), 'a');
    assert_eq!(to_ascii_lower('Z'), 'z');
    assert_eq!(to_ascii_lower('['), '[');
    assert_eq!(to_ascii_lower('@'), '@');
    assert!(str_equal("abc", "abc"));
    assert!(!str_equal("abc", "abd"));
    assert!(!str_equal("abc", "ab"));
    assert!(str_equal("", ""));
}

#[test]
fn last_segment_follows_the_last_separator() {
    assert_eq!(last_segment("std::option::Option"), "Option");
    assert_eq!(last_segment("Option"), "Option");
    assert_eq!(last_segment("a:::b"), "b");
    assert_eq!(last_segment("a::"), "");
    assert_eq!(last_segment("::"), "");
    assert_eq!(last_segment(":"), ":");
    assert_eq!(last_segment(""), "");
    assert_eq!(last_segment("a:b"), "a:b");
    assert_eq!(last_segment("é::ü"), "ü");
}

#[test]
fn captures_come_from_the_attribute_shapes() {
    let attrs = strings(&[
        "#[derive(Debug)]",
        "#[serde(rename_all = \"camelCase\")]",
        "#[serde(rename = \"one\")]",
        "#[serde(with=\"serde_bytes\")]",
        "#[serde(rename   =   \"two\")]",
    ]);
    assert_eq!(find_first_capture(RENAME, &attrs), Some("one"));
    assert_eq!(find_last_capture(RENAME, &attrs), Some("two"));
    assert_eq!(find_first_capture(RENAME_ALL, &attrs), Some("camelCase"));
    assert_eq!(find_first_capture(WITH, &attrs), Some("serde_bytes"));
    assert_eq!(find_first_capture(WITH, &strings(&["#[serde(with = \"a::b\")]"])), None);
    assert_eq!(find_first_capture(RENAME, &strings(&[])), None);
    assert_eq!(find_last_capture(RENAME, &strings(&["#[serde(rename = \"\")]"])), None);
    assert!(!matches_any(SKIP, &attrs));
    assert!(matches_any(SKIP, &strings(&["x", "#[serde(skip)]"])));
    assert!(matches_any(SKIP, &strings(&["#[cfg_attr(test, doc)] #[serde(\tskip\n)]"])));
}

#[test]
fn texts_are_ranked_as_in_a_dictionary() {
    assert_eq!(rank("a", "b"), Rank::Before);
    assert_eq!(rank("b", "a"), Rank::After);
    assert_eq!(rank("abc", "abc"), Rank::Same);
    assert_eq!(rank("", ""), Rank::Same);
    assert_eq!(rank("", "a"), Rank::Before);
    assert_eq!(rank("ab", "abc"), Rank::Before);
    assert_eq!(rank("abd", "abc"), Rank::After);
    assert_eq!(rank("Z", "a"), Rank::Before);
    assert_eq!(rank("z", "é"), Rank::Before);
    assert_eq!(rank("é", "ey"), Rank::After);
}
