use hex_logo::naming::file_name;

#[test]
fn file_name_of_the_toolkit_emblem() {
    assert_eq!(
        file_name("decision-toolkit", 700_000_000, 900_000, "svg"),
        "./out/decision-toolkit-700-09.svg"
    );
}

#[test]
fn file_name_at_seven_tenths() {
    assert_eq!(
        file_name("decision-contracts", 700_000_000, 700_000, "svg"),
        "./out/decision-contracts-700-07.svg"
    );
}

#[test]
fn file_name_with_a_full_coefficient() {
    assert_eq!(file_name("logo", 64_000_000, 1_000_000, "png"), "./out/logo-64-10.png");
}

#[test]
fn file_name_rounds_size_and_coefficient() {
    assert_eq!(file_name("a", 699_500_001, 850_000, "svg"), "./out/a-700-08.svg");
    assert_eq!(file_name("a", 700_500_000, 950_000, "svg"), "./out/a-700-10.svg");
    assert_eq!(file_name("a", 12_345_600_000, 12_340_000, "svg"), "./out/a-12346-123.svg");
}

#[test]
fn file_name_keeps_the_sign_and_does_not_pad_behind_it() {
    assert_eq!(file_name("a", -700_000_000, -900_000, "svg"), "./out/a--700--9.svg");
    assert_eq!(file_name("a", 0, -40_000, "svg"), "./out/a-0--0.svg");
    assert_eq!(file_name("a", 0, 0, "svg"), "./out/a-0-00.svg");
}

#[test]
fn file_name_with_empty_parts() {
    assert_eq!(file_name("", 1_000_000, 100_000, ""), "./out/-1-01.");
}

#[test]
fn file_name_at_the_ends_of_the_range() {
    assert_eq!(
        file_name("a", i64::MAX, i64::MAX, "svg"),
        "./out/a-9223372036855-92233720368548.svg"
    );
    assert_eq!(
        file_name("a", i64::MIN, i64::MIN, "svg"),
        "./out/a--9223372036855--92233720368548.svg"
    );
}
