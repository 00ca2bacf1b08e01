use aysinvi::ast::lib::{copy_names, AyType, ComparisonOperator, Multiplier};
use aysinvi::highlight::{highlight_aysinvi, split_words, ElemType};
use aysinvi::text::{
    blank, char_is_whitespace, chars_of, decimal, lines_of, same_chars, same_str, string_of,
    trim_end_len,
};

fn function(args: Vec<AyType>, result: AyType) -> AyType {
    AyType::Function { args, result: Box::new(result) }
}

#[test]
fn white_space_is_what_the_standard_library_says() {
    for code in 0..=0x10FFFFu32 {
        if let Some(c) = char::from_u32(code) {
            assert_eq!(char_is_whitespace(c), c.is_whitespace(), "U+{:04X}", code);
        }
    }
}

#[test]
fn a_string_and_its_characters_convert_both_ways() {
    assert_eq!(chars_of("sìk"), vec!['s', 'ì', 'k']);
    assert_eq!(chars_of(""), Vec::<char>::new());
    assert_eq!(string_of(&vec!['t', 'ì', 'y']), "tìy");
    assert!(same_str("lì'ukìng", "lì'ukìng"));
    assert!(!same_str("teng", "ten"));
    assert!(!same_str("teng", "tegn"));
    assert!(same_chars(&vec![], &vec![]));
}

#[test]
fn numbers_are_written_in_base_ten() {
    assert_eq!(string_of(&decimal(0)), "0");
    assert_eq!(string_of(&decimal(9)), "9");
    assert_eq!(string_of(&decimal(10)), "10");
    assert_eq!(string_of(&decimal(1203)), "1203");
    assert_eq!(string_of(&decimal(u128::MAX)), u128::MAX.to_string());
}

#[test]
fn a_text_is_cut_at_its_line_feeds() {
    let lines = |text: &str| -> Vec<String> {
        lines_of(&chars_of(text)).iter().map(string_of).collect()
    };
    assert_eq!(lines(""), vec![""]);
    assert_eq!(lines("a"), vec!["a"]);
    assert_eq!(lines("a\nb"), vec!["a", "b"]);
    assert_eq!(lines("a\n"), vec!["a", ""]);
    assert_eq!(lines("\n\na\r\n"), vec!["", "", "a\r", ""]);
}

#[test]
fn blank_lines_and_trailing_space_are_told() {
    assert!(blank(&chars_of("")));
    assert!(blank(&chars_of(" \t\u{3000}")));
    assert!(!blank(&chars_of(" a ")));
    assert_eq!(trim_end_len(&chars_of("ab  \t")), 2);
    assert_eq!(trim_end_len(&chars_of("  ab")), 4);
    assert_eq!(trim_end_len(&chars_of("   ")), 0);
    assert_eq!(trim_end_len(&chars_of("")), 0);
}

#[test]
fn types_are_named_as_they_are_built() {
    assert_eq!(AyType::Bool.name(), "Bool");
    assert_eq!(AyType::Number.name(), "Number");
    assert_eq!(AyType::String.name(), "String");
    assert_eq!(AyType::Array(Box::new(AyType::Array(Box::new(AyType::Bool)))).name(), "Array(Array(Bool))");
    assert_eq!(function(vec![], AyType::Bool).name(), "Function { args: [], result: Bool }");
    assert_eq!(
        function(vec![AyType::Number], AyType::String).name(),
        "Function { args: [Number], result: String }"
    );
    let nested = function(
        vec![AyType::Number, function(vec![AyType::Bool], AyType::Bool), AyType::String],
        AyType::Array(Box::new(AyType::Number)),
    );
    assert_eq!(nested.name(), format!("{:?}", nested));
}

#[test]
fn types_are_the_same_when_they_are_built_alike() {
    let a = function(vec![AyType::Number, AyType::Array(Box::new(AyType::Bool))], AyType::String);
    let b = function(vec![AyType::Number, AyType::Array(Box::new(AyType::Bool))], AyType::String);
    let c = function(vec![AyType::Number, AyType::Array(Box::new(AyType::Number))], AyType::String);
    let d = function(vec![AyType::Number], AyType::String);
    let e = function(vec![AyType::Number, AyType::Array(Box::new(AyType::Bool))], AyType::Bool);
    assert!(a.same(&b));
    assert!(!a.same(&c));
    assert!(!a.same(&d));
    assert!(!a.same(&e));
    assert!(!AyType::Bool.same(&AyType::Number));
    assert!(!AyType::Array(Box::new(AyType::Bool)).same(&AyType::Bool));
    assert_eq!(a.clone(), a);
    assert_eq!(AyType::default(), AyType::Bool);
}

#[test]
fn the_words_for_operators_are_read() {
    assert_eq!(Multiplier::parse("melo"), Some(Multiplier::Double));
    assert_eq!(Multiplier::parse("pxelo"), Some(Multiplier::Triple));
    assert_eq!(Multiplier::parse("tsìng"), None);
    assert_eq!(Multiplier::parse(""), None);
    assert_eq!(Multiplier::Double.factor(), 2);
    assert_eq!(Multiplier::Triple.factor(), 3);
    assert_eq!(ComparisonOperator::parse("teng"), Some(ComparisonOperator::Equals));
    assert_eq!(ComparisonOperator::parse("Teng"), None);
    assert_eq!(ComparisonOperator::parse("Equals"), None);
    assert_eq!("melo".parse::<Multiplier>(), Ok(Multiplier::Double));
    assert_eq!("pxelo".parse::<Multiplier>(), Ok(Multiplier::Triple));
    assert_eq!("Double".parse::<Multiplier>(), Err(()));
    assert_eq!("teng".parse::<ComparisonOperator>(), Ok(ComparisonOperator::Equals));
    assert_eq!("".parse::<ComparisonOperator>(), Err(()));
}

#[test]
fn names_are_copied() {
    let names = vec!["a".to_string(), "lì'u".to_string()];
    assert_eq!(copy_names(&names), names);
    assert_eq!(copy_names(&vec![]), Vec::<String>::new());
}

#[test]
fn a_text_is_cut_into_words_and_delimiters() {
    assert_eq!(split_words(""), vec![]);
    assert_eq!(split_words("ngop"), vec![(ElemType::Word, "ngop")]);
    assert_eq!(
        split_words("a, b.c"),
        vec![
            (ElemType::Word, "a"),
            (ElemType::Delimiter, ","),
            (ElemType::Delimiter, " "),
            (ElemType::Word, "b"),
            (ElemType::Delimiter, "."),
            (ElemType::Word, "c"),
        ]
    );
    assert_eq!(
        split_words(" sì\n"),
        vec![(ElemType::Delimiter, " "), (ElemType::Word, "sì"), (ElemType::Delimiter, "\n")]
    );
    assert_eq!(
        split_words("..\u{a0}"),
        vec![
            (ElemType::Delimiter, "."),
            (ElemType::Delimiter, "."),
            (ElemType::Delimiter, "\u{a0}"),
        ]
    );
}

#[test]
fn words_are_painted_by_kind() {
    assert_eq!(highlight_aysinvi(""), "");
    assert_eq!(highlight_aysinvi("ngop"), "\x1b[0;33mngop\x1b[0m");
    assert_eq!(highlight_aysinvi("lì'ukìng"), "\x1b[1;33mlì'ukìng\x1b[0m");
    assert_eq!(highlight_aysinvi("7"), "\x1b[0;31m7\x1b[0m");
    assert_eq!(highlight_aysinvi("livu"), "\x1b[0;32mlivu\x1b[0m");
    assert_eq!(highlight_aysinvi("txokefyaw"), "\x1b[0;35mtxokefyaw\x1b[0m");
    assert_eq!(highlight_aysinvi("ulte"), "\x1b[0;36multe\x1b[0m");
    assert_eq!(highlight_aysinvi("taron"), "\x1b[1;34mtaron\x1b[0m");
    assert_eq!(highlight_aysinvi("77"), "\x1b[1;34m77\x1b[0m");
}

#[test]
fn delimiters_stay_as_they_are() {
    assert_eq!(
        highlight_aysinvi("ngop a, b.\n"),
        "\x1b[0;33mngop\x1b[0m \x1b[1;34ma\x1b[0m, \x1b[1;34mb\x1b[0m.\n"
    );
    assert_eq!(highlight_aysinvi(" ,.\t"), " ,.\t");
}

#[test]
fn every_word_of_a_string_has_the_colour_of_strings() {
    assert_eq!(
        highlight_aysinvi("ngop san ngop x sìk ngop"),
        "\x1b[0;33mngop\x1b[0m \x1b[0;31msan\x1b[0m \x1b[0;31mngop\x1b[0m \x1b[0;31mx\x1b[0m \
         \x1b[0;31msìk\x1b[0m \x1b[0;33mngop\x1b[0m"
    );
    assert_eq!(
        highlight_aysinvi("san a"),
        "\x1b[0;31msan\x1b[0m \x1b[0;31ma\x1b[0m"
    );
    assert_eq!(
        highlight_aysinvi("sìk fa"),
        "\x1b[0;31msìk\x1b[0m \x1b[0;32mfa\x1b[0m"
    );
    assert_eq!(
        highlight_aysinvi("san san sìk sìk a"),
        "\x1b[0;31msan\x1b[0m \x1b[0;31msan\x1b[0m \x1b[0;31msìk\x1b[0m \x1b[0;31msìk\x1b[0m \
         \x1b[1;34ma\x1b[0m"
    );
}
