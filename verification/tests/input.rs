use unrot::input::{parse_choice, ParseError, ParsedInput};

#[test]
fn skip_variants() {
    assert_eq!(parse_choice("s", 0), Ok(ParsedInput::Skip));
    assert_eq!(parse_choice("skip", 0), Ok(ParsedInput::Skip));
    assert_eq!(parse_choice("S", 0), Ok(ParsedInput::Skip));
    assert_eq!(parse_choice("SKIP", 0), Ok(ParsedInput::Skip));
}

#[test]
fn remove_variants() {
    assert_eq!(parse_choice("r", 0), Ok(ParsedInput::Remove));
    assert_eq!(parse_choice("remove", 0), Ok(ParsedInput::Remove));
    assert_eq!(parse_choice("R", 0), Ok(ParsedInput::Remove));
}

#[test]
fn custom_path_variants() {
    assert_eq!(parse_choice("c", 0), Ok(ParsedInput::CustomPath));
    assert_eq!(parse_choice("custom", 0), Ok(ParsedInput::CustomPath));
    assert_eq!(parse_choice("C", 0), Ok(ParsedInput::CustomPath));
}

#[test]
fn valid_candidate_selection() {
    assert_eq!(parse_choice("1", 3), Ok(ParsedInput::SelectCandidate(0)));
    assert_eq!(parse_choice("3", 3), Ok(ParsedInput::SelectCandidate(2)));
}

#[test]
fn selection_out_of_range() {
    assert_eq!(
        parse_choice("4", 3),
        Err(ParseError::InvalidSelection { given: 4, max: 3 })
    );
    assert_eq!(
        parse_choice("0", 3),
        Err(ParseError::InvalidSelection { given: 0, max: 3 })
    );
}

#[test]
fn selection_with_no_candidates() {
    assert_eq!(
        parse_choice("1", 0),
        Err(ParseError::InvalidSelection { given: 1, max: 0 })
    );
}

#[test]
fn empty_input() {
    assert_eq!(parse_choice("", 3), Err(ParseError::Empty));
    assert_eq!(parse_choice("   ", 3), Err(ParseError::Empty));
}

#[test]
fn unrecognized_input() {
    assert_eq!(
        parse_choice("xyz", 3),
        Err(ParseError::Unrecognized("xyz".to_string()))
    );
}

#[test]
fn whitespace_trimmed() {
    assert_eq!(
        parse_choice("  2  ", 3),
        Ok(ParsedInput::SelectCandidate(1))
    );
    assert_eq!(parse_choice(" s ", 0), Ok(ParsedInput::Skip));
}

#[test]
fn error_display_messages() {
    assert_eq!(ParseError::Empty.to_string(), "no input provided");
    assert_eq!(
        ParseError::InvalidSelection { given: 5, max: 3 }.to_string(),
        "selection 5 is out of range (1-3)"
    );
    assert_eq!(
        ParseError::Unrecognized("foo".into()).to_string(),
        "unrecognized input: foo"
    );
}

#[test]
fn plus_sign_and_mixed_case_are_accepted() {
    assert_eq!(parse_choice("+2", 3), Ok(ParsedInput::SelectCandidate(1)));
    assert_eq!(parse_choice("SkIp", 1), Ok(ParsedInput::Skip));
    assert_eq!(parse_choice("ReMoVe", 1), Ok(ParsedInput::Remove));
    assert_eq!(parse_choice("CUSTOM", 1), Ok(ParsedInput::CustomPath));
}

#[test]
fn signs_and_overflow_are_unrecognized() {
    assert_eq!(parse_choice("-1", 3), Err(ParseError::Unrecognized("-1".to_string())));
    assert_eq!(parse_choice("+", 3), Err(ParseError::Unrecognized("+".to_string())));
    let huge = "99999999999999999999999999";
    assert_eq!(parse_choice(huge, 3), Err(ParseError::Unrecognized(huge.to_string())));
    assert_eq!(parse_choice("1 2", 3), Err(ParseError::Unrecognized("1 2".to_string())));
}

#[test]
fn unicode_whitespace_is_trimmed() {
    assert_eq!(parse_choice("\t\u{3000}3\u{a0}\n", 3), Ok(ParsedInput::SelectCandidate(2)));
    assert_eq!(parse_choice("\u{2003}\u{2028}", 3), Err(ParseError::Empty));
    assert_eq!(
        parse_choice("  Foo Bar  ", 3),
        Err(ParseError::Unrecognized("Foo Bar".to_string()))
    );
}

#[test]
fn shown_numbers_select_their_candidate() {
    for n in 1..=12usize {
        for i in 0..n {
            let shown = (i + 1).to_string();
            assert_eq!(parse_choice(&shown, n), Ok(ParsedInput::SelectCandidate(i)));
        }
    }
}

#[test]
fn surrounding_whitespace_never_matters() {
    for word in ["s", "r", "c", "2", "", "zz", "SKIP"] {
        let padded = format!(" \t{word}\r\n ");
        assert_eq!(parse_choice(&padded, 3), parse_choice(word, 3));
    }
}
