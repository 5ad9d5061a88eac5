use glossary_lookup::arguments::{parse_number, read_arguments, Arguments};
use glossary_lookup::error::ProgramError;

fn words(list: &[&str]) -> Vec<String> {
    list.iter().map(|word| word.to_string()).collect()
}

#[test]
fn parse_number_agrees_with_std() {
    let max = usize::MAX.to_string();
    let over = format!("{}0", usize::MAX);
    let next = "18446744073709551616";
    let texts = [
        "", "+", "-", "0", "1", "7", "007", "+5", "++5", "-5", "-0", " 5", "5 ", "5a", "a5", "1_000", "12 3",
        "4294967295", "4294967296", "18446744073709551615", next, &max, &over, "٣", "１", "0x10", "1e3", "+0", "9",
        "99999999999999999999999999", "00000000000000000000000000001",
    ];
    for text in texts {
        assert_eq!(parse_number(text), text.parse::<usize>().ok(), "{:?}", text);
    }
}

#[test]
fn parse_number_reads_decimal_digits() {
    assert_eq!(parse_number("120"), Some(120));
    assert_eq!(parse_number("+42"), Some(42));
    assert_eq!(parse_number("two"), None);
}

#[test]
fn start_position_defaults_to_one() {
    assert_eq!(
        read_arguments(&words(&["lookup", "terms.txt"])),
        Ok(Arguments { file: "terms.txt".to_string(), start_index: 1 })
    );
    assert_eq!(
        read_arguments(&words(&["lookup", "terms.txt", "seven"])),
        Ok(Arguments { file: "terms.txt".to_string(), start_index: 1 })
    );
    assert_eq!(
        read_arguments(&words(&["lookup", "terms.txt", "-3"])),
        Ok(Arguments { file: "terms.txt".to_string(), start_index: 1 })
    );
}

#[test]
fn start_position_is_read_from_the_third_word() {
    assert_eq!(
        read_arguments(&words(&["lookup", "terms.txt", "12", "ignored"])),
        Ok(Arguments { file: "terms.txt".to_string(), start_index: 12 })
    );
}

#[test]
fn missing_file_is_an_argument_error() {
    assert_eq!(read_arguments(&words(&[])), Err(ProgramError::Arg));
    assert_eq!(read_arguments(&words(&["lookup"])), Err(ProgramError::Arg));
}

#[test]
fn start_position_zero_is_an_argument_error() {
    assert_eq!(read_arguments(&words(&["lookup", "terms.txt", "0"])), Err(ProgramError::Arg));
    assert_eq!(read_arguments(&words(&["lookup", "terms.txt", "+000"])), Err(ProgramError::Arg));
}
