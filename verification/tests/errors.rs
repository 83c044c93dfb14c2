use review_stats::errors::{Error, ErrorType};
use review_stats::file::file_init::read_console;

fn words(items: &[&str]) -> Vec<String> {
    items.iter().map(|item| item.to_string()).collect()
}

#[test]
fn error_line_shows_kind_and_message() {
    let error =
        Error { type_error: ErrorType::InputError, message: "Invalid arguments".to_string() };
    assert_eq!(error.to_text(), "[Input Error]: Invalid arguments");
}

#[test]
fn every_kind_has_its_label() {
    assert_eq!(ErrorType::InputError.label(), "Input Error");
    assert_eq!(ErrorType::IOError.label(), "IO Error");
    assert_eq!(ErrorType::InvalidPath.label(), "Invalid Path Error");
    assert_eq!(ErrorType::ColumnsError.label(), "Columns Error");
    assert_eq!(ErrorType::RecordError.label(), "Record Error");
}

#[test]
fn error_lines_of_every_kind() {
    assert_eq!(Error::new(ErrorType::IOError, "disk full").to_text(), "[IO Error]: disk full");
    assert_eq!(
        Error::new(ErrorType::InvalidPath, "no such directory").to_text(),
        "[Invalid Path Error]: no such directory"
    );
    assert_eq!(
        Error::new(ErrorType::ColumnsError, "Column 'review' not found").to_text(),
        "[Columns Error]: Column 'review' not found"
    );
    assert_eq!(Error::new(ErrorType::RecordError, "").to_text(), "[Record Error]: ");
}

#[test]
fn error_new_keeps_kind_and_message() {
    let error = Error::new(ErrorType::RecordError, "bad row");
    assert_eq!(error.type_error, ErrorType::RecordError);
    assert_eq!(error.message, "bad row");
}

#[test]
fn command_line_with_three_arguments_is_accepted() {
    let console = words(&["program", "input", "4", "output.json"]);
    let checked = read_console(console.clone()).unwrap();
    assert_eq!(checked, console);
}

#[test]
fn command_line_with_two_arguments_is_an_input_error() {
    let error = read_console(words(&["program", "input", "4"])).unwrap_err();
    assert_eq!(error.type_error, ErrorType::InputError);
    assert_eq!(error.message, "Invalid arguments");
    assert_eq!(error.to_text(), "[Input Error]: Invalid arguments");
}

#[test]
fn command_line_with_four_arguments_is_an_input_error() {
    let error = read_console(words(&["program", "input", "4", "output.json", "more"])).unwrap_err();
    assert_eq!(error.type_error, ErrorType::InputError);
}

#[test]
fn command_line_without_arguments_is_an_input_error() {
    let error = read_console(words(&["program"])).unwrap_err();
    assert_eq!(error.type_error, ErrorType::InputError);
    let error = read_console(Vec::new()).unwrap_err();
    assert_eq!(error.type_error, ErrorType::InputError);
}
