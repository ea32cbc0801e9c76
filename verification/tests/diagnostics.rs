use courier::error::{get_err_type_string, CourierError, CourierErrorType};
use courier::text::{decimal_string, push_decimal, to_chars};

fn failure(err_type: CourierErrorType, line_num: u32, col_num: u32, msg: &str) -> CourierError {
    CourierError { err_type, line_num, col_num, msg: msg.to_string() }
}

#[test]
fn every_kind_has_its_label() {
    assert_eq!(get_err_type_string(&CourierErrorType::FileError), "File Error");
    assert_eq!(get_err_type_string(&CourierErrorType::UnknownSymbol), "Unknown Symbol");
    for kind in [CourierErrorType::FileError, CourierErrorType::UnknownSymbol] {
        let label = match kind {
            CourierErrorType::FileError => "File Error",
            CourierErrorType::UnknownSymbol => "Unknown Symbol",
        };
        assert_eq!(get_err_type_string(&kind), label);
    }
}

#[test]
fn a_failure_with_place_and_message_is_rendered_whole() {
    let e = failure(CourierErrorType::UnknownSymbol, 3, 7, "Unrecognized character '@'");
    assert_eq!(e.render("Error"), "Error [3:7] Unknown Symbol: Unrecognized character '@'\n");
}

#[test]
fn a_failure_without_place_is_rendered_without_brackets() {
    let e = failure(CourierErrorType::FileError, 0, 0, "Failed to open file 'a' (b)");
    assert_eq!(e.render("Error"), "Error File Error: Failed to open file 'a' (b)\n");
    let e = failure(CourierErrorType::FileError, 0, 5, "m");
    assert_eq!(e.render("Error"), "Error File Error: m\n");
    assert!(!e.render("Error").contains('['));
}

#[test]
fn a_failure_without_message_is_rendered_without_colon() {
    let e = failure(CourierErrorType::UnknownSymbol, 2, 1, "");
    assert_eq!(e.render("Error"), "Error [2:1] Unknown Symbol\n");
    assert!(!e.render("Error").contains(": "));
    let e = failure(CourierErrorType::FileError, 0, 0, "");
    assert_eq!(e.render("Error"), "Error File Error\n");
}

#[test]
fn a_column_of_zero_is_rendered_where_the_line_is_not() {
    let e = failure(CourierErrorType::UnknownSymbol, 1, 0, "x");
    assert_eq!(e.render("Error"), "Error [1:0] Unknown Symbol: x\n");
}

#[test]
fn the_largest_place_is_rendered_in_full() {
    let e = failure(CourierErrorType::UnknownSymbol, u32::MAX, 1_000_000, "far");
    assert_eq!(e.render("Error"), "Error [4294967295:1000000] Unknown Symbol: far\n");
}

#[test]
fn the_tag_is_rendered_as_given() {
    let e = failure(CourierErrorType::FileError, 0, 0, "m");
    assert_eq!(e.render(""), " File Error: m\n");
    assert_eq!(e.render("\u{1b}[31mError\u{1b}[0m"), "\u{1b}[31mError\u{1b}[0m File Error: m\n");
}

#[test]
fn a_report_is_red_where_colours_are_on_and_plain_where_they_are_off() {
    let e = failure(CourierErrorType::UnknownSymbol, 4, 2, "Unrecognized character '@'");
    colored::control::set_override(true);
    assert_eq!(
        e.report(),
        "\u{1b}[31mError\u{1b}[0m [4:2] Unknown Symbol: Unrecognized character '@'\n"
    );
    colored::control::set_override(false);
    assert_eq!(e.report(), "Error [4:2] Unknown Symbol: Unrecognized character '@'\n");
    colored::control::unset_override();
    let line = e.report();
    assert!(
        line == "Error [4:2] Unknown Symbol: Unrecognized character '@'\n"
            || line == "\u{1b}[31mError\u{1b}[0m [4:2] Unknown Symbol: Unrecognized character '@'\n"
    );
}

#[test]
fn a_report_ends_as_its_rendering_does() {
    let e = failure(CourierErrorType::FileError, 0, 0, "");
    let line = e.report();
    assert!(line.ends_with(" File Error\n"));
    assert!(line.starts_with("Error ") || line.starts_with("\u{1b}[31mError\u{1b}[0m "));
}

#[test]
fn a_file_error_names_path_and_description() {
    let e = CourierError::file_error("src/main.cr", "Permission denied (os error 13)");
    assert_eq!(e.err_type, CourierErrorType::FileError);
    assert_eq!(e.line_num, 0);
    assert_eq!(e.col_num, 0);
    assert_eq!(e.msg, "Failed to open file 'src/main.cr' (Permission denied (os error 13))");
    assert_eq!(&e.msg[21..21 + "src/main.cr".len()], "src/main.cr");
    assert_eq!(
        e.render("Error"),
        "Error File Error: Failed to open file 'src/main.cr' (Permission denied (os error 13))\n"
    );
}

#[test]
fn a_file_error_with_empty_parts_keeps_its_frame() {
    let e = CourierError::file_error("", "");
    assert_eq!(e.msg, "Failed to open file '' ()");
}

#[test]
fn an_unknown_symbol_names_the_character() {
    let e = CourierError::unknown_symbol(12, 34, '@');
    assert_eq!(e.err_type, CourierErrorType::UnknownSymbol);
    assert_eq!(e.line_num, 12);
    assert_eq!(e.col_num, 34);
    assert_eq!(e.msg, "Unrecognized character '@'");
    assert_eq!(e.render("Error"), "Error [12:34] Unknown Symbol: Unrecognized character '@'\n");
    let e = CourierError::unknown_symbol(1, 1, 'é');
    assert_eq!(e.msg, "Unrecognized character 'é'");
}

#[test]
fn numbers_are_written_in_decimal() {
    assert_eq!(decimal_string(0), "0");
    assert_eq!(decimal_string(7), "7");
    assert_eq!(decimal_string(9), "9");
    assert_eq!(decimal_string(10), "10");
    assert_eq!(decimal_string(105), "105");
    assert_eq!(decimal_string(1000), "1000");
    assert_eq!(decimal_string(4294967295), "4294967295");
    for n in [1u32, 19, 20, 99, 100, 101, 65535, 65536, 123456789] {
        assert_eq!(decimal_string(n), n.to_string());
    }
}

#[test]
fn a_number_is_appended_behind_what_is_there() {
    let mut s = String::from("line ");
    push_decimal(&mut s, 42);
    assert_eq!(s, "line 42");
    push_decimal(&mut s, 0);
    assert_eq!(s, "line 420");
}

#[test]
fn the_characters_of_a_text_come_in_order() {
    assert_eq!(to_chars(""), Vec::<char>::new());
    assert_eq!(to_chars("aé\n€"), vec!['a', 'é', '\n', '€']);
}

#[test]
fn a_copy_of_a_failure_says_the_same() {
    let e = CourierError::unknown_symbol(5, 6, '@');
    let copy = e.clone();
    assert_eq!(copy, e);
    assert_eq!(copy.msg, "Unrecognized character '@'");
    assert_eq!((copy.err_type, copy.line_num, copy.col_num), (CourierErrorType::UnknownSymbol, 5, 6));
}
