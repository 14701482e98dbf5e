use filetools::filenaming::{
    generate_default_timestamped_name, generate_n_digit_name, generate_name,
    generate_random_name, generate_timestamped_name, stamped_name,
};
use regex::Regex;

#[test]
fn names_get_one_dot() {
    assert_eq!(generate_name("test", ".pdf"), "test.pdf");
    assert_eq!(generate_name("test", "pdf"), "test.pdf");
    assert_eq!(generate_name("test", ""), "test");
    assert_eq!(generate_name("", ".pdf"), ".pdf");
    assert_eq!(generate_name("archive", ".tar.gz"), "archive.tar.gz");
}

#[test]
fn numbers_are_filled_with_zeros() {
    assert_eq!(generate_n_digit_name(5, 4, ".pdf"), "0005.pdf");
    assert_eq!(generate_n_digit_name(5, 4, "pdf"), "0005.pdf");
    assert_eq!(generate_n_digit_name(55, 6, "pdf"), "000055.pdf");
    assert_eq!(generate_n_digit_name(0, 3, ""), "000");
    assert_eq!(generate_n_digit_name(12345, 2, ""), "12345");
}

#[test]
fn negative_numbers_keep_their_sign_in_front() {
    assert_eq!(generate_n_digit_name(-5, 4, ""), "-005");
    assert_eq!(generate_n_digit_name(-5, 1, ""), "-5");
    assert_eq!(generate_n_digit_name(-5, 0, ""), "-5");
    assert_eq!(generate_n_digit_name(-123, 3, ".x"), "-123.x");
    assert_eq!(generate_n_digit_name(i32::MIN, 12, ""), "-02147483648");
    assert_eq!(generate_n_digit_name(i32::MAX, 12, ""), "002147483647");
}

#[test]
fn signed_numbers_agree_with_the_formatter() {
    for number in [i32::MIN, -1000, -99, -10, -9, -1, 0, 1, 9, 10, 99, 1000, i32::MAX] {
        for fill in 0usize..14 {
            let expected = format!("{:0fill$}", number, fill = fill);
            assert_eq!(generate_n_digit_name(number, fill, ""), expected);
        }
    }
}

#[test]
fn stamped_name_puts_the_stamp_after_the_stem() {
    assert_eq!(stamped_name("report", "2024", ".txt"), "report_2024.txt");
    assert_eq!(stamped_name("report", "2024", "txt"), "report_2024.txt");
    assert_eq!(stamped_name("", "2024", ".txt"), "2024.txt");
    assert_eq!(stamped_name("report", "2024", ""), "report_2024");
}

#[test]
fn default_timestamp_has_its_form() {
    let form = Regex::new(r"^test_\d{2}_\d{2}_\d{4}_\d{2}h\d{2}m\d{2}s\.pdf$").unwrap();
    assert!(form.is_match(&generate_default_timestamped_name("test", ".pdf")));
    let alone = Regex::new(r"^\d{2}_\d{2}_\d{4}_\d{2}h\d{2}m\d{2}s$").unwrap();
    assert!(alone.is_match(&generate_default_timestamped_name("", "")));
}

#[test]
fn timestamp_follows_the_format() {
    let name = generate_timestamped_name("log", ".txt", "%Y-%m-%d").unwrap();
    assert!(Regex::new(r"^log_\d{4}-\d{2}-\d{2}\.txt$").unwrap().is_match(&name));
    let name = generate_timestamped_name("", "", "at %Hh").unwrap();
    assert!(Regex::new(r"^at \d{2}h$").unwrap().is_match(&name));
    assert_eq!(generate_timestamped_name("log", "txt", "plain").unwrap(), "log_plain.txt");
    assert_eq!(generate_timestamped_name("", "", "").unwrap(), "");
}

#[test]
fn a_format_that_is_not_known_gives_no_name() {
    assert_eq!(generate_timestamped_name("log", ".txt", "%"), None);
    assert_eq!(generate_timestamped_name("log", ".txt", "%Y%"), None);
    assert_eq!(generate_timestamped_name("log", ".txt", "%?"), None);
}

#[test]
fn random_name_is_an_identifier_and_the_extension() {
    let form =
        Regex::new(r"^[0-9a-f]{8}-[0-9a-f]{4}-4[0-9a-f]{3}-[89ab][0-9a-f]{3}-[0-9a-f]{12}\.pdf$")
            .unwrap();
    assert!(form.is_match(&generate_random_name(".pdf")));
    assert!(form.is_match(&generate_random_name("pdf")));
    assert_eq!(generate_random_name("").chars().count(), 36);
}
