use doit::lexer::validation::{is_nomenclature, is_number, is_whitespace};

#[test]
fn test_is_whitespace() {
    " \n\t\r".chars().for_each(|c| assert!(is_whitespace(&c)));
    "abcdefghijklmnopqrstuvwxyz!@#$%^&*()-=`~'\":;/\\,<>+_"
        .chars()
        .for_each(|c| assert!(!is_whitespace(&c)));
}

#[test]
fn test_is_number() {
    "0123456789.".chars().for_each(|c| assert!(is_number(&c)));
    "abcdefghijklmnopqrstuvwxyz \r\n\t!@#$%^&*()-=`~'\":;/\\,<>+_"
        .chars()
        .for_each(|c| assert!(!is_number(&c)));
}

#[test]
fn test_is_nomenclature() {
    "abcdefghijklmnopqrstuvwxyz0123456789_"
        .chars()
        .for_each(|c| assert!(is_nomenclature(&c, false)));
    "abcdefghijklmnopqrstuvwxyz"
        .chars()
        .for_each(|c| assert!(is_nomenclature(&c, true)));
    " \r\n\t!@#$%^&*()-=`~'\":;/\\,<>+"
        .chars()
        .filter(|c| *c != '-')
        .for_each(|c| assert!(!is_nomenclature(&c, false)));
    assert!(is_nomenclature(&'-', false));
}

#[test]
fn nomenclature_rejects_digits_and_marks_in_first_place() {
    "0123456789_-".chars().for_each(|c| assert!(!is_nomenclature(&c, true)));
    assert!(is_nomenclature(&'-', false));
}
