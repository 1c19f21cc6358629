use fundamentals::classify::classify_token;
use fundamentals::classify::Paradigm;

#[test]
fn even_byte_length_is_functional() {
    assert_eq!(classify_token("Lisp".len()), Paradigm::Functional);
    assert_eq!(classify_token("".len()), Paradigm::Functional);
}

#[test]
fn odd_byte_length_is_imperative() {
    assert_eq!(classify_token("Fortran".len()), Paradigm::Imperative);
    assert_eq!(classify_token("C".len()), Paradigm::Imperative);
}

#[test]
fn classification_prints_its_name() {
    assert_eq!(Paradigm::Functional.as_text(), "functional");
    assert_eq!(Paradigm::Imperative.as_text(), "imperative");
}
