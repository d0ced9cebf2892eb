use banking_stage_sidecar::query::{_multiline_query, push_decimal};

fn built(args: usize, rows: usize, types: &[&str]) -> String {
    let mut query = String::from("VALUES ");
    _multiline_query(&mut query, args, rows, types);
    query
}

#[test]
fn typed_first_row_then_plain_rows() {
    assert_eq!(built(2, 2, &["int", "text"]), "VALUES (($1)::int,($2)::text),($3,$4)");
}

#[test]
fn untyped_rows_number_parameters_through() {
    assert_eq!(built(3, 2, &[]), "VALUES ($1,$2,$3),($4,$5,$6)");
}

#[test]
fn no_rows_append_nothing() {
    assert_eq!(built(3, 0, &[]), "VALUES ");
}

#[test]
fn rows_without_parameters_are_empty_brackets() {
    assert_eq!(built(0, 3, &[]), "VALUES (),(),()");
}

#[test]
fn parameter_numbers_have_all_their_digits() {
    assert_eq!(
        built(4, 3, &[]),
        "VALUES ($1,$2,$3,$4),($5,$6,$7,$8),($9,$10,$11,$12)"
    );
}

#[test]
fn only_as_many_types_as_parameters_are_used() {
    assert_eq!(built(1, 2, &["bool", "int"]), "VALUES (($1)::bool),($2)");
}

#[test]
fn push_decimal_matches_display() {
    for n in [0usize, 1, 9, 10, 11, 99, 100, 101, 12345, 1_000_000, usize::MAX] {
        let mut s = String::from("x");
        push_decimal(&mut s, n);
        assert_eq!(s, format!("x{}", n));
    }
}

#[test]
fn no_rows_append_nothing_whatever_the_types() {
    assert_eq!(built(3, 0, &["int"]), "VALUES ");
    assert_eq!(built(0, 0, &["int", "text"]), "VALUES ");
}
