use logic_sim::text::{push_padded_int, push_signed_decimal};

#[test]
fn signed_decimals_print_as_format_does_down_to_the_smallest_value() {
    for v in [0i64, 7, -7, 1234, i64::MAX, i64::MIN, i64::MIN + 1] {
        let mut s = String::from("x=");
        push_signed_decimal(&mut s, v);
        assert_eq!(s, format!("x={v}"));
    }
}

#[test]
fn padded_ints_print_as_format_does_down_to_the_smallest_value() {
    for (v, width) in [(5i64, 4usize), (-5, 4), (12345, 2), (i64::MIN, 25), (i64::MIN, 0)] {
        let mut s = String::new();
        push_padded_int(&mut s, v, width);
        assert_eq!(s, format!("{v:0width$}"));
    }
}
