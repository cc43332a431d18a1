use vec2d::bounds::push_decimal;
use vec2d::OutOfBounds;

#[test]
fn message_names_dimensions_then_pair() {
    let e = OutOfBounds { width: 3, height: 2, x: 3, y: 0 };
    assert_eq!(
        e.message(),
        "index out of bounds: the len is (3, 2) but the index is (3, 0)"
    );
    let e = OutOfBounds { width: 3, height: 2, x: 0, y: 2 };
    assert_eq!(
        e.message(),
        "index out of bounds: the len is (3, 2) but the index is (0, 2)"
    );
}

#[test]
fn message_writes_long_numbers_in_full() {
    let e = OutOfBounds { width: 1024, height: 0, x: 987654321, y: 10 };
    assert_eq!(
        e.message(),
        "index out of bounds: the len is (1024, 0) but the index is (987654321, 10)"
    );
}

#[test]
fn push_decimal_matches_the_usual_numeral() {
    for n in [0usize, 1, 9, 10, 11, 99, 100, 101, 12345, 1000000, usize::MAX] {
        let mut out = String::from("n=");
        push_decimal(&mut out, n);
        assert_eq!(out, format!("n={}", n));
    }
}
