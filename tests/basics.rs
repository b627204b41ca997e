use interprust::basics::{
    rust_add, rust_array_max, rust_array_sum, rust_factorial, rust_fizzbuzz, rust_is_palindrome,
    rust_point_distance_squared, rust_strlen, rust_sum_of_squares, FizzBuzz, Point,
};
use interprust::canvas::{draw_demo, fill_rect, BUF_LEN, WIDTH};

#[test]
fn add_two_numbers() {
    assert_eq!(rust_add(2, 3), 5);
    assert_eq!(rust_add(-7, 3), -4);
}

#[test]
fn factorials() {
    assert_eq!(rust_factorial(0), 1);
    assert_eq!(rust_factorial(1), 1);
    assert_eq!(rust_factorial(5), 120);
    assert_eq!(rust_factorial(12), 479001600);
}

#[test]
fn strlen_stops_at_nul() {
    assert_eq!(rust_strlen(b"hello\0world"), 5);
    assert_eq!(rust_strlen(b"\0"), 0);
    assert_eq!(rust_strlen(b"abc"), 3);
    assert_eq!(rust_strlen(b""), 0);
}

#[test]
fn palindromes() {
    assert!(rust_is_palindrome(b"racecar\0xyz"));
    assert!(rust_is_palindrome(b"abba"));
    assert!(rust_is_palindrome(b"\0"));
    assert!(!rust_is_palindrome(b"abca\0"));
    assert!(!rust_is_palindrome(b"ab"));
}

#[test]
fn fizzbuzz_first_fifteen() {
    let r = rust_fizzbuzz(15);
    assert_eq!(r.len(), 15);
    assert_eq!(r[0], FizzBuzz::Number(1));
    assert_eq!(r[2], FizzBuzz::Fizz);
    assert_eq!(r[4], FizzBuzz::Buzz);
    assert_eq!(r[13], FizzBuzz::Number(14));
    assert_eq!(r[14], FizzBuzz::FizzBuzz);
    assert!(rust_fizzbuzz(0).is_empty());
}

#[test]
fn distance_between_points() {
    let a = Point { x: 1, y: 2 };
    let b = Point { x: 4, y: 6 };
    assert_eq!(rust_point_distance_squared(a, b), 25);
    assert_eq!(rust_point_distance_squared(a, a), 0);
}

#[test]
fn array_sum_and_max() {
    assert_eq!(rust_array_sum(&[1, -2, 30]), 29);
    assert_eq!(rust_array_sum(&[]), 0);
    assert_eq!(rust_array_max(&[3, 9, -1, 9, 2]), 9);
    assert_eq!(rust_array_max(&[-5, -3]), -3);
    assert_eq!(rust_array_max(&[]), 0);
}

#[test]
fn sums_of_squares() {
    assert_eq!(rust_sum_of_squares(0), 0);
    assert_eq!(rust_sum_of_squares(3), 14);
    assert_eq!(rust_sum_of_squares(10), 385);
}

#[test]
fn fill_rect_paints_only_the_rectangle() {
    let mut buf = vec![0u8; 20];
    fill_rect(&mut buf, 5, 1, 1, 3, 2, 9);
    assert_eq!(
        buf,
        vec![0, 0, 0, 0, 0, 0, 9, 9, 9, 0, 0, 9, 9, 9, 0, 0, 0, 0, 0, 0]
    );
}

#[test]
fn fill_rect_rows_may_wrap() {
    let mut buf = vec![0u8; 10];
    // Rows of 4 bytes; a rectangle 3 wide starting at column 2 runs into
    // the next row.
    fill_rect(&mut buf, 4, 2, 0, 3, 2, 5);
    assert_eq!(buf, vec![0, 0, 5, 5, 5, 0, 5, 5, 5, 0]);
}

#[test]
fn fill_rect_last_row_may_end_early() {
    let mut buf = vec![1u8; 7];
    fill_rect(&mut buf, 4, 0, 1, 3, 1, 8);
    assert_eq!(buf, vec![1, 1, 1, 1, 8, 8, 8]);
}

#[test]
fn fill_rect_empty_rectangle_changes_nothing() {
    let mut buf = vec![3u8; 4];
    fill_rect(&mut buf, 2, 0, 0, 0, 5, 9);
    fill_rect(&mut buf, 2, 1, 7, 1, 0, 9);
    assert_eq!(buf, vec![3, 3, 3, 3]);
}

#[test]
fn fill_rect_twice_is_fill_once() {
    let mut once = vec![0u8; 12];
    fill_rect(&mut once, 3, 1, 1, 2, 2, 4);
    let mut twice = once.clone();
    fill_rect(&mut twice, 3, 1, 1, 2, 2, 4);
    assert_eq!(once, twice);
}

#[test]
fn demo_panel_pixels() {
    let mut buf = vec![0xEEu8; BUF_LEN + 3];
    draw_demo(&mut buf);
    let at = |x: usize, y: usize| buf[y * WIDTH + x];
    assert_eq!(at(0, 0), 15);
    assert_eq!(at(10, 5), 1);
    assert_eq!(at(10, 20), 7);
    assert_eq!(at(499, 100), 0);
    assert_eq!(at(10, 349), 0);
    assert_eq!(at(100, 55), 9);
    assert_eq!(at(100, 70), 15);
    assert_eq!(at(80, 100), 2);
    assert_eq!(at(200, 100), 3);
    assert_eq!(at(300, 100), 4);
    assert_eq!(at(150, 200), 5);
    assert_eq!(at(250, 200), 6);
    assert_eq!(buf[BUF_LEN], 0xEE);
}
