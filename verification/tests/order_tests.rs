use gif_maker::delay::delay_for;
use gif_maker::frames::ImageFile;
use gif_maker::order::{order_key_of, sort_files};

fn file(name: &str) -> ImageFile {
    ImageFile { name: String::from(name), bytes: Vec::new() }
}

fn names(files: &[ImageFile]) -> Vec<String> {
    files.iter().map(|f| f.name.clone()).collect()
}

#[test]
fn order_key_exact_values() {
    assert_eq!(order_key_of("10.png"), 10);
    assert_eq!(order_key_of("2.png"), 2);
    assert_eq!(order_key_of("-3.png"), -3);
    assert_eq!(order_key_of("7.part.png"), 7);
    assert_eq!(order_key_of("42"), 42);
    assert_eq!(order_key_of("frame.png"), 0);
    assert_eq!(order_key_of(".hidden"), 0);
    assert_eq!(order_key_of(""), 0);
    assert_eq!(order_key_of("99999999999999999999.png"), 0);
}

#[test]
fn numeric_order_not_lexicographic() {
    let files = vec![file("2.png"), file("10.png"), file("1.png")];
    let sorted = sort_files(files);
    assert_eq!(names(&sorted), vec!["1.png", "2.png", "10.png"]);
}

#[test]
fn fallback_key_sorts_as_zero() {
    let files = vec![file("frame.png"), file("-1.png"), file("1.png")];
    let sorted = sort_files(files);
    assert_eq!(names(&sorted), vec!["-1.png", "frame.png", "1.png"]);
}

#[test]
fn equal_keys_keep_input_order() {
    let files = vec![file("b.png"), file("0.png"), file("a.png"), file("frame.png")];
    let sorted = sort_files(files);
    assert_eq!(names(&sorted), vec!["b.png", "0.png", "a.png", "frame.png"]);
}

#[test]
fn delay_boundary_values() {
    assert_eq!(delay_for(1, 10, 10, 100), 100);
    assert_eq!(delay_for(10, 10, 10, 100), 100);
    assert_eq!(delay_for(2, 10, 10, 100), 10);
    assert_eq!(delay_for(9, 10, 10, 100), 10);
    assert_eq!(delay_for(1, 2, 10, 100), 100);
    assert_eq!(delay_for(2, 2, 10, 100), 100);
}

#[test]
fn single_frame_gets_boundary_delay() {
    assert_eq!(delay_for(1, 1, 10, 100), 100);
}
