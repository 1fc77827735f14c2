use mandelbrot_rs::host::{greet, sum, EXCLAMATION};

#[test]
fn sum_adds() {
    assert_eq!(sum(2, 2), 4);
    assert_eq!(sum(-5, 3), -2);
    assert_eq!(sum(0, 0), 0);
    assert_eq!(sum(i32::MAX, 0), i32::MAX);
    assert_eq!(sum(i32::MIN, i32::MAX), -1);
    assert_eq!(sum(i32::MAX - 1, 1), i32::MAX);
}

#[test]
fn greet_wraps_the_subject() {
    assert_eq!(greet(b"World"), b"Hello, World!\0".to_vec());
    assert_eq!(greet(b"a"), b"Hello, a!\0".to_vec());
    assert_eq!(EXCLAMATION, b'!');
}

#[test]
fn greet_of_nothing() {
    assert_eq!(greet(b""), b"Hello, !\0".to_vec());
}

#[test]
fn greet_keeps_every_byte_of_the_subject() {
    let subject: Vec<u8> = vec![0xFF, 0x0A, 0x80, 0x20];
    let mut expected: Vec<u8> = b"Hello, ".to_vec();
    expected.extend_from_slice(&subject);
    expected.push(b'!');
    expected.push(0);
    assert_eq!(greet(&subject), expected);
}

#[test]
fn greet_is_a_c_string_when_the_subject_holds_no_terminator() {
    let output: Vec<u8> = greet(b"host");
    assert_eq!(output.iter().position(|byte| *byte == 0), Some(output.len() - 1));
    let broken: Vec<u8> = greet(b"ho\0st");
    assert_eq!(broken, b"Hello, ho\0st!\0".to_vec());
    assert_eq!(broken.iter().position(|byte| *byte == 0), Some(9));
}
