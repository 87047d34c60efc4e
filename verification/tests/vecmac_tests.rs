use rustbits::vecmac::{myvec_empty, myvec_list, myvec_repeat};

#[test]
fn no_item() {
    let x: Vec<u32> = myvec_empty();
    assert!(x.is_empty());
}

#[test]
fn one_item() {
    let x = myvec_list(&[10]);
    assert_eq!(x.len(), 1);
    assert_eq!(x[0], 10);

    let y = myvec_list(&["Hi"]);
    assert_eq!(y.len(), 1);
    assert_eq!(y[0], "Hi");
}

#[test]
fn multiple_item() {
    let x = myvec_list(&[10, 20]);
    assert_eq!(x.len(), 2);
    assert_eq!(x, [10, 20]);

    let y = myvec_repeat("Hi", 3);
    assert_eq!(y.len(), 3);
    assert_eq!(y, ["Hi", "Hi", "Hi"]);
}

#[test]
fn repeat_zero_times_is_empty() {
    let y: Vec<u8> = myvec_repeat(5, 0);
    assert!(y.is_empty());
}
