use nightbug::text::{characters, push_decimal};

fn decimal(n: usize) -> String {
    let mut text = String::from("n=");
    push_decimal(&mut text, n);
    text
}

#[test]
fn push_decimal_writes_base_ten() {
    assert_eq!(decimal(0), "n=0");
    assert_eq!(decimal(7), "n=7");
    assert_eq!(decimal(10), "n=10");
    assert_eq!(decimal(12345), "n=12345");
    assert_eq!(decimal(1000000), "n=1000000");
    assert_eq!(decimal(usize::MAX), format!("n={}", usize::MAX));
}

#[test]
fn characters_keeps_order() {
    assert_eq!(characters("a(\u{e9} 1"), vec!['a', '(', '\u{e9}', ' ', '1']);
    assert_eq!(characters(""), Vec::<char>::new());
}
