use media_ingest::text::{from_chars, push_decimal, to_chars};

fn decimal(n: u32) -> String {
    let mut s = String::new();
    push_decimal(&mut s, n);
    s
}

#[test]
fn to_chars_keeps_every_character() {
    assert_eq!(to_chars(""), Vec::<char>::new());
    assert_eq!(to_chars("a/b"), vec!['a', '/', 'b']);
    assert_eq!(to_chars("é日x"), vec!['é', '日', 'x']);
}

#[test]
fn from_chars_takes_the_range() {
    let v = vec!['c', 'l', 'i', 'p', '.', 'm', 'o', 'v'];
    assert_eq!(from_chars(&v, 0, 4), "clip");
    assert_eq!(from_chars(&v, 5, 8), "mov");
    assert_eq!(from_chars(&v, 3, 3), "");
    assert_eq!(from_chars(&v, 0, 8), "clip.mov");
}

#[test]
fn chars_round_trip() {
    for s in ["", "x", "title:[Trip]_xyz{page:3}", "naïve/été"] {
        let v = to_chars(s);
        assert_eq!(from_chars(&v, 0, v.len()), s);
    }
}

#[test]
fn decimal_of_small_numbers() {
    assert_eq!(decimal(0), "0");
    assert_eq!(decimal(1), "1");
    assert_eq!(decimal(7), "7");
    assert_eq!(decimal(9), "9");
}

#[test]
fn decimal_of_larger_numbers() {
    assert_eq!(decimal(10), "10");
    assert_eq!(decimal(42), "42");
    assert_eq!(decimal(100), "100");
    assert_eq!(decimal(1005), "1005");
    assert_eq!(decimal(4294967295), "4294967295");
}

#[test]
fn decimal_agrees_with_std() {
    let mut n: u32 = 0;
    while n < 3000 {
        assert_eq!(decimal(n), n.to_string());
        n += 1;
    }
    for n in [65535u32, 65536, 999999999, 1000000000, 2147483647, 2147483648, u32::MAX - 1] {
        assert_eq!(decimal(n), n.to_string());
    }
}

#[test]
fn push_decimal_appends() {
    let mut s = String::from("{page:");
    push_decimal(&mut s, 12);
    s.push('}');
    assert_eq!(s, "{page:12}");
}
