use padder::{Alignment, MutableSource};

#[derive(Debug, Copy, Clone, PartialEq)]
pub struct DummyStruct {
    a: bool,
}

#[test]
fn mutable_source_pad_left() {
    let width: usize = 17;
    let mut source = String::from("Wilhelm Moberg");
    (&mut source).pad(width, Alignment::Left, '@');
    let expected = String::from("Wilhelm Moberg@@@");
    assert_eq!(expected.capacity(), source.capacity());
    assert_eq!(expected.len(), source.len());
    assert_eq!(expected, source);
}

#[test]
fn mutable_source_pad_right() {
    let width: usize = 12;
    let mut source = String::from("rocketTT");
    (&mut source).pad(width, Alignment::Right, '🚀');
    let expected = String::from("🚀🚀🚀🚀rocketTT");
    assert_eq!(expected.capacity(), source.capacity());
    assert_eq!(expected.len(), source.len());
    assert_eq!(expected, source);
}

#[test]
fn mutable_source_pad_center_odd() {
    let width: usize = 8;
    let mut source = String::from("plant");
    (&mut source).pad(width, Alignment::Center, 'き');
    let expected = String::from("きplantきき");
    assert_eq!(expected.capacity(), source.capacity());
    assert_eq!(expected.len(), source.len());
    assert_eq!(expected, source);
}

#[test]
fn mutable_source_pad_center_even() {
    let width: usize = 16;
    let mut source = String::from("實real實");
    (&mut source).pad(width, Alignment::Center, '實');
    let expected = String::from("實實實實實實real實實實實實實");
    assert_eq!(expected.capacity(), source.capacity());
    assert_eq!(expected.len(), source.len());
    assert_eq!(expected, source);
}

#[test]
fn mutable_source_truncate_left() {
    let width: usize = 3;
    let mut source = String::from("實real實");
    (&mut source).pad(width, Alignment::Left, '實');
    let expected = String::from("實re");
    assert_eq!(expected.capacity(), source.capacity());
    assert_eq!(expected.len(), source.len());
    assert_eq!(expected, source);
}

#[test]
fn mutable_source_truncate_right() {
    let width: usize = 5;
    let mut source = String::from("實real實");
    (&mut source).pad(width, Alignment::Right, '實');
    let expected = String::from("real實");
    assert_eq!(expected.capacity(), source.capacity());
    assert_eq!(expected.len(), source.len());
    assert_eq!(expected, source);
}

#[test]
fn mutable_source_truncate_center_odd() {
    let width: usize = 6;
    let mut source = String::from("實vamos實carlito實");
    (&mut source).pad(width, Alignment::Center, '實');
    let expected = String::from("os實car");
    assert_eq!(expected.capacity(), source.capacity());
    assert_eq!(expected.len(), source.len());
    assert_eq!(expected, source);
}

#[test]
fn mutable_source_truncate_center_even() {
    let width: usize = 7;
    let mut source = String::from("實vamos實carlito實");
    (&mut source).pad(width, Alignment::Center, '實');
    let expected = String::from("os實carl");
    assert_eq!(expected.capacity(), source.capacity());
    assert_eq!(expected.len(), source.len());
    assert_eq!(expected, source);
}

#[test]
fn pad_left() {
    let width: usize = 4;
    let mut source: Vec<u32> = Vec::from(&[1u32, 2, 3]);
    (&mut source).pad(width, Alignment::Left, 1337);
    let expected: Vec<u32> = Vec::from(&[1u32, 2, 3, 1337]);
    assert_eq!(expected.capacity(), source.capacity());
    assert_eq!(expected.len(), source.len());
    assert_eq!(expected, source);
}

#[test]
fn pad_right() {
    let width: usize = 6;
    let mut source: Vec<i32> = Vec::from(&[1i32, 2, 3]);
    (&mut source).pad(width, Alignment::Right, -1998);
    let expected: Vec<i32> = Vec::from(&[-1998i32, -1998, -1998, 1, 2, 3]);
    assert_eq!(expected.capacity(), source.capacity());
    assert_eq!(expected.len(), source.len());
    assert_eq!(expected, source);
}

#[test]
fn pad_center_odd() {
    let width: usize = 6;
    let mut source: Vec<char> = Vec::from(&['😺', '2', '¡']);
    (&mut source).pad(width, Alignment::Center, '🐛');
    let expected: Vec<char> = Vec::from(&['🐛', '😺', '2', '¡', '🐛', '🐛']);
    assert_eq!(expected.capacity(), source.capacity());
    assert_eq!(expected.len(), source.len());
    assert_eq!(expected, source);
}

#[test]
fn pad_center_even() {
    let width: usize = 7;
    let mut source: Vec<char> = Vec::from(&['😺', '2', '¡']);
    (&mut source).pad(width, Alignment::Center, '🐛');
    let expected: Vec<char> = Vec::from(&['🐛', '🐛', '😺', '2', '¡', '🐛', '🐛']);
    assert_eq!(expected.capacity(), source.capacity());
    assert_eq!(expected.len(), source.len());
    assert_eq!(expected, source);
}

#[test]
fn truncate_left() {
    let width: usize = 2;
    let mut source: Vec<char> = Vec::from(&['😺', '2', '¡']);
    (&mut source).pad(width, Alignment::Left, ' ');
    let expected: Vec<char> = Vec::from(&['😺', '2']);
    assert_eq!(expected.capacity(), source.capacity());
    assert_eq!(expected.len(), source.len());
    assert_eq!(expected, source);
}

#[test]
fn truncate_right() {
    let width: usize = 3;
    let mut source: Vec<DummyStruct> = Vec::from(&[
        DummyStruct { a: true },
        DummyStruct { a: false },
        DummyStruct { a: false },
        DummyStruct { a: false },
        DummyStruct { a: true },
    ]);
    (&mut source).pad(width, Alignment::Right, DummyStruct { a: false });
    let expected: Vec<DummyStruct> = Vec::from(&[
        DummyStruct { a: false },
        DummyStruct { a: false },
        DummyStruct { a: true },
    ]);

    assert_eq!(expected.capacity(), source.capacity());
    assert_eq!(expected.len(), source.len());
    assert_eq!(expected, source);
}

#[test]
fn truncate_center_odd() {
    let width: usize = 4;
    let mut source: Vec<&str> = Vec::from(&[
        "yooo",
        "radahn",
        "this is a longer string hihi",
        "beethoven",
        "mozart",
        "chopin",
        "rachmaninoff",
    ]);
    (&mut source).pad(width, Alignment::Center, "padded");
    let expected: Vec<&str> = Vec::from(&[
        "radahn",
        "this is a longer string hihi",
        "beethoven",
        "mozart",
    ]);
    assert_eq!(expected.capacity(), source.capacity());
    assert_eq!(expected.len(), source.len());
    assert_eq!(expected, source);
}

#[test]
fn truncate_center_even() {
    let width: usize = 5;
    let mut source: Vec<&str> = Vec::from(&[
        "yooo",
        "radahn",
        "this is a longer string hihi",
        "beethoven",
        "mozart",
        "chopin",
        "rachmaninoff",
    ]);
    (&mut source).pad(width, Alignment::Center, "padded");
    let expected: Vec<&str> = Vec::from(&[
        "radahn",
        "this is a longer string hihi",
        "beethoven",
        "mozart",
        "chopin",
    ]);
    assert_eq!(expected.capacity(), source.capacity());
    assert_eq!(expected.len(), source.len());
    assert_eq!(expected, source);
}
