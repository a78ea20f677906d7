use derive_insert::GetOrInsert;
use std::fmt::Debug;

// What `implementation` generates for `Foo`, written out.
enum Foo {
    Bar1(i32),
    Bar2(String),
    #[allow(unused)]
    UnitVariantShouldBeSkipped,
}

impl GetOrInsert<i32> for Foo {
    fn insert(&mut self, value: i32) -> &mut i32 {
        *self = Foo::Bar1(value);
        match self {
            Foo::Bar1(inner) => inner,
            _ => unreachable!(),
        }
    }
    fn get_or_insert_with<F: FnOnce() -> i32>(&mut self, f: F) -> &mut i32 {
        match self {
            Foo::Bar1(inner) => inner,
            _ => self.insert(f()),
        }
    }
}

impl GetOrInsert<String> for Foo {
    fn insert(&mut self, value: String) -> &mut String {
        *self = Foo::Bar2(value);
        match self {
            Foo::Bar2(inner) => inner,
            _ => unreachable!(),
        }
    }
    fn get_or_insert_with<F: FnOnce() -> String>(&mut self, f: F) -> &mut String {
        match self {
            Foo::Bar2(inner) => inner,
            _ => self.insert(f()),
        }
    }
}

fn check_get_or_insert<T: GetOrInsert<U>, U: Clone + PartialEq + Debug>(
    mut e: T,
    value1: U,
    value2: U,
) {
    assert_eq!(e.insert(value1.clone()), &value1);
    assert_eq!(e.get_or_insert(value2.clone()), &value1);
}

#[test]
fn test_bar1() {
    check_get_or_insert(Foo::Bar1(43), 44, 45);
}

#[test]
fn test_bar2() {
    check_get_or_insert(
        Foo::Bar2("hello".to_string()),
        "world".to_string(),
        "earth".to_string(),
    );
}

#[test]
fn enum_insert_from_other_variant_switches() {
    let mut foo = Foo::UnitVariantShouldBeSkipped;
    assert_eq!(*GetOrInsert::<i32>::insert(&mut foo, 7), 7);
    assert!(matches!(foo, Foo::Bar1(7)));
    let mut foo = Foo::Bar2("x".to_string());
    assert_eq!(*GetOrInsert::<i32>::insert(&mut foo, 8), 8);
    assert!(matches!(foo, Foo::Bar1(8)));
}

#[test]
fn enum_get_or_insert_keeps_existing_value() {
    let mut foo = Foo::Bar1(43);
    assert_eq!(*foo.get_or_insert(44), 43);
    assert!(matches!(foo, Foo::Bar1(43)));
}

#[test]
fn enum_get_or_insert_switches_from_other_variant() {
    let mut foo = Foo::Bar1(43);
    let r: &mut String = foo.get_or_insert("new".to_string());
    assert_eq!(r, "new");
    match foo {
        Foo::Bar2(s) => assert_eq!(s, "new"),
        _ => panic!("receiver was not switched"),
    }
}

#[test]
fn enum_end_to_end_insert_then_get_or_insert() {
    let mut foo = Foo::Bar1(43);
    assert_eq!(*foo.insert(44), 44);
    assert!(matches!(foo, Foo::Bar1(44)));
    assert_eq!(*foo.get_or_insert(45), 44);
    assert!(matches!(foo, Foo::Bar1(44)));
}

#[test]
fn enum_get_or_insert_default() {
    let mut foo = Foo::UnitVariantShouldBeSkipped;
    let r: &mut i32 = foo.get_or_insert_default();
    assert_eq!(*r, 0);
    *r = 5;
    assert!(matches!(foo, Foo::Bar1(5)));
}
