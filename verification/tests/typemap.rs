use lazycard::typemap::TypeMap;

#[derive(Debug)]
struct Foo(i32);

#[derive(Debug)]
struct Bar(i32);

#[derive(Debug)]
struct Baz(i32);

#[test]
fn single() {
    let mut map = TypeMap::new();
    map.insert(Foo(10));

    let foo = map.get::<&Foo>().unwrap();
    assert_eq!(foo.0, 10);
}

#[test]
fn multi() {
    let mut map = TypeMap::new();
    map.insert(Foo(10));
    map.insert(Bar(20));
    map.insert(Baz(30));

    let (foo, bar, baz) = map.get::<(&Foo, &mut Bar, &Baz)>().unwrap();

    bar.0 = foo.0 + baz.0;

    assert_eq!(bar.0, 40);
}

#[test]
fn duplicate_types_are_refused() {
    let mut map = TypeMap::new();
    map.insert(Foo(1));

    assert!(map.get::<(&Foo, &mut Foo)>().is_none());
    assert!(map.get::<(&Foo, &Foo)>().is_none());
    assert!(map.get::<&Foo>().is_some());
}

#[test]
fn remove_takes_the_value_out() {
    let mut map = TypeMap::new();
    map.insert(Foo(7));
    map.insert(Foo(8));
    assert_eq!(map.remove::<Foo>().map(|f| f.0), Some(8));
    assert!(map.remove::<Foo>().is_none());
    assert!(map.get::<&Foo>().is_none());
}
