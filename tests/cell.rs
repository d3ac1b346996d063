use smart_pointers::cell::Cell;

struct Wrapper<'a>(&'a str);

impl Drop for Wrapper<'_> {
    fn drop(&mut self) {
        println!("Dropping {}", self.0);
    }
}

#[test]
fn get() {
    let c = Cell::new(42);
    assert_eq!(c.get(), 42);
}

#[test]
fn replace() {
    let mut cell = Cell::new(42);

    assert_eq!(cell.replace(10), 42);
    assert_eq!(cell.get(), 10);
}

#[test]
fn set() {
    let mut c = Cell::new(42);
    c.set(1569);
    assert_eq!(c.get(), 1569);

    let mut c = Cell::new(Wrapper("cell"));
    c.set(Wrapper("new cell"));
    assert_eq!(c.into_inner().0, "new cell");
}

#[test]
fn take() {
    let mut c = Cell::new(5);
    let five = c.take();

    assert_eq!(five, 5);
    assert_eq!(c.get(), 0);
}

#[test]
fn swap() {
    let mut c1 = Cell::new(42_i32);
    let mut c2 = Cell::new(1569_i32);

    c1.swap(&mut c2);
    assert_eq!(1569, c1.get());
    assert_eq!(42, c2.get());
}

#[test]
fn into_inner() {
    let c = Cell::new(5);
    let five = c.into_inner();

    assert_eq!(five, 5);
}

#[test]
fn as_ptr() {
    let mut c = Cell::new(5);

    let ptr: &mut i32 = c.as_ptr();
    *ptr += 1;
    assert_eq!(c.get(), 6);

    *c.as_ptr() = 42;
    assert_eq!(c.get(), 42);
}

#[test]
fn get_mut() {
    let mut c = Cell::new(5);
    *c.get_mut() += 1;

    assert_eq!(c.get(), 6);
}

#[test]
fn get_after_any_sequence_of_updates() {
    let mut c = Cell::new(1u8);
    let mut other = Cell::new(9u8);
    assert_eq!(c.replace(2), 1);
    assert_eq!(c.take(), 2);
    c.swap(&mut other);
    c.set(7);
    assert_eq!(c.get(), 7);
    assert_eq!(other.get(), 0);
}

#[test]
fn swap_twice_restores_contents() {
    let mut a = Cell::new(String::from("left"));
    let mut b = Cell::new(String::from("right"));
    a.swap(&mut b);
    assert_eq!(a.get_mut().as_str(), "right");
    a.swap(&mut b);
    assert_eq!(a.into_inner(), "left");
    assert_eq!(b.into_inner(), "right");
}

#[test]
fn take_of_string_leaves_empty() {
    let mut c = Cell::new(String::from("moved"));
    assert_eq!(c.take(), "moved");
    assert_eq!(c.into_inner(), "");
}
