use molybdenum::search::Search;
use molybdenum::util::{ErrorKind, MyError};

#[test]
fn create_custom_error() {
    let my_err = molybdenum::res::MyError::create("My custom error message");
    assert_eq!(my_err.descr, "My custom error message");
    assert_eq!(my_err.message(), "MyError: My custom error message");
}

#[test]
fn test_create_custom_error() {
    let my_err = MyError::create("My custom error message");
    assert!(matches!(my_err.kind, ErrorKind::Custom));
    assert_eq!(my_err.descr, "My custom error message");
    assert_eq!(my_err.message(), "MyError: My custom error message");
}

#[test]
fn test_fail_macro() {
    type R = Result<(), MyError>;
    type Ftor = Box<dyn Fn() -> R>;

    let ftors = [
        Box::new(|| Err(MyError::create(&format!("arg 0, trailing comma N")))) as Ftor,
        Box::new(|| Err(MyError::create(&format!("arg 0, trailing comma Y")))),
        Box::new(|| Err(MyError::create(&format!("arg 1, trailing comma N {}", 42)))),
        Box::new(|| Err(MyError::create(&format!("arg 1, trailing comma Y {}", 42)))),
        Box::new(|| Err(MyError::create(&format!("arg 2, trailing comma N {} {}", 42, 43)))),
        Box::new(|| Err(MyError::create(&format!("arg 2, trailing comma Y {} {}", 42, 43)))),
    ];

    for ftor in &ftors {
        let res = ftor();
        assert!(res.is_err())
    }
}

#[test]
fn invalid_pattern_is_reported() {
    let r = Search::new("(", false, false);
    assert!(matches!(r, Err(ref e) if matches!(e.kind, ErrorKind::InvalidPattern)));
    let r2 = Search::new("(", true, true);
    assert!(matches!(r2, Err(ref e) if matches!(e.kind, ErrorKind::InvalidPattern)));
    assert!(Search::new("a(b)c", false, false).is_ok());
}
