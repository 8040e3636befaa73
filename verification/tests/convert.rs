use faithea::convert::{ConvertFromRefString, TryConvertFrom, TryConvertInto};
use faithea::error::Error;

#[test]
fn number_test() {
    let s = &"11".to_string();
    let a: Result<i32, Error> = s.try_convert_into();
    let b: Result<i32, Error> = s.try_convert_into();
    assert_eq!(a.is_ok(), b.is_ok())
}

#[test]
fn bool_test() {
    let s = &"true".to_string();
    let a: Result<bool, Error> = s.try_convert_into();
    let b: Result<bool, Error> = s.try_convert_into();
    assert_eq!(a.is_ok(), b.is_ok())
}

#[test]
fn str_test() {
    let s = &"true".to_string();
    let a: Result<String, Error> = s.try_convert_into();
    let b: Result<String, String> = s.convert();
    assert_eq!(a.is_ok(), b.is_ok())
}

#[test]
fn option_test() {
    let s = &"true".to_string();
    let a: Result<Option<i32>, Error> = s.try_convert_into();
    assert_eq!(a.is_ok(), true);
    fn a2(_: Option<bool>) {}
    a2(s.try_convert_into().map_err(|_| "").unwrap());
}

#[test]
fn t3() {
    fn a(_p1: usize, _p2: &str, _p3: &String, _p4: &String, _p5: i32) {}
    let p = &"2".to_string();
    a(
        p.try_convert_into().map_err(|_| "").unwrap(),
        p.try_convert_into().map_err(|_| "").unwrap(),
        p.try_convert_into().map_err(|_| "").unwrap(),
        p.try_convert_into().map_err(|_| "").unwrap(),
        p.try_convert_into().map_err(|_| "").unwrap(),
    );
}

#[test]
fn integers_convert_with_sign_and_range() {
    let v: i32 = i32::try_convert_from(&"-42".to_string()).unwrap();
    assert_eq!(v, -42);
    let v: u8 = u8::try_convert_from(&"+255".to_string()).unwrap();
    assert_eq!(v, 255);
    assert!(u8::try_convert_from(&"256".to_string()).is_err());
    assert!(u8::try_convert_from(&"-1".to_string()).is_err());
    let v: i8 = i8::try_convert_from(&"-128".to_string()).unwrap();
    assert_eq!(v, -128);
    assert!(i8::try_convert_from(&"-129".to_string()).is_err());
    let v: i128 = i128::try_convert_from(&"-170141183460469231731687303715884105728".to_string()).unwrap();
    assert_eq!(v, i128::MIN);
    let v: u128 = u128::try_convert_from(&"340282366920938463463374607431768211455".to_string()).unwrap();
    assert_eq!(v, u128::MAX);
    assert!(u128::try_convert_from(&"340282366920938463463374607431768211456".to_string()).is_err());
    let v: usize = usize::try_convert_from(&"007".to_string()).unwrap();
    assert_eq!(v, 7);
}

#[test]
fn malformed_integers_are_convert_errors() {
    for text in ["", "+", "-", "1 ", " 1", "1.0", "abc", "--1", "+-1"] {
        let r = i64::try_convert_from(&text.to_string());
        match r {
            Err(Error::BeforeHandler(faithea::error::BeforeHandlerError::ParseHandlerParamError(
                faithea::error::ParseHandlerParamError::ConvertError(c),
            ))) => {
                assert_eq!(c.value, text);
                assert_eq!(c.target, "i64");
            }
            _ => panic!("{:?} should not convert", text),
        }
    }
}

#[test]
fn booleans_are_exactly_true_or_false() {
    assert_eq!(bool::try_convert_from(&"false".to_string()).unwrap(), false);
    assert_eq!(bool::try_convert_from(&"true".to_string()).unwrap(), true);
    assert!(bool::try_convert_from(&"True".to_string()).is_err());
    assert!(bool::try_convert_from(&"1".to_string()).is_err());
}

#[test]
fn missing_values_are_reported_and_optional_values_absorb_errors() {
    let missing: Option<&String> = None;
    match i32::try_convert_from(missing) {
        Err(Error::BeforeHandler(faithea::error::BeforeHandlerError::ParseHandlerParamError(
            faithea::error::ParseHandlerParamError::ParamNotExist,
        ))) => {}
        _ => panic!("a missing value must be reported"),
    }
    let s = "x".to_string();
    let v: Option<i32> = Option::<i32>::try_convert_from(&s).unwrap();
    assert_eq!(v, None);
    let v: Option<i32> = Option::<i32>::try_convert_from(missing).unwrap();
    assert_eq!(v, None);
    let t = "12".to_string();
    let v: Option<i32> = Option::<i32>::try_convert_from(Some(&t)).unwrap();
    assert_eq!(v, Some(12));
    let r: String = String::try_convert_from(Some(&t)).unwrap();
    assert_eq!(r, "12");
    let r: &str = <&str>::try_convert_from(&t).unwrap();
    assert_eq!(r, "12");
}

#[test]
fn borrowed_strings_convert_without_failure() {
    let s = "abc".to_string();
    let a: Result<&str, String> = (&s).convert();
    assert_eq!(a.unwrap(), "abc");
    let b: Result<Option<&str>, String> = (&s).convert();
    assert_eq!(b.unwrap(), Some("abc"));
    let c: Result<String, String> = (&s).convert();
    assert_eq!(c.unwrap(), "abc");
    let d: Result<u8, String> = 7u8.convert();
    assert_eq!(d.unwrap(), 7);
}
