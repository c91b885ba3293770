use unicode_tables::codepoint::canonical_combining_class::{compressed_ccc, CanonicalCombiningClass};
use unicode_tables::codepoint::PropertiesError;

#[test]
fn starters_have_class_zero() {
    assert!(CanonicalCombiningClass(0).is_starter());
    assert!(!CanonicalCombiningClass(0).is_nonstarter());
    assert!(CanonicalCombiningClass(230).is_nonstarter());
    assert!(!CanonicalCombiningClass(230).is_starter());
    assert_eq!(CanonicalCombiningClass(CanonicalCombiningClass::Virama).u8(), 9);
    assert_eq!(CanonicalCombiningClass::IotaSubscript, 240);
    assert_eq!(CanonicalCombiningClass::from(7u8), CanonicalCombiningClass(7));
    assert_eq!(u8::from(CanonicalCombiningClass(202)), 202);
    assert!(CanonicalCombiningClass(1) < CanonicalCombiningClass(2));
}

#[test]
fn class_from_text() {
    assert_eq!(CanonicalCombiningClass::try_from("230"), Ok(CanonicalCombiningClass(230)));
    assert_eq!(CanonicalCombiningClass::try_from("0"), Ok(CanonicalCombiningClass(0)));
    assert_eq!(CanonicalCombiningClass::try_from("+9"), Ok(CanonicalCombiningClass(9)));
    assert_eq!(
        CanonicalCombiningClass::try_from("256"),
        Err(PropertiesError::UnknownPropertyValue)
    );
    assert_eq!(
        CanonicalCombiningClass::try_from("Above"),
        Err(PropertiesError::UnknownPropertyValue)
    );
    assert_eq!(CanonicalCombiningClass::try_from(""), Err(PropertiesError::UnknownPropertyValue));
}

#[test]
fn compression_is_the_index_in_ascending_order() {
    let classes: Vec<CanonicalCombiningClass> =
        [230u8, 0, 9, 0, 220, 230, 1, 255, 9].iter().map(|&c| CanonicalCombiningClass(c)).collect();
    let table = compressed_ccc(&classes);
    assert_eq!(table.len(), 6);
    let expected = [0u8, 1, 9, 220, 230, 255];
    for (i, raw) in expected.iter().enumerate() {
        assert_eq!(table.raw(i as u8), *raw);
        assert_eq!(CanonicalCombiningClass(*raw).compressed(&table), Ok(i as u8));
    }
    assert_eq!(
        CanonicalCombiningClass(7).compressed(&table),
        Err(PropertiesError::UnknownPropertyValue)
    );
}

#[test]
fn compression_of_all_classes_and_of_none() {
    let all: Vec<CanonicalCombiningClass> = (0..=255u8).rev().map(CanonicalCombiningClass).collect();
    let table = compressed_ccc(&all);
    assert_eq!(table.len(), 256);
    for raw in 0..=255u8 {
        assert_eq!(CanonicalCombiningClass(raw).compressed(&table), Ok(raw));
    }
    let none = compressed_ccc(&[]);
    assert_eq!(none.len(), 0);
    assert_eq!(
        CanonicalCombiningClass(0).compressed(&none),
        Err(PropertiesError::UnknownPropertyValue)
    );
}

#[test]
fn class_as_integers_of_any_width() {
    assert_eq!(CanonicalCombiningClass::from(230u16), CanonicalCombiningClass(230));
    assert_eq!(CanonicalCombiningClass::from(0x1E6u32), CanonicalCombiningClass(0xE6));
    assert_eq!(CanonicalCombiningClass::from(-1i8), CanonicalCombiningClass(255));
    assert_eq!(CanonicalCombiningClass::from(-256i64), CanonicalCombiningClass(0));
    assert_eq!(CanonicalCombiningClass::from(u128::MAX), CanonicalCombiningClass(255));
    assert_eq!(u16::from(CanonicalCombiningClass(230)), 230);
    assert_eq!(u128::from(CanonicalCombiningClass(255)), 255);
    assert_eq!(i8::from(CanonicalCombiningClass(200)), -56);
    assert_eq!(i16::from(CanonicalCombiningClass(200)), 200);
    assert_eq!(i128::from(CanonicalCombiningClass(1)), 1);
}

#[test]
fn refused_numeral_is_an_unknown_value() {
    let refused = "23x".parse::<u8>().map_err(PropertiesError::from);
    assert_eq!(refused, Err(PropertiesError::UnknownPropertyValue));
}
