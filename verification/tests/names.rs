use unix_tools::names::{chars_of, name_before};

#[test]
fn name_order() {
    assert!(name_before("a", "b"));
    assert!(!name_before("b", "a"));
    assert!(name_before("a", "ab"));
    assert!(!name_before("ab", "a"));
    assert!(!name_before("a", "a"));
    assert!(name_before("", "a"));
    assert!(!name_before("", ""));
    assert!(name_before("Z", "a"));
    assert!(name_before("z", "é"));
}

#[test]
fn name_order_matches_str_order() {
    let names = ["", "a", "b", "ab", "Z", "é", "€", "😀", "a\u{0}", "10", "9"];
    for x in names {
        for y in names {
            assert_eq!(name_before(x, y), x < y, "{:?} {:?}", x, y);
        }
    }
}

#[test]
fn chars_of_text() {
    assert_eq!(chars_of("héllo"), vec!['h', 'é', 'l', 'l', 'o']);
    assert!(chars_of("").is_empty());
}
