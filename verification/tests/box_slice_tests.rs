use layout_wrapper::box_slice::BoxSlice;

#[test]
fn whole_slice_covers_the_text() {
    let s = BoxSlice(String::from("firecracker"));
    assert_eq!(s.len(), 11);
    assert!(s.is_not_empty());
    assert_eq!(s.borrow(), "firecracker");
    assert_eq!(s.to_str(), "firecracker");
}

#[test]
fn sub_slices_are_relative() {
    let s = BoxSlice(String::from("firecracker yumyum"));
    let head = s.slice(0, 11);
    assert_eq!(head.to_str(), "firecracker");
    let tail = s.slice(12, 18);
    assert_eq!(tail.to_str(), "yumyum");
    // Slicing a slice counts from the slice's own start.
    let inner = tail.slice(3, 6);
    assert_eq!(inner.to_str(), "yum");
    let empty = s.slice(5, 5);
    assert_eq!(empty.len(), 0);
    assert!(!empty.is_not_empty());
}

#[test]
fn trim_left_drops_leading_blanks() {
    let s = BoxSlice(String::from(" \t\n firecracker"));
    assert_eq!(s.trim_left().to_str(), "firecracker");
    let untouched = BoxSlice(String::from("firecracker "));
    assert_eq!(untouched.trim_left().to_str(), "firecracker ");
    let blank = BoxSlice(String::from("   "));
    assert_eq!(blank.trim_left().len(), 0);
    let empty = BoxSlice(String::new());
    assert_eq!(empty.trim_left().len(), 0);
}

#[test]
fn extend_through_rejoins_slices() {
    let s = BoxSlice(String::from("firecracker yumyum"));
    let head = s.slice(0, 11);
    let tail = s.slice(12, 18);
    let joined = head.extend_through(&tail);
    assert_eq!(joined.to_str(), "firecracker yumyum");
}

#[test]
fn find_reports_first_match_only() {
    let s = BoxSlice(String::from("firecracker yumyum"));
    assert_eq!(s.find(|c| c == ' '), Some(11));
    assert_eq!(s.find(|c| c == 'r'), Some(2));
    assert_eq!(s.find(|c| c == 'z'), None);
    let tail = s.slice(12, 18);
    assert_eq!(tail.find(|c| c == 'u'), Some(1));
}
