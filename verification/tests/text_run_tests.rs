use layout_wrapper::box_slice::BoxSlice;
use layout_wrapper::text_run::indivisible_slices;

fn collected(text: &str) -> Vec<String> {
    let slices = indivisible_slices(&BoxSlice(String::from(text)));
    let mut out: Vec<String> = Vec::new();
    for s in &slices {
        out.push(s.to_str());
    }
    out
}

#[test]
fn test_iter_indivisible_slices() {
    assert_eq!(
        collected("firecracker yumyum woopwoop"),
        vec![String::from("firecracker"), String::from("yumyum"), String::from("woopwoop")]
    );
}

#[test]
fn test_iter_indivisible_slices_trailing_whitespace() {
    assert_eq!(collected("firecracker  "), vec![String::from("firecracker")]);
}

#[test]
fn test_iter_indivisible_slices_leading_whitespace() {
    assert_eq!(collected("  firecracker"), vec![String::from("firecracker")]);
}

#[test]
fn test_iter_indivisible_slices_empty() {
    let expected: Vec<String> = Vec::new();
    assert_eq!(collected(""), expected);
}

#[test]
fn indivisible_slices_share_the_full_text() {
    let text = BoxSlice(String::from("yum yum yum"));
    let slices = indivisible_slices(&text);
    assert_eq!(slices.len(), 3);
    for s in &slices {
        assert_eq!(s.to_str(), "yum");
    }
    // Adjacent pieces can be re-joined through the shared full text.
    let joined = slices[0].extend_through(&slices[1]);
    assert_eq!(joined.to_str(), "yum yum");
}
