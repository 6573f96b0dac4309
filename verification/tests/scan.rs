use confession_core::blacklist::scan;

fn terms(list: &[&str]) -> Vec<String> {
    list.iter().map(|t| t.to_string()).collect()
}

#[test]
fn scan_is_case_insensitive() {
    let r = scan("Hello WORLD", &terms(&["world"]));
    assert_eq!(r, terms(&["world"]));
}

#[test]
fn scan_matches_inside_larger_words() {
    let r = scan("helloworld", &terms(&["hello"]));
    assert_eq!(r, terms(&["hello"]));
}

#[test]
fn scan_empty_text_matches_nothing() {
    let r = scan("", &terms(&["spam", "bad"]));
    assert!(r.is_empty());
}

#[test]
fn scan_empty_policy_matches_nothing() {
    let r = scan("anything at all", &terms(&[]));
    assert!(r.is_empty());
}

#[test]
fn scan_returns_terms_in_policy_order() {
    let r = scan("bad spam here", &terms(&["spam", "bad", "worse"]));
    assert_eq!(r, terms(&["spam", "bad"]));
}

#[test]
fn scan_reports_each_form_once() {
    // Two configured spellings with the same lowercase form: only the first
    // is reported, and only once however often it occurs in the text.
    let r = scan("spam spam SPAM", &terms(&["Spam", "SPAM"]));
    assert_eq!(r, terms(&["Spam"]));
}

#[test]
fn scan_misses_absent_terms() {
    let r = scan("a perfectly clean sentence", &terms(&["spam"]));
    assert!(r.is_empty());
}
