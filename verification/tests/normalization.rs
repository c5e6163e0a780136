use infini::translate::{normalize, unescape_unicode};

fn chars(s: &str) -> Vec<char> {
    s.chars().collect()
}

fn text(v: Vec<char>) -> String {
    v.into_iter().collect()
}

#[test]
fn unicode_escapes_become_characters() {
    assert_eq!(text(unescape_unicode(&chars("\\u0041\\u0062"))), "Ab");
    assert_eq!(text(unescape_unicode(&chars("no escapes"))), "no escapes");
    assert_eq!(text(unescape_unicode(&chars("\\u4f60\\u597d"))), "\u{4f60}\u{597d}");
    // An emoji outside the basic plane needs more than four digits, so the
    // four-digit form codes basic-plane characters only.
    assert_eq!(text(unescape_unicode(&chars("\\u263a"))), "\u{263a}");
}

#[test]
fn truncated_or_invalid_escapes_stay() {
    assert_eq!(text(unescape_unicode(&chars("\\u00"))), "\\u00");
    assert_eq!(text(unescape_unicode(&chars("\\uZZZZ"))), "\\uZZZZ");
    // A surrogate codes no character: the escape is left as it stands
    // rather than stopping the stream.
    assert_eq!(text(unescape_unicode(&chars("\\ud800"))), "\\ud800");
}

#[test]
fn quotes_and_escaped_newlines_collapse() {
    assert_eq!(text(normalize(&chars("say \"hi\""))), "say hi");
    assert_eq!(text(normalize(&chars("a\\n\\nb"))), "a\nb");
    assert_eq!(text(normalize(&chars("a\\nnb"))), "a\nb");
    assert_eq!(text(normalize(&chars("a\\\\nb"))), "a\nb");
    assert_eq!(text(normalize(&chars("left\\over"))), "leftover");
}

#[test]
fn normalization_applies_escapes_first() {
    // The decoded quote is then stripped by the quote pass.
    assert_eq!(text(normalize(&chars("\\u0022x\\u0022"))), "x");
}
