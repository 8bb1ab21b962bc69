use font_catalog::classify::{classify_font, detect_font_weight};

#[test]
fn classify_monospace() {
    assert_eq!(classify_font("Courier New"), "monospace");
    assert_eq!(classify_font("Fira Mono"), "monospace");
    assert_eq!(classify_font("Lucida Console"), "monospace");
    assert_eq!(classify_font("Source Code Pro"), "monospace");
}

#[test]
fn classify_cursive() {
    assert_eq!(classify_font("Brush Stroke"), "cursive");
    assert_eq!(classify_font("Segoe Handwriting"), "cursive");
    assert_eq!(classify_font("Comic Cursive"), "cursive");
}

#[test]
fn classify_serif() {
    assert_eq!(classify_font("Times New Roman"), "serif");
    assert_eq!(classify_font("Georgia"), "serif");
    assert_eq!(classify_font("Garamond"), "serif");
    assert_eq!(classify_font("PT Serif"), "serif");
}

#[test]
fn classify_fantasy() {
    assert_eq!(classify_font("Impact"), "fantasy");
    assert_eq!(classify_font("Papyrus"), "fantasy");
    assert_eq!(classify_font("Some Decorative Face"), "fantasy");
}

#[test]
fn classify_default_sans_serif() {
    assert_eq!(classify_font("Arial"), "sans-serif");
    assert_eq!(classify_font("Helvetica"), "sans-serif");
    assert_eq!(classify_font(""), "sans-serif");
}

#[test]
fn classify_group_order_precedence() {
    // group 1 (monospace) precedes group 2 (cursive)
    assert_eq!(classify_font("Courier Script"), "monospace");
}

#[test]
fn classify_is_case_insensitive() {
    assert_eq!(classify_font("MONO"), "monospace");
    assert_eq!(classify_font("TIMES"), "serif");
}

#[test]
fn classify_matches_inner_substring() {
    assert_eq!(classify_font("Xmonox"), "monospace");
}

#[test]
fn weight_thin_variants() {
    assert_eq!(detect_font_weight("Helvetica Thin"), "thin");
    assert_eq!(detect_font_weight("Some Hairline"), "thin");
    assert_eq!(detect_font_weight("Helvetica Ultralight"), "thin");
    assert_eq!(detect_font_weight("Roboto Extra Light"), "thin");
}

#[test]
fn weight_light_guard() {
    // "light" matches, but the ultralight / extra light variants must not
    assert_eq!(detect_font_weight("Consolas Light"), "light");
    assert_ne!(detect_font_weight("Helvetica Ultralight"), "light");
    assert_ne!(detect_font_weight("Roboto Extra Light"), "light");
}

#[test]
fn weight_middle_labels() {
    assert_eq!(detect_font_weight("Roboto Medium"), "medium");
    assert_eq!(detect_font_weight("Open Sans Semibold"), "semibold");
    assert_eq!(detect_font_weight("Futura Demi"), "semibold");
    assert_eq!(detect_font_weight("Arial Black"), "black");
    assert_eq!(detect_font_weight("Helvetica Heavy"), "black");
}

#[test]
fn weight_extrabold_before_bold() {
    assert_eq!(detect_font_weight("Open Sans ExtraBold"), "extrabold");
    assert_eq!(detect_font_weight("Ultra Bold Face"), "extrabold");
    assert_eq!(detect_font_weight("Times New Roman Bold"), "bold");
}

#[test]
fn weight_default_regular() {
    assert_eq!(detect_font_weight("Arial"), "regular");
    assert_eq!(detect_font_weight(""), "regular");
}

#[test]
fn labels_are_deterministic() {
    let name = "Courier Script Ultralight";
    assert_eq!(classify_font(name), classify_font(name));
    assert_eq!(detect_font_weight(name), detect_font_weight(name));
}
