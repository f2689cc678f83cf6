use pv_probability::render::{escape, group_thousands, trim_zeros};

#[test]
fn escapes_markup_sensitive_characters() {
    assert_eq!(escape("sensor.pv"), "sensor.pv");
    assert_eq!(escape("<script>&\"'"), "&lt;script&gt;&amp;&quot;&#39;");
    assert_eq!(escape("Grün & groß"), "Grün &amp; groß");
}

#[test]
fn escaped_text_holds_no_markup() {
    let escaped = escape("a < b > c \"d\" 'e'");
    assert!(!escaped.contains(['<', '>', '"', '\'']), "{escaped}");
    assert_eq!(escape(""), "");
}

#[test]
fn trailing_zeros_are_trimmed_from_fractions_only() {
    assert_eq!(trim_zeros("1.50"), "1.5");
    assert_eq!(trim_zeros("2.00"), "2");
    assert_eq!(trim_zeros("100"), "100");
    assert_eq!(trim_zeros("0.45"), "0.45");
}

#[test]
fn thousands_are_grouped_in_threes() {
    assert_eq!(group_thousands("650"), "650");
    assert_eq!(group_thousands("6500"), "6,500");
    assert_eq!(group_thousands("1234567"), "1,234,567");
    assert_eq!(group_thousands("-250"), "-250");
    assert_eq!(group_thousands("-12345.67"), "-12,345.67");
}
