use navis_extension::text::to_ascii_lowercase;

#[test]
fn only_ascii_capitals_are_lowercased() {
    assert_eq!(to_ascii_lowercase("Write-ACCESS_Zz 9"), "write-access_zz 9");
    assert_eq!(to_ascii_lowercase("ÄÖÜ Ω"), "ÄÖÜ Ω");
    assert_eq!(to_ascii_lowercase(""), "");
}
