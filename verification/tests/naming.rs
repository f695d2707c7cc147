use sidewire::naming::{mime_of_lowercase, mime_or_guess, sanitize_file_name, simple_mime};

#[test]
fn reserved_characters_are_replaced() {
    assert_eq!(sanitize_file_name("a/b\\c:d*e?f\"g<h>i|j"), "a_b_c_d_e_f_g_h_i_j");
    assert_eq!(sanitize_file_name("a\tb\u{7f}c\u{85}d"), "a_b_c_d");
    assert_eq!(sanitize_file_name("../../etc/passwd"), "_.._etc_passwd");
}

#[test]
fn dots_spaces_and_white_space_are_stripped() {
    assert_eq!(sanitize_file_name("  ..report.pdf.. "), "report.pdf");
    assert_eq!(sanitize_file_name("\u{3000}x\u{a0}"), "x");
    assert_eq!(sanitize_file_name("\u{3000}.x"), ".x");
}

#[test]
fn empty_names_get_a_name() {
    assert_eq!(sanitize_file_name(""), "file.bin");
    assert_eq!(sanitize_file_name(" . . "), "file.bin");
    assert_eq!(sanitize_file_name("..\u{3000}.."), "file.bin");
}

#[test]
fn long_names_are_cut() {
    assert_eq!(sanitize_file_name(&"é".repeat(200)), "é".repeat(180));
    assert_eq!(sanitize_file_name(&"x".repeat(180)), "x".repeat(180));
}

#[test]
fn clean_names_are_kept() {
    assert_eq!(sanitize_file_name("Résumé (final).pdf"), "Résumé (final).pdf");
}

#[test]
fn media_types_follow_the_extension() {
    let cases = [
        ("a.pdf", "application/pdf"),
        ("a.png", "image/png"),
        ("a.jpg", "image/jpeg"),
        ("a.jpeg", "image/jpeg"),
        ("a.gif", "image/gif"),
        ("a.txt", "text/plain; charset=utf-8"),
        ("a.md", "text/plain; charset=utf-8"),
        ("a.json", "application/json"),
        ("a.zip", "application/zip"),
        ("a.tar", "application/octet-stream"),
        ("pdf", "application/octet-stream"),
        ("", "application/octet-stream"),
        (".pdf", "application/pdf"),
    ];
    for (name, mime) in cases {
        assert_eq!(simple_mime(name), mime);
        assert_eq!(mime_of_lowercase(name), mime);
    }
}

#[test]
fn media_types_ignore_case() {
    assert_eq!(simple_mime("REPORT.PDF"), "application/pdf");
    assert_eq!(simple_mime("\u{c9}T\u{c9}.PnG"), "image/png");
    assert_eq!(mime_of_lowercase("REPORT.PDF"), "application/octet-stream");
    // The Kelvin sign has an ASCII letter as its lower case; no extension uses it.
    assert_eq!(simple_mime("x.\u{212a}"), "application/octet-stream");
}

#[test]
fn raised_names_keep_their_media_type() {
    let names = [
        "a.pdf", "née.png", "\u{39f}\u{394}\u{39f}\u{3a3}.jpeg", "\u{3a3}a.md", "\u{130}.json",
        "\u{212a}.zip", "é.p\u{212a}", "\u{3a3}", "x.\u{17f}", "a\u{3a3}b.txt", "", "plain",
    ];
    for name in names {
        let raised = name.to_ascii_uppercase();
        assert_eq!(simple_mime(&raised), simple_mime(name));
        assert_eq!(raised.to_lowercase(), name.to_lowercase());
    }
    assert_eq!(simple_mime("\u{39f}\u{394}\u{39f}\u{3a3}.JPEG"), "image/jpeg");
    assert_eq!(simple_mime("n\u{c9}e.PnG"), "image/png");
}

#[test]
fn blank_media_types_are_guessed() {
    assert_eq!(mime_or_guess(" \t".to_string(), "a.png"), "image/png");
    assert_eq!(mime_or_guess("text/x".to_string(), "a.png"), "text/x");
    assert_eq!(mime_or_guess(" text/x ".to_string(), "a.png"), " text/x ");
}
