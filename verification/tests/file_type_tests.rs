use file_triage::domain::FileType;

#[test]
fn test_file_type_from_extension_text() {
    assert_eq!(FileType::from_extension("txt"), FileType::Text);
    assert_eq!(FileType::from_extension("rs"), FileType::Text);
    assert_eq!(FileType::from_extension("py"), FileType::Text);
    assert_eq!(FileType::from_extension("js"), FileType::Text);
    assert_eq!(FileType::from_extension("md"), FileType::Text);
}

#[test]
fn test_file_type_from_extension_image() {
    assert_eq!(FileType::from_extension("png"), FileType::Image);
    assert_eq!(FileType::from_extension("jpg"), FileType::Image);
    assert_eq!(FileType::from_extension("jpeg"), FileType::Image);
    assert_eq!(FileType::from_extension("gif"), FileType::Image);
    assert_eq!(FileType::from_extension("webp"), FileType::Image);
}

#[test]
fn test_file_type_from_extension_pdf() {
    assert_eq!(FileType::from_extension("pdf"), FileType::Pdf);
}

#[test]
fn test_file_type_from_extension_binary() {
    assert_eq!(FileType::from_extension("exe"), FileType::Binary);
    assert_eq!(FileType::from_extension("bin"), FileType::Binary);
    assert_eq!(FileType::from_extension("unknown"), FileType::Binary);
    assert_eq!(FileType::from_extension(""), FileType::Binary);
}

#[test]
fn test_file_type_case_insensitive() {
    assert_eq!(FileType::from_extension("PNG"), FileType::Image);
    assert_eq!(FileType::from_extension("TXT"), FileType::Text);
    assert_eq!(FileType::from_extension("PDF"), FileType::Pdf);
}

#[test]
fn every_text_extension_is_text() {
    let table = [
        "txt", "md", "rs", "py", "js", "ts", "jsx", "tsx", "json", "yaml", "yml", "toml", "xml",
        "html", "css", "sh", "bash", "c", "cpp", "h", "hpp", "java", "go", "rb", "php", "swift",
        "kt", "cs", "sql",
    ];
    for ext in table {
        assert_eq!(FileType::from_extension(ext), FileType::Text, "{}", ext);
        assert_eq!(FileType::from_lowercase(ext), FileType::Text, "{}", ext);
        assert_eq!(
            FileType::from_extension(&ext.to_uppercase()),
            FileType::Text,
            "{}",
            ext
        );
    }
}

#[test]
fn every_image_extension_is_image() {
    let table = ["png", "jpg", "jpeg", "gif", "bmp", "webp", "svg", "ico"];
    for ext in table {
        assert_eq!(FileType::from_extension(ext), FileType::Image, "{}", ext);
        assert_eq!(FileType::from_lowercase(ext), FileType::Image, "{}", ext);
        assert_eq!(
            FileType::from_extension(&ext.to_uppercase()),
            FileType::Image,
            "{}",
            ext
        );
    }
}

#[test]
fn mixed_case_extensions() {
    assert_eq!(FileType::from_extension("Json"), FileType::Text);
    assert_eq!(FileType::from_extension("jPeG"), FileType::Image);
    assert_eq!(FileType::from_extension("Pdf"), FileType::Pdf);
    assert_eq!(FileType::from_extension("eXe"), FileType::Binary);
}

#[test]
fn lowercase_table_is_exact() {
    assert_eq!(FileType::from_lowercase("PNG"), FileType::Binary);
    assert_eq!(FileType::from_lowercase("tx"), FileType::Binary);
    assert_eq!(FileType::from_lowercase("txt "), FileType::Binary);
    assert_eq!(FileType::from_lowercase(".txt"), FileType::Binary);
    assert_eq!(FileType::from_lowercase(""), FileType::Binary);
    assert_eq!(FileType::from_lowercase("pdf"), FileType::Pdf);
}

#[test]
fn lowercase_is_that_of_unicode() {
    // The Kelvin sign is an uppercase form of `k`.
    assert_eq!(FileType::from_extension("\u{212A}t"), FileType::Text);
    assert_eq!(FileType::from_lowercase("\u{212A}t"), FileType::Binary);
}

#[test]
fn unmapped_extensions_are_binary() {
    for ext in ["", "zip", "tar", "docx", "mp3", "txtx", "p", "pd", "."] {
        assert_eq!(FileType::from_extension(ext), FileType::Binary, "{}", ext);
    }
}

#[test]
fn labels() {
    assert_eq!(FileType::Text.label(), "Text");
    assert_eq!(FileType::Image.label(), "Image");
    assert_eq!(FileType::Pdf.label(), "Pdf");
    assert_eq!(FileType::Binary.label(), "Binary");
    assert_eq!(format!("{:?}", FileType::Binary), FileType::Binary.label());
    assert_eq!(format!("{:?}", FileType::Image), FileType::Image.label());
    assert_eq!(format!("{:?}", FileType::Pdf), FileType::Pdf.label());
    assert_eq!(format!("{:?}", FileType::Text), FileType::Text.label());
}
