//! The coarse category of a file, derived from its extension.

use vstd::prelude::*;
use vstd::string::*;
use crate::domain::text::str_eq;

verus! {

/// The category of a file.
#[derive(Debug, Clone, Copy, PartialEq, Eq, Structural)]
pub enum FileType {
    Text,
    Image,
    Pdf,
    Binary,
}

/// The lowercase form of a string, as `str::to_lowercase` of the standard
/// library gives it: the Unicode lowercase mapping of each character.
pub uninterp spec fn lowercase_of(s: Seq<char>) -> Seq<char>;

/// The lowercase extensions of text files.
pub open spec fn is_text_extension(e: Seq<char>) -> bool {
    ||| e == "txt"@
    ||| e == "md"@
    ||| e == "rs"@
    ||| e == "py"@
    ||| e == "js"@
    ||| e == "ts"@
    ||| e == "jsx"@
    ||| e == "tsx"@
    ||| e == "json"@
    ||| e == "yaml"@
    ||| e == "yml"@
    ||| e == "toml"@
    ||| e == "xml"@
    ||| e == "html"@
    ||| e == "css"@
    ||| e == "sh"@
    ||| e == "bash"@
    ||| e == "c"@
    ||| e == "cpp"@
    ||| e == "h"@
    ||| e == "hpp"@
    ||| e == "java"@
    ||| e == "go"@
    ||| e == "rb"@
    ||| e == "php"@
    ||| e == "swift"@
    ||| e == "kt"@
    ||| e == "cs"@
    ||| e == "sql"@
}

/// The lowercase extensions of image files.
pub open spec fn is_image_extension(e: Seq<char>) -> bool {
    ||| e == "png"@
    ||| e == "jpg"@
    ||| e == "jpeg"@
    ||| e == "gif"@
    ||| e == "bmp"@
    ||| e == "webp"@
    ||| e == "svg"@
    ||| e == "ico"@
}

/// The lowercase extension of PDF files.
pub open spec fn is_pdf_extension(e: Seq<char>) -> bool {
    e == "pdf"@
}

/// The category of a file whose extension, already in lowercase, is `e`.
/// An extension that no table holds, the empty one among them, is `Binary`.
pub open spec fn category_of_lowercase(e: Seq<char>) -> FileType {
    if is_text_extension(e) {
        FileType::Text
    } else if is_image_extension(e) {
        FileType::Image
    } else if is_pdf_extension(e) {
        FileType::Pdf
    } else {
        FileType::Binary
    }
}

/// The category of a file whose extension is `ext`, in any case: that of
/// its lowercase form. A file without extension is `Binary`.
pub open spec fn category_of_extension(ext: Seq<char>) -> FileType {
    if ext.len() == 0 {
        FileType::Binary
    } else {
        category_of_lowercase(lowercase_of(ext))
    }
}

/// `str::to_lowercase` of the standard library. Trusted: the result is the
/// lowercase form of the argument, a function of the argument alone.
#[verifier::external_body]
fn to_lowercase(s: &str) -> (r: String)
    ensures
        r@ == lowercase_of(s@),
{
    s.to_lowercase()
}

fn in_text_table(e: &str) -> (r: bool)
    ensures
        r == is_text_extension(e@),
{
    str_eq(e, "txt") || str_eq(e, "md") || str_eq(e, "rs") || str_eq(e, "py") || str_eq(e, "js")
        || str_eq(e, "ts") || str_eq(e, "jsx") || str_eq(e, "tsx") || str_eq(e, "json") || str_eq(
        e,
        "yaml",
    ) || str_eq(e, "yml") || str_eq(e, "toml") || str_eq(e, "xml") || str_eq(e, "html") || str_eq(
        e,
        "css",
    ) || str_eq(e, "sh") || str_eq(e, "bash") || str_eq(e, "c") || str_eq(e, "cpp") || str_eq(
        e,
        "h",
    ) || str_eq(e, "hpp") || str_eq(e, "java") || str_eq(e, "go") || str_eq(e, "rb") || str_eq(
        e,
        "php",
    ) || str_eq(e, "swift") || str_eq(e, "kt") || str_eq(e, "cs") || str_eq(e, "sql")
}

fn in_image_table(e: &str) -> (r: bool)
    ensures
        r == is_image_extension(e@),
{
    str_eq(e, "png") || str_eq(e, "jpg") || str_eq(e, "jpeg") || str_eq(e, "gif") || str_eq(
        e,
        "bmp",
    ) || str_eq(e, "webp") || str_eq(e, "svg") || str_eq(e, "ico")
}

impl FileType {
    /// The textual tag of the category.
    pub open spec fn spec_label(self) -> Seq<char> {
        match self {
            FileType::Text => "Text"@,
            FileType::Image => "Image"@,
            FileType::Pdf => "Pdf"@,
            FileType::Binary => "Binary"@,
        }
    }

    /// The textual tag of the category.
    pub fn label(&self) -> (r: &'static str)
        ensures
            r@ == self.spec_label(),
    {
        match self {
            FileType::Text => "Text",
            FileType::Image => "Image",
            FileType::Pdf => "Pdf",
            FileType::Binary => "Binary",
        }
    }

    /// The category of a file whose extension is already in lowercase.
    pub fn from_lowercase(ext: &str) -> (r: FileType)
        ensures
            r == category_of_lowercase(ext@),
    {
        if in_text_table(ext) {
            FileType::Text
        } else if in_image_table(ext) {
            FileType::Image
        } else if str_eq(ext, "pdf") {
            FileType::Pdf
        } else {
            FileType::Binary
        }
    }

    /// The category of a file whose extension is `ext`, whatever its case.
    pub fn from_extension(ext: &str) -> (r: FileType)
        ensures
            r == category_of_extension(ext@),
    {
        if ext.is_empty() {
            return FileType::Binary;
        }
        let lower = to_lowercase(ext);
        FileType::from_lowercase(lower.as_str())
    }
}

/// Category derivation does not tell apart two extensions that differ in
/// case only: two that are both empty, or both not and of the same
/// lowercase form.
pub proof fn lemma_category_ignores_case(a: Seq<char>, b: Seq<char>)
    requires
        (a.len() == 0) == (b.len() == 0),
        lowercase_of(a) == lowercase_of(b),
    ensures
        category_of_extension(a) == category_of_extension(b),
{
}

/// Every extension has exactly one category: that of the one table that
/// holds its lowercase form, and `Binary` where none does or where the
/// extension is empty.
pub proof fn lemma_category_by_table(ext: Seq<char>)
    ensures
        ext.len() == 0 ==> category_of_extension(ext) == FileType::Binary,
        ext.len() > 0 ==> (category_of_extension(ext) == FileType::Text <==> is_text_extension(
            lowercase_of(ext),
        )),
        ext.len() > 0 ==> (category_of_extension(ext) == FileType::Image <==> is_image_extension(
            lowercase_of(ext),
        )),
        ext.len() > 0 ==> (category_of_extension(ext) == FileType::Pdf <==> is_pdf_extension(
            lowercase_of(ext),
        )),
        ext.len() > 0 ==> (category_of_extension(ext) == FileType::Binary <==> !is_text_extension(
            lowercase_of(ext),
        ) && !is_image_extension(lowercase_of(ext)) && !is_pdf_extension(lowercase_of(ext))),
{
    lemma_tables_disjoint(lowercase_of(ext));
}

/// No lowercase extension is in two tables, and none in a table is empty.
pub proof fn lemma_tables_disjoint(e: Seq<char>)
    ensures
        !(is_text_extension(e) && is_image_extension(e)),
        !(is_text_extension(e) && is_pdf_extension(e)),
        !(is_image_extension(e) && is_pdf_extension(e)),
        is_text_extension(e) || is_image_extension(e) || is_pdf_extension(e) ==> e.len() > 0,
{
    // Two entries of the same length differ in their first or second character.
    assert(e.len() >= 2 ==> e[0] == e.first() && e[1] == e.subrange(1, 2)[0]);
    reveal_strlit("txt");
    reveal_strlit("md");
    reveal_strlit("rs");
    reveal_strlit("py");
    reveal_strlit("js");
    reveal_strlit("ts");
    reveal_strlit("jsx");
    reveal_strlit("tsx");
    reveal_strlit("json");
    reveal_strlit("yaml");
    reveal_strlit("yml");
    reveal_strlit("toml");
    reveal_strlit("xml");
    reveal_strlit("html");
    reveal_strlit("css");
    reveal_strlit("sh");
    reveal_strlit("bash");
    reveal_strlit("c");
    reveal_strlit("cpp");
    reveal_strlit("h");
    reveal_strlit("hpp");
    reveal_strlit("java");
    reveal_strlit("go");
    reveal_strlit("rb");
    reveal_strlit("php");
    reveal_strlit("swift");
    reveal_strlit("kt");
    reveal_strlit("cs");
    reveal_strlit("sql");
    reveal_strlit("png");
    reveal_strlit("jpg");
    reveal_strlit("jpeg");
    reveal_strlit("gif");
    reveal_strlit("bmp");
    reveal_strlit("webp");
    reveal_strlit("svg");
    reveal_strlit("ico");
    reveal_strlit("pdf");
}

/// The empty extension is `Binary`, in the lowercase table too.
pub proof fn lemma_no_extension_is_binary()
    ensures
        category_of_extension(Seq::<char>::empty()) == FileType::Binary,
        category_of_lowercase(Seq::<char>::empty()) == FileType::Binary,
{
    lemma_tables_disjoint(Seq::<char>::empty());
}

} // verus!
