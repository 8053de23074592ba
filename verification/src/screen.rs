use vstd::prelude::*;
use vstd::utf8::encode_utf8;
use crate::encoding::{base64_standard, encode_base64, encoded_len_fits_spec, lemma_base64_len};
use crate::numbers::{decimal, decimal_string, lemma_decimal_digits};
use crate::text::{opt_string, string_views};

verus! {

/// The shell command that prints a PNG screenshot.
pub const SCREENCAP_CMD: &'static str = "screencap -p";

/// The shell command that prints the view hierarchy XML.
pub const HIERARCHY_CMD: &'static str = "uiautomator dump /dev/tty 2>/dev/null";

/// The result of a screen capture.
pub struct ScreenCapture {
    /// Base64-encoded PNG screenshot.
    pub image_base64: Option<String>,
    /// OCR-extracted text from the screen.
    pub ocr_text: Option<String>,
    /// View hierarchy XML.
    pub hierarchy: Option<String>,
    /// Where the screenshot was saved.
    pub saved_to: Option<String>,
}

/// Where a screenshot taken at `millis` since the epoch is saved.
pub open spec fn screenshot_path_spec(millis: u128) -> Seq<char> {
    "/tmp/abridge_screenshot_"@ + decimal(millis as nat) + ".png"@
}

/// Screenshots taken at different times are saved at different paths.
pub proof fn lemma_screenshot_paths_distinct(a: u128, b: u128)
    ensures
        a != b ==> screenshot_path_spec(a) != screenshot_path_spec(b),
{
    reveal_strlit("/tmp/abridge_screenshot_");
    reveal_strlit(".png");
    lemma_decimal_digits(a as nat);
    lemma_decimal_digits(b as nat);
    let pa = screenshot_path_spec(a);
    let pb = screenshot_path_spec(b);
    let head = "/tmp/abridge_screenshot_"@;
    let tail = ".png"@;
    if pa == pb {
        assert(pa.subrange(head.len() as int, pa.len() - tail.len()) =~= decimal(a as nat));
        assert(pb.subrange(head.len() as int, pb.len() - tail.len()) =~= decimal(b as nat));
    }
}

/// Where a screenshot taken at `millis` since the epoch is saved.
pub fn screenshot_path(millis: u128) -> (p: String)
    ensures
        p@ == screenshot_path_spec(millis),
{
    let mut p = "/tmp/abridge_screenshot_".to_owned();
    let n = decimal_string(millis);
    p.append(n.as_str());
    p.append(".png");
    p
}

/// The screenshot as standard Base64 text.
pub fn screenshot_base64(png: &[u8]) -> (s: String)
    requires
        encoded_len_fits_spec(png@.len()),
    ensures
        s@ == base64_standard(png@),
        s@.len() == 4 * ((png@.len() + 2) / 3),
{
    proof {
        lemma_base64_len(png@);
    }
    encode_base64(png)
}

/// The capture of screenshot `png` taken at `millis` since the epoch: either
/// Base64-encoded (when `include_base64` holds) or saved at
/// [`screenshot_path`]`(millis)`, never both; with `ocr_text` exactly when OCR
/// was asked for and `hierarchy_xml` exactly when the hierarchy was.
pub fn capture(
    png: &[u8],
    include_base64: bool,
    millis: u128,
    ocr: bool,
    ocr_text: String,
    hierarchy: bool,
    hierarchy_xml: String,
) -> (c: ScreenCapture)
    requires
        include_base64 ==> encoded_len_fits_spec(png@.len()),
    ensures
        include_base64 ==> (c.image_base64 matches Some(b) && b@ == base64_standard(png@)),
        include_base64 ==> c.saved_to is None,
        !include_base64 ==> c.image_base64 is None,
        !include_base64 ==> (c.saved_to matches Some(p) && p@ == screenshot_path_spec(millis)),
        opt_string(c.ocr_text) == if ocr {
            Some(ocr_text@)
        } else {
            None
        },
        opt_string(c.hierarchy) == if hierarchy {
            Some(hierarchy_xml@)
        } else {
            None
        },
{
    let image_base64 = if include_base64 {
        Some(encode_base64(png))
    } else {
        None
    };
    let saved_to = if !include_base64 {
        Some(screenshot_path(millis))
    } else {
        None
    };
    let ocr_text = if ocr {
        Some(ocr_text)
    } else {
        None
    };
    let hierarchy = if hierarchy {
        Some(hierarchy_xml)
    } else {
        None
    };
    ScreenCapture { image_base64, ocr_text, hierarchy, saved_to }
}

/// The line naming where the screenshot was saved, if it was.
pub open spec fn saved_lines(saved: Option<Seq<char>>) -> Seq<Seq<char>> {
    match saved {
        Some(p) => seq!["Screenshot saved to "@ + p],
        None => seq![],
    }
}

/// The OCR heading and text, if there is text.
pub open spec fn ocr_lines(ocr: Option<Seq<char>>) -> Seq<Seq<char>> {
    match ocr {
        Some(t) => seq!["--- OCR Text ---"@, t],
        None => seq![],
    }
}

/// The hierarchy heading and XML, if there is a hierarchy.
pub open spec fn hierarchy_lines(hierarchy: Option<Seq<char>>) -> Seq<Seq<char>> {
    match hierarchy {
        Some(x) => seq!["--- View Hierarchy ---"@, x],
        None => seq![],
    }
}

/// The line giving the size (in bytes) of the Base64 image.
pub open spec fn size_line(image: Option<Seq<char>>) -> Seq<char> {
    let n: nat = match image {
        Some(s) => (encode_utf8(s).len() as usize) as nat,
        None => 0,
    };
    "Screenshot captured ("@ + decimal(n)
        + " bytes base64). Use --output to save, --ocr for text, --hierarchy for layout."@
}

/// The lines that describe a capture in text form: where it was saved, the OCR
/// text, the hierarchy, and, when none of these is there, the size of the image.
pub open spec fn capture_text(
    image: Option<Seq<char>>,
    ocr: Option<Seq<char>>,
    hierarchy: Option<Seq<char>>,
    saved: Option<Seq<char>>,
) -> Seq<Seq<char>> {
    saved_lines(saved) + ocr_lines(ocr) + hierarchy_lines(hierarchy) + if saved is None && ocr is None
        && hierarchy is None {
        seq![size_line(image)]
    } else {
        seq![]
    }
}

/// The text form of a capture shows each part that is there, whatever else is
/// there: the saved path first, the OCR text under its heading, the hierarchy
/// under its heading after the OCR text; with none of these, only the size line.
pub proof fn lemma_capture_text_parts(
    image: Option<Seq<char>>,
    ocr: Option<Seq<char>>,
    hierarchy: Option<Seq<char>>,
    saved: Option<Seq<char>>,
)
    ensures
        ocr is Some ==> exists|i: int|
            0 <= i && i + 1 < capture_text(image, ocr, hierarchy, saved).len()
                && #[trigger] capture_text(image, ocr, hierarchy, saved)[i] == "--- OCR Text ---"@
                && capture_text(image, ocr, hierarchy, saved)[i + 1] == ocr->0,
        hierarchy is Some ==> exists|j: int|
            0 <= j && j + 1 < capture_text(image, ocr, hierarchy, saved).len()
                && #[trigger] capture_text(image, ocr, hierarchy, saved)[j] == "--- View Hierarchy ---"@
                && capture_text(image, ocr, hierarchy, saved)[j + 1] == hierarchy->0,
        ocr is Some && hierarchy is Some ==> exists|i: int, j: int|
            0 <= i && i + 1 < j && j + 1 < capture_text(image, ocr, hierarchy, saved).len()
                && #[trigger] capture_text(image, ocr, hierarchy, saved)[i] == "--- OCR Text ---"@
                && capture_text(image, ocr, hierarchy, saved)[i + 1] == ocr->0
                && #[trigger] capture_text(image, ocr, hierarchy, saved)[j] == "--- View Hierarchy ---"@
                && capture_text(image, ocr, hierarchy, saved)[j + 1] == hierarchy->0,
        saved is Some ==> capture_text(image, ocr, hierarchy, saved)[0] == "Screenshot saved to "@
            + saved->0,
        saved is None && ocr is None && hierarchy is None ==> capture_text(
            image,
            ocr,
            hierarchy,
            saved,
        ) == seq![size_line(image)],
{
    let text = capture_text(image, ocr, hierarchy, saved);
    let i = saved_lines(saved).len() as int;
    let j = i + ocr_lines(ocr).len();
    if ocr is Some {
        assert(text[i] == "--- OCR Text ---"@ && text[i + 1] == ocr->0);
    }
    if hierarchy is Some {
        assert(text[j] == "--- View Hierarchy ---"@ && text[j + 1] == hierarchy->0);
    }
    if saved is Some {
        assert(text[0] == "Screenshot saved to "@ + saved->0);
    }
    if saved is None && ocr is None && hierarchy is None {
        assert(text =~= seq![size_line(image)]);
    }
}

/// The lines that describe a capture in text form.
pub fn render_capture(c: &ScreenCapture) -> (lines: Vec<String>)
    ensures
        string_views(lines@) == capture_text(
            opt_string(c.image_base64),
            opt_string(c.ocr_text),
            opt_string(c.hierarchy),
            opt_string(c.saved_to),
        ),
{
    let mut lines: Vec<String> = Vec::new();
    match &c.saved_to {
        Some(p) => {
            let mut l = "Screenshot saved to ".to_owned();
            l.append(p.as_str());
            lines.push(l);
        },
        None => {},
    }
    assert(string_views(lines@) =~= saved_lines(opt_string(c.saved_to)));
    match &c.ocr_text {
        Some(t) => {
            lines.push("--- OCR Text ---".to_owned());
            lines.push(t.clone());
        },
        None => {},
    }
    assert(string_views(lines@) =~= saved_lines(opt_string(c.saved_to)) + ocr_lines(
        opt_string(c.ocr_text),
    ));
    match &c.hierarchy {
        Some(x) => {
            lines.push("--- View Hierarchy ---".to_owned());
            lines.push(x.clone());
        },
        None => {},
    }
    assert(string_views(lines@) =~= saved_lines(opt_string(c.saved_to)) + ocr_lines(
        opt_string(c.ocr_text),
    ) + hierarchy_lines(opt_string(c.hierarchy)));
    if c.saved_to.is_none() && c.ocr_text.is_none() && c.hierarchy.is_none() {
        let n: usize = match &c.image_base64 {
            Some(s) => s.as_str().len(),
            None => 0,
        };
        let mut l = "Screenshot captured (".to_owned();
        let digits = decimal_string(n as u128);
        l.append(digits.as_str());
        l.append(" bytes base64). Use --output to save, --ocr for text, --hierarchy for layout.");
        assert(l@ =~= size_line(opt_string(c.image_base64)));
        lines.push(l);
    }
    assert(string_views(lines@) =~= capture_text(
        opt_string(c.image_base64),
        opt_string(c.ocr_text),
        opt_string(c.hierarchy),
        opt_string(c.saved_to),
    ));
    lines
}

} // verus!
