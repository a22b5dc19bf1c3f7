use vstd::prelude::*;

verus! {

/// The name of the encoding that chardetng guesses for the whole buffer `b`.
pub uninterp spec fn guessed_encoding(b: Seq<u8>) -> Seq<char>;

/// What decoding `b` in the encoding labelled `label` gives: the text and
/// whether malformed sequences were replaced; `None` for an unknown label.
pub uninterp spec fn decoded_with(label: Seq<char>, b: Seq<u8>) -> Option<(Seq<char>, bool)>;

/// The text that lossy UTF-8 decoding of `b` gives.
pub uninterp spec fn utf8_lossy_text(b: Seq<u8>) -> Seq<char>;

/// Relies on chardetng's `EncodingDetector` (`new`, `feed` with the whole
/// buffer as the last chunk, `guess` with no top-level domain and UTF-8
/// allowed): the guessed encoding's name depends on the bytes alone.
#[verifier::external_body]
fn guess_encoding(b: &[u8]) -> (r: String)
    ensures
        r@ == guessed_encoding(b@),
{
    let mut detector = chardetng::EncodingDetector::new();
    detector.feed(b, true);
    detector.guess(None, true).name().to_string()
}

/// Relies on encoding_rs's `Encoding::for_label` and `Encoding::decode`:
/// text and error flag depend on the label and the bytes alone.
#[verifier::external_body]
fn decode_with(label: &str, b: &[u8]) -> (r: Option<(String, bool)>)
    ensures
        match r {
            Some(t) => decoded_with(label@, b@) == Some((t.0@, t.1)),
            None => decoded_with(label@, b@) is None,
        },
{
    let encoding = encoding_rs::Encoding::for_label(label.as_bytes())?;
    let (text, _, had_errors) = encoding.decode(b);
    Some((text.into_owned(), had_errors))
}

/// Relies on `String::from_utf8_lossy`: valid UTF-8 comes back unchanged,
/// anything else with replacement characters.
#[verifier::external_body]
fn decode_utf8_lossy(b: &[u8]) -> (r: String)
    ensures
        r@ == utf8_lossy_text(b@),
        vstd::utf8::valid_utf8(b@) ==> r@ == vstd::utf8::decode_utf8(b@),
{
    String::from_utf8_lossy(b).into_owned()
}

/// The text of a data file: decoded in the detected encoding when that
/// decodes cleanly, else as windows-1252 when that does, else as lossy UTF-8.
pub open spec fn file_text(b: Seq<u8>) -> Seq<char> {
    match decoded_with(guessed_encoding(b), b) {
        Some((t, false)) => t,
        _ => match decoded_with("windows-1252"@, b) {
            Some((t, false)) => t,
            _ => utf8_lossy_text(b),
        },
    }
}

/// Decodes the bytes of a data file to text.
pub fn decode_file_text(b: &[u8]) -> (r: String)
    ensures
        r@ == file_text(b@),
{
    let label = guess_encoding(b);
    match decode_with(label.as_str(), b) {
        Some((text, false)) => return text,
        _ => {},
    }
    match decode_with("windows-1252", b) {
        Some((text, false)) => return text,
        _ => {},
    }
    decode_utf8_lossy(b)
}

} // verus!
