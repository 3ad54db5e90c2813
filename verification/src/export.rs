//! The Prometheus text exposition of a registry.

use vstd::prelude::*;
use vstd::utf8::{decode_utf8, valid_utf8};
use crate::outside::{
    encode_text, family_untyped, gather, is_untyped, string_from_utf8, text_encoding,
};

verus! {

/// The text served when the encoder fails.
pub open spec fn encoding_error_text() -> Seq<char> {
    "# Error encoding metrics\n"@
}

/// The text served when the encoder's output is not UTF-8.
pub open spec fn utf8_error_text() -> Seq<char> {
    "# Error converting metrics to UTF-8\n"@
}

/// The text served for an encoder result.
pub open spec fn exposition_text(encoded: Result<Vec<u8>, prometheus::Error>) -> Seq<char> {
    match encoded {
        Ok(bytes) => if valid_utf8(bytes@) {
            decode_utf8(bytes@)
        } else {
            utf8_error_text()
        },
        Err(_) => encoding_error_text(),
    }
}

/// Turns the encoder's result into the served text: the encoded text, or a
/// comment line that says what went wrong.
pub fn render_exposition(encoded: Result<Vec<u8>, prometheus::Error>) -> (text: String)
    ensures
        text@ == exposition_text(encoded),
{
    match encoded {
        Ok(bytes) => match string_from_utf8(bytes) {
            Some(text) => text,
            None => "# Error converting metrics to UTF-8\n".to_owned(),
        },
        Err(_) => "# Error encoding metrics\n".to_owned(),
    }
}

/// The text served for `families`: an encoding error when one of them is
/// untyped, which the text encoder cannot write; otherwise what the encoder
/// makes of them.
pub open spec fn families_text(families: Seq<prometheus::proto::MetricFamily>) -> Seq<char> {
    if exists|i: int| 0 <= i < families.len() && family_untyped(#[trigger] families[i]) {
        encoding_error_text()
    } else {
        match text_encoding(families) {
            Some(bytes) => if valid_utf8(bytes) {
                decode_utf8(bytes)
            } else {
                utf8_error_text()
            },
            None => encoding_error_text(),
        }
    }
}

/// The Prometheus text exposition of gathered metric families.
pub fn export_families(families: &Vec<prometheus::proto::MetricFamily>) -> (text: String)
    ensures
        text@ == families_text(families@),
{
    let n = families.len();
    let mut i: usize = 0;
    while i < n
        invariant
            n == families@.len(),
            0 <= i <= n,
            forall|j: int| 0 <= j < i ==> !family_untyped(#[trigger] families@[j]),
        decreases n - i,
    {
        if is_untyped(&families[i]) {
            return "# Error encoding metrics\n".to_owned();
        }
        i = i + 1;
    }
    let encoded = encode_text(families);
    render_exposition(encoded)
}

/// Export the metrics of `registry` in the Prometheus text format.
///
/// What the registry holds when it is gathered is its own mutable state, not
/// known here, so the contract says that the text is the exposition of some
/// list of families.
pub fn export_metrics_from_registry(registry: &prometheus::Registry) -> (text: String)
    ensures
        exists|families: Seq<prometheus::proto::MetricFamily>| text@ == families_text(families),
{
    let families = gather(registry);
    let text = export_families(&families);
    assert(text@ == families_text(families@));
    text
}

} // verus!
