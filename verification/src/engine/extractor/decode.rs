//! Plain-text files: a byte-order mark names the encoding; otherwise valid
//! UTF-8 is taken as is, and anything else is decoded with the legacy
//! encoding (GBK, GB18030 and the like) that detection guesses. Encodings
//! are handled by their `encoding_rs` names.
use vstd::prelude::*;

verus! {

/// The encoding a leading byte-order mark names, by its `encoding_rs`
/// name, with the mark's length: `EF BB BF` is UTF-8 (3 bytes), `FF FE`
/// UTF-16LE and `FE FF` UTF-16BE (2 bytes).
pub open spec fn bom_of(b: Seq<u8>) -> Option<(Seq<char>, nat)> {
    if b.len() >= 3 && b[0] == 0xEF && b[1] == 0xBB && b[2] == 0xBF {
        Some(("UTF-8"@, 3))
    } else if b.len() >= 2 && b[0] == 0xFF && b[1] == 0xFE {
        Some(("UTF-16LE"@, 2))
    } else if b.len() >= 2 && b[0] == 0xFE && b[1] == 0xFF {
        Some(("UTF-16BE"@, 2))
    } else {
        None
    }
}

/// What `encoding_rs` decoding of `bytes` with the encoding labelled
/// `label` gives (`Encoding::for_label`, then `Encoding::decode`); `None`
/// when no encoding has that label.
pub uninterp spec fn decoded(label: Seq<char>, bytes: Seq<u8>) -> Option<Seq<char>>;

/// The name of the encoding `chardetng` guesses for `bytes` fed as the
/// whole input, with no top-level domain and UTF-8 allowed.
pub uninterp spec fn guessed_label(bytes: Seq<u8>) -> Seq<char>;

/// `encoding_rs::Encoding::for_bom`, giving the encoding's name. The
/// crate's source checks exactly the three marks of `bom_of`; the names of
/// its `UTF_8`, `UTF_16LE` and `UTF_16BE` statics are the ones stated.
#[verifier::external_body]
fn encoding_for_bom(bytes: &[u8]) -> (r: Option<(String, usize)>)
    ensures
        match r {
            Some((l, n)) => bom_of(bytes@) == Some((l@, n as nat)),
            None => bom_of(bytes@) is None,
        },
{
    encoding_rs::Encoding::for_bom(bytes).map(|(enc, n)| (enc.name().to_owned(), n))
}

/// `encoding_rs::Encoding::decode` with the encoding that
/// `Encoding::for_label` finds for `label`; malformed sequences are
/// replaced. The text is named by the label and the bytes.
#[verifier::external_body]
fn decode_with(label: &str, bytes: &[u8]) -> (r: Option<String>)
    ensures
        match r {
            Some(t) => decoded(label@, bytes@) == Some(t@),
            None => decoded(label@, bytes@) is None,
        },
{
    encoding_rs::Encoding::for_label(label.as_bytes()).map(|enc| enc.decode(bytes).0.into_owned())
}

/// `chardetng::EncodingDetector`: a fresh detector fed `bytes` once, as the
/// last buffer, then asked for its guess (no top-level domain, UTF-8
/// allowed); the guess's name. The detector never leaves this function, so
/// it is never fed twice.
#[verifier::external_body]
fn guess_encoding(bytes: &[u8]) -> (r: String)
    ensures
        r@ == guessed_label(bytes@),
{
    let mut detector = chardetng::EncodingDetector::new();
    detector.feed(bytes, true);
    detector.guess(None, true).name().to_owned()
}

/// `std::str::from_utf8`: the text, when `bytes` are valid UTF-8.
#[verifier::external_body]
fn utf8_text(bytes: &[u8]) -> (r: Option<String>)
    ensures
        r is Some <==> vstd::utf8::valid_utf8(bytes@),
        r matches Some(t) ==> t@ == vstd::utf8::decode_utf8(bytes@),
{
    match std::str::from_utf8(bytes) {
        Ok(s) => Some(s.to_owned()),
        Err(_) => None,
    }
}

/// The text of a plain-text file's bytes: nothing for an empty file; after
/// a byte-order mark, the rest decoded in the encoding the mark names;
/// valid UTF-8 as is; otherwise the bytes decoded in the guessed encoding,
/// nothing if that gives no text.
pub open spec fn text_of(bytes: Seq<u8>) -> Option<Seq<char>> {
    if bytes.len() == 0 {
        None
    } else {
        match bom_of(bytes) {
            Some((label, n)) => decoded(label, bytes.skip(n as int)),
            None => if vstd::utf8::valid_utf8(bytes) {
                Some(vstd::utf8::decode_utf8(bytes))
            } else {
                match decoded(guessed_label(bytes), bytes) {
                    Some(t) => if t.len() > 0 {
                        Some(t)
                    } else {
                        None
                    },
                    None => None,
                }
            },
        }
    }
}

/// Text of a plain-text file's bytes.
pub fn decode_text(bytes: &[u8]) -> (r: Option<String>)
    ensures
        match r {
            Some(t) => text_of(bytes@) == Some(t@),
            None => text_of(bytes@) is None,
        },
{
    if bytes.len() == 0 {
        return None;
    }
    match encoding_for_bom(bytes) {
        Some((label, n)) => {
            let (_, rest) = bytes.split_at(n);
            proof {
                assert(rest@ =~= bytes@.skip(n as int));
            }
            return decode_with(label.as_str(), rest);
        },
        None => {},
    }
    match utf8_text(bytes) {
        Some(t) => {
            return Some(t);
        },
        None => {},
    }
    let label = guess_encoding(bytes);
    match decode_with(label.as_str(), bytes) {
        Some(text) => {
            proof {
                vstd::utf8::encode_utf8_valid_utf8(text@);
                if text@.len() == 0 {
                    assert(vstd::utf8::encode_utf8(text@) =~= Seq::<u8>::empty());
                }
            }
            if text.as_str().as_bytes().len() == 0 {
                None
            } else {
                proof {
                    if text@.len() == 0 {
                        assert(vstd::utf8::encode_utf8(text@) =~= Seq::<u8>::empty());
                    }
                }
                Some(text)
            }
        },
        None => None,
    }
}

} // verus!
