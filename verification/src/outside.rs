//! What the crate has from others: content hashes, compression, line differences, lossy text,
//! random names and the clock.
use vstd::prelude::*;

verus! {

broadcast use vstd::string::group_string_axioms;

/// Whether a character is a digit of lower-case hexadecimal.
pub open spec fn is_hex(c: char) -> bool {
    ('0' <= c <= '9') || ('a' <= c <= 'f')
}

/// Whether a text is lower-case hexadecimal of the given length.
pub open spec fn is_hex_text(s: Seq<char>, len: nat) -> bool {
    s.len() == len && forall|i: int| 0 <= i < s.len() ==> is_hex(#[trigger] s[i])
}

/// The hexadecimal text of the BLAKE3 hash of some bytes.
pub uninterp spec fn blake3_hex(bytes: Seq<u8>) -> Seq<char>;

/// `blake3::hash` and `Hash::to_hex`: the hash is a function of the bytes, named `blake3_hex`,
/// and its text is 64 digits of lower-case hexadecimal.
#[verifier::external_body]
pub(crate) fn hash_hex(bytes: &[u8]) -> (r: String)
    ensures
        r@ == blake3_hex(bytes@),
        is_hex_text(r@, 64),
{
    blake3::hash(bytes).to_hex().to_string()
}

/// `std::io::Error`, why a compressed stream could not be written or read.
#[verifier::external_type_specification]
#[verifier::external_body]
pub struct ExIoError(std::io::Error);

/// What `zstd::stream::encode_all` writes for some bytes at the default level; `None` where it
/// fails.
pub uninterp spec fn zstd_encoded(bytes: Seq<u8>) -> Option<Seq<u8>>;

/// What `zstd::stream::decode_all` makes of some bytes; `None` where they are no zstd frames.
pub uninterp spec fn zstd_decoded(stored: Seq<u8>) -> Option<Seq<u8>>;

/// `zstd::stream::encode_all` at the default level: what it writes, or that it fails, is a
/// function of the bytes, named `zstd_encoded`; and what it writes decodes to those bytes.
#[verifier::external_body]
pub(crate) fn zstd_encode(bytes: &[u8]) -> (r: Result<Vec<u8>, std::io::Error>)
    ensures
        match r {
            Ok(stored) => zstd_encoded(bytes@) == Some(stored@) && zstd_decoded(stored@) == Some(
                bytes@,
            ),
            Err(_) => zstd_encoded(bytes@) is None,
        },
{
    zstd::stream::encode_all(bytes, 0)
}

/// `zstd::stream::decode_all`: the bytes that the frames hold, or that there are no frames, is a
/// function of what is read, named `zstd_decoded`.
#[verifier::external_body]
pub(crate) fn zstd_decode(stored: &[u8]) -> (r: Result<Vec<u8>, std::io::Error>)
    ensures
        match r {
            Ok(bytes) => zstd_decoded(stored@) == Some(bytes@),
            Err(_) => zstd_decoded(stored@) is None,
        },
{
    zstd::stream::decode_all(stored)
}

/// Which side of a comparison a line is on.
#[derive(Debug, Clone, Copy, PartialEq, Eq, Structural)]
pub enum LineTag {
    Equal,
    Delete,
    Insert,
}

/// One line of a comparison of two texts.
#[derive(Debug)]
pub struct LineChange {
    pub tag: LineTag,
    pub text: String,
}

/// One line of a comparison of two texts.
pub struct LineChangeView {
    pub tag: LineTag,
    pub text: Seq<char>,
}

impl DeepView for LineChange {
    type V = LineChangeView;

    open spec fn deep_view(&self) -> LineChangeView {
        LineChangeView { tag: self.tag, text: self.text@ }
    }
}

/// The lines of the comparison of two texts that `similar` makes, in their order.
pub uninterp spec fn line_changes(older: Seq<char>, newer: Seq<char>) -> Seq<LineChangeView>;

/// A text with a line feed behind it, unless it ends its last line by itself.
pub open spec fn closed(s: Seq<char>) -> Seq<char> {
    if s.len() == 0 || s.last() == '\n' || s.last() == '\r' {
        s
    } else {
        s.push('\n')
    }
}

/// What the lines of a comparison make up without those with a tag.
pub open spec fn text_without(changes: Seq<LineChangeView>, tag: LineTag) -> Seq<char> {
    crate::text::concat(
        changes.filter(|c: LineChangeView| c.tag != tag).map_values(|c: LineChangeView| c.text),
    )
}

/// Whether the lines of a comparison make up both texts: those that are not inserted the older
/// one, and those that are not deleted the newer one, but for a line feed at the end.
pub open spec fn compares(
    older: Seq<char>,
    newer: Seq<char>,
    changes: Seq<LineChangeView>,
) -> bool {
    &&& text_without(changes, LineTag::Insert) == closed(older)
    &&& text_without(changes, LineTag::Delete) == closed(newer)
}

/// `similar::TextDiff::from_lines` and its `iter_all_changes`: the changes, each with its tag and
/// its text, are a function of the two texts, named `line_changes`. A line feed is added to a text
/// that ends in neither a line feed nor a carriage return; one that ends in a carriage return gets
/// none. The equal and the deleted lines make up the older text in their order, the equal and the
/// inserted ones the newer. Which lines count as equal is not said beyond that.
#[verifier::external_body]
pub(crate) fn diff_lines(older: &str, newer: &str) -> (r: Vec<LineChange>)
    ensures
        r.deep_view() == line_changes(older@, newer@),
        compares(older@, newer@, r.deep_view()),
{
    similar::TextDiff::from_lines(older, newer).iter_all_changes().map(|change| LineChange {
        tag: match change.tag() {
            similar::ChangeTag::Equal => LineTag::Equal,
            similar::ChangeTag::Delete => LineTag::Delete,
            similar::ChangeTag::Insert => LineTag::Insert,
        },
        text: change.to_string(),
    }).collect()
}

/// The text that `String::from_utf8_lossy` makes of some bytes.
pub uninterp spec fn utf8_lossy(bytes: Seq<u8>) -> Seq<char>;

/// `String::from_utf8_lossy`: the text is a function of the bytes, named `utf8_lossy`; for bytes
/// that are UTF-8 it is the text that they encode.
#[verifier::external_body]
pub(crate) fn lossy_text(bytes: &[u8]) -> (r: String)
    ensures
        r@ == utf8_lossy(bytes@),
        vstd::utf8::valid_utf8(bytes@) ==> r@ == vstd::utf8::decode_utf8(bytes@),
{
    String::from_utf8_lossy(bytes).into_owned()
}

/// `uuid::Uuid::new_v4` in its simple form: 32 digits of lower-case hexadecimal, drawn at random.
#[verifier::external_body]
pub(crate) fn random_hex() -> (r: String)
    ensures
        is_hex_text(r@, 32),
{
    uuid::Uuid::new_v4().simple().to_string()
}

/// `std::time::SystemTime`, a reading of the clock.
#[verifier::external_type_specification]
#[verifier::external_body]
pub struct ExSystemTime(std::time::SystemTime);

/// `std::time::SystemTimeError`, that a reading of the clock lies before another.
#[verifier::external_type_specification]
#[verifier::external_body]
pub struct ExSystemTimeError(std::time::SystemTimeError);

/// `SystemTime::now` reads the clock. Nothing is claimed of what it reads.
#[verifier::external_body]
fn read_clock() -> std::time::SystemTime {
    std::time::SystemTime::now()
}

/// `SystemTime::duration_since` the start of 1970: how long ago that was. Nothing is claimed of
/// the outcome.
#[verifier::external_body]
fn since_epoch(t: std::time::SystemTime) -> Result<
    std::time::Duration,
    std::time::SystemTimeError,
> {
    t.duration_since(std::time::UNIX_EPOCH)
}

/// `Duration::as_nanos` counts the nanoseconds of a duration. Nothing is claimed of the count.
pub assume_specification[ std::time::Duration::as_nanos ](d: &std::time::Duration) -> u128;

/// The time stamp for a number of nanoseconds since the start of 1970: its low 64 bits, or zero
/// for a clock that is set before then.
pub fn stamp(nanos: Option<u128>) -> (r: i64)
    ensures
        r == (match nanos {
            Some(n) => n as i64,
            None => 0i64,
        }),
{
    match nanos {
        Some(n) => n as i64,
        None => 0,
    }
}

/// The time stamp of now.
pub fn now_ns() -> i64 {
    match since_epoch(read_clock()) {
        Ok(d) => stamp(Some(d.as_nanos())),
        Err(_) => stamp(None),
    }
}

} // verus!
