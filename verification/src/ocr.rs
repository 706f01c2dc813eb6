//! Splitting an OCR service's response text into paragraphs. The service
//! sends one text message with the paragraphs joined by an ideographic
//! space; the caller reads the socket and hands the text in.

use vstd::prelude::*;
use vstd::string::StrSliceExecFns;

use crate::navigate::Rect;

verus! {

/// What an OCR service returns: a list of paragraphs, optionally each with
/// the rectangle it was read from. The rectangle-annotated form is accepted
/// as a contract, but only the plain form drives the alignment and
/// navigation logic; rectangle-annotated OCR is an unimplemented extension
/// point.
pub enum OcrResponse {
    /// Paragraphs with their text bounds (not currently supported).
    WithRects(Vec<(Rect, String)>),
    /// A plain list of paragraphs.
    WithoutRects(Vec<String>),
}

/// The character that separates paragraphs in the OCR service's response.
pub const PARAGRAPH_SEPARATOR: char = '\u{3000}';

/// The string the parts reassemble to, with one separator between
/// consecutive parts.
pub open spec fn joined_with_separator(parts: Seq<Seq<char>>) -> Seq<char>
    decreases parts.len(),
{
    if parts.len() == 0 {
        Seq::empty()
    } else if parts.len() == 1 {
        parts[0]
    } else {
        joined_with_separator(parts.drop_last()) + seq![PARAGRAPH_SEPARATOR] + parts.last()
    }
}

/// Split the response text at every separator. The parts, in order, contain
/// no separator and reassemble to exactly the input (so consecutive
/// separators and separators at the ends yield empty parts, as the service
/// means them).
pub fn split_paragraphs(text: &str) -> (r: Vec<String>)
    ensures
        r@.len() >= 1,
        forall|k: int|
            0 <= k < r@.len() ==> !(#[trigger] r@[k])@.contains(PARAGRAPH_SEPARATOR),
        joined_with_separator(r@.map(|i: int, s: String| s@)) == text@,
{
    let n = text.unicode_len();
    let mut parts: Vec<String> = Vec::new();
    let mut start: usize = 0;
    let mut i: usize = 0;
    proof {
        assert(text@.subrange(0, 0) =~= Seq::<char>::empty());
    }
    while i < n
        invariant
            start <= i <= n,
            n == text@.len(),
            forall|k: int|
                0 <= k < parts@.len() ==> !(#[trigger] parts@[k])@.contains(PARAGRAPH_SEPARATOR),
            !text@.subrange(start as int, i as int).contains(PARAGRAPH_SEPARATOR),
            parts@.len() == 0 ==> start == 0,
            parts@.len() > 0 ==> joined_with_separator(parts@.map(|k: int, s: String| s@)) + seq![
                PARAGRAPH_SEPARATOR,
            ] == text@.subrange(0, start as int),
        decreases n - i,
    {
        if text.get_char(i) == PARAGRAPH_SEPARATOR {
            let ghost old_parts = parts@;
            let ghost piece = text@.subrange(start as int, i as int);
            parts.push(text.substring_char(start, i).to_owned());
            proof {
                let pv_old = old_parts.map(|k: int, s: String| s@);
                let pv_new = parts@.map(|k: int, s: String| s@);
                assert(pv_new =~= pv_old.push(piece));
                assert(pv_new.drop_last() =~= pv_old);
                if old_parts.len() == 0 {
                    assert(joined_with_separator(pv_new) == piece);
                    assert(piece + seq![PARAGRAPH_SEPARATOR] =~= text@.subrange(0, i + 1));
                } else {
                    assert(joined_with_separator(pv_new) == joined_with_separator(pv_old) + seq![
                        PARAGRAPH_SEPARATOR,
                    ] + piece);
                    assert(joined_with_separator(pv_old) + seq![PARAGRAPH_SEPARATOR] + piece
                        =~= text@.subrange(0, start as int) + piece);
                    assert(text@.subrange(0, start as int) + piece =~= text@.subrange(0, i as int));
                    assert(joined_with_separator(pv_new) + seq![PARAGRAPH_SEPARATOR]
                        =~= text@.subrange(0, i + 1));
                }
                assert(text@.subrange(i + 1, i + 1) =~= Seq::<char>::empty());
            }
            start = i + 1;
        } else {
            proof {
                let sub1 = text@.subrange(start as int, i as int);
                let sub2 = text@.subrange(start as int, i + 1);
                assert(sub2 =~= sub1.push(text@[i as int]));
                assert(!sub2.contains(PARAGRAPH_SEPARATOR)) by {
                    if sub2.contains(PARAGRAPH_SEPARATOR) {
                        let k = choose|k: int|
                            0 <= k < sub2.len() && sub2[k] == PARAGRAPH_SEPARATOR;
                        if k < sub1.len() {
                            assert(sub1[k] == PARAGRAPH_SEPARATOR);
                            assert(sub1.contains(PARAGRAPH_SEPARATOR));
                        }
                        assert(false);
                    }
                }
            }
        }
        i += 1;
    }
    let ghost old_parts = parts@;
    let ghost piece = text@.subrange(start as int, n as int);
    parts.push(text.substring_char(start, n).to_owned());
    proof {
        let pv_old = old_parts.map(|k: int, s: String| s@);
        let pv_new = parts@.map(|k: int, s: String| s@);
        assert(pv_new =~= pv_old.push(piece));
        assert(pv_new.drop_last() =~= pv_old);
        if old_parts.len() == 0 {
            assert(joined_with_separator(pv_new) == piece);
            assert(piece =~= text@);
        } else {
            assert(joined_with_separator(pv_new) == joined_with_separator(pv_old) + seq![
                PARAGRAPH_SEPARATOR,
            ] + piece);
            assert(joined_with_separator(pv_old) + seq![PARAGRAPH_SEPARATOR] + piece
                =~= text@.subrange(0, start as int) + piece);
            assert(text@.subrange(0, start as int) + piece =~= text@);
            assert(joined_with_separator(pv_new) =~= text@);
        }
    }
    parts
}

} // verus!
