//! What holds between parsing and rendering, for every text and every value.
use crate::grammar::{is_did_text, spec_parse, SyntaxError};
use crate::lemmas::{lemma_scan_error_is_ascii, lemma_scan_reaches, lemma_scan_sound};
use crate::model::{prefix, DidValue};
use vstd::prelude::*;
use vstd::utf8::{encode_utf8, is_ascii_chars, is_ascii_chars_encode_utf8};

verus! {

/// Parsing inverts rendering: the text of a well-formed value parses, and
/// parses to that very value, field for field. A parameter without a value
/// stays distinct from one with an empty value, and every list keeps its
/// order.
pub proof fn lemma_parse_inverts_text(d: DidValue)
    requires
        d.well_formed(),
    ensures
        spec_parse(d.text()) == Ok::<DidValue, SyntaxError>(d),
{
    let t = d.text();
    assert(t =~= d.body());
    assert(t.subrange(0, t.len() as int) =~= t);
    assert(t.subrange(0, 4) =~= prefix());
    lemma_scan_reaches(t, d);
}

/// Rendering inverts parsing: whatever a text parses to is well formed, and
/// its text is the text that was parsed, character for character.
pub proof fn lemma_text_inverts_parse(t: Seq<char>)
    requires
        spec_parse(t) is Ok,
    ensures
        spec_parse(t)->Ok_0.well_formed(),
        spec_parse(t)->Ok_0.text() == t,
{
    assert(DidValue::empty().body() =~= prefix());
    lemma_scan_sound(t, 4, DidValue::empty());
}

/// The texts that parse are exactly the texts of well-formed values.
pub proof fn lemma_parses_iff_did_text(t: Seq<char>)
    ensures
        spec_parse(t) is Ok <==> is_did_text(t),
{
    if spec_parse(t) is Ok {
        lemma_text_inverts_parse(t);
        let d = spec_parse(t)->Ok_0;
        assert(d.well_formed() && d.text() == t);
    }
    if is_did_text(t) {
        let d = choose|d: DidValue| d.well_formed() && #[trigger] d.text() == t;
        lemma_parse_inverts_text(d);
    }
}

/// The grammar is unambiguous: two well-formed values with the same text
/// are the same value.
pub proof fn lemma_text_is_injective(a: DidValue, b: DidValue)
    requires
        a.well_formed(),
        b.well_formed(),
        a.text() == b.text(),
    ensures
        a == b,
{
    lemma_parse_inverts_text(a);
    lemma_parse_inverts_text(b);
}

/// The offset of a syntax error counts bytes as well as characters: it lies
/// inside the text, every character before it is ASCII, and so the UTF-8
/// encoding of what stands before it is that many bytes long.
pub proof fn lemma_error_offset_counts_bytes(t: Seq<char>)
    requires
        spec_parse(t) is Err,
    ensures
        0 <= spec_parse(t)->Err_0.offset <= t.len(),
        is_ascii_chars(t.take(spec_parse(t)->Err_0.offset)),
        encode_utf8(t.take(spec_parse(t)->Err_0.offset)).len() == spec_parse(t)->Err_0.offset,
{
    let offset = spec_parse(t)->Err_0.offset;
    if t.len() >= 4 && t.subrange(0, 4) == prefix() {
        assert(is_ascii_chars(t.subrange(0, 4)));
        lemma_scan_error_is_ascii(t, 4, DidValue::empty());
    }
    assert(t.take(offset) =~= t.subrange(0, offset));
    is_ascii_chars_encode_utf8(t.take(offset));
}

} // verus!
