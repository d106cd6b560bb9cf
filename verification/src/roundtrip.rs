//! Encoding a note and decoding the record gives the note back.
//!
//! The frame of a record gives header and plain text back character by
//! character. What is between them is the JSON library: the law holds as far
//! as the parser reads back what the printer wrote.

use vstd::prelude::*;
use serde_json::Value;
use crate::codec::{
    body_text, closing_line_at, dash_line_at, decodes_to, delimiter_at, encodes, framed,
    has_closing_line, has_dash_line, has_header, header_of, header_text, is_fallback_document,
    is_header_of, lemma_header_keys_differ, lemma_next_delimiter, next_closing_line,
    next_delimiter, plain_text, stored_header, stored_metadata, HeaderView,
};
use crate::json::{json_parse, json_pretty};
use crate::model::NoteView;
use crate::text::all_blank;

verus! {

/// The header that the record of a note holds: every field of the note but its
/// id and its plain text.
pub open spec fn header_view_of(n: NoteView) -> HeaderView {
    HeaderView {
        title: Some(n.title),
        content: n.content,
        updated_at: Some(n.updated_at),
        created_at: Some(n.created_at),
        sticky: Some(n.sticky),
        ephemeral: Some(n.ephemeral),
        archived: Some(n.archived),
        note_type: Some(n.note_type),
        color: Some(n.color),
        folder_id: n.folder_id,
        position: Some(n.position as i64),
    }
}

/// Reading the JSON header of a note gives the fields of the note.
pub proof fn lemma_header_reads_back(header: Value, n: NoteView)
    requires
        is_header_of(header, n),
    ensures
        header_of(header) == header_view_of(n),
{
    lemma_header_keys_differ();
}

/// The first line of dashes at `from` or later is the one at `at`, where none
/// starts in between.
pub proof fn lemma_next_closing_line_is(s: Seq<char>, from: int, at: int)
    requires
        0 <= from <= at,
        closing_line_at(s, at),
        forall|i: int| from <= i < at ==> !closing_line_at(s, i),
    ensures
        next_closing_line(s, from) == at,
    decreases at - from,
{
    if from < at {
        lemma_next_closing_line_is(s, from + 1, at);
    }
}

/// A framed record splits into the header and the plain text that it was made
/// of, character by character, where no line of the header holds three dashes
/// and nothing else.
pub proof fn lemma_framed_splits(header: Seq<char>, body: Seq<char>)
    requires
        !has_dash_line(header),
    ensures
        has_header(framed(header, body)),
        has_closing_line(framed(header, body)),
        header_text(framed(header, body)) == header,
        body_text(framed(header, body)) == body,
{
    let s = framed(header, body);
    let h = header.len() as int;
    assert(s.len() == 10 + h + body.len());
    assert(s[0] == '-' && s[1] == '-' && s[2] == '-' && s[3] == '\n');
    assert forall|k: int| 0 <= k < h implies s[4 + k] == header[k] by {}
    assert(s[4 + h] == '\n' && s[5 + h] == '-' && s[6 + h] == '-' && s[7 + h] == '-');
    assert(s[8 + h] == '\n' && s[9 + h] == '\n');

    // The record opens with dashes, and a second run follows.
    assert(delimiter_at(s, 0));
    assert(next_delimiter(s, 0) == 0);
    assert(s.subrange(0, 0) =~= Seq::<char>::empty());
    assert(all_blank(s.subrange(0, 0)));
    assert(delimiter_at(s, 5 + h));
    lemma_next_delimiter(s, 3);
    assert(next_delimiter(s, 3) < s.len());
    assert(has_header(s));

    // The first line of dashes is the one that the frame put behind the header.
    assert forall|i: int| 3 <= i < 4 + h implies !closing_line_at(s, i) by {
        if closing_line_at(s, i) {
            let at = i - 3;
            assert(at + 3 <= h) by {
                if at + 3 > h {
                    assert(s[4 + h] == '\n');
                }
            }
            assert(s[i + 1] == header[at]);
            assert(s[i + 2] == header[at + 1]);
            assert(s[i + 3] == header[at + 2]);
            if at > 0 {
                assert(s[i] == header[at - 1]);
            }
            if at + 3 < h {
                assert(s[i + 4] == header[at + 3]);
            }
            assert(dash_line_at(header, at));
        }
    }
    assert(closing_line_at(s, 4 + h));
    lemma_next_closing_line_is(s, 3, 4 + h);
    assert(has_closing_line(s));

    let between = s.subrange(3, 4 + h);
    assert(between =~= seq!['\n'] + header);
    assert(between.drop_first() =~= header);

    let after = s.subrange(9 + h, s.len() as int);
    assert(after =~= seq!['\n'] + body);
    assert(after.drop_first() =~= body);
}

/// Encoding a note and decoding the record gives every field of the note back:
/// the plain text character by character, and in place of a content that the
/// note lacks the fallback document of its plain text. A note without plain
/// text comes back with an empty one.
///
/// `record` is a record of the note `n` as the encoder writes it, `header` the
/// JSON header in it, and `back` any note that the record decodes to. The law
/// asks one thing, of the JSON library: that the parser reads the printed
/// header back with the same fields.
pub proof fn lemma_round_trip(
    n: NoteView,
    header: Value,
    record: Seq<char>,
    parsed: Value,
    now: Seq<char>,
    back: NoteView,
)
    requires
        i32::MIN <= n.position <= i32::MAX,
        encodes(n, header, record),
        json_parse(json_pretty(header)->0) == Some(parsed),
        header_of(parsed) == header_of(header),
        decodes_to(n.id, stored_header(record), body_text(record), now, back),
    ensures
        back == (NoteView { content: back.content, raw_text: Some(plain_text(n)), ..n }),
        n.raw_text is Some ==> back.raw_text == n.raw_text,
        n.content is Some ==> back.content == n.content,
        n.content is None ==> (back.content matches Some(d) && is_fallback_document(
            d,
            plain_text(n),
        )),
        n.raw_text is Some && n.content is Some ==> back == n,
{
    lemma_framed_splits(json_pretty(header)->0, plain_text(n));
    lemma_header_reads_back(header, n);
    assert(stored_metadata(record) == Some(parsed));
    assert(stored_header(record) == header_view_of(n));
    assert((n.position as i64) as i32 == n.position);
}

} // verus!
