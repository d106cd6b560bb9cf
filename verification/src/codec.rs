//! The record of a note: a header of JSON between two lines of dashes, an
//! empty line, and after it the plain text of the note.
//!
//! ```text
//! ---
//! { "title": ..., "position": ..., ... }
//! ---
//!
//! the plain text
//! ```
//!
//! The header ends at the first line that holds three dashes and nothing else.
//! No string of the header can stand for that line, since JSON writes a line
//! break inside a string as an escape, and the encoder checks that the printed
//! header holds no such line. The plain text is all that follows the empty
//! line, character by character.
//!
//! A record that was written by hand may lack the closing line. It is then read
//! leniently: the header ends at the next run of three dashes, and header and
//! text are trimmed. A record that does not start with dashes is all text and
//! has no header.

use vstd::prelude::*;
use vstd::string::StringExecFns;
use serde_json::Value;
use crate::json::{
    array_value, bool_member, bool_value, clone_value, empty_object, error_message, int_member,
    int_value, json_bool, json_fields, json_int, json_items, json_parse, json_pretty, json_text,
    member, parse_json, pretty_json, set_member, text_member, text_value, value_as_bool,
    value_as_i64, value_as_str, value_get,
};
use crate::model::{opt_text, Note, NoteView, StoreError};
use crate::roundtrip::lemma_framed_splits;
use crate::text::{all_blank, chars_of, is_blank_char, text_of, trim_range, trimmed};

verus! {

/// Whether three dashes stand at index `i`.
pub open spec fn delimiter_at(s: Seq<char>, i: int) -> bool {
    &&& 0 <= i
    &&& i + 3 <= s.len()
    &&& s[i] == '-'
    &&& s[i + 1] == '-'
    &&& s[i + 2] == '-'
}

/// The index of the first run of three dashes that starts at `from` or later;
/// the length of the sequence where there is none.
pub open spec fn next_delimiter(s: Seq<char>, from: int) -> int
    decreases s.len() - from,
{
    if from < 0 || from + 3 > s.len() {
        s.len() as int
    } else if delimiter_at(s, from) {
        from
    } else {
        next_delimiter(s, from + 1)
    }
}

/// The first run of dashes is a run of dashes, and none starts between `from`
/// and it; where there is none, none starts at `from` or later.
pub proof fn lemma_next_delimiter(s: Seq<char>, from: int)
    requires
        0 <= from,
    ensures
        from <= next_delimiter(s, from) || next_delimiter(s, from) == s.len(),
        next_delimiter(s, from) <= s.len(),
        next_delimiter(s, from) < s.len() ==> delimiter_at(s, next_delimiter(s, from)),
        forall|i: int| from <= i < next_delimiter(s, from) ==> !delimiter_at(s, i),
    decreases s.len() - from,
{
    if from + 3 <= s.len() && !delimiter_at(s, from) {
        lemma_next_delimiter(s, from + 1);
    }
}

/// Whether a line of three dashes and nothing else ends at index `i + 4`: a
/// line break at `i`, three dashes, and a line break.
pub open spec fn closing_line_at(s: Seq<char>, i: int) -> bool {
    &&& 0 <= i
    &&& i + 5 <= s.len()
    &&& s[i] == '\n'
    &&& s[i + 1] == '-'
    &&& s[i + 2] == '-'
    &&& s[i + 3] == '-'
    &&& s[i + 4] == '\n'
}

/// The index of the line break in front of the first line of three dashes
/// that starts at `from` or later; the length of the sequence where there is
/// none.
pub open spec fn next_closing_line(s: Seq<char>, from: int) -> int
    decreases s.len() - from,
{
    if from < 0 || from + 5 > s.len() {
        s.len() as int
    } else if closing_line_at(s, from) {
        from
    } else {
        next_closing_line(s, from + 1)
    }
}

/// The text without the line break that it starts with, if it starts with
/// one.
pub open spec fn after_line_break(s: Seq<char>) -> Seq<char> {
    if s.len() > 0 && s[0] == '\n' {
        s.drop_first()
    } else {
        s
    }
}

/// Whether the record starts with a header: white space at most, a first run of
/// three dashes, and a second run somewhere after it.
pub open spec fn has_header(s: Seq<char>) -> bool {
    let first = next_delimiter(s, 0);
    &&& first < s.len()
    &&& all_blank(s.subrange(0, first))
    &&& next_delimiter(s, first + 3) < s.len()
}

/// Whether the header of the record ends with a line of three dashes. Meant
/// for a record that has a header.
pub open spec fn has_closing_line(s: Seq<char>) -> bool {
    next_closing_line(s, next_delimiter(s, 0) + 3) < s.len()
}

/// The text of the header. Where a line of three dashes closes the header, it
/// is all between the opening dashes and that line, without the line break
/// that follows the opening dashes. Where none does, it is what stands
/// between the first two runs of dashes, trimmed. Meant for a record that has a
/// header.
pub open spec fn header_text(s: Seq<char>) -> Seq<char> {
    let first = next_delimiter(s, 0);
    if has_closing_line(s) {
        after_line_break(s.subrange(first + 3, next_closing_line(s, first + 3)))
    } else {
        trimmed(s.subrange(first + 3, next_delimiter(s, first + 3)))
    }
}

/// The plain text of a record. Where a line of three dashes closes the header,
/// it is all that follows that line, without the one line break of the empty
/// line. Where the header ends at a run of dashes that is no line, it is what
/// follows the run, trimmed. Where there is no header, it is the whole record
/// as it stands.
pub open spec fn body_text(s: Seq<char>) -> Seq<char> {
    let first = next_delimiter(s, 0);
    if !has_header(s) {
        s
    } else if has_closing_line(s) {
        after_line_break(s.subrange(next_closing_line(s, first + 3) + 5, s.len() as int))
    } else {
        trimmed(s.subrange(next_delimiter(s, first + 3) + 3, s.len() as int))
    }
}

/// The JSON value that the header of a record parses to; `None` where the
/// record has no header or the header is no JSON.
pub open spec fn stored_metadata(s: Seq<char>) -> Option<Value> {
    if has_header(s) {
        json_parse(header_text(s))
    } else {
        None
    }
}

/// The index of the first run of three dashes at `from` or later.
fn find_delimiter(chars: &Vec<char>, from: usize) -> (r: usize)
    requires
        from <= chars.len(),
    ensures
        r == next_delimiter(chars@, from as int),
        from <= r <= chars.len(),
        r < chars.len() ==> delimiter_at(chars@, r as int),
{
    let mut i: usize = from;
    while chars.len() - i >= 3
        invariant
            from <= i <= chars.len(),
            next_delimiter(chars@, from as int) == next_delimiter(chars@, i as int),
        decreases chars.len() - i,
    {
        if chars[i] == '-' && chars[i + 1] == '-' && chars[i + 2] == '-' {
            return i;
        }
        i = i + 1;
    }
    proof {
        lemma_no_delimiter_near_end(chars@, i as int);
    }
    chars.len()
}

/// Too close to the end of the sequence no run of three dashes starts.
proof fn lemma_no_delimiter_near_end(s: Seq<char>, from: int)
    requires
        0 <= from <= s.len(),
        s.len() - from < 3,
    ensures
        next_delimiter(s, from) == s.len(),
{
}

/// The index of the line break in front of the first line of three dashes at
/// `from` or later.
fn find_closing_line(chars: &Vec<char>, from: usize) -> (r: usize)
    requires
        from <= chars.len(),
    ensures
        r == next_closing_line(chars@, from as int),
        from <= r <= chars.len(),
        r < chars.len() ==> closing_line_at(chars@, r as int),
{
    let mut i: usize = from;
    while chars.len() - i >= 5
        invariant
            from <= i <= chars.len(),
            next_closing_line(chars@, from as int) == next_closing_line(chars@, i as int),
        decreases chars.len() - i,
    {
        if chars[i] == '\n' && chars[i + 1] == '-' && chars[i + 2] == '-' && chars[i + 3] == '-'
            && chars[i + 4] == '\n' {
            return i;
        }
        i = i + 1;
    }
    chars.len()
}

/// The start of `chars[start..end]` once the line break that it starts with,
/// if it starts with one, is left out.
fn skip_line_break(chars: &Vec<char>, start: usize, end: usize) -> (r: usize)
    requires
        start <= end <= chars.len(),
    ensures
        start <= r <= end,
        chars@.subrange(r as int, end as int) == after_line_break(
            chars@.subrange(start as int, end as int),
        ),
{
    if start < end && chars[start] == '\n' {
        assert(chars@.subrange(start as int, end as int).drop_first() == chars@.subrange(
            start as int + 1,
            end as int,
        ));
        start + 1
    } else {
        start
    }
}

/// Whether all of `chars[..end]` is white space.
fn blank_before(chars: &Vec<char>, end: usize) -> (r: bool)
    requires
        end <= chars.len(),
    ensures
        r == all_blank(chars@.subrange(0, end as int)),
{
    let mut i: usize = 0;
    while i < end
        invariant
            i <= end <= chars.len(),
            all_blank(chars@.subrange(0, i as int)),
        decreases end - i,
    {
        if !is_blank_char(chars[i]) {
            assert(chars@.subrange(0, end as int)[i as int] == chars@[i as int]);
            return false;
        }
        assert forall|k: int| 0 <= k < i + 1 implies crate::text::is_blank(
            #[trigger] chars@.subrange(0, i as int + 1)[k],
        ) by {
            if k < i {
                assert(chars@.subrange(0, i as int)[k] == chars@[k]);
            }
        }
        i = i + 1;
    }
    true
}

/// Splits a record into the text of its header, if it has one, and its plain
/// text.
pub fn split_record(record: &str) -> (r: (Option<String>, String))
    ensures
        r.0 is Some <==> has_header(record@),
        r.0 is Some ==> r.0->0@ == header_text(record@),
        r.1@ == body_text(record@),
{
    let chars = chars_of(record);
    let n = chars.len();
    let first = find_delimiter(&chars, 0);
    if first < n && blank_before(&chars, first) {
        let second = find_delimiter(&chars, first + 3);
        if second < n {
            let line = find_closing_line(&chars, first + 3);
            if line < n {
                let a = skip_line_break(&chars, first + 3, line);
                let c = skip_line_break(&chars, line + 5, n);
                return (Some(text_of(&chars, a, line)), text_of(&chars, c, n));
            }
            let (a, b) = trim_range(&chars, first + 3, second);
            let (c, d) = trim_range(&chars, second + 3, n);
            return (Some(text_of(&chars, a, b)), text_of(&chars, c, d));
        }
    }
    assert(chars@.subrange(0, n as int) == chars@);
    (None, text_of(&chars, 0, n))
}

/// Reads a record: the JSON value of its header and its plain text. A record
/// without a header, or with a header that is no JSON, gives an object without
/// members.
pub fn parse_markdown_with_frontmatter(content: &str) -> (r: (Value, String))
    ensures
        r.1@ == body_text(content@),
        match stored_metadata(content@) {
            Some(v) => r.0 == v,
            None => json_fields(r.0) == Some(Map::<Seq<char>, Value>::empty()),
        },
{
    let (header, text) = split_record(content);
    let metadata = match header {
        Some(h) => match parse_json(h.as_str()) {
            Some(v) => v,
            None => empty_object(),
        },
        None => empty_object(),
    };
    (metadata, text)
}

/// What the header of a record says of a note. A field that the header does
/// not hold, or holds with a value of another kind, is absent.
#[derive(Debug, PartialEq)]
pub struct Header {
    pub title: Option<String>,
    pub content: Option<Value>,
    pub updated_at: Option<String>,
    pub created_at: Option<String>,
    pub sticky: Option<bool>,
    pub ephemeral: Option<bool>,
    pub archived: Option<bool>,
    pub note_type: Option<String>,
    pub color: Option<String>,
    pub folder_id: Option<String>,
    pub position: Option<i64>,
}

/// What a header holds, as plain mathematical values.
pub struct HeaderView {
    pub title: Option<Seq<char>>,
    pub content: Option<Value>,
    pub updated_at: Option<Seq<char>>,
    pub created_at: Option<Seq<char>>,
    pub sticky: Option<bool>,
    pub ephemeral: Option<bool>,
    pub archived: Option<bool>,
    pub note_type: Option<Seq<char>>,
    pub color: Option<Seq<char>>,
    pub folder_id: Option<Seq<char>>,
    pub position: Option<i64>,
}

impl View for Header {
    type V = HeaderView;

    open spec fn view(&self) -> HeaderView {
        HeaderView {
            title: opt_text(self.title),
            content: self.content,
            updated_at: opt_text(self.updated_at),
            created_at: opt_text(self.created_at),
            sticky: self.sticky,
            ephemeral: self.ephemeral,
            archived: self.archived,
            note_type: opt_text(self.note_type),
            color: opt_text(self.color),
            folder_id: opt_text(self.folder_id),
            position: self.position,
        }
    }
}

/// The header without any field.
pub open spec fn empty_header() -> HeaderView {
    HeaderView {
        title: None,
        content: None,
        updated_at: None,
        created_at: None,
        sticky: None,
        ephemeral: None,
        archived: None,
        note_type: None,
        color: None,
        folder_id: None,
        position: None,
    }
}

/// The header that a JSON value stands for: each field is the member of that
/// name, where the value is an object and the member has the kind of the field.
pub open spec fn header_of(meta: Value) -> HeaderView {
    HeaderView {
        title: text_member(meta, "title"@),
        content: member(meta, "content"@),
        updated_at: text_member(meta, "updatedAt"@),
        created_at: text_member(meta, "createdAt"@),
        sticky: bool_member(meta, "sticky"@),
        ephemeral: bool_member(meta, "ephemeral"@),
        archived: bool_member(meta, "archived"@),
        note_type: text_member(meta, "type"@),
        color: text_member(meta, "color"@),
        folder_id: text_member(meta, "folderId"@),
        position: int_member(meta, "position"@),
    }
}

/// The header that a record holds; the empty one where the record has no
/// header or the header is no JSON.
pub open spec fn stored_header(record: Seq<char>) -> HeaderView {
    match stored_metadata(record) {
        Some(meta) => header_of(meta),
        None => empty_header(),
    }
}

/// The member under `key` as a string.
fn read_text(meta: &Value, key: &str) -> (r: Option<String>)
    ensures
        opt_text(r) == text_member(*meta, key@),
{
    match value_get(meta, key) {
        Some(m) => match value_as_str(m) {
            Some(s) => Some(s.to_owned()),
            None => None,
        },
        None => None,
    }
}

/// The member under `key` as a boolean.
fn read_bool(meta: &Value, key: &str) -> (r: Option<bool>)
    ensures
        r == bool_member(*meta, key@),
{
    match value_get(meta, key) {
        Some(m) => value_as_bool(m),
        None => None,
    }
}

/// The member under `key` as an integer.
fn read_int(meta: &Value, key: &str) -> (r: Option<i64>)
    ensures
        r == int_member(*meta, key@),
{
    match value_get(meta, key) {
        Some(m) => value_as_i64(m),
        None => None,
    }
}

/// A copy of the member under `key`.
fn read_value(meta: &Value, key: &str) -> (r: Option<Value>)
    ensures
        r == member(*meta, key@),
{
    match value_get(meta, key) {
        Some(m) => Some(clone_value(m)),
        None => None,
    }
}

/// Reads the fields of a note out of the JSON value of a header.
pub fn read_header(meta: &Value) -> (h: Header)
    ensures
        h@ == header_of(*meta),
{
    Header {
        title: read_text(meta, "title"),
        content: read_value(meta, "content"),
        updated_at: read_text(meta, "updatedAt"),
        created_at: read_text(meta, "createdAt"),
        sticky: read_bool(meta, "sticky"),
        ephemeral: read_bool(meta, "ephemeral"),
        archived: read_bool(meta, "archived"),
        note_type: read_text(meta, "type"),
        color: read_text(meta, "color"),
        folder_id: read_text(meta, "folderId"),
        position: read_int(meta, "position"),
    }
}

/// Whether `v` is the JSON object `{"type": "text", "text": text}`.
pub open spec fn is_text_node(v: Value, text: Seq<char>) -> bool {
    &&& json_fields(v) matches Some(m)
    &&& m.dom() == set!["type"@, "text"@]
    &&& json_text(m["type"@]) == Some("text"@)
    &&& json_text(m["text"@]) == Some(text)
}

/// Whether `v` is the JSON object
/// `{"type": "paragraph", "content": [{"type": "text", "text": text}]}`.
pub open spec fn is_paragraph(v: Value, text: Seq<char>) -> bool {
    &&& json_fields(v) matches Some(m)
    &&& m.dom() == set!["type"@, "content"@]
    &&& json_text(m["type"@]) == Some("paragraph"@)
    &&& json_items(m["content"@]) matches Some(items)
    &&& items.len() == 1
    &&& is_text_node(items[0], text)
}

/// Whether `v` is the document that stands for a note without stored content:
/// `{"type": "doc", "content": [..]}`, with one paragraph that holds `text`
/// where `text` is not empty, and without any paragraph where it is.
pub open spec fn is_fallback_document(v: Value, text: Seq<char>) -> bool {
    &&& json_fields(v) matches Some(m)
    &&& m.dom() == set!["type"@, "content"@]
    &&& json_text(m["type"@]) == Some("doc"@)
    &&& json_items(m["content"@]) matches Some(items)
    &&& if text.len() == 0 {
        items.len() == 0
    } else {
        items.len() == 1 && is_paragraph(items[0], text)
    }
}

/// The document that stands for a note without stored content: one paragraph
/// with the note's plain text, or no paragraph where there is no text.
pub fn fallback_document(raw_text: &str) -> (v: Value)
    ensures
        is_fallback_document(v, raw_text@),
{
    proof {
        reveal_strlit("type");
        reveal_strlit("text");
        reveal_strlit("content");
    }
    assert("type"@ != "text"@) by {
        assert("type"@[1] == 'y');
        assert("text"@[1] == 'e');
    }
    assert("type"@ != "content"@) by {
        assert("type"@.len() == 4);
        assert("content"@.len() == 7);
    }
    let mut blocks: Vec<Value> = Vec::new();
    if !raw_text.is_empty() {
        let mut node = empty_object();
        set_member(&mut node, "type", text_value("text".to_owned()));
        set_member(&mut node, "text", text_value(raw_text.to_owned()));
        assert(json_fields(node)->0.dom() =~= set!["type"@, "text"@]);
        assert(is_text_node(node, raw_text@));
        let mut inline: Vec<Value> = Vec::new();
        inline.push(node);
        let mut paragraph = empty_object();
        set_member(&mut paragraph, "type", text_value("paragraph".to_owned()));
        set_member(&mut paragraph, "content", array_value(inline));
        assert(json_fields(paragraph)->0.dom() =~= set!["type"@, "content"@]);
        assert(is_paragraph(paragraph, raw_text@));
        blocks.push(paragraph);
    }
    let mut doc = empty_object();
    set_member(&mut doc, "type", text_value("doc".to_owned()));
    set_member(&mut doc, "content", array_value(blocks));
    assert(json_fields(doc)->0.dom() =~= set!["type"@, "content"@]);
    doc
}

/// The field, or the default where the field is absent.
pub open spec fn text_or(field: Option<Seq<char>>, default: Seq<char>) -> Seq<char> {
    match field {
        Some(t) => t,
        None => default,
    }
}

/// The flag, or the default where the flag is absent.
pub open spec fn flag_or(field: Option<bool>, default: bool) -> bool {
    match field {
        Some(b) => b,
        None => default,
    }
}

/// The position that a header gives: the stored integer cut to 32 bits, or 0
/// where the header holds none.
pub open spec fn stored_position(field: Option<i64>) -> i32 {
    match field {
        Some(p) => p as i32,
        None => 0i32,
    }
}

/// Whether `n` is the note that the record `id` decodes to, given the header
/// and the plain text of the record and the time of reading. Every field but
/// the content is fixed: a field that the header lacks takes its default, and
/// the times default to `now`. The content is the stored one; where none is
/// stored it is the fallback document of the plain text.
pub open spec fn decodes_to(
    id: Seq<char>,
    header: HeaderView,
    body: Seq<char>,
    now: Seq<char>,
    n: NoteView,
) -> bool {
    &&& n.id == id
    &&& n.title == text_or(header.title, "Untitled"@)
    &&& n.raw_text == Some(body)
    &&& n.updated_at == text_or(header.updated_at, now)
    &&& n.created_at == text_or(header.created_at, now)
    &&& n.sticky == flag_or(header.sticky, false)
    &&& n.ephemeral == flag_or(header.ephemeral, true)
    &&& n.archived == flag_or(header.archived, false)
    &&& n.note_type == text_or(header.note_type, "text"@)
    &&& n.color == text_or(header.color, "#ffffff"@)
    &&& n.folder_id == header.folder_id
    &&& n.position == stored_position(header.position)
    &&& match header.content {
        Some(c) => n.content == Some(c),
        None => n.content matches Some(d) && is_fallback_document(d, body),
    }
}

/// The field, or a copy of the default where the field is absent.
pub(crate) fn text_or_default(field: Option<String>, default: &str) -> (r: String)
    ensures
        r@ == text_or(opt_text(field), default@),
{
    match field {
        Some(t) => t,
        None => default.to_owned(),
    }
}

/// The flag, or the default where the flag is absent.
pub(crate) fn flag_or_default(field: Option<bool>, default: bool) -> (r: bool)
    ensures
        r == flag_or(field, default),
{
    match field {
        Some(b) => b,
        None => default,
    }
}

/// Makes the note of the record `id` out of its header and its plain text.
/// `now` is the time that stands in for a missing time of creation or update.
pub fn note_from_header(id: String, header: Header, raw_text: String, now: &str) -> (note: Note)
    ensures
        decodes_to(id@, header@, raw_text@, now@, note@),
{
    let content = match header.content {
        Some(c) => c,
        None => fallback_document(raw_text.as_str()),
    };
    let position: i32 = match header.position {
        Some(p) => #[verifier::truncate]
        (p as i32),
        None => 0,
    };
    Note {
        id,
        title: text_or_default(header.title, "Untitled"),
        raw_text: Some(raw_text),
        content: Some(content),
        updated_at: text_or_default(header.updated_at, now),
        created_at: text_or_default(header.created_at, now),
        sticky: flag_or_default(header.sticky, false),
        ephemeral: flag_or_default(header.ephemeral, true),
        archived: flag_or_default(header.archived, false),
        note_type: text_or_default(header.note_type, "text"),
        color: text_or_default(header.color, "#ffffff"),
        folder_id: header.folder_id,
        position,
    }
}

/// Decodes the record stored under `id`. A record without a readable header is
/// all plain text, and every other field takes its default.
pub fn decode_note(id: String, record: &str, now: &str) -> (note: Note)
    ensures
        decodes_to(id@, stored_header(record@), body_text(record@), now@, note@),
{
    let (metadata, raw_text) = parse_markdown_with_frontmatter(record);
    let header = read_header(&metadata);
    note_from_header(id, header, raw_text, now)
}

/// The keys of the header of a note: nine that every header has, `content`
/// for a note with content, and `folderId` for a note in a folder.
pub open spec fn header_keys(n: NoteView) -> Set<Seq<char>> {
    set![
        "title"@,
        "updatedAt"@,
        "createdAt"@,
        "sticky"@,
        "ephemeral"@,
        "archived"@,
        "type"@,
        "color"@,
        "position"@,
    ].union(
        if n.content is Some {
            set!["content"@]
        } else {
            Set::empty()
        },
    ).union(
        if n.folder_id is Some {
            set!["folderId"@]
        } else {
            Set::empty()
        },
    )
}

/// Whether `v` is the header of the note: a JSON object with the keys of the
/// header, each with the value of the note's field, the id and the plain text
/// of the note left out.
pub open spec fn is_header_of(v: Value, n: NoteView) -> bool {
    &&& json_fields(v) matches Some(m)
    &&& m.dom() == header_keys(n)
    &&& json_text(m["title"@]) == Some(n.title)
    &&& json_text(m["updatedAt"@]) == Some(n.updated_at)
    &&& json_text(m["createdAt"@]) == Some(n.created_at)
    &&& json_bool(m["sticky"@]) == Some(n.sticky)
    &&& json_bool(m["ephemeral"@]) == Some(n.ephemeral)
    &&& json_bool(m["archived"@]) == Some(n.archived)
    &&& json_text(m["type"@]) == Some(n.note_type)
    &&& json_text(m["color"@]) == Some(n.color)
    &&& json_int(m["position"@]) == Some(n.position as i64)
    &&& n.content matches Some(c) ==> m["content"@] == c
    &&& n.folder_id matches Some(f) ==> json_text(m["folderId"@]) == Some(f)
}

/// The keys of a header differ from one another.
pub proof fn lemma_header_keys_differ()
    ensures
        "title"@.len() == 5 && "title"@[0] == 't',
        "updatedAt"@.len() == 9 && "updatedAt"@[0] == 'u',
        "createdAt"@.len() == 9 && "createdAt"@[0] == 'c',
        "sticky"@.len() == 6,
        "ephemeral"@.len() == 9 && "ephemeral"@[0] == 'e',
        "archived"@.len() == 8 && "archived"@[0] == 'a',
        "type"@.len() == 4,
        "color"@.len() == 5 && "color"@[0] == 'c',
        "position"@.len() == 8 && "position"@[0] == 'p',
        "content"@.len() == 7,
        "folderId"@.len() == 8 && "folderId"@[0] == 'f',
{
    reveal_strlit("title");
    reveal_strlit("updatedAt");
    reveal_strlit("createdAt");
    reveal_strlit("sticky");
    reveal_strlit("ephemeral");
    reveal_strlit("archived");
    reveal_strlit("type");
    reveal_strlit("color");
    reveal_strlit("position");
    reveal_strlit("content");
    reveal_strlit("folderId");
}

/// The header of a note as a JSON value.
pub fn header_value(note: &Note) -> (v: Value)
    ensures
        is_header_of(v, note@),
{
    proof {
        lemma_header_keys_differ();
    }
    let mut v = empty_object();
    set_member(&mut v, "title", text_value(note.title.clone()));
    set_member(&mut v, "updatedAt", text_value(note.updated_at.clone()));
    set_member(&mut v, "createdAt", text_value(note.created_at.clone()));
    set_member(&mut v, "sticky", bool_value(note.sticky));
    set_member(&mut v, "ephemeral", bool_value(note.ephemeral));
    set_member(&mut v, "archived", bool_value(note.archived));
    set_member(&mut v, "type", text_value(note.note_type.clone()));
    set_member(&mut v, "color", text_value(note.color.clone()));
    set_member(&mut v, "position", int_value(note.position as i64));
    match &note.content {
        Some(c) => {
            set_member(&mut v, "content", clone_value(c));
        },
        None => {},
    }
    match &note.folder_id {
        Some(f) => {
            set_member(&mut v, "folderId", text_value(f.clone()));
        },
        None => {},
    }
    assert(json_fields(v)->0.dom() =~= header_keys(note@));
    v
}

/// The record with the given header and plain text: a line of three dashes,
/// the header, a line of three dashes, an empty line, the plain text.
pub open spec fn framed(header: Seq<char>, body: Seq<char>) -> Seq<char> {
    seq!['-', '-', '-', '\n'] + header + seq!['\n', '-', '-', '-', '\n', '\n'] + body
}

/// Puts a header and a plain text together into a record. Where no line of
/// the header holds three dashes and nothing else, the record splits into the
/// same header and the same plain text again.
pub fn frame_record(header: &str, body: &str) -> (r: String)
    ensures
        r@ == framed(header@, body@),
        !has_dash_line(header@) ==> has_header(r@) && header_text(r@) == header@ && body_text(r@)
            == body@,
{
    proof {
        if !has_dash_line(header@) {
            lemma_framed_splits(header@, body@);
        }
        reveal_strlit("---\n");
        reveal_strlit("\n---\n\n");
        assert("---\n"@ =~= seq!['-', '-', '-', '\n']);
        assert("\n---\n\n"@ =~= seq!['\n', '-', '-', '-', '\n', '\n']);
    }
    let mut record = String::from_str("---\n");
    record.append(header);
    record.append("\n---\n\n");
    record.append(body);
    record
}

/// The plain text that a record of the note holds: the note's own, or none at
/// all where the note has none.
pub open spec fn plain_text(n: NoteView) -> Seq<char> {
    match n.raw_text {
        Some(t) => t,
        None => Seq::empty(),
    }
}

/// Whether a line of three dashes and nothing else starts at index `i` of the
/// text: the text or a line break stands in front of the dashes, and a line
/// break or the end of the text behind them.
pub open spec fn dash_line_at(s: Seq<char>, i: int) -> bool {
    &&& 0 <= i
    &&& i + 3 <= s.len()
    &&& (i == 0 || s[i - 1] == '\n')
    &&& s[i] == '-'
    &&& s[i + 1] == '-'
    &&& s[i + 2] == '-'
    &&& (i + 3 == s.len() || s[i + 3] == '\n')
}

/// Whether some line of the text holds three dashes and nothing else.
pub open spec fn has_dash_line(s: Seq<char>) -> bool {
    exists|i: int| dash_line_at(s, i)
}

/// Whether some line of the text holds three dashes and nothing else. Such a
/// text cannot be the header of a record: the line would end the header.
pub fn holds_dash_line(text: &str) -> (r: bool)
    ensures
        r == has_dash_line(text@),
{
    let chars = chars_of(text);
    let n = chars.len();
    let mut i: usize = 0;
    while n - i >= 3
        invariant
            i <= n,
            n == chars.len(),
            chars@ == text@,
            forall|k: int| 0 <= k < i ==> !dash_line_at(chars@, k),
        decreases n - i,
    {
        if (i == 0 || chars[i - 1] == '\n') && chars[i] == '-' && chars[i + 1] == '-' && chars[i
            + 2] == '-' && (i + 3 == n || chars[i + 3] == '\n') {
            assert(dash_line_at(chars@, i as int));
            return true;
        }
        i = i + 1;
    }
    assert forall|k: int| !dash_line_at(chars@, k) by {}
    false
}

/// Whether the header can stand in a record: it can be printed, and no line of
/// the printed text holds three dashes and nothing else.
pub open spec fn fits_a_record(header: Value) -> bool {
    json_pretty(header) matches Some(printed) && !has_dash_line(printed)
}

/// Whether `record` is the record of the note with the given header: the
/// header fits a record, and the record is the printed header framed with
/// the plain text of the note.
pub open spec fn encodes(n: NoteView, header: Value, record: Seq<char>) -> bool {
    &&& is_header_of(header, n)
    &&& fits_a_record(header)
    &&& record == framed(json_pretty(header)->0, plain_text(n))
}

/// Prints a header and puts it together with a plain text into a record, which
/// splits into the printed header and the same plain text again. Fails with
/// `Malformed` exactly where the header does not fit a record.
pub fn render_record(header: &Value, body: &str) -> (r: Result<String, StoreError>)
    ensures
        match r {
            Ok(record) => {
                &&& fits_a_record(*header)
                &&& record@ == framed(json_pretty(*header)->0, body@)
                &&& has_header(record@)
                &&& header_text(record@) == json_pretty(*header)->0
                &&& body_text(record@) == body@
            },
            Err(e) => !fits_a_record(*header) && e is Malformed,
        },
{
    match pretty_json(header) {
        Ok(printed) => {
            if holds_dash_line(printed.as_str()) {
                Err(StoreError::Malformed("the header holds a line of three dashes".to_owned()))
            } else {
                Ok(frame_record(printed.as_str(), body))
            }
        },
        Err(e) => Err(StoreError::Malformed(error_message(&e))),
    }
}

/// Encodes a note as a record: its header printed as JSON between two lines of
/// dashes, an empty line, and its plain text as it is. The id is not part of
/// the record. The record splits into the printed header and the plain text
/// of the note again. Fails with `Malformed` exactly where the header does not
/// fit a record.
pub fn save_note(note: &Note) -> (r: Result<String, StoreError>)
    ensures
        exists|header: Value| #[trigger]
            is_header_of(header, note@) && match r {
                Ok(record) => {
                    &&& encodes(note@, header, record@)
                    &&& has_header(record@)
                    &&& header_text(record@) == json_pretty(header)->0
                    &&& body_text(record@) == plain_text(note@)
                },
                Err(e) => !fits_a_record(header) && e is Malformed,
            },
{
    let header = header_value(note);
    let r = match &note.raw_text {
        Some(t) => render_record(&header, t.as_str()),
        None => {
            proof {
                reveal_strlit("");
                assert(""@ =~= Seq::<char>::empty());
            }
            render_record(&header, "")
        },
    };
    assert(is_header_of(header, note@));
    r
}

} // verus!
