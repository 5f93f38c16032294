//! The envelopes that carry replies and progress notes to the front-end.
//!
//! Each envelope is one JSON object. A reply is escaped and cut into chunks
//! (see `codec`); each chunk travels in an envelope of its own, flagged with
//! whether more chunks of the same reply follow.
use vstd::prelude::*;

use crate::codec::{
    Chunk, CHUNK_SIZE, chunks_of, escaped, escape_text, lemma_chunks_join, split_chunks,
};

verus! {

/// The lower-case hexadecimal digit for `d`, below 16.
pub open spec fn hex_digit(d: int) -> char {
    seq!['0', '1', '2', '3', '4', '5', '6', '7', '8', '9', 'a', 'b', 'c', 'd', 'e', 'f'][d]
}

/// How one character is written inside a JSON string literal: a quote and a
/// backslash behind a backslash, the five control characters that have a
/// short escape with it, the other control characters below 0x20 as
/// `\u00` and two hexadecimal digits, and every other character as it is.
pub open spec fn json_char(c: char) -> Seq<char> {
    let u = c as u32;
    if c == '"' {
        seq!['\\', '"']
    } else if c == '\\' {
        seq!['\\', '\\']
    } else if u == 0x08 {
        seq!['\\', 'b']
    } else if u == 0x09 {
        seq!['\\', 't']
    } else if u == 0x0a {
        seq!['\\', 'n']
    } else if u == 0x0c {
        seq!['\\', 'f']
    } else if u == 0x0d {
        seq!['\\', 'r']
    } else if u < 0x20 {
        seq!['\\', 'u', '0', '0', hex_digit(u as int / 16), hex_digit(u as int % 16)]
    } else {
        seq![c]
    }
}

/// Every character of `s` as a JSON string literal holds it, in order.
pub open spec fn json_chars(s: Seq<char>) -> Seq<char>
    decreases s.len(),
{
    if s.len() == 0 {
        Seq::empty()
    } else {
        json_chars(s.drop_last()) + json_char(s.last())
    }
}

/// The JSON string literal that stands for `s`.
pub open spec fn json_quoted(s: Seq<char>) -> Seq<char> {
    seq!['"'] + json_chars(s) + seq!['"']
}

/// Relies on `serde_json::to_string` applied to a string slice, which writes
/// a quote, each character escaped by serde_json's escape table, and a
/// quote. Serialising a `str` into memory does not fail.
#[verifier::external_body]
fn json_string(s: &str) -> (r: String)
    ensures
        r@ == json_quoted(s@),
{
    match serde_json::to_string(s) {
        Ok(text) => text,
        Err(_) => String::new(),
    }
}

/// `true` or `false`, as JSON writes a boolean.
pub open spec fn bool_text(b: bool) -> Seq<char> {
    if b {
        "true"@
    } else {
        "false"@
    }
}

/// The texts that a sequence of `String`s holds.
pub open spec fn texts(v: Seq<String>) -> Seq<Seq<char>> {
    v.map_values(|e: String| e@)
}

/// The chunks that an escaped reply travels in: at least one, so that even
/// an empty reply reaches the front-end.
pub open spec fn wire_chunks(t: Seq<char>) -> Seq<Seq<char>> {
    if t.len() == 0 {
        seq![Seq::<char>::empty()]
    } else {
        chunks_of(t, CHUNK_SIZE as int)
    }
}

/// The envelope of one chunk of the reply to call `id`.
pub open spec fn reply_envelope(id: Seq<char>, ok: bool, message: Seq<char>, more: bool) -> Seq<
    char,
> {
    "{\"id\":"@ + json_quoted(id) + ",\"ok\":"@ + bool_text(ok) + ",\"message\":"@ + json_quoted(
        message,
    ) + ",\"more\":"@ + bool_text(more) + "}"@
}

/// The envelope of one chunk of a progress note.
pub open spec fn progress_envelope(message: Seq<char>, more: bool) -> Seq<char> {
    "{\"id\":\"progress\",\"message\":"@ + json_quoted(message) + ",\"more\":"@ + bool_text(more)
        + "}"@
}

/// The envelope of one chunk: of the reply to call `id` where there is one,
/// else of a progress note.
pub open spec fn envelope_of(id: Option<Seq<char>>, ok: bool, chunk: Seq<char>, more: bool) -> Seq<
    char,
> {
    match id {
        Some(id) => reply_envelope(id, ok, chunk, more),
        None => progress_envelope(chunk, more),
    }
}

/// Every envelope that carries `message`, in the order sent.
pub open spec fn envelopes_of(id: Option<Seq<char>>, ok: bool, message: Seq<char>) -> Seq<
    Seq<char>,
> {
    let chunks = wire_chunks(escaped(message));
    Seq::new(chunks.len(), |i: int| envelope_of(id, ok, chunks[i], i + 1 < chunks.len()))
}

/// Every envelope of the reply `message` to call `id`, in the order sent.
pub open spec fn reply_envelopes(id: Seq<char>, ok: bool, message: Seq<char>) -> Seq<Seq<char>> {
    envelopes_of(Some(id), ok, message)
}

/// Every envelope of the progress note `payload`, in the order sent.
pub open spec fn progress_envelopes(payload: Seq<char>) -> Seq<Seq<char>> {
    envelopes_of(None, false, payload)
}

/// The view of an optional call id.
pub open spec fn id_view(id: Option<&str>) -> Option<Seq<char>> {
    match id {
        Some(i) => Some(i@),
        None => None,
    }
}

fn push_bool(out: &mut String, b: bool)
    ensures
        final(out)@ == old(out)@ + bool_text(b),
{
    if b {
        out.append("true");
    } else {
        out.append("false");
    }
}

/// The envelope of one chunk of the reply to call `id`.
pub fn reply_text(id: &str, ok: bool, message: &str, more: bool) -> (r: String)
    ensures
        r@ == reply_envelope(id@, ok, message@, more),
{
    let mut out = String::from_str("{\"id\":");
    out.append(json_string(id).as_str());
    out.append(",\"ok\":");
    push_bool(&mut out, ok);
    out.append(",\"message\":");
    out.append(json_string(message).as_str());
    out.append(",\"more\":");
    push_bool(&mut out, more);
    out.append("}");
    out
}

/// The envelope of one chunk of a progress note.
pub fn progress_text(message: &str, more: bool) -> (r: String)
    ensures
        r@ == progress_envelope(message@, more),
{
    let mut out = String::from_str("{\"id\":\"progress\",\"message\":");
    out.append(json_string(message).as_str());
    out.append(",\"more\":");
    push_bool(&mut out, more);
    out.append("}");
    out
}

/// The escaped text of `message`, cut into the chunks it travels in.
fn wire_pieces(message: &str) -> (r: Vec<Chunk>)
    ensures
        r.len() == wire_chunks(escaped(message@)).len(),
        forall|i: int|
            0 <= i < r.len() ==> (#[trigger] r[i]).text@ == wire_chunks(escaped(message@))[i]
                && r[i].more == (i + 1 < r.len()),
{
    let text = escape_text(message);
    if text.len() == 0 {
        let mut one: Vec<Chunk> = Vec::new();
        one.push(Chunk { text: String::new(), more: false });
        one
    } else {
        split_chunks(&text, CHUNK_SIZE)
    }
}

/// Every envelope that carries `message`: the text is escaped, cut into
/// chunks, and each chunk but the last is flagged as followed by more.
fn encode(id: Option<&str>, ok: bool, message: &str) -> (r: Vec<String>)
    ensures
        texts(r@) == envelopes_of(id_view(id), ok, message@),
{
    let pieces = wire_pieces(message);
    let ghost chunks = wire_chunks(escaped(message@));
    let ghost all = envelopes_of(id_view(id), ok, message@);
    let mut out: Vec<String> = Vec::new();
    let mut i: usize = 0;
    while i < pieces.len()
        invariant
            i <= pieces.len() == chunks.len(),
            chunks == wire_chunks(escaped(message@)),
            all == envelopes_of(id_view(id), ok, message@),
            forall|k: int|
                0 <= k < pieces.len() ==> (#[trigger] pieces[k]).text@ == chunks[k]
                    && pieces[k].more == (k + 1 < pieces.len()),
            texts(out@) == all.take(i as int),
        decreases pieces.len() - i,
    {
        let envelope = match id {
            Some(call_id) => reply_text(call_id, ok, pieces[i].text.as_str(), pieces[i].more),
            None => progress_text(pieces[i].text.as_str(), pieces[i].more),
        };
        let ghost before = out@;
        assert(pieces[i as int].text@ == chunks[i as int]);
        assert(envelope@ == all[i as int]);
        out.push(envelope);
        assert(out@ == before.push(envelope));
        assert(texts(out@) =~= texts(before).push(envelope@));
        i += 1;
        assert(texts(out@) =~= all.take(i as int));
    }
    assert(all.take(i as int) == all);
    out
}

/// Every envelope of the reply `message` to call `id`, in the order they are
/// to be sent.
pub fn encode_reply(id: &str, ok: bool, message: &str) -> (r: Vec<String>)
    ensures
        texts(r@) == reply_envelopes(id@, ok, message@),
{
    encode(Some(id), ok, message)
}

/// Every envelope of the progress note `payload`, in the order they are to
/// be sent, escaped and cut as a reply is.
pub fn encode_progress(payload: &str) -> (r: Vec<String>)
    ensures
        texts(r@) == progress_envelopes(payload@),
{
    encode(None, false, payload)
}

/// Every reply goes out in at least one envelope, and of its envelopes
/// exactly the last one says that no more follow.
pub proof fn lemma_more_until_last(id: Seq<char>, ok: bool, message: Seq<char>)
    ensures
        reply_envelopes(id, ok, message).len() >= 1,
        reply_envelopes(id, ok, message).len() == wire_chunks(escaped(message)).len(),
        forall|i: int|
            0 <= i < reply_envelopes(id, ok, message).len() ==> #[trigger] reply_envelopes(
                id,
                ok,
                message,
            )[i] == reply_envelope(
                id,
                ok,
                wire_chunks(escaped(message))[i],
                i + 1 < reply_envelopes(id, ok, message).len(),
            ),
{
    lemma_chunks_join(escaped(message), CHUNK_SIZE as int);
}

} // verus!
