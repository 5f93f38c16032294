use nx_request_handler::codec::{escape, escape_text, split_chunks, CHUNK_SIZE};
use nx_request_handler::defaults::{exists_reply, md5_reply, pong};
use nx_request_handler::wire::{encode_progress, encode_reply, progress_text, reply_text};

fn unescape(t: &str) -> String {
    let chars: Vec<char> = t.chars().collect();
    let mut out = String::new();
    let mut i = 0;
    while i < chars.len() {
        if chars[i] == '\\' && i + 1 < chars.len() {
            out.push(chars[i + 1]);
            i += 2;
        } else {
            out.push(chars[i]);
            i += 1;
        }
    }
    out
}

fn round_trip(s: &str, size: usize) {
    let escaped = escape_text(s);
    let chunks = split_chunks(&escaped, size);
    let n = chunks.len();
    let mut joined = String::new();
    for (i, c) in chunks.iter().enumerate() {
        assert!(!c.text.is_empty());
        assert!(c.text.chars().count() >= size.min(escaped.len() - joined.chars().count()));
        assert_eq!(c.more, i + 1 < n);
        if c.more {
            assert!(!c.text.ends_with('\\'));
        }
        joined.push_str(&c.text);
    }
    assert_eq!(unescape(&joined), s);
}

#[test]
fn escape_applies_every_rule() {
    assert_eq!(escape("a\tb\r\0\"c\\"), "a    b\\\"c\\\\");
    assert_eq!(escape("  padded \n"), "padded");
    assert_eq!(escape(""), "");
    assert_eq!(escape("\t"), "");
}

#[test]
fn round_trip_plain_text() {
    round_trip("hello world", 1);
    round_trip("hello world", 3);
    round_trip("say \"hi\" to C:\\dir\\file", 4);
    round_trip("x", CHUNK_SIZE);
}

#[test]
fn round_trip_backslash_runs_at_boundary() {
    for size in 1..12 {
        for run in 0..9 {
            let s = format!("ab{}cd{}e", "\\".repeat(run), "\"".repeat(run % 3));
            round_trip(&s, size);
        }
    }
}

#[test]
fn long_text_splits_at_chunk_size() {
    let s = "a".repeat(CHUNK_SIZE * 2 + 5);
    let chunks = split_chunks(&escape_text(&s), CHUNK_SIZE);
    assert_eq!(chunks.len(), 3);
    assert_eq!(chunks[0].text.len(), CHUNK_SIZE);
    assert_eq!(chunks[1].text.len(), CHUNK_SIZE);
    assert_eq!(chunks[2].text.len(), 5);
    assert!(chunks[0].more && chunks[1].more && !chunks[2].more);
}

#[test]
fn boundary_moves_past_backslashes() {
    // A backslash escapes to two, and the cut would fall between them: the
    // first chunk grows until it ends on a letter.
    let s = format!("{}\\{}", "a".repeat(CHUNK_SIZE - 1), "z".repeat(10));
    let chunks = split_chunks(&escape_text(&s), CHUNK_SIZE);
    assert_eq!(chunks.len(), 2);
    assert_eq!(chunks[0].text.chars().count(), CHUNK_SIZE + 2);
    assert!(chunks[0].text.ends_with("\\\\z"));
    assert_eq!(chunks[1].text, "z".repeat(9));
    round_trip(&s, CHUNK_SIZE);
}

#[test]
fn backslash_at_end_stays_whole() {
    let text: Vec<char> = "\\\\\\\\".chars().collect();
    let chunks = split_chunks(&text, 1);
    assert_eq!(chunks.len(), 1);
    assert_eq!(chunks[0].text, "\\\\\\\\");
    assert!(!chunks[0].more);
}

#[test]
fn reply_envelope_text() {
    assert_eq!(reply_text("1", true, "hi", false), "{\"id\":\"1\",\"ok\":true,\"message\":\"hi\",\"more\":false}");
    assert_eq!(reply_text("a\"b", false, "x", true), "{\"id\":\"a\\\"b\",\"ok\":false,\"message\":\"x\",\"more\":true}");
    assert_eq!(reply_text("c", true, "a\u{1}\n\u{1f}é", false), "{\"id\":\"c\",\"ok\":true,\"message\":\"a\\u0001\\n\\u001f\u{e9}\",\"more\":false}");
    assert_eq!(progress_text("p", false), "{\"id\":\"progress\",\"message\":\"p\",\"more\":false}");
}

#[test]
fn empty_reply_still_sends_one_envelope() {
    assert_eq!(
        encode_reply("1", true, "   "),
        vec!["{\"id\":\"1\",\"ok\":true,\"message\":\"\",\"more\":false}".to_string()]
    );
}

#[test]
fn reply_is_escaped_before_encoding() {
    assert_eq!(
        encode_reply("q", true, "say \"hi\""),
        vec!["{\"id\":\"q\",\"ok\":true,\"message\":\"say \\\\\\\"hi\\\\\\\"\",\"more\":false}".to_string()]
    );
}

#[test]
fn long_reply_flags_more_until_last() {
    let s = "b".repeat(CHUNK_SIZE * 3);
    let envelopes = encode_reply("9", true, &s);
    assert_eq!(envelopes.len(), 3);
    assert!(envelopes[0].ends_with(",\"more\":true}"));
    assert!(envelopes[1].ends_with(",\"more\":true}"));
    assert!(envelopes[2].ends_with(",\"more\":false}"));
    let progress = encode_progress(&s);
    assert_eq!(progress.len(), 3);
    assert!(progress[2].ends_with(",\"more\":false}"));
}

#[test]
fn pong_reply() {
    assert_eq!(pong(), Ok("pong from switch!".to_string()));
}

#[test]
fn md5_of_known_inputs() {
    assert_eq!(md5_reply(b""), Ok("d41d8cd98f00b204e9800998ecf8427e".to_string()));
    assert_eq!(md5_reply(b"abc"), Ok("900150983cd24fb0d6963f7d28e17f72".to_string()));
}

#[test]
fn exists_replies() {
    assert_eq!(exists_reply(true), Ok("true".to_string()));
    assert_eq!(exists_reply(false), Ok("false".to_string()));
}

