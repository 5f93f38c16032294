//! Escaping of reply text and its division into size-bounded chunks.
//!
//! A reply is escaped once as a whole, then cut into chunks of at most
//! `CHUNK_SIZE` characters each, where a cut never falls right after a
//! backslash, so that no chunk ends inside a two-character escape.
use vstd::prelude::*;

verus! {

/// The number of characters of escaped text that one chunk starts from.
pub const CHUNK_SIZE: usize = 25000;

/// The characters that `char::is_whitespace` accepts (Unicode `White_Space`).
pub open spec fn is_space(c: char) -> bool {
    let u = c as u32;
    u == 0x20 || (0x09 <= u && u <= 0x0d) || u == 0x85 || u == 0xa0 || u == 0x1680 || (0x2000
        <= u && u <= 0x200a) || u == 0x2028 || u == 0x2029 || u == 0x202f || u == 0x205f || u
        == 0x3000
}

/// What one character of a reply becomes on the wire.
pub open spec fn escape_char(c: char) -> Seq<char> {
    if c == '\r' || c == '\0' {
        Seq::empty()
    } else if c == '\t' {
        seq![' ', ' ', ' ', ' ']
    } else if c == '\\' {
        seq!['\\', '\\']
    } else if c == '"' {
        seq!['\\', '"']
    } else {
        seq![c]
    }
}

/// Every character escaped, in order.
pub open spec fn escape_seq(s: Seq<char>) -> Seq<char>
    decreases s.len(),
{
    if s.len() == 0 {
        Seq::empty()
    } else {
        escape_seq(s.drop_last()) + escape_char(s.last())
    }
}

/// `s` without its leading whitespace.
pub open spec fn trim_start(s: Seq<char>) -> Seq<char>
    decreases s.len(),
{
    if s.len() > 0 && is_space(s[0]) {
        trim_start(s.drop_first())
    } else {
        s
    }
}

/// `s` without its trailing whitespace.
pub open spec fn trim_end(s: Seq<char>) -> Seq<char>
    decreases s.len(),
{
    if s.len() > 0 && is_space(s.last()) {
        trim_end(s.drop_last())
    } else {
        s
    }
}

/// `s` without whitespace at either end, as `str::trim` leaves it.
pub open spec fn trim(s: Seq<char>) -> Seq<char> {
    trim_end(trim_start(s))
}

/// The whole escaped form of a reply: each character escaped, then trimmed.
pub open spec fn escaped(s: Seq<char>) -> Seq<char> {
    trim(escape_seq(s))
}

/// Reverses the escaping: a backslash and the character after it stand for
/// that character.
pub open spec fn unescape(t: Seq<char>) -> Seq<char>
    decreases t.len(),
{
    if t.len() == 0 {
        Seq::empty()
    } else if t[0] == '\\' && t.len() >= 2 {
        seq![t[1]] + unescape(t.subrange(2, t.len() as int))
    } else {
        seq![t[0]] + unescape(t.drop_first())
    }
}

/// Moves a chunk's end forward while the chunk would end on a backslash.
pub open spec fn extend_end(t: Seq<char>, e: int) -> int
    decreases t.len() - e,
{
    if 0 < e < t.len() && t[e - 1] == '\\' {
        extend_end(t, e + 1)
    } else {
        e
    }
}

/// Where the chunk that starts at `start` ends.
pub open spec fn chunk_end(t: Seq<char>, start: int, size: int) -> int {
    let candidate = if start + size < t.len() {
        start + size
    } else {
        t.len() as int
    };
    extend_end(t, candidate)
}

/// The chunks of `t` from position `start` on, in order.
pub open spec fn chunks_from(t: Seq<char>, start: int, size: int) -> Seq<Seq<char>>
    decreases t.len() - start,
{
    let e = chunk_end(t, start, size);
    if start < 0 || start >= t.len() || e <= start || e > t.len() {
        Seq::empty()
    } else {
        seq![t.subrange(start, e)] + chunks_from(t, e, size)
    }
}

/// The chunks that `t` is cut into, with chunks of `size` characters.
pub open spec fn chunks_of(t: Seq<char>, size: int) -> Seq<Seq<char>> {
    chunks_from(t, 0, size)
}

/// A reply with no character that escaping drops or widens, and no
/// whitespace at its ends: escaping it loses nothing.
pub open spec fn is_plain(s: Seq<char>) -> bool {
    &&& forall|i: int| 0 <= i < s.len() ==> s[i] != '\r' && s[i] != '\0' && s[i] != '\t'
    &&& s.len() > 0 ==> !is_space(s[0]) && !is_space(s.last())
}

proof fn lemma_extend_end(t: Seq<char>, e: int)
    requires
        0 < e <= t.len(),
    ensures
        e <= extend_end(t, e) <= t.len(),
        extend_end(t, e) == t.len() || t[extend_end(t, e) - 1] != '\\',
    decreases t.len() - e,
{
    if 0 < e < t.len() && t[e - 1] == '\\' {
        lemma_extend_end(t, e + 1);
    }
}

proof fn lemma_chunk_end(t: Seq<char>, start: int, size: int)
    requires
        0 <= start < t.len(),
        size >= 1,
    ensures
        start < chunk_end(t, start, size) <= t.len(),
        chunk_end(t, start, size) == t.len() || t[chunk_end(t, start, size) - 1] != '\\',
{
    let candidate = if start + size < t.len() {
        start + size
    } else {
        t.len() as int
    };
    lemma_extend_end(t, candidate);
}

proof fn lemma_chunks_from(t: Seq<char>, start: int, size: int)
    requires
        0 <= start <= t.len(),
        size >= 1,
    ensures
        chunks_from(t, start, size).flatten() == t.subrange(start, t.len() as int),
        chunks_from(t, start, size).len() == 0 <==> start == t.len(),
        forall|i: int|
            0 <= i < chunks_from(t, start, size).len() ==> #[trigger] chunks_from(
                t,
                start,
                size,
            )[i].len() > 0,
        forall|i: int|
            0 <= i < chunks_from(t, start, size).len() - 1 ==> #[trigger] chunks_from(
                t,
                start,
                size,
            )[i].last() != '\\',
    decreases t.len() - start,
{
    if start < t.len() {
        lemma_chunk_end(t, start, size);
        let e = chunk_end(t, start, size);
        lemma_chunks_from(t, e, size);
        let rest = chunks_from(t, e, size);
        let first = t.subrange(start, e);
        assert(chunks_from(t, start, size) == seq![first] + rest);
        assert((seq![first] + rest).drop_first() == rest);
        assert(t.subrange(start, t.len() as int) == first + t.subrange(e, t.len() as int));
        assert forall|i: int|
            0 <= i < chunks_from(t, start, size).len() - 1 implies #[trigger] chunks_from(
            t,
            start,
            size,
        )[i].last() != '\\' by {
            if i > 0 {
                assert(chunks_from(t, start, size)[i] == rest[i - 1]);
            } else {
                assert(rest.len() > 0);
            }
        }
        assert forall|i: int| 0 <= i < chunks_from(t, start, size).len() implies #[trigger] chunks_from(
            t,
            start,
            size,
        )[i].len() > 0 by {
            if i > 0 {
                assert(chunks_from(t, start, size)[i] == rest[i - 1]);
            }
        }
    } else {
        assert(t.subrange(start, t.len() as int) =~= Seq::<char>::empty());
    }
}

/// Cutting a text into chunks loses nothing: the chunks, joined in order,
/// give the text back. Every chunk holds at least one character, and every
/// chunk but the last ends on a character other than a backslash.
pub proof fn lemma_chunks_join(t: Seq<char>, size: int)
    requires
        size >= 1,
    ensures
        chunks_of(t, size).flatten() == t,
        chunks_of(t, size).len() == 0 <==> t.len() == 0,
        forall|i: int| 0 <= i < chunks_of(t, size).len() ==> #[trigger] chunks_of(t, size)[i].len() > 0,
        forall|i: int|
            0 <= i < chunks_of(t, size).len() - 1 ==> #[trigger] chunks_of(t, size)[i].last() != '\\',
{
    lemma_chunks_from(t, 0, size);
    assert(t.subrange(0, t.len() as int) == t);
}

proof fn lemma_escape_concat(a: Seq<char>, b: Seq<char>)
    ensures
        escape_seq(a + b) == escape_seq(a) + escape_seq(b),
    decreases b.len(),
{
    if b.len() == 0 {
        assert(a + b == a);
        assert(escape_seq(a) + Seq::<char>::empty() == escape_seq(a));
    } else {
        lemma_escape_concat(a, b.drop_last());
        assert((a + b).drop_last() == a + b.drop_last());
        assert((a + b).last() == b.last());
        assert(escape_seq(a) + escape_seq(b.drop_last()) + escape_char(b.last()) == escape_seq(a)
            + (escape_seq(b.drop_last()) + escape_char(b.last())));
    }
}

proof fn lemma_escape_first(s: Seq<char>)
    requires
        s.len() > 0,
    ensures
        escape_seq(s) == escape_char(s[0]) + escape_seq(s.drop_first()),
{
    lemma_escape_concat(seq![s[0]], s.drop_first());
    assert(seq![s[0]] + s.drop_first() == s);
    assert(seq![s[0]].drop_last() == Seq::<char>::empty());
    assert(seq![s[0]].last() == s[0]);
    assert(escape_seq(Seq::<char>::empty()) == Seq::<char>::empty());
    assert(Seq::<char>::empty() + escape_char(s[0]) == escape_char(s[0]));
    assert(escape_seq(seq![s[0]]) == escape_char(s[0]));
}

proof fn lemma_unescape_escape(s: Seq<char>)
    requires
        forall|i: int| 0 <= i < s.len() ==> s[i] != '\r' && s[i] != '\0' && s[i] != '\t',
    ensures
        unescape(escape_seq(s)) == s,
    decreases s.len(),
{
    if s.len() > 0 {
        let c = s[0];
        let rest = s.drop_first();
        lemma_escape_first(s);
        lemma_unescape_escape(rest);
        let t = escape_char(c) + escape_seq(rest);
        if c == '\\' || c == '"' {
            assert(t[0] == '\\' && t[1] == c);
            assert(t.subrange(2, t.len() as int) == escape_seq(rest));
        } else {
            assert(t[0] == c);
            assert(t.drop_first() == escape_seq(rest));
        }
        assert(seq![c] + rest == s);
    }
}

proof fn lemma_escape_ends(s: Seq<char>)
    requires
        is_plain(s),
    ensures
        trim(escape_seq(s)) == escape_seq(s),
{
    if s.len() > 0 {
        lemma_escape_first(s);
        assert(s.drop_last().len() < s.len());
        let e = escape_seq(s);
        assert(e == escape_seq(s.drop_last()) + escape_char(s.last()));
        assert(!is_space(e[0]));
        assert(!is_space(e.last()));
        assert(trim_start(e) == e);
        assert(trim_end(e) == e);
    } else {
        assert(escape_seq(s) == Seq::<char>::empty());
    }
}

/// Escaping a plain reply and cutting it into chunks of any size of at least
/// one loses nothing: the chunks, joined in order and unescaped, give the
/// reply back.
pub proof fn lemma_round_trip(s: Seq<char>, size: int)
    requires
        size >= 1,
        is_plain(s),
    ensures
        unescape(chunks_of(escaped(s), size).flatten()) == s,
{
    lemma_chunks_join(escaped(s), size);
    lemma_escape_ends(s);
    lemma_unescape_escape(s);
}

/// Relies on `String::push`: appends one character at the end.
#[verifier::external_body]
fn push_char(s: &mut String, c: char)
    ensures
        final(s)@ == old(s)@.push(c),
{
    s.push(c);
}

fn is_space_char(c: char) -> (r: bool)
    ensures
        r == is_space(c),
{
    let u = c as u32;
    u == 0x20 || (0x09 <= u && u <= 0x0d) || u == 0x85 || u == 0xa0 || u == 0x1680 || (0x2000
        <= u && u <= 0x200a) || u == 0x2028 || u == 0x2029 || u == 0x202f || u == 0x205f || u
        == 0x3000
}

fn push_escaped(out: &mut Vec<char>, c: char)
    ensures
        final(out)@ == old(out)@ + escape_char(c),
{
    if c == '\r' || c == '\0' {
    } else if c == '\t' {
        out.push(' ');
        out.push(' ');
        out.push(' ');
        out.push(' ');
    } else if c == '\\' {
        out.push('\\');
        out.push('\\');
    } else if c == '"' {
        out.push('\\');
        out.push('"');
    } else {
        out.push(c);
    }
    assert(final(out)@ == old(out)@ + escape_char(c));
}

/// The characters of `message`, each escaped.
fn escape_all(message: &str) -> (r: Vec<char>)
    ensures
        r@ == escape_seq(message@),
{
    broadcast use vstd::string::group_string_axioms;

    let mut out: Vec<char> = Vec::new();
    for c in it: message.chars()
        invariant
            it.seq() == message@,
            out@ == escape_seq(message@.take(it.index())),
    {
        proof {
            let k = it.index();
            assert(message@.take(k + 1).drop_last() == message@.take(k));
        }
        push_escaped(&mut out, c);
    }
    assert(message@.take(message@.len() as int) == message@);
    out
}

proof fn lemma_trim_start_step(s: Seq<char>, i: int)
    requires
        0 <= i < s.len(),
        is_space(s[i]),
    ensures
        trim_start(s.subrange(i, s.len() as int)) == trim_start(s.subrange(i + 1, s.len() as int)),
{
    assert(s.subrange(i, s.len() as int).drop_first() == s.subrange(i + 1, s.len() as int));
}

proof fn lemma_trim_end_step(s: Seq<char>, j: int)
    requires
        0 < j <= s.len(),
        is_space(s[j - 1]),
    ensures
        trim_end(s.subrange(0, j)) == trim_end(s.subrange(0, j - 1)),
{
    assert(s.subrange(0, j).drop_last() == s.subrange(0, j - 1));
}

/// Escapes a whole reply and trims it, as one sequence of characters.
pub fn escape_text(message: &str) -> (r: Vec<char>)
    ensures
        r@ == escaped(message@),
{
    let chars = escape_all(message);
    let n = chars.len();
    let mut i: usize = 0;
    assert(chars@.subrange(0, n as int) == chars@);
    while i < n && is_space_char(chars[i])
        invariant
            i <= n == chars.len(),
            trim_start(chars@) == trim_start(chars@.subrange(i as int, n as int)),
        decreases n - i,
    {
        proof {
            lemma_trim_start_step(chars@, i as int);
        }
        i += 1;
    }
    let ghost front = chars@.subrange(i as int, n as int);
    assert(trim_start(chars@) == front) by {
        assert(chars@.subrange(0, n as int) == chars@);
    }
    let mut j: usize = n;
    assert(front.subrange(0, n - i) == front);
    while j > i && is_space_char(chars[j - 1])
        invariant
            i <= j <= n == chars.len(),
            front == chars@.subrange(i as int, n as int),
            trim_end(front) == trim_end(front.subrange(0, j - i)),
        decreases j,
    {
        proof {
            lemma_trim_end_step(front, (j - i) as int);
        }
        j -= 1;
    }
    assert(front.subrange(0, n - i) == front);
    let mut out: Vec<char> = Vec::new();
    let mut k: usize = i;
    while k < j
        invariant
            i <= k <= j <= n == chars.len(),
            out@ == chars@.subrange(i as int, k as int),
        decreases j - k,
    {
        out.push(chars[k]);
        k += 1;
        assert(out@ == chars@.subrange(i as int, k as int));
    }
    assert(front.subrange(0, j - i) == chars@.subrange(i as int, j as int));
    out
}

/// Escapes a whole reply, as `escape_text` does, into a `String`.
pub fn escape(message: &str) -> (r: String)
    ensures
        r@ == escaped(message@),
{
    let chars = escape_text(message);
    text_of(&chars, 0, chars.len())
}

/// The characters `chars[from..to]` as a `String`.
fn text_of(chars: &Vec<char>, from: usize, to: usize) -> (r: String)
    requires
        from <= to <= chars.len(),
    ensures
        r@ == chars@.subrange(from as int, to as int),
{
    let mut out = String::new();
    let mut k: usize = from;
    while k < to
        invariant
            from <= k <= to <= chars.len(),
            out@ == chars@.subrange(from as int, k as int),
        decreases to - k,
    {
        push_char(&mut out, chars[k]);
        k += 1;
        assert(out@ == chars@.subrange(from as int, k as int));
    }
    out
}

/// One piece of a reply as it goes on the wire: its text, and whether more
/// pieces of the same reply follow it.
pub struct Chunk {
    pub text: String,
    pub more: bool,
}

/// Cuts escaped text into chunks of `chunk_size` characters, each moved
/// forward past any backslash it would end on.
pub fn split_chunks(text: &Vec<char>, chunk_size: usize) -> (r: Vec<Chunk>)
    requires
        chunk_size >= 1,
    ensures
        r.len() == chunks_of(text@, chunk_size as int).len(),
        forall|i: int|
            0 <= i < r.len() ==> (#[trigger] r[i]).text@ == chunks_of(text@, chunk_size as int)[i]
                && r[i].more == (i + 1 < r.len()),
{
    let total = text.len();
    let ghost t = text@;
    let ghost size = chunk_size as int;
    let mut out: Vec<Chunk> = Vec::new();
    let mut index: usize = 0;
    proof {
        lemma_chunks_from(t, 0, size);
    }
    while index < total
        invariant
            total == t.len(),
            t == text@,
            size == chunk_size,
            size >= 1,
            index <= total,
            out.len() + chunks_from(t, index as int, size).len() == chunks_of(t, size).len(),
            forall|i: int|
                0 <= i < out.len() ==> (#[trigger] out[i]).text@ == chunks_of(t, size)[i]
                    && out[i].more == (i + 1 < chunks_of(t, size).len()),
            forall|i: int|
                0 <= i < chunks_from(t, index as int, size).len() ==> chunks_of(t, size)[out.len()
                    + i] == #[trigger] chunks_from(t, index as int, size)[i],
        decreases total - index,
    {
        let mut end: usize = if total - index <= chunk_size {
            total
        } else {
            index + chunk_size
        };
        proof {
            lemma_chunk_end(t, index as int, size);
        }
        while end < total && text[end - 1] == '\\'
            invariant
                index < end <= total == t.len(),
                t == text@,
                extend_end(t, end as int) == chunk_end(t, index as int, size),
            decreases total - end,
        {
            end += 1;
        }
        let piece = text_of(text, index, end);
        let ghost rest = chunks_from(t, end as int, size);
        proof {
            lemma_chunks_from(t, index as int, size);
            lemma_chunks_from(t, end as int, size);
            assert(chunks_from(t, index as int, size) == seq![t.subrange(index as int, end as int)]
                + rest);
            assert(chunks_from(t, index as int, size)[0] == t.subrange(index as int, end as int));
            assert(chunks_of(t, size)[out.len() as int] == t.subrange(index as int, end as int));
            assert forall|i: int| 0 <= i < rest.len() implies chunks_of(t, size)[out.len() + 1
                + i] == #[trigger] rest[i] by {
                assert(chunks_from(t, index as int, size)[i + 1] == rest[i]);
            }
        }
        out.push(Chunk { text: piece, more: end < total });
        index = end;
    }
    proof {
        lemma_chunks_from(t, index as int, size);
    }
    out
}

} // verus!
