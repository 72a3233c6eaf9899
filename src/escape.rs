//! The HTML escaper: `&`, `<`, `>` and `"` become entities, all else is copied.
use vstd::prelude::*;

use crate::sink::Sink;
use vstd::utf8::{encode_scalar, encode_utf8, has_width_1_encoding};

verus! {

/// Whether a byte must be replaced when embedded in HTML.
pub open spec fn is_reserved(b: u8) -> bool {
    b == 38 || b == 60 || b == 62 || b == 34
}

/// The entity that stands for a reserved byte.
pub open spec fn entity(b: u8) -> Seq<u8> {
    if b == 38 {
        seq![38u8, 97, 109, 112, 59]  // &amp;
    } else if b == 60 {
        seq![38u8, 108, 116, 59]  // &lt;
    } else if b == 62 {
        seq![38u8, 103, 116, 59]  // &gt;
    } else {
        seq![38u8, 113, 117, 111, 116, 59]  // &quot;
    }
}

/// What one input byte becomes in the output.
pub open spec fn piece(b: u8) -> Seq<u8> {
    if is_reserved(b) { entity(b) } else { seq![b] }
}

/// The escaping of a byte string: each byte replaced by its piece.
pub open spec fn escaped(s: Seq<u8>) -> Seq<u8>
    decreases s.len(),
{
    if s.len() == 0 {
        Seq::empty()
    } else {
        escaped(s.drop_last()) + piece(s.last())
    }
}

/// How many reserved bytes a byte string holds.
pub open spec fn reserved_count(s: Seq<u8>) -> nat
    decreases s.len(),
{
    if s.len() == 0 {
        0
    } else {
        reserved_count(s.drop_last()) + if is_reserved(s.last()) {
            1nat
        } else {
            0nat
        }
    }
}

proof fn lemma_count_step(s: Seq<u8>, i: int)
    requires
        0 <= i < s.len(),
    ensures
        reserved_count(s.take(i + 1)) == reserved_count(s.take(i)) + if is_reserved(s[i]) {
            1nat
        } else {
            0nat
        },
{
    assert(s.take(i + 1).drop_last() == s.take(i));
}

proof fn lemma_count_bounded(s: Seq<u8>, i: int)
    requires
        0 <= i <= s.len(),
    ensures
        reserved_count(s.take(i)) <= reserved_count(s),
    decreases s.len() - i,
{
    if i < s.len() {
        lemma_count_step(s, i);
        lemma_count_bounded(s, i + 1);
    } else {
        assert(s.take(i) == s);
    }
}

/// Whether a byte string holds no reserved byte.
pub open spec fn plain(s: Seq<u8>) -> bool {
    forall|i: int| 0 <= i < s.len() ==> !is_reserved(#[trigger] s[i])
}

proof fn lemma_escaped_step(s: Seq<u8>, i: int)
    requires
        0 <= i < s.len(),
    ensures
        escaped(s.take(i + 1)) == escaped(s.take(i)) + piece(s[i]),
{
    assert(s.take(i + 1).drop_last() == s.take(i));
}

/// A run without reserved bytes is copied as it is.
proof fn lemma_escaped_plain_run(s: Seq<u8>, a: int, b: int)
    requires
        0 <= a <= b <= s.len(),
        plain(s.subrange(a, b)),
    ensures
        escaped(s.take(b)) == escaped(s.take(a)) + s.subrange(a, b),
    decreases b - a,
{
    if a == b {
        assert(s.subrange(a, b) == Seq::<u8>::empty());
    } else {
        assert(s.subrange(a, b - 1) == s.subrange(a, b).take(b - 1 - a));
        lemma_escaped_plain_run(s, a, b - 1);
        lemma_escaped_step(s, b - 1);
        assert(s.subrange(a, b)[b - 1 - a] == s[b - 1]);
        assert(s.subrange(a, b) == s.subrange(a, b - 1) + seq![s[b - 1]]);
    }
}

/// Escaping distributes over concatenation.
pub proof fn lemma_escaped_concat(a: Seq<u8>, b: Seq<u8>)
    ensures
        escaped(a + b) == escaped(a) + escaped(b),
    decreases b.len(),
{
    if b.len() == 0 {
        assert(a + b == a);
    } else {
        lemma_escaped_concat(a, b.drop_last());
        assert((a + b).drop_last() == a + b.drop_last());
    }
}

/// Escaping a prefix gives a prefix of the escaping.
pub(crate) proof fn lemma_escaped_prefix(s: Seq<u8>, j: int)
    requires
        0 <= j <= s.len(),
    ensures
        escaped(s.take(j)).len() <= escaped(s).len(),
        escaped(s) == escaped(s.take(j)) + escaped(s.skip(j)),
{
    assert(s == s.take(j) + s.skip(j));
    lemma_escaped_concat(s.take(j), s.skip(j));
}

/// Text without reserved bytes comes out of the escaper unchanged, and
/// `escape` hands it to the sink in one write.
pub proof fn lemma_plain_unchanged(s: Seq<u8>)
    requires
        plain(s),
    ensures
        escaped(s) == s,
        reserved_count(s) == 0,
    decreases s.len(),
{
    lemma_escaped_plain_run(s, 0, s.len() as int);
    assert(s.take(0) == Seq::<u8>::empty());
    assert(s.take(s.len() as int) == s);
    assert(s.subrange(0, s.len() as int) == s);
    if s.len() > 0 {
        let t = s.drop_last();
        assert forall|i: int| 0 <= i < t.len() implies !is_reserved(#[trigger] t[i]) by {
            assert(t[i] == s[i]);
        }
        lemma_plain_unchanged(t);
        assert(!is_reserved(s[s.len() - 1]));
    }
}

/// Each byte is replaced on its own, wherever it stands: a reserved byte by
/// exactly its entity, any other byte by itself, and the text around it is
/// escaped independently.
pub proof fn lemma_substitution(before: Seq<u8>, b: u8, after: Seq<u8>)
    ensures
        escaped(before + seq![b] + after) == escaped(before) + piece(b) + escaped(after),
        is_reserved(b) ==> piece(b) == entity(b),
        !is_reserved(b) ==> piece(b) == seq![b],
{
    lemma_escaped_concat(before + seq![b], after);
    lemma_escaped_concat(before, seq![b]);
    assert(seq![b].drop_last() == Seq::<u8>::empty());
    assert(seq![b].last() == b);
    assert(escaped(Seq::<u8>::empty()) == Seq::<u8>::empty());
    assert(escaped(seq![b]) =~= piece(b));
}

/// Whether a character is one of `&`, `<`, `>` and `"`.
pub open spec fn is_reserved_char(c: char) -> bool {
    c == '&' || c == '<' || c == '>' || c == '"'
}

proof fn lemma_marked_bytes(x: u8)
    by (bit_vector)
    ensures
        (0x80u8 | x) >= 0x80,
        (0xC0u8 | x) >= 0x80,
        (0xE0u8 | x) >= 0x80,
        (0xF0u8 | x) >= 0x80,
{
}

proof fn lemma_ascii_byte(v: u32)
    by (bit_vector)
    requires
        v <= 0x7F,
    ensures
        (v & 0x7F) as u8 as u32 == v,
{
}

/// The UTF-8 encoding of a character other than the four holds no reserved
/// byte: every byte of a multi-byte sequence has its high bit set.
proof fn lemma_char_plain(c: char)
    requires
        !is_reserved_char(c),
    ensures
        plain(encode_scalar(c as u32)),
{
    let v = c as u32;
    if has_width_1_encoding(v) {
        lemma_ascii_byte(v);
        assert(encode_scalar(v)[0] as u32 == v);
    } else {
        lemma_marked_bytes(((v >> 6) & 0x1F) as u8);
        lemma_marked_bytes(((v >> 12) & 0x0F) as u8);
        lemma_marked_bytes(((v >> 18) & 0x7) as u8);
        lemma_marked_bytes((v & 0x3F) as u8);
        lemma_marked_bytes(((v >> 6) & 0x3F) as u8);
        lemma_marked_bytes(((v >> 12) & 0x3F) as u8);
    }
}

/// The UTF-8 encoding of text without reserved characters holds no reserved
/// byte.
pub proof fn lemma_text_plain(cs: Seq<char>)
    requires
        forall|i: int| 0 <= i < cs.len() ==> !is_reserved_char(#[trigger] cs[i]),
    ensures
        plain(encode_utf8(cs)),
    decreases cs.len(),
{
    if cs.len() > 0 {
        let rest = cs.drop_first();
        assert forall|i: int| 0 <= i < rest.len() implies !is_reserved_char(#[trigger] rest[i]) by {
            assert(rest[i] == cs[i + 1]);
        }
        lemma_text_plain(rest);
        lemma_char_plain(cs[0]);
        let e = encode_utf8(cs);
        let h = encode_scalar(cs[0] as u32);
        assert(e == h + encode_utf8(rest));
        assert forall|i: int| 0 <= i < e.len() implies !is_reserved(#[trigger] e[i]) by {
            if i < h.len() {
                assert(e[i] == h[i]);
            } else {
                assert(e[i] == encode_utf8(rest)[i - h.len()]);
            }
        }
    }
}

/// Multi-byte sequences are never split or altered: with any byte between two
/// texts free of reserved characters, only that byte may change.
pub proof fn lemma_multibyte_intact(before: Seq<char>, b: u8, after: Seq<char>)
    requires
        forall|i: int| 0 <= i < before.len() ==> !is_reserved_char(#[trigger] before[i]),
        forall|i: int| 0 <= i < after.len() ==> !is_reserved_char(#[trigger] after[i]),
    ensures
        escaped(encode_utf8(before) + seq![b] + encode_utf8(after)) == encode_utf8(before)
            + piece(b) + encode_utf8(after),
        escaped(encode_utf8(before)) == encode_utf8(before),
{
    lemma_text_plain(before);
    lemma_text_plain(after);
    lemma_plain_unchanged(encode_utf8(before));
    lemma_plain_unchanged(encode_utf8(after));
    lemma_substitution(encode_utf8(before), b, encode_utf8(after));
}

fn write_entity<W: Sink>(b: u8, writer: &mut W) -> (r: Result<(), std::io::Error>)
    requires
        is_reserved(b),
    ensures
        old(writer).infallible() ==> r is Ok && final(writer).infallible(),
        old(writer).exhausted() ==> r is Err && final(writer).exhausted(),
        r is Ok ==> final(writer).written() == old(writer).written() + entity(b),
        r is Err ==> final(writer).written() == old(writer).written(),
        r is Ok ==> final(writer).last_failure() is None,
        r is Err ==> final(writer).last_failure() == Some(r->Err_0),
        old(writer).counts_writes() ==> final(writer).counts_writes() && final(writer).writes()
            == old(writer).writes() + 1,
        r is Ok ==> final(writer).fails() == old(writer).fails(),
        r is Err ==> final(writer).fails() == old(writer).fails() + 1,
        final(writer).flushes() == old(writer).flushes(),
{
    if b == 38 {
        let e: [u8; 5] = [38, 97, 109, 112, 59];
        assert(e@ == entity(b));
        writer.write_all(e.as_slice())
    } else if b == 60 {
        let e: [u8; 4] = [38, 108, 116, 59];
        assert(e@ == entity(b));
        writer.write_all(e.as_slice())
    } else if b == 62 {
        let e: [u8; 4] = [38, 103, 116, 59];
        assert(e@ == entity(b));
        writer.write_all(e.as_slice())
    } else {
        let e: [u8; 6] = [38, 113, 117, 111, 116, 59];
        assert(e@ == entity(b));
        writer.write_all(e.as_slice())
    }
}

/// Copies `input` to the sink, replacing each reserved byte by its entity.
///
/// Runs without reserved bytes are written in one piece. On failure the sink
/// has accepted the escaping of a prefix of the input, and nothing after the
/// failed write.
pub fn escape<W: Sink>(input: &[u8], writer: &mut W) -> (r: Result<(), std::io::Error>)
    ensures
        r is Ok ==> final(writer).fails() == old(writer).fails(),
        r is Err ==> final(writer).fails() == old(writer).fails() + 1,
        final(writer).flushes() == old(writer).flushes(),
        old(writer).counts_writes() ==> final(writer).counts_writes(),
        old(writer).counts_writes() && r is Ok ==> final(writer).writes() == old(writer).writes() + 2
            * reserved_count(input@) + 1,
        old(writer).counts_writes() ==> final(writer).writes() <= old(writer).writes() + 2
            * reserved_count(input@) + 1,
        old(writer).infallible() ==> r is Ok && final(writer).infallible(),
        old(writer).exhausted() ==> r is Err && final(writer).exhausted()
            && final(writer).written() == old(writer).written(),
        r is Ok ==> final(writer).last_failure() is None,
        r is Err ==> final(writer).last_failure() == Some(r->Err_0),
        r is Ok ==> final(writer).written() == old(writer).written() + escaped(input@),
        r is Err ==> exists|j: int|
            0 <= j <= input@.len() && final(writer).written() == old(writer).written()
                + escaped(#[trigger] input@.take(j)),
{
    let ghost start = writer.written();
    let ghost start_writes = writer.writes();
    let mut last: usize = 0;
    let mut index: usize = 0;
    while index < input.len()
        invariant
            last <= index <= input@.len(),
            start == old(writer).written(),
            start_writes == old(writer).writes(),
            writer.fails() == old(writer).fails(),
            writer.flushes() == old(writer).flushes(),
            old(writer).counts_writes() ==> writer.counts_writes() && writer.writes() == start_writes
                + 2 * reserved_count(input@.take(index as int)),
            old(writer).infallible() ==> writer.infallible(),
            old(writer).exhausted() ==> writer.exhausted() && writer.written() == start && last
                == 0,
            writer.written() == start + escaped(input@.take(last as int)),
            plain(input@.subrange(last as int, index as int)),
        decreases input@.len() - index,
    {
        let byte = input[index];
        proof {
            lemma_count_step(input@, index as int);
            lemma_count_bounded(input@, index as int);
            lemma_count_bounded(input@, index + 1);
        }
        if byte == 38 || byte == 60 || byte == 62 || byte == 34 {
            proof {
                lemma_escaped_plain_run(input@, last as int, index as int);
            }
            match writer.write_all(&input[last..index]) {
                Ok(()) => {},
                Err(e) => {
                    assert(writer.written() == start + escaped(input@.take(last as int)));
                    return Err(e);
                },
            }
            match write_entity(byte, writer) {
                Ok(()) => {},
                Err(e) => {
                    assert(writer.written() == start + escaped(input@.take(index as int)));
                    return Err(e);
                },
            }
            proof {
                lemma_escaped_step(input@, index as int);
            }
            last = index + 1;
            assert(input@.subrange(last as int, last as int) == Seq::<u8>::empty());
        } else {
            assert(input@.subrange(last as int, index + 1) == input@.subrange(last as int, index as int)
                + seq![byte]);
        }
        index = index + 1;
    }
    proof {
        lemma_escaped_plain_run(input@, last as int, input@.len() as int);
        assert(input@.take(input@.len() as int) == input@);
    }
    assert(reserved_count(input@.take(index as int)) == reserved_count(input@));
    let r = writer.write_all(&input[last..input.len()]);
    if r.is_err() {
        assert(writer.written() == start + escaped(input@.take(last as int)));
    }
    r
}

/// A sink adapter that escapes every run written through it before handing it
/// on, so that code which only knows how to write to a sink produces escaped
/// output. Its own model is the unescaped bytes it has accepted.
pub struct Escape<W> {
    inner: W,
    accepted: Ghost<Seq<u8>>,
}

impl<W: Sink> Escape<W> {
    /// The sink that receives the escaped output.
    pub closed spec fn inner(&self) -> W {
        self.inner
    }

    pub fn new(inner: W) -> (r: Self)
        ensures
            r.inner() == inner,
            r.written() == Seq::<u8>::empty(),
            r.infallible() == inner.infallible(),
            r.exhausted() == inner.exhausted(),
            r.last_failure() == inner.last_failure(),
            r.fails() == inner.fails(),
    {
        Escape { inner, accepted: Ghost(Seq::empty()) }
    }

    pub fn get_ref(&self) -> (r: &W)
        ensures
            *r == self.inner(),
    {
        &self.inner
    }

    pub fn into_inner(self) -> (r: W)
        ensures
            r == self.inner(),
    {
        self.inner
    }
}

impl<W: Sink> Sink for Escape<W> {
    closed spec fn written(&self) -> Seq<u8> {
        self.accepted@
    }

    closed spec fn infallible(&self) -> bool {
        self.inner.infallible()
    }

    closed spec fn exhausted(&self) -> bool {
        self.inner.exhausted()
    }

    closed spec fn last_failure(&self) -> Option<std::io::Error> {
        self.inner.last_failure()
    }

    /// A write through the adapter may make several writes to the inner sink.
    open spec fn counts_writes(&self) -> bool {
        false
    }

    open spec fn writes(&self) -> nat {
        0
    }

    closed spec fn fails(&self) -> nat {
        self.inner.fails()
    }

    open spec fn flushes(&self) -> nat {
        0
    }

    /// Flushes the inner sink and returns what it returned.
    fn flush(&mut self) -> (r: Result<(), std::io::Error>)
        ensures
            final(self).inner().written() == old(self).inner().written(),
            final(self).inner().writes() == old(self).inner().writes(),
            final(self).inner().fails() == old(self).inner().fails(),
            old(self).inner().counts_writes() ==> final(self).inner().flushes() == old(
                self,
            ).inner().flushes() + 1,
            old(self).inner().infallible() ==> r is Ok,
    {
        self.inner.flush()
    }

    fn write_all(&mut self, bytes: &[u8]) -> (r: Result<(), std::io::Error>)
        ensures
            r is Ok ==> final(self).inner().written() == old(self).inner().written() + escaped(
                bytes@,
            ),
            r is Err ==> exists|j: int|
                0 <= j <= bytes@.len() && final(self).inner().written() == old(
                    self,
                ).inner().written() + escaped(#[trigger] bytes@.take(j)),
            r is Err ==> final(self).inner().last_failure() == Some(r->Err_0),
            r is Ok ==> final(self).inner().fails() == old(self).inner().fails(),
            r is Err ==> final(self).inner().fails() == old(self).inner().fails() + 1,
    {
        let r = escape(bytes, &mut self.inner);
        if r.is_ok() {
            self.accepted = Ghost(self.accepted@ + bytes@);
        }
        r
    }
}

} // verus!
