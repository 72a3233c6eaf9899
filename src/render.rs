//! The `Render` and `RenderAttributeValue` capabilities and their impls for
//! the primitive, text, optional, owned and composite values.
use vstd::prelude::*;

use crate::error::RenderError;
use crate::escape::{escape, escaped, reserved_count};
use crate::sink::Sink;
use vstd::utf8::{encode_scalar, encode_utf8};

verus! {

/// Whether `after` is `before` followed by a prefix of `text`: what a sink
/// holds when the writing of `text` stopped part way.
pub open spec fn prefix_written(before: Seq<u8>, after: Seq<u8>, text: Seq<u8>) -> bool {
    &&& before.len() <= after.len() <= before.len() + text.len()
    &&& after == before + text.take(after.len() - before.len())
}

/// A value that can write itself to a sink.
pub trait Render: Sized {
    /// The bytes this value renders as.
    spec fn text(&self) -> Seq<u8>;

    /// Whether rendering can fail only through the sink.
    open spec fn succeeds(&self) -> bool {
        true
    }

    /// Whether every error of rendering is a sink failure, reported as
    /// `RenderError::IoError` with the error of the write that failed.
    open spec fn sink_only(&self) -> bool {
        true
    }

    /// Whether `text` is what this value writes: false where the bytes are
    /// only known once rendering runs.
    open spec fn fixed(&self) -> bool {
        true
    }

    /// How many writes rendering makes when it succeeds.
    open spec fn writes_made(&self) -> nat {
        1
    }

    /// Writes the value to the sink. A failed write ends the call: on failure
    /// the sink holds a prefix of the value's text, at most one write failed,
    /// and that write was the last one made.
    fn render<W: Sink>(self, writer: &mut W) -> (r: Result<(), RenderError>)
        ensures
            self.fixed() && r is Ok ==> final(writer).written() == old(writer).written()
                + self.text(),
            self.fixed() && r is Err ==> prefix_written(
                old(writer).written(),
                final(writer).written(),
                self.text(),
            ),
            old(writer).infallible() ==> final(writer).infallible(),
            self.succeeds() && old(writer).infallible() ==> r is Ok,
            old(writer).exhausted() ==> final(writer).exhausted()
                && final(writer).written() == old(writer).written(),
            old(writer).exhausted() && self.fixed() && self.text().len() > 0 ==> r is Err,
            self.sink_only() && r is Err ==> r->Err_0 is IoError && final(writer).last_failure()
                == Some(r->Err_0->IoError_0),
            r is Ok ==> final(writer).fails() == old(writer).fails(),
            final(writer).fails() == old(writer).fails() || (final(writer).fails() == old(
                writer,
            ).fails() + 1 && final(writer).last_failure() is Some),
            self.sink_only() && r is Err ==> final(writer).fails() == old(writer).fails() + 1,
            old(writer).counts_writes() ==> final(writer).counts_writes() && final(writer).writes()
                <= old(writer).writes() + self.writes_made(),
            old(writer).counts_writes() && r is Ok ==> final(writer).writes() == old(
                writer,
            ).writes() + self.writes_made(),
            final(writer).flushes() == old(writer).flushes(),
    ;
}

/// A value usable as an HTML attribute value: besides rendering, it tells
/// whether it is absent, exactly `true`, or exactly `false`.
pub trait RenderAttributeValue: Render {
    open spec fn spec_is_none(&self) -> bool {
        false
    }

    open spec fn spec_is_true(&self) -> bool {
        false
    }

    open spec fn spec_is_false(&self) -> bool {
        false
    }

    fn is_none(&self) -> (r: bool)
        ensures
            r == self.spec_is_none(),
    ;

    fn is_true(&self) -> (r: bool)
        ensures
            r == self.spec_is_true(),
    ;

    fn is_false(&self) -> (r: bool)
        ensures
            r == self.spec_is_false(),
    ;
}

/// How many writes `escape` makes on a byte string: one per reserved byte,
/// one per run before each, and one for the final run.
pub open spec fn escape_writes(s: Seq<u8>) -> nat {
    2 * reserved_count(s) + 1
}

/// Writes a run of bytes, reporting a sink failure as `RenderError::IoError`.
pub fn write_bytes<W: Sink>(bytes: &[u8], writer: &mut W) -> (r: Result<(), RenderError>)
    ensures
        r is Ok ==> final(writer).last_failure() is None,
        r is Err ==> r->Err_0 is IoError && final(writer).last_failure() == Some(r->Err_0->IoError_0),
        old(writer).exhausted() ==> r is Err && final(writer).exhausted()
            && final(writer).written() == old(writer).written(),
        old(writer).infallible() ==> r is Ok && final(writer).infallible(),
        r is Ok ==> final(writer).fails() == old(writer).fails(),
        r is Err ==> final(writer).fails() == old(writer).fails() + 1,
        final(writer).flushes() == old(writer).flushes(),
        old(writer).counts_writes() ==> final(writer).counts_writes() && final(writer).writes()
            == old(writer).writes() + 1,
        r is Ok ==> final(writer).written() == old(writer).written() + bytes@,
        r is Err ==> final(writer).written() == old(writer).written(),
{
    match writer.write_all(bytes) {
        Ok(()) => Ok(()),
        Err(e) => Err(RenderError::IoError(e)),
    }
}

/// Escapes text to the sink, reporting a sink failure as
/// `RenderError::IoError`.
pub fn write_escaped<W: Sink>(bytes: &[u8], writer: &mut W) -> (r: Result<(), RenderError>)
    ensures
        r is Err ==> r->Err_0 is IoError && final(writer).last_failure() == Some(r->Err_0->IoError_0),
        old(writer).exhausted() ==> r is Err && final(writer).exhausted()
            && final(writer).written() == old(writer).written(),
        old(writer).infallible() ==> r is Ok && final(writer).infallible(),
        r is Ok ==> final(writer).fails() == old(writer).fails(),
        r is Err ==> final(writer).fails() == old(writer).fails() + 1,
        final(writer).flushes() == old(writer).flushes(),
        old(writer).counts_writes() ==> final(writer).counts_writes(),
        old(writer).counts_writes() && r is Ok ==> final(writer).writes() == old(writer).writes()
            + escape_writes(bytes@),
        old(writer).counts_writes() ==> final(writer).writes() <= old(writer).writes()
            + escape_writes(bytes@),
        r is Ok ==> final(writer).written() == old(writer).written() + escaped(bytes@),
        r is Err ==> prefix_written(old(writer).written(), final(writer).written(), escaped(bytes@)),
{
    match escape(bytes, writer) {
        Ok(()) => Ok(()),
        Err(e) => {
            proof {
                let j = choose|j: int|
                    0 <= j <= bytes@.len() && final(writer).written() == old(writer).written()
                        + escaped(#[trigger] bytes@.take(j));
                crate::escape::lemma_escaped_prefix(bytes@, j);
                assert(escaped(bytes@).take(escaped(bytes@.take(j)).len() as int) == escaped(
                    bytes@.take(j),
                ));
            }
            Err(RenderError::IoError(e))
        },
    }
}

pub open spec fn bool_text(b: bool) -> Seq<u8> {
    if b {
        seq![116u8, 114, 117, 101]  // true
    } else {
        seq![102u8, 97, 108, 115, 101]  // false
    }
}

impl Render for bool {
    open spec fn text(&self) -> Seq<u8> {
        bool_text(*self)
    }

    fn render<W: Sink>(self, writer: &mut W) -> (r: Result<(), RenderError>) {
        let bytes: Vec<u8> = if self {
            vec![116u8, 114, 117, 101]
        } else {
            vec![102u8, 97, 108, 115, 101]
        };
        let r = write_bytes(bytes.as_slice(), writer);
        proof {
            if r is Err {
                assert(self.text().take(0) == Seq::<u8>::empty());
            }
        }
        r
    }
}

impl RenderAttributeValue for bool {
    open spec fn spec_is_true(&self) -> bool {
        *self
    }

    open spec fn spec_is_false(&self) -> bool {
        !*self
    }

    fn is_none(&self) -> (r: bool) {
        false
    }

    fn is_true(&self) -> (r: bool) {
        *self
    }

    fn is_false(&self) -> (r: bool) {
        !*self
    }
}

impl<T: Render> Render for Option<T> {
    open spec fn text(&self) -> Seq<u8> {
        match self {
            Some(t) => t.text(),
            None => Seq::empty(),
        }
    }

    open spec fn succeeds(&self) -> bool {
        match self {
            Some(t) => t.succeeds(),
            None => true,
        }
    }

    open spec fn sink_only(&self) -> bool {
        match self {
            Some(t) => t.sink_only(),
            None => true,
        }
    }

    open spec fn fixed(&self) -> bool {
        match self {
            Some(t) => t.fixed(),
            None => true,
        }
    }

    open spec fn writes_made(&self) -> nat {
        match self {
            Some(t) => t.writes_made(),
            None => 0,
        }
    }

    fn render<W: Sink>(self, writer: &mut W) -> (r: Result<(), RenderError>) {
        match self {
            Some(t) => t.render(writer),
            None => {
                assert(writer.written() == old(writer).written() + Seq::<u8>::empty());
                Ok(())
            },
        }
    }
}

impl<T: RenderAttributeValue> RenderAttributeValue for Option<T> {
    open spec fn spec_is_none(&self) -> bool {
        self is None
    }

    fn is_none(&self) -> (r: bool) {
        match self {
            Some(_) => false,
            None => true,
        }
    }

    fn is_true(&self) -> (r: bool) {
        false
    }

    fn is_false(&self) -> (r: bool) {
        false
    }
}

impl<T: Render> Render for Box<T> {
    open spec fn text(&self) -> Seq<u8> {
        (**self).text()
    }

    open spec fn succeeds(&self) -> bool {
        (**self).succeeds()
    }

    open spec fn sink_only(&self) -> bool {
        (**self).sink_only()
    }

    open spec fn fixed(&self) -> bool {
        (**self).fixed()
    }

    open spec fn writes_made(&self) -> nat {
        (**self).writes_made()
    }

    fn render<W: Sink>(self, writer: &mut W) -> (r: Result<(), RenderError>) {
        (*self).render(writer)
    }
}

impl<T: RenderAttributeValue> RenderAttributeValue for Box<T> {
    open spec fn spec_is_none(&self) -> bool {
        (**self).spec_is_none()
    }

    open spec fn spec_is_true(&self) -> bool {
        (**self).spec_is_true()
    }

    open spec fn spec_is_false(&self) -> bool {
        (**self).spec_is_false()
    }

    fn is_none(&self) -> (r: bool) {
        (**self).is_none()
    }

    fn is_true(&self) -> (r: bool) {
        (**self).is_true()
    }

    fn is_false(&self) -> (r: bool) {
        (**self).is_false()
    }
}

/// The UTF-8 encoding of a character.
fn utf8_of_char(c: char) -> (r: Vec<u8>)
    ensures
        r@ == encode_utf8(seq![c]),
{
    let v = c as u32;
    proof {
        vstd::utf8::char_is_scalar(c);
        assert(seq![c].drop_first() == Seq::<char>::empty());
        assert(encode_utf8(seq![c]) == encode_scalar(v) + encode_utf8(Seq::<char>::empty()));
        assert(encode_utf8(seq![c]) == encode_scalar(v));
    }
    let r = if v <= 0x7F {
        vec![(v & 0x7F) as u8]
    } else if v <= 0x7FF {
        vec![0xC0 | ((v >> 6) & 0x1F) as u8, 0x80 | (v & 0x3F) as u8]
    } else if v <= 0xFFFF {
        vec![
            0xE0 | ((v >> 12) & 0x0F) as u8,
            0x80 | ((v >> 6) & 0x3F) as u8,
            0x80 | (v & 0x3F) as u8,
        ]
    } else {
        vec![
            0xF0 | ((v >> 18) & 0x7) as u8,
            0x80 | ((v >> 12) & 0x3F) as u8,
            0x80 | ((v >> 6) & 0x3F) as u8,
            0x80 | (v & 0x3F) as u8,
        ]
    };
    assert(r@ =~= encode_scalar(v));
    r
}

impl Render for char {
    /// A character is written as its UTF-8 encoding, unescaped.
    open spec fn text(&self) -> Seq<u8> {
        encode_utf8(seq![*self])
    }

    fn render<W: Sink>(self, writer: &mut W) -> (r: Result<(), RenderError>) {
        let bytes = utf8_of_char(self);
        let r = write_bytes(bytes.as_slice(), writer);
        proof {
            if r is Err {
                assert(self.text().take(0) == Seq::<u8>::empty());
            }
        }
        r
    }
}

impl RenderAttributeValue for char {
    fn is_none(&self) -> (r: bool) {
        false
    }

    fn is_true(&self) -> (r: bool) {
        false
    }

    fn is_false(&self) -> (r: bool) {
        false
    }
}

impl<'a> Render for &'a str {
    /// Text is written escaped.
    open spec fn text(&self) -> Seq<u8> {
        escaped(encode_utf8(self@))
    }

    open spec fn writes_made(&self) -> nat {
        escape_writes(encode_utf8(self@))
    }

    fn render<W: Sink>(self, writer: &mut W) -> (r: Result<(), RenderError>) {
        write_escaped(self.as_bytes(), writer)
    }
}

impl<'a> RenderAttributeValue for &'a str {
    fn is_none(&self) -> (r: bool) {
        false
    }

    fn is_true(&self) -> (r: bool) {
        false
    }

    fn is_false(&self) -> (r: bool) {
        false
    }
}

impl Render for String {
    /// Text is written escaped.
    open spec fn text(&self) -> Seq<u8> {
        escaped(encode_utf8(self@))
    }

    open spec fn writes_made(&self) -> nat {
        escape_writes(encode_utf8(self@))
    }

    fn render<W: Sink>(self, writer: &mut W) -> (r: Result<(), RenderError>) {
        self.as_str().render(writer)
    }
}

impl RenderAttributeValue for String {
    fn is_none(&self) -> (r: bool) {
        false
    }

    fn is_true(&self) -> (r: bool) {
        false
    }

    fn is_false(&self) -> (r: bool) {
        false
    }
}

impl<'a> Render for std::borrow::Cow<'a, str> {
    /// Text is written escaped, borrowed or owned alike.
    open spec fn text(&self) -> Seq<u8> {
        escaped(encode_utf8(self@))
    }

    open spec fn writes_made(&self) -> nat {
        escape_writes(encode_utf8(self@))
    }

    fn render<W: Sink>(self, writer: &mut W) -> (r: Result<(), RenderError>) {
        match self {
            std::borrow::Cow::Borrowed(s) => s.render(writer),
            std::borrow::Cow::Owned(s) => s.render(writer),
        }
    }
}

impl<'a> RenderAttributeValue for std::borrow::Cow<'a, str> {
    fn is_none(&self) -> (r: bool) {
        false
    }

    fn is_true(&self) -> (r: bool) {
        false
    }

    fn is_false(&self) -> (r: bool) {
        false
    }
}

/// A boolean is never absent, and exactly one of "is true" and "is false"
/// holds of it, the one that matches its value.
pub proof fn lemma_bool_attribute(b: bool)
    ensures
        !b.spec_is_none(),
        b.spec_is_true() != b.spec_is_false(),
        b.spec_is_true() == b,
        b.text() == bool_text(b),
{
}

/// An optional value is absent exactly when it is `None`; present, it
/// renders as its content does, and absent it renders as nothing.
pub proof fn lemma_option_attribute<T: RenderAttributeValue>(o: Option<T>)
    ensures
        o.spec_is_none() <==> o is None,
        !o.spec_is_true(),
        !o.spec_is_false(),
        o matches Some(t) ==> o.text() == t.text(),
        o is None ==> o.text() == Seq::<u8>::empty(),
{
}

/// A pair renders as its elements do, one after the other.
pub proof fn lemma_pair_text<A: Render, B: Render>(a: A, b: B)
    ensures
        (a, b).text() == a.text() + b.text(),
{
}

/// A triple renders as its elements do, in declared order.
pub proof fn lemma_triple_text<A: Render, B: Render, C: Render>(a: A, b: B, c: C)
    ensures
        (a, b, c).text() == a.text() + b.text() + c.text(),
{
}

/// The decimal digits of a natural number, most significant first.
pub open spec fn digits(n: nat) -> Seq<u8>
    decreases n,
{
    if n < 10 {
        seq![(48 + n) as u8]
    } else {
        digits(n / 10) + seq![(48 + n % 10) as u8]
    }
}

/// The canonical decimal text of an integer, with a minus sign before a
/// negative one.
pub open spec fn int_text(i: int) -> Seq<u8> {
    if i < 0 {
        seq![45u8] + digits((-i) as nat)
    } else {
        digits(i as nat)
    }
}

/// Relies on itoa::Buffer::format: the decimal digits of an unsigned integer,
/// with no sign, leading zeros or separators.
#[verifier::external_body]
fn decimal(n: u128) -> (r: Vec<u8>)
    ensures
        r@ == digits(n as nat),
{
    let mut buffer = itoa::Buffer::new();
    buffer.format(n).as_bytes().to_vec()
}

fn render_unsigned<W: Sink>(n: u128, writer: &mut W) -> (r: Result<(), RenderError>)
    ensures
        r is Err ==> r->Err_0 is IoError && final(writer).last_failure() == Some(r->Err_0->IoError_0),
        old(writer).exhausted() ==> r is Err && final(writer).exhausted()
            && final(writer).written() == old(writer).written(),
        old(writer).infallible() ==> r is Ok && final(writer).infallible(),
        r is Ok ==> final(writer).fails() == old(writer).fails(),
        r is Err ==> final(writer).fails() == old(writer).fails() + 1,
        final(writer).flushes() == old(writer).flushes(),
        old(writer).counts_writes() ==> final(writer).counts_writes() && final(writer).writes()
            == old(writer).writes() + 1,
        r is Ok ==> final(writer).written() == old(writer).written() + int_text(n as int),
        r is Err ==> prefix_written(old(writer).written(), final(writer).written(), int_text(n as int)),
{
    let d = decimal(n);
    let r = write_bytes(d.as_slice(), writer);
    proof {
        if r is Err {
            assert(int_text(n as int).take(0) == Seq::<u8>::empty());
        }
    }
    r
}

/// Relies on itoa::Buffer::format on a signed integer: a minus sign before
/// a negative one, then its decimal digits, with no leading zeros.
#[verifier::external_body]
fn decimal_signed(n: i128) -> (r: Vec<u8>)
    ensures
        r@ == int_text(n as int),
{
    let mut buffer = itoa::Buffer::new();
    buffer.format(n).as_bytes().to_vec()
}

fn render_signed<W: Sink>(n: i128, writer: &mut W) -> (r: Result<(), RenderError>)
    ensures
        r is Err ==> r->Err_0 is IoError && final(writer).last_failure() == Some(r->Err_0->IoError_0),
        old(writer).exhausted() ==> r is Err && final(writer).exhausted()
            && final(writer).written() == old(writer).written(),
        old(writer).infallible() ==> r is Ok && final(writer).infallible(),
        r is Ok ==> final(writer).fails() == old(writer).fails(),
        r is Err ==> final(writer).fails() == old(writer).fails() + 1,
        final(writer).flushes() == old(writer).flushes(),
        old(writer).counts_writes() ==> final(writer).counts_writes() && final(writer).writes()
            == old(writer).writes() + 1,
        r is Ok ==> final(writer).written() == old(writer).written() + int_text(n as int),
        r is Err ==> prefix_written(old(writer).written(), final(writer).written(), int_text(n as int)),
{
    let d = decimal_signed(n);
    let r = write_bytes(d.as_slice(), writer);
    proof {
        if r is Err {
            assert(int_text(n as int).take(0) == Seq::<u8>::empty());
        }
    }
    r
}

impl Render for u8 {
    open spec fn text(&self) -> Seq<u8> {
        int_text(*self as int)
    }

    fn render<W: Sink>(self, writer: &mut W) -> (r: Result<(), RenderError>) {
        render_unsigned(self as u128, writer)
    }
}

impl RenderAttributeValue for u8 {
    fn is_none(&self) -> (r: bool) {
        false
    }

    fn is_true(&self) -> (r: bool) {
        false
    }

    fn is_false(&self) -> (r: bool) {
        false
    }
}

impl Render for u16 {
    open spec fn text(&self) -> Seq<u8> {
        int_text(*self as int)
    }

    fn render<W: Sink>(self, writer: &mut W) -> (r: Result<(), RenderError>) {
        render_unsigned(self as u128, writer)
    }
}

impl RenderAttributeValue for u16 {
    fn is_none(&self) -> (r: bool) {
        false
    }

    fn is_true(&self) -> (r: bool) {
        false
    }

    fn is_false(&self) -> (r: bool) {
        false
    }
}

impl Render for u32 {
    open spec fn text(&self) -> Seq<u8> {
        int_text(*self as int)
    }

    fn render<W: Sink>(self, writer: &mut W) -> (r: Result<(), RenderError>) {
        render_unsigned(self as u128, writer)
    }
}

impl RenderAttributeValue for u32 {
    fn is_none(&self) -> (r: bool) {
        false
    }

    fn is_true(&self) -> (r: bool) {
        false
    }

    fn is_false(&self) -> (r: bool) {
        false
    }
}

impl Render for u64 {
    open spec fn text(&self) -> Seq<u8> {
        int_text(*self as int)
    }

    fn render<W: Sink>(self, writer: &mut W) -> (r: Result<(), RenderError>) {
        render_unsigned(self as u128, writer)
    }
}

impl RenderAttributeValue for u64 {
    fn is_none(&self) -> (r: bool) {
        false
    }

    fn is_true(&self) -> (r: bool) {
        false
    }

    fn is_false(&self) -> (r: bool) {
        false
    }
}

impl Render for u128 {
    open spec fn text(&self) -> Seq<u8> {
        int_text(*self as int)
    }

    fn render<W: Sink>(self, writer: &mut W) -> (r: Result<(), RenderError>) {
        render_unsigned(self as u128, writer)
    }
}

impl RenderAttributeValue for u128 {
    fn is_none(&self) -> (r: bool) {
        false
    }

    fn is_true(&self) -> (r: bool) {
        false
    }

    fn is_false(&self) -> (r: bool) {
        false
    }
}

impl Render for usize {
    open spec fn text(&self) -> Seq<u8> {
        int_text(*self as int)
    }

    fn render<W: Sink>(self, writer: &mut W) -> (r: Result<(), RenderError>) {
        render_unsigned(self as u128, writer)
    }
}

impl RenderAttributeValue for usize {
    fn is_none(&self) -> (r: bool) {
        false
    }

    fn is_true(&self) -> (r: bool) {
        false
    }

    fn is_false(&self) -> (r: bool) {
        false
    }
}

impl Render for i8 {
    open spec fn text(&self) -> Seq<u8> {
        int_text(*self as int)
    }

    fn render<W: Sink>(self, writer: &mut W) -> (r: Result<(), RenderError>) {
        render_signed(self as i128, writer)
    }
}

impl RenderAttributeValue for i8 {
    fn is_none(&self) -> (r: bool) {
        false
    }

    fn is_true(&self) -> (r: bool) {
        false
    }

    fn is_false(&self) -> (r: bool) {
        false
    }
}

impl Render for i16 {
    open spec fn text(&self) -> Seq<u8> {
        int_text(*self as int)
    }

    fn render<W: Sink>(self, writer: &mut W) -> (r: Result<(), RenderError>) {
        render_signed(self as i128, writer)
    }
}

impl RenderAttributeValue for i16 {
    fn is_none(&self) -> (r: bool) {
        false
    }

    fn is_true(&self) -> (r: bool) {
        false
    }

    fn is_false(&self) -> (r: bool) {
        false
    }
}

impl Render for i32 {
    open spec fn text(&self) -> Seq<u8> {
        int_text(*self as int)
    }

    fn render<W: Sink>(self, writer: &mut W) -> (r: Result<(), RenderError>) {
        render_signed(self as i128, writer)
    }
}

impl RenderAttributeValue for i32 {
    fn is_none(&self) -> (r: bool) {
        false
    }

    fn is_true(&self) -> (r: bool) {
        false
    }

    fn is_false(&self) -> (r: bool) {
        false
    }
}

impl Render for i64 {
    open spec fn text(&self) -> Seq<u8> {
        int_text(*self as int)
    }

    fn render<W: Sink>(self, writer: &mut W) -> (r: Result<(), RenderError>) {
        render_signed(self as i128, writer)
    }
}

impl RenderAttributeValue for i64 {
    fn is_none(&self) -> (r: bool) {
        false
    }

    fn is_true(&self) -> (r: bool) {
        false
    }

    fn is_false(&self) -> (r: bool) {
        false
    }
}

impl Render for i128 {
    open spec fn text(&self) -> Seq<u8> {
        int_text(*self as int)
    }

    fn render<W: Sink>(self, writer: &mut W) -> (r: Result<(), RenderError>) {
        render_signed(self as i128, writer)
    }
}

impl RenderAttributeValue for i128 {
    fn is_none(&self) -> (r: bool) {
        false
    }

    fn is_true(&self) -> (r: bool) {
        false
    }

    fn is_false(&self) -> (r: bool) {
        false
    }
}

impl Render for isize {
    open spec fn text(&self) -> Seq<u8> {
        int_text(*self as int)
    }

    fn render<W: Sink>(self, writer: &mut W) -> (r: Result<(), RenderError>) {
        render_signed(self as i128, writer)
    }
}

impl RenderAttributeValue for isize {
    fn is_none(&self) -> (r: bool) {
        false
    }

    fn is_true(&self) -> (r: bool) {
        false
    }

    fn is_false(&self) -> (r: bool) {
        false
    }
}

/// A stop within `part`, written after `done`, is a stop within `done + part`.
proof fn lemma_prefix_after(before: Seq<u8>, mid: Seq<u8>, after: Seq<u8>, done: Seq<u8>, part: Seq<u8>)
    requires
        mid == before + done,
        prefix_written(mid, after, part),
    ensures
        prefix_written(before, after, done + part),
{
    let k = after.len() - mid.len();
    assert((done + part).take(done.len() + k) =~= done + part.take(k));
    assert(after =~= before + (done + part).take(done.len() + k));
}

/// A stop within `x` is a stop within any continuation of `x`.
proof fn lemma_prefix_grow(before: Seq<u8>, after: Seq<u8>, x: Seq<u8>, y: Seq<u8>)
    requires
        prefix_written(before, after, x),
    ensures
        prefix_written(before, after, x + y),
{
    let k = after.len() - before.len();
    assert((x + y).take(k) =~= x.take(k));
}

impl<A: Render> Render for (A,) {
    /// The elements' texts, in declared order.
    open spec fn text(&self) -> Seq<u8> {
        self.0.text()
    }

    open spec fn succeeds(&self) -> bool {
        self.0.succeeds()
    }

    open spec fn sink_only(&self) -> bool {
        self.0.sink_only()
    }

    open spec fn fixed(&self) -> bool {
        self.0.fixed()
    }

    open spec fn writes_made(&self) -> nat {
        self.0.writes_made()
    }

    fn render<W: Sink>(self, writer: &mut W) -> (r: Result<(), RenderError>) {
        let ghost before = writer.written();
        let ghost fx = self.fixed();
        let ghost t0 = self.0.text();
        let (e0,) = self;
        match e0.render(writer) {
            Ok(()) => {},
            Err(e) => {
                return Err(e);
            },
        }
        assert(fx ==> writer.written() =~= before + t0);
        Ok(())
    }
}

impl<A: Render, B: Render> Render for (A, B) {
    /// The elements' texts, in declared order.
    open spec fn text(&self) -> Seq<u8> {
        self.0.text() + self.1.text()
    }

    open spec fn succeeds(&self) -> bool {
        self.0.succeeds() && self.1.succeeds()
    }

    open spec fn sink_only(&self) -> bool {
        self.0.sink_only() && self.1.sink_only()
    }

    open spec fn fixed(&self) -> bool {
        self.0.fixed() && self.1.fixed()
    }

    open spec fn writes_made(&self) -> nat {
        self.0.writes_made() + self.1.writes_made()
    }

    fn render<W: Sink>(self, writer: &mut W) -> (r: Result<(), RenderError>) {
        let ghost before = writer.written();
        let ghost fx = self.fixed();
        let ghost t0 = self.0.text();
        let ghost t1 = self.1.text();
        let (e0, e1) = self;
        match e0.render(writer) {
            Ok(()) => {},
            Err(e) => {
                proof {
                    if fx {
                        lemma_prefix_grow(before, writer.written(), t0, t1);
                    }
                }
                return Err(e);
            },
        }
        assert(fx ==> writer.written() =~= before + t0);
        let ghost mid = writer.written();
        match e1.render(writer) {
            Ok(()) => {},
            Err(e) => {
                proof {
                    if fx {
                        lemma_prefix_after(before, mid, writer.written(), t0, t1);
                    }
                }
                return Err(e);
            },
        }
        assert(fx ==> writer.written() =~= before + (t0 + t1));
        Ok(())
    }
}

impl<A: Render, B: Render, C: Render> Render for (A, B, C) {
    /// The elements' texts, in declared order.
    open spec fn text(&self) -> Seq<u8> {
        self.0.text() + self.1.text() + self.2.text()
    }

    open spec fn succeeds(&self) -> bool {
        self.0.succeeds() && self.1.succeeds() && self.2.succeeds()
    }

    open spec fn sink_only(&self) -> bool {
        self.0.sink_only() && self.1.sink_only() && self.2.sink_only()
    }

    open spec fn fixed(&self) -> bool {
        self.0.fixed() && self.1.fixed() && self.2.fixed()
    }

    open spec fn writes_made(&self) -> nat {
        self.0.writes_made() + self.1.writes_made() + self.2.writes_made()
    }

    fn render<W: Sink>(self, writer: &mut W) -> (r: Result<(), RenderError>) {
        let ghost before = writer.written();
        let ghost fx = self.fixed();
        let ghost t0 = self.0.text();
        let ghost t1 = self.1.text();
        let ghost t2 = self.2.text();
        let (e0, e1, e2) = self;
        match e0.render(writer) {
            Ok(()) => {},
            Err(e) => {
                proof {
                    if fx {
                        lemma_prefix_grow(before, writer.written(), t0, t1);
                        lemma_prefix_grow(before, writer.written(), t0 + t1, t2);
                    }
                }
                return Err(e);
            },
        }
        assert(fx ==> writer.written() =~= before + t0);
        let ghost mid = writer.written();
        match e1.render(writer) {
            Ok(()) => {},
            Err(e) => {
                proof {
                    if fx {
                        lemma_prefix_after(before, mid, writer.written(), t0, t1);
                        lemma_prefix_grow(before, writer.written(), t0 + t1, t2);
                    }
                }
                return Err(e);
            },
        }
        assert(fx ==> writer.written() =~= before + (t0 + t1));
        let ghost mid = writer.written();
        match e2.render(writer) {
            Ok(()) => {},
            Err(e) => {
                proof {
                    if fx {
                        lemma_prefix_after(before, mid, writer.written(), t0 + t1, t2);
                    }
                }
                return Err(e);
            },
        }
        assert(fx ==> writer.written() =~= before + (t0 + t1 + t2));
        Ok(())
    }
}

impl<A: Render, B: Render, C: Render, D: Render> Render for (A, B, C, D) {
    /// The elements' texts, in declared order.
    open spec fn text(&self) -> Seq<u8> {
        self.0.text() + self.1.text() + self.2.text() + self.3.text()
    }

    open spec fn succeeds(&self) -> bool {
        self.0.succeeds() && self.1.succeeds() && self.2.succeeds() && self.3.succeeds()
    }

    open spec fn sink_only(&self) -> bool {
        self.0.sink_only() && self.1.sink_only() && self.2.sink_only() && self.3.sink_only()
    }

    open spec fn fixed(&self) -> bool {
        self.0.fixed() && self.1.fixed() && self.2.fixed() && self.3.fixed()
    }

    open spec fn writes_made(&self) -> nat {
        self.0.writes_made() + self.1.writes_made() + self.2.writes_made() + self.3.writes_made()
    }

    fn render<W: Sink>(self, writer: &mut W) -> (r: Result<(), RenderError>) {
        let ghost before = writer.written();
        let ghost fx = self.fixed();
        let ghost t0 = self.0.text();
        let ghost t1 = self.1.text();
        let ghost t2 = self.2.text();
        let ghost t3 = self.3.text();
        let (e0, e1, e2, e3) = self;
        match e0.render(writer) {
            Ok(()) => {},
            Err(e) => {
                proof {
                    if fx {
                        lemma_prefix_grow(before, writer.written(), t0, t1);
                        lemma_prefix_grow(before, writer.written(), t0 + t1, t2);
                        lemma_prefix_grow(before, writer.written(), t0 + t1 + t2, t3);
                    }
                }
                return Err(e);
            },
        }
        assert(fx ==> writer.written() =~= before + t0);
        let ghost mid = writer.written();
        match e1.render(writer) {
            Ok(()) => {},
            Err(e) => {
                proof {
                    if fx {
                        lemma_prefix_after(before, mid, writer.written(), t0, t1);
                        lemma_prefix_grow(before, writer.written(), t0 + t1, t2);
                        lemma_prefix_grow(before, writer.written(), t0 + t1 + t2, t3);
                    }
                }
                return Err(e);
            },
        }
        assert(fx ==> writer.written() =~= before + (t0 + t1));
        let ghost mid = writer.written();
        match e2.render(writer) {
            Ok(()) => {},
            Err(e) => {
                proof {
                    if fx {
                        lemma_prefix_after(before, mid, writer.written(), t0 + t1, t2);
                        lemma_prefix_grow(before, writer.written(), t0 + t1 + t2, t3);
                    }
                }
                return Err(e);
            },
        }
        assert(fx ==> writer.written() =~= before + (t0 + t1 + t2));
        let ghost mid = writer.written();
        match e3.render(writer) {
            Ok(()) => {},
            Err(e) => {
                proof {
                    if fx {
                        lemma_prefix_after(before, mid, writer.written(), t0 + t1 + t2, t3);
                    }
                }
                return Err(e);
            },
        }
        assert(fx ==> writer.written() =~= before + (t0 + t1 + t2 + t3));
        Ok(())
    }
}

impl<A: Render, B: Render, C: Render, D: Render, E: Render> Render for (A, B, C, D, E) {
    /// The elements' texts, in declared order.
    open spec fn text(&self) -> Seq<u8> {
        self.0.text() + self.1.text() + self.2.text() + self.3.text() + self.4.text()
    }

    open spec fn succeeds(&self) -> bool {
        self.0.succeeds() && self.1.succeeds() && self.2.succeeds() && self.3.succeeds() && self.4.succeeds()
    }

    open spec fn sink_only(&self) -> bool {
        self.0.sink_only() && self.1.sink_only() && self.2.sink_only() && self.3.sink_only() && self.4.sink_only()
    }

    open spec fn fixed(&self) -> bool {
        self.0.fixed() && self.1.fixed() && self.2.fixed() && self.3.fixed() && self.4.fixed()
    }

    open spec fn writes_made(&self) -> nat {
        self.0.writes_made() + self.1.writes_made() + self.2.writes_made() + self.3.writes_made() + self.4.writes_made()
    }

    fn render<W: Sink>(self, writer: &mut W) -> (r: Result<(), RenderError>) {
        let ghost before = writer.written();
        let ghost fx = self.fixed();
        let ghost t0 = self.0.text();
        let ghost t1 = self.1.text();
        let ghost t2 = self.2.text();
        let ghost t3 = self.3.text();
        let ghost t4 = self.4.text();
        let (e0, e1, e2, e3, e4) = self;
        match e0.render(writer) {
            Ok(()) => {},
            Err(e) => {
                proof {
                    if fx {
                        lemma_prefix_grow(before, writer.written(), t0, t1);
                        lemma_prefix_grow(before, writer.written(), t0 + t1, t2);
                        lemma_prefix_grow(before, writer.written(), t0 + t1 + t2, t3);
                        lemma_prefix_grow(before, writer.written(), t0 + t1 + t2 + t3, t4);
                    }
                }
                return Err(e);
            },
        }
        assert(fx ==> writer.written() =~= before + t0);
        let ghost mid = writer.written();
        match e1.render(writer) {
            Ok(()) => {},
            Err(e) => {
                proof {
                    if fx {
                        lemma_prefix_after(before, mid, writer.written(), t0, t1);
                        lemma_prefix_grow(before, writer.written(), t0 + t1, t2);
                        lemma_prefix_grow(before, writer.written(), t0 + t1 + t2, t3);
                        lemma_prefix_grow(before, writer.written(), t0 + t1 + t2 + t3, t4);
                    }
                }
                return Err(e);
            },
        }
        assert(fx ==> writer.written() =~= before + (t0 + t1));
        let ghost mid = writer.written();
        match e2.render(writer) {
            Ok(()) => {},
            Err(e) => {
                proof {
                    if fx {
                        lemma_prefix_after(before, mid, writer.written(), t0 + t1, t2);
                        lemma_prefix_grow(before, writer.written(), t0 + t1 + t2, t3);
                        lemma_prefix_grow(before, writer.written(), t0 + t1 + t2 + t3, t4);
                    }
                }
                return Err(e);
            },
        }
        assert(fx ==> writer.written() =~= before + (t0 + t1 + t2));
        let ghost mid = writer.written();
        match e3.render(writer) {
            Ok(()) => {},
            Err(e) => {
                proof {
                    if fx {
                        lemma_prefix_after(before, mid, writer.written(), t0 + t1 + t2, t3);
                        lemma_prefix_grow(before, writer.written(), t0 + t1 + t2 + t3, t4);
                    }
                }
                return Err(e);
            },
        }
        assert(fx ==> writer.written() =~= before + (t0 + t1 + t2 + t3));
        let ghost mid = writer.written();
        match e4.render(writer) {
            Ok(()) => {},
            Err(e) => {
                proof {
                    if fx {
                        lemma_prefix_after(before, mid, writer.written(), t0 + t1 + t2 + t3, t4);
                    }
                }
                return Err(e);
            },
        }
        assert(fx ==> writer.written() =~= before + (t0 + t1 + t2 + t3 + t4));
        Ok(())
    }
}

impl<A: Render, B: Render, C: Render, D: Render, E: Render, F: Render> Render for (A, B, C, D, E, F) {
    /// The elements' texts, in declared order.
    open spec fn text(&self) -> Seq<u8> {
        self.0.text() + self.1.text() + self.2.text() + self.3.text() + self.4.text() + self.5.text()
    }

    open spec fn succeeds(&self) -> bool {
        self.0.succeeds() && self.1.succeeds() && self.2.succeeds() && self.3.succeeds() && self.4.succeeds() && self.5.succeeds()
    }

    open spec fn sink_only(&self) -> bool {
        self.0.sink_only() && self.1.sink_only() && self.2.sink_only() && self.3.sink_only() && self.4.sink_only() && self.5.sink_only()
    }

    open spec fn fixed(&self) -> bool {
        self.0.fixed() && self.1.fixed() && self.2.fixed() && self.3.fixed() && self.4.fixed() && self.5.fixed()
    }

    open spec fn writes_made(&self) -> nat {
        self.0.writes_made() + self.1.writes_made() + self.2.writes_made() + self.3.writes_made() + self.4.writes_made() + self.5.writes_made()
    }

    fn render<W: Sink>(self, writer: &mut W) -> (r: Result<(), RenderError>) {
        let ghost before = writer.written();
        let ghost fx = self.fixed();
        let ghost t0 = self.0.text();
        let ghost t1 = self.1.text();
        let ghost t2 = self.2.text();
        let ghost t3 = self.3.text();
        let ghost t4 = self.4.text();
        let ghost t5 = self.5.text();
        let (e0, e1, e2, e3, e4, e5) = self;
        match e0.render(writer) {
            Ok(()) => {},
            Err(e) => {
                proof {
                    if fx {
                        lemma_prefix_grow(before, writer.written(), t0, t1);
                        lemma_prefix_grow(before, writer.written(), t0 + t1, t2);
                        lemma_prefix_grow(before, writer.written(), t0 + t1 + t2, t3);
                        lemma_prefix_grow(before, writer.written(), t0 + t1 + t2 + t3, t4);
                        lemma_prefix_grow(before, writer.written(), t0 + t1 + t2 + t3 + t4, t5);
                    }
                }
                return Err(e);
            },
        }
        assert(fx ==> writer.written() =~= before + t0);
        let ghost mid = writer.written();
        match e1.render(writer) {
            Ok(()) => {},
            Err(e) => {
                proof {
                    if fx {
                        lemma_prefix_after(before, mid, writer.written(), t0, t1);
                        lemma_prefix_grow(before, writer.written(), t0 + t1, t2);
                        lemma_prefix_grow(before, writer.written(), t0 + t1 + t2, t3);
                        lemma_prefix_grow(before, writer.written(), t0 + t1 + t2 + t3, t4);
                        lemma_prefix_grow(before, writer.written(), t0 + t1 + t2 + t3 + t4, t5);
                    }
                }
                return Err(e);
            },
        }
        assert(fx ==> writer.written() =~= before + (t0 + t1));
        let ghost mid = writer.written();
        match e2.render(writer) {
            Ok(()) => {},
            Err(e) => {
                proof {
                    if fx {
                        lemma_prefix_after(before, mid, writer.written(), t0 + t1, t2);
                        lemma_prefix_grow(before, writer.written(), t0 + t1 + t2, t3);
                        lemma_prefix_grow(before, writer.written(), t0 + t1 + t2 + t3, t4);
                        lemma_prefix_grow(before, writer.written(), t0 + t1 + t2 + t3 + t4, t5);
                    }
                }
                return Err(e);
            },
        }
        assert(fx ==> writer.written() =~= before + (t0 + t1 + t2));
        let ghost mid = writer.written();
        match e3.render(writer) {
            Ok(()) => {},
            Err(e) => {
                proof {
                    if fx {
                        lemma_prefix_after(before, mid, writer.written(), t0 + t1 + t2, t3);
                        lemma_prefix_grow(before, writer.written(), t0 + t1 + t2 + t3, t4);
                        lemma_prefix_grow(before, writer.written(), t0 + t1 + t2 + t3 + t4, t5);
                    }
                }
                return Err(e);
            },
        }
        assert(fx ==> writer.written() =~= before + (t0 + t1 + t2 + t3));
        let ghost mid = writer.written();
        match e4.render(writer) {
            Ok(()) => {},
            Err(e) => {
                proof {
                    if fx {
                        lemma_prefix_after(before, mid, writer.written(), t0 + t1 + t2 + t3, t4);
                        lemma_prefix_grow(before, writer.written(), t0 + t1 + t2 + t3 + t4, t5);
                    }
                }
                return Err(e);
            },
        }
        assert(fx ==> writer.written() =~= before + (t0 + t1 + t2 + t3 + t4));
        let ghost mid = writer.written();
        match e5.render(writer) {
            Ok(()) => {},
            Err(e) => {
                proof {
                    if fx {
                        lemma_prefix_after(before, mid, writer.written(), t0 + t1 + t2 + t3 + t4, t5);
                    }
                }
                return Err(e);
            },
        }
        assert(fx ==> writer.written() =~= before + (t0 + t1 + t2 + t3 + t4 + t5));
        Ok(())
    }
}

impl<A: Render, B: Render, C: Render, D: Render, E: Render, F: Render, G: Render> Render for (A, B, C, D, E, F, G) {
    /// The elements' texts, in declared order.
    open spec fn text(&self) -> Seq<u8> {
        self.0.text() + self.1.text() + self.2.text() + self.3.text() + self.4.text() + self.5.text() + self.6.text()
    }

    open spec fn succeeds(&self) -> bool {
        self.0.succeeds() && self.1.succeeds() && self.2.succeeds() && self.3.succeeds() && self.4.succeeds() && self.5.succeeds() && self.6.succeeds()
    }

    open spec fn sink_only(&self) -> bool {
        self.0.sink_only() && self.1.sink_only() && self.2.sink_only() && self.3.sink_only() && self.4.sink_only() && self.5.sink_only() && self.6.sink_only()
    }

    open spec fn fixed(&self) -> bool {
        self.0.fixed() && self.1.fixed() && self.2.fixed() && self.3.fixed() && self.4.fixed() && self.5.fixed() && self.6.fixed()
    }

    open spec fn writes_made(&self) -> nat {
        self.0.writes_made() + self.1.writes_made() + self.2.writes_made() + self.3.writes_made() + self.4.writes_made() + self.5.writes_made() + self.6.writes_made()
    }

    fn render<W: Sink>(self, writer: &mut W) -> (r: Result<(), RenderError>) {
        let ghost before = writer.written();
        let ghost fx = self.fixed();
        let ghost t0 = self.0.text();
        let ghost t1 = self.1.text();
        let ghost t2 = self.2.text();
        let ghost t3 = self.3.text();
        let ghost t4 = self.4.text();
        let ghost t5 = self.5.text();
        let ghost t6 = self.6.text();
        let (e0, e1, e2, e3, e4, e5, e6) = self;
        match e0.render(writer) {
            Ok(()) => {},
            Err(e) => {
                proof {
                    if fx {
                        lemma_prefix_grow(before, writer.written(), t0, t1);
                        lemma_prefix_grow(before, writer.written(), t0 + t1, t2);
                        lemma_prefix_grow(before, writer.written(), t0 + t1 + t2, t3);
                        lemma_prefix_grow(before, writer.written(), t0 + t1 + t2 + t3, t4);
                        lemma_prefix_grow(before, writer.written(), t0 + t1 + t2 + t3 + t4, t5);
                        lemma_prefix_grow(before, writer.written(), t0 + t1 + t2 + t3 + t4 + t5, t6);
                    }
                }
                return Err(e);
            },
        }
        assert(fx ==> writer.written() =~= before + t0);
        let ghost mid = writer.written();
        match e1.render(writer) {
            Ok(()) => {},
            Err(e) => {
                proof {
                    if fx {
                        lemma_prefix_after(before, mid, writer.written(), t0, t1);
                        lemma_prefix_grow(before, writer.written(), t0 + t1, t2);
                        lemma_prefix_grow(before, writer.written(), t0 + t1 + t2, t3);
                        lemma_prefix_grow(before, writer.written(), t0 + t1 + t2 + t3, t4);
                        lemma_prefix_grow(before, writer.written(), t0 + t1 + t2 + t3 + t4, t5);
                        lemma_prefix_grow(before, writer.written(), t0 + t1 + t2 + t3 + t4 + t5, t6);
                    }
                }
                return Err(e);
            },
        }
        assert(fx ==> writer.written() =~= before + (t0 + t1));
        let ghost mid = writer.written();
        match e2.render(writer) {
            Ok(()) => {},
            Err(e) => {
                proof {
                    if fx {
                        lemma_prefix_after(before, mid, writer.written(), t0 + t1, t2);
                        lemma_prefix_grow(before, writer.written(), t0 + t1 + t2, t3);
                        lemma_prefix_grow(before, writer.written(), t0 + t1 + t2 + t3, t4);
                        lemma_prefix_grow(before, writer.written(), t0 + t1 + t2 + t3 + t4, t5);
                        lemma_prefix_grow(before, writer.written(), t0 + t1 + t2 + t3 + t4 + t5, t6);
                    }
                }
                return Err(e);
            },
        }
        assert(fx ==> writer.written() =~= before + (t0 + t1 + t2));
        let ghost mid = writer.written();
        match e3.render(writer) {
            Ok(()) => {},
            Err(e) => {
                proof {
                    if fx {
                        lemma_prefix_after(before, mid, writer.written(), t0 + t1 + t2, t3);
                        lemma_prefix_grow(before, writer.written(), t0 + t1 + t2 + t3, t4);
                        lemma_prefix_grow(before, writer.written(), t0 + t1 + t2 + t3 + t4, t5);
                        lemma_prefix_grow(before, writer.written(), t0 + t1 + t2 + t3 + t4 + t5, t6);
                    }
                }
                return Err(e);
            },
        }
        assert(fx ==> writer.written() =~= before + (t0 + t1 + t2 + t3));
        let ghost mid = writer.written();
        match e4.render(writer) {
            Ok(()) => {},
            Err(e) => {
                proof {
                    if fx {
                        lemma_prefix_after(before, mid, writer.written(), t0 + t1 + t2 + t3, t4);
                        lemma_prefix_grow(before, writer.written(), t0 + t1 + t2 + t3 + t4, t5);
                        lemma_prefix_grow(before, writer.written(), t0 + t1 + t2 + t3 + t4 + t5, t6);
                    }
                }
                return Err(e);
            },
        }
        assert(fx ==> writer.written() =~= before + (t0 + t1 + t2 + t3 + t4));
        let ghost mid = writer.written();
        match e5.render(writer) {
            Ok(()) => {},
            Err(e) => {
                proof {
                    if fx {
                        lemma_prefix_after(before, mid, writer.written(), t0 + t1 + t2 + t3 + t4, t5);
                        lemma_prefix_grow(before, writer.written(), t0 + t1 + t2 + t3 + t4 + t5, t6);
                    }
                }
                return Err(e);
            },
        }
        assert(fx ==> writer.written() =~= before + (t0 + t1 + t2 + t3 + t4 + t5));
        let ghost mid = writer.written();
        match e6.render(writer) {
            Ok(()) => {},
            Err(e) => {
                proof {
                    if fx {
                        lemma_prefix_after(before, mid, writer.written(), t0 + t1 + t2 + t3 + t4 + t5, t6);
                    }
                }
                return Err(e);
            },
        }
        assert(fx ==> writer.written() =~= before + (t0 + t1 + t2 + t3 + t4 + t5 + t6));
        Ok(())
    }
}

impl<A: Render, B: Render, C: Render, D: Render, E: Render, F: Render, G: Render, H: Render> Render for (A, B, C, D, E, F, G, H) {
    /// The elements' texts, in declared order.
    open spec fn text(&self) -> Seq<u8> {
        self.0.text() + self.1.text() + self.2.text() + self.3.text() + self.4.text() + self.5.text() + self.6.text() + self.7.text()
    }

    open spec fn succeeds(&self) -> bool {
        self.0.succeeds() && self.1.succeeds() && self.2.succeeds() && self.3.succeeds() && self.4.succeeds() && self.5.succeeds() && self.6.succeeds() && self.7.succeeds()
    }

    open spec fn sink_only(&self) -> bool {
        self.0.sink_only() && self.1.sink_only() && self.2.sink_only() && self.3.sink_only() && self.4.sink_only() && self.5.sink_only() && self.6.sink_only() && self.7.sink_only()
    }

    open spec fn fixed(&self) -> bool {
        self.0.fixed() && self.1.fixed() && self.2.fixed() && self.3.fixed() && self.4.fixed() && self.5.fixed() && self.6.fixed() && self.7.fixed()
    }

    open spec fn writes_made(&self) -> nat {
        self.0.writes_made() + self.1.writes_made() + self.2.writes_made() + self.3.writes_made() + self.4.writes_made() + self.5.writes_made() + self.6.writes_made() + self.7.writes_made()
    }

    fn render<W: Sink>(self, writer: &mut W) -> (r: Result<(), RenderError>) {
        let ghost before = writer.written();
        let ghost fx = self.fixed();
        let ghost t0 = self.0.text();
        let ghost t1 = self.1.text();
        let ghost t2 = self.2.text();
        let ghost t3 = self.3.text();
        let ghost t4 = self.4.text();
        let ghost t5 = self.5.text();
        let ghost t6 = self.6.text();
        let ghost t7 = self.7.text();
        let (e0, e1, e2, e3, e4, e5, e6, e7) = self;
        match e0.render(writer) {
            Ok(()) => {},
            Err(e) => {
                proof {
                    if fx {
                        lemma_prefix_grow(before, writer.written(), t0, t1);
                        lemma_prefix_grow(before, writer.written(), t0 + t1, t2);
                        lemma_prefix_grow(before, writer.written(), t0 + t1 + t2, t3);
                        lemma_prefix_grow(before, writer.written(), t0 + t1 + t2 + t3, t4);
                        lemma_prefix_grow(before, writer.written(), t0 + t1 + t2 + t3 + t4, t5);
                        lemma_prefix_grow(before, writer.written(), t0 + t1 + t2 + t3 + t4 + t5, t6);
                        lemma_prefix_grow(before, writer.written(), t0 + t1 + t2 + t3 + t4 + t5 + t6, t7);
                    }
                }
                return Err(e);
            },
        }
        assert(fx ==> writer.written() =~= before + t0);
        let ghost mid = writer.written();
        match e1.render(writer) {
            Ok(()) => {},
            Err(e) => {
                proof {
                    if fx {
                        lemma_prefix_after(before, mid, writer.written(), t0, t1);
                        lemma_prefix_grow(before, writer.written(), t0 + t1, t2);
                        lemma_prefix_grow(before, writer.written(), t0 + t1 + t2, t3);
                        lemma_prefix_grow(before, writer.written(), t0 + t1 + t2 + t3, t4);
                        lemma_prefix_grow(before, writer.written(), t0 + t1 + t2 + t3 + t4, t5);
                        lemma_prefix_grow(before, writer.written(), t0 + t1 + t2 + t3 + t4 + t5, t6);
                        lemma_prefix_grow(before, writer.written(), t0 + t1 + t2 + t3 + t4 + t5 + t6, t7);
                    }
                }
                return Err(e);
            },
        }
        assert(fx ==> writer.written() =~= before + (t0 + t1));
        let ghost mid = writer.written();
        match e2.render(writer) {
            Ok(()) => {},
            Err(e) => {
                proof {
                    if fx {
                        lemma_prefix_after(before, mid, writer.written(), t0 + t1, t2);
                        lemma_prefix_grow(before, writer.written(), t0 + t1 + t2, t3);
                        lemma_prefix_grow(before, writer.written(), t0 + t1 + t2 + t3, t4);
                        lemma_prefix_grow(before, writer.written(), t0 + t1 + t2 + t3 + t4, t5);
                        lemma_prefix_grow(before, writer.written(), t0 + t1 + t2 + t3 + t4 + t5, t6);
                        lemma_prefix_grow(before, writer.written(), t0 + t1 + t2 + t3 + t4 + t5 + t6, t7);
                    }
                }
                return Err(e);
            },
        }
        assert(fx ==> writer.written() =~= before + (t0 + t1 + t2));
        let ghost mid = writer.written();
        match e3.render(writer) {
            Ok(()) => {},
            Err(e) => {
                proof {
                    if fx {
                        lemma_prefix_after(before, mid, writer.written(), t0 + t1 + t2, t3);
                        lemma_prefix_grow(before, writer.written(), t0 + t1 + t2 + t3, t4);
                        lemma_prefix_grow(before, writer.written(), t0 + t1 + t2 + t3 + t4, t5);
                        lemma_prefix_grow(before, writer.written(), t0 + t1 + t2 + t3 + t4 + t5, t6);
                        lemma_prefix_grow(before, writer.written(), t0 + t1 + t2 + t3 + t4 + t5 + t6, t7);
                    }
                }
                return Err(e);
            },
        }
        assert(fx ==> writer.written() =~= before + (t0 + t1 + t2 + t3));
        let ghost mid = writer.written();
        match e4.render(writer) {
            Ok(()) => {},
            Err(e) => {
                proof {
                    if fx {
                        lemma_prefix_after(before, mid, writer.written(), t0 + t1 + t2 + t3, t4);
                        lemma_prefix_grow(before, writer.written(), t0 + t1 + t2 + t3 + t4, t5);
                        lemma_prefix_grow(before, writer.written(), t0 + t1 + t2 + t3 + t4 + t5, t6);
                        lemma_prefix_grow(before, writer.written(), t0 + t1 + t2 + t3 + t4 + t5 + t6, t7);
                    }
                }
                return Err(e);
            },
        }
        assert(fx ==> writer.written() =~= before + (t0 + t1 + t2 + t3 + t4));
        let ghost mid = writer.written();
        match e5.render(writer) {
            Ok(()) => {},
            Err(e) => {
                proof {
                    if fx {
                        lemma_prefix_after(before, mid, writer.written(), t0 + t1 + t2 + t3 + t4, t5);
                        lemma_prefix_grow(before, writer.written(), t0 + t1 + t2 + t3 + t4 + t5, t6);
                        lemma_prefix_grow(before, writer.written(), t0 + t1 + t2 + t3 + t4 + t5 + t6, t7);
                    }
                }
                return Err(e);
            },
        }
        assert(fx ==> writer.written() =~= before + (t0 + t1 + t2 + t3 + t4 + t5));
        let ghost mid = writer.written();
        match e6.render(writer) {
            Ok(()) => {},
            Err(e) => {
                proof {
                    if fx {
                        lemma_prefix_after(before, mid, writer.written(), t0 + t1 + t2 + t3 + t4 + t5, t6);
                        lemma_prefix_grow(before, writer.written(), t0 + t1 + t2 + t3 + t4 + t5 + t6, t7);
                    }
                }
                return Err(e);
            },
        }
        assert(fx ==> writer.written() =~= before + (t0 + t1 + t2 + t3 + t4 + t5 + t6));
        let ghost mid = writer.written();
        match e7.render(writer) {
            Ok(()) => {},
            Err(e) => {
                proof {
                    if fx {
                        lemma_prefix_after(before, mid, writer.written(), t0 + t1 + t2 + t3 + t4 + t5 + t6, t7);
                    }
                }
                return Err(e);
            },
        }
        assert(fx ==> writer.written() =~= before + (t0 + t1 + t2 + t3 + t4 + t5 + t6 + t7));
        Ok(())
    }
}

impl<A: Render, B: Render, C: Render, D: Render, E: Render, F: Render, G: Render, H: Render, I: Render> Render for (A, B, C, D, E, F, G, H, I) {
    /// The elements' texts, in declared order.
    open spec fn text(&self) -> Seq<u8> {
        self.0.text() + self.1.text() + self.2.text() + self.3.text() + self.4.text() + self.5.text() + self.6.text() + self.7.text() + self.8.text()
    }

    open spec fn succeeds(&self) -> bool {
        self.0.succeeds() && self.1.succeeds() && self.2.succeeds() && self.3.succeeds() && self.4.succeeds() && self.5.succeeds() && self.6.succeeds() && self.7.succeeds() && self.8.succeeds()
    }

    open spec fn sink_only(&self) -> bool {
        self.0.sink_only() && self.1.sink_only() && self.2.sink_only() && self.3.sink_only() && self.4.sink_only() && self.5.sink_only() && self.6.sink_only() && self.7.sink_only() && self.8.sink_only()
    }

    open spec fn fixed(&self) -> bool {
        self.0.fixed() && self.1.fixed() && self.2.fixed() && self.3.fixed() && self.4.fixed() && self.5.fixed() && self.6.fixed() && self.7.fixed() && self.8.fixed()
    }

    open spec fn writes_made(&self) -> nat {
        self.0.writes_made() + self.1.writes_made() + self.2.writes_made() + self.3.writes_made() + self.4.writes_made() + self.5.writes_made() + self.6.writes_made() + self.7.writes_made() + self.8.writes_made()
    }

    fn render<W: Sink>(self, writer: &mut W) -> (r: Result<(), RenderError>) {
        let ghost before = writer.written();
        let ghost fx = self.fixed();
        let ghost t0 = self.0.text();
        let ghost t1 = self.1.text();
        let ghost t2 = self.2.text();
        let ghost t3 = self.3.text();
        let ghost t4 = self.4.text();
        let ghost t5 = self.5.text();
        let ghost t6 = self.6.text();
        let ghost t7 = self.7.text();
        let ghost t8 = self.8.text();
        let (e0, e1, e2, e3, e4, e5, e6, e7, e8) = self;
        match e0.render(writer) {
            Ok(()) => {},
            Err(e) => {
                proof {
                    if fx {
                        lemma_prefix_grow(before, writer.written(), t0, t1);
                        lemma_prefix_grow(before, writer.written(), t0 + t1, t2);
                        lemma_prefix_grow(before, writer.written(), t0 + t1 + t2, t3);
                        lemma_prefix_grow(before, writer.written(), t0 + t1 + t2 + t3, t4);
                        lemma_prefix_grow(before, writer.written(), t0 + t1 + t2 + t3 + t4, t5);
                        lemma_prefix_grow(before, writer.written(), t0 + t1 + t2 + t3 + t4 + t5, t6);
                        lemma_prefix_grow(before, writer.written(), t0 + t1 + t2 + t3 + t4 + t5 + t6, t7);
                        lemma_prefix_grow(before, writer.written(), t0 + t1 + t2 + t3 + t4 + t5 + t6 + t7, t8);
                    }
                }
                return Err(e);
            },
        }
        assert(fx ==> writer.written() =~= before + t0);
        let ghost mid = writer.written();
        match e1.render(writer) {
            Ok(()) => {},
            Err(e) => {
                proof {
                    if fx {
                        lemma_prefix_after(before, mid, writer.written(), t0, t1);
                        lemma_prefix_grow(before, writer.written(), t0 + t1, t2);
                        lemma_prefix_grow(before, writer.written(), t0 + t1 + t2, t3);
                        lemma_prefix_grow(before, writer.written(), t0 + t1 + t2 + t3, t4);
                        lemma_prefix_grow(before, writer.written(), t0 + t1 + t2 + t3 + t4, t5);
                        lemma_prefix_grow(before, writer.written(), t0 + t1 + t2 + t3 + t4 + t5, t6);
                        lemma_prefix_grow(before, writer.written(), t0 + t1 + t2 + t3 + t4 + t5 + t6, t7);
                        lemma_prefix_grow(before, writer.written(), t0 + t1 + t2 + t3 + t4 + t5 + t6 + t7, t8);
                    }
                }
                return Err(e);
            },
        }
        assert(fx ==> writer.written() =~= before + (t0 + t1));
        let ghost mid = writer.written();
        match e2.render(writer) {
            Ok(()) => {},
            Err(e) => {
                proof {
                    if fx {
                        lemma_prefix_after(before, mid, writer.written(), t0 + t1, t2);
                        lemma_prefix_grow(before, writer.written(), t0 + t1 + t2, t3);
                        lemma_prefix_grow(before, writer.written(), t0 + t1 + t2 + t3, t4);
                        lemma_prefix_grow(before, writer.written(), t0 + t1 + t2 + t3 + t4, t5);
                        lemma_prefix_grow(before, writer.written(), t0 + t1 + t2 + t3 + t4 + t5, t6);
                        lemma_prefix_grow(before, writer.written(), t0 + t1 + t2 + t3 + t4 + t5 + t6, t7);
                        lemma_prefix_grow(before, writer.written(), t0 + t1 + t2 + t3 + t4 + t5 + t6 + t7, t8);
                    }
                }
                return Err(e);
            },
        }
        assert(fx ==> writer.written() =~= before + (t0 + t1 + t2));
        let ghost mid = writer.written();
        match e3.render(writer) {
            Ok(()) => {},
            Err(e) => {
                proof {
                    if fx {
                        lemma_prefix_after(before, mid, writer.written(), t0 + t1 + t2, t3);
                        lemma_prefix_grow(before, writer.written(), t0 + t1 + t2 + t3, t4);
                        lemma_prefix_grow(before, writer.written(), t0 + t1 + t2 + t3 + t4, t5);
                        lemma_prefix_grow(before, writer.written(), t0 + t1 + t2 + t3 + t4 + t5, t6);
                        lemma_prefix_grow(before, writer.written(), t0 + t1 + t2 + t3 + t4 + t5 + t6, t7);
                        lemma_prefix_grow(before, writer.written(), t0 + t1 + t2 + t3 + t4 + t5 + t6 + t7, t8);
                    }
                }
                return Err(e);
            },
        }
        assert(fx ==> writer.written() =~= before + (t0 + t1 + t2 + t3));
        let ghost mid = writer.written();
        match e4.render(writer) {
            Ok(()) => {},
            Err(e) => {
                proof {
                    if fx {
                        lemma_prefix_after(before, mid, writer.written(), t0 + t1 + t2 + t3, t4);
                        lemma_prefix_grow(before, writer.written(), t0 + t1 + t2 + t3 + t4, t5);
                        lemma_prefix_grow(before, writer.written(), t0 + t1 + t2 + t3 + t4 + t5, t6);
                        lemma_prefix_grow(before, writer.written(), t0 + t1 + t2 + t3 + t4 + t5 + t6, t7);
                        lemma_prefix_grow(before, writer.written(), t0 + t1 + t2 + t3 + t4 + t5 + t6 + t7, t8);
                    }
                }
                return Err(e);
            },
        }
        assert(fx ==> writer.written() =~= before + (t0 + t1 + t2 + t3 + t4));
        let ghost mid = writer.written();
        match e5.render(writer) {
            Ok(()) => {},
            Err(e) => {
                proof {
                    if fx {
                        lemma_prefix_after(before, mid, writer.written(), t0 + t1 + t2 + t3 + t4, t5);
                        lemma_prefix_grow(before, writer.written(), t0 + t1 + t2 + t3 + t4 + t5, t6);
                        lemma_prefix_grow(before, writer.written(), t0 + t1 + t2 + t3 + t4 + t5 + t6, t7);
                        lemma_prefix_grow(before, writer.written(), t0 + t1 + t2 + t3 + t4 + t5 + t6 + t7, t8);
                    }
                }
                return Err(e);
            },
        }
        assert(fx ==> writer.written() =~= before + (t0 + t1 + t2 + t3 + t4 + t5));
        let ghost mid = writer.written();
        match e6.render(writer) {
            Ok(()) => {},
            Err(e) => {
                proof {
                    if fx {
                        lemma_prefix_after(before, mid, writer.written(), t0 + t1 + t2 + t3 + t4 + t5, t6);
                        lemma_prefix_grow(before, writer.written(), t0 + t1 + t2 + t3 + t4 + t5 + t6, t7);
                        lemma_prefix_grow(before, writer.written(), t0 + t1 + t2 + t3 + t4 + t5 + t6 + t7, t8);
                    }
                }
                return Err(e);
            },
        }
        assert(fx ==> writer.written() =~= before + (t0 + t1 + t2 + t3 + t4 + t5 + t6));
        let ghost mid = writer.written();
        match e7.render(writer) {
            Ok(()) => {},
            Err(e) => {
                proof {
                    if fx {
                        lemma_prefix_after(before, mid, writer.written(), t0 + t1 + t2 + t3 + t4 + t5 + t6, t7);
                        lemma_prefix_grow(before, writer.written(), t0 + t1 + t2 + t3 + t4 + t5 + t6 + t7, t8);
                    }
                }
                return Err(e);
            },
        }
        assert(fx ==> writer.written() =~= before + (t0 + t1 + t2 + t3 + t4 + t5 + t6 + t7));
        let ghost mid = writer.written();
        match e8.render(writer) {
            Ok(()) => {},
            Err(e) => {
                proof {
                    if fx {
                        lemma_prefix_after(before, mid, writer.written(), t0 + t1 + t2 + t3 + t4 + t5 + t6 + t7, t8);
                    }
                }
                return Err(e);
            },
        }
        assert(fx ==> writer.written() =~= before + (t0 + t1 + t2 + t3 + t4 + t5 + t6 + t7 + t8));
        Ok(())
    }
}

impl<A: Render, B: Render, C: Render, D: Render, E: Render, F: Render, G: Render, H: Render, I: Render, J: Render> Render for (A, B, C, D, E, F, G, H, I, J) {
    /// The elements' texts, in declared order.
    open spec fn text(&self) -> Seq<u8> {
        self.0.text() + self.1.text() + self.2.text() + self.3.text() + self.4.text() + self.5.text() + self.6.text() + self.7.text() + self.8.text() + self.9.text()
    }

    open spec fn succeeds(&self) -> bool {
        self.0.succeeds() && self.1.succeeds() && self.2.succeeds() && self.3.succeeds() && self.4.succeeds() && self.5.succeeds() && self.6.succeeds() && self.7.succeeds() && self.8.succeeds() && self.9.succeeds()
    }

    open spec fn sink_only(&self) -> bool {
        self.0.sink_only() && self.1.sink_only() && self.2.sink_only() && self.3.sink_only() && self.4.sink_only() && self.5.sink_only() && self.6.sink_only() && self.7.sink_only() && self.8.sink_only() && self.9.sink_only()
    }

    open spec fn fixed(&self) -> bool {
        self.0.fixed() && self.1.fixed() && self.2.fixed() && self.3.fixed() && self.4.fixed() && self.5.fixed() && self.6.fixed() && self.7.fixed() && self.8.fixed() && self.9.fixed()
    }

    open spec fn writes_made(&self) -> nat {
        self.0.writes_made() + self.1.writes_made() + self.2.writes_made() + self.3.writes_made() + self.4.writes_made() + self.5.writes_made() + self.6.writes_made() + self.7.writes_made() + self.8.writes_made() + self.9.writes_made()
    }

    fn render<W: Sink>(self, writer: &mut W) -> (r: Result<(), RenderError>) {
        let ghost before = writer.written();
        let ghost fx = self.fixed();
        let ghost t0 = self.0.text();
        let ghost t1 = self.1.text();
        let ghost t2 = self.2.text();
        let ghost t3 = self.3.text();
        let ghost t4 = self.4.text();
        let ghost t5 = self.5.text();
        let ghost t6 = self.6.text();
        let ghost t7 = self.7.text();
        let ghost t8 = self.8.text();
        let ghost t9 = self.9.text();
        let (e0, e1, e2, e3, e4, e5, e6, e7, e8, e9) = self;
        match e0.render(writer) {
            Ok(()) => {},
            Err(e) => {
                proof {
                    if fx {
                        lemma_prefix_grow(before, writer.written(), t0, t1);
                        lemma_prefix_grow(before, writer.written(), t0 + t1, t2);
                        lemma_prefix_grow(before, writer.written(), t0 + t1 + t2, t3);
                        lemma_prefix_grow(before, writer.written(), t0 + t1 + t2 + t3, t4);
                        lemma_prefix_grow(before, writer.written(), t0 + t1 + t2 + t3 + t4, t5);
                        lemma_prefix_grow(before, writer.written(), t0 + t1 + t2 + t3 + t4 + t5, t6);
                        lemma_prefix_grow(before, writer.written(), t0 + t1 + t2 + t3 + t4 + t5 + t6, t7);
                        lemma_prefix_grow(before, writer.written(), t0 + t1 + t2 + t3 + t4 + t5 + t6 + t7, t8);
                        lemma_prefix_grow(before, writer.written(), t0 + t1 + t2 + t3 + t4 + t5 + t6 + t7 + t8, t9);
                    }
                }
                return Err(e);
            },
        }
        assert(fx ==> writer.written() =~= before + t0);
        let ghost mid = writer.written();
        match e1.render(writer) {
            Ok(()) => {},
            Err(e) => {
                proof {
                    if fx {
                        lemma_prefix_after(before, mid, writer.written(), t0, t1);
                        lemma_prefix_grow(before, writer.written(), t0 + t1, t2);
                        lemma_prefix_grow(before, writer.written(), t0 + t1 + t2, t3);
                        lemma_prefix_grow(before, writer.written(), t0 + t1 + t2 + t3, t4);
                        lemma_prefix_grow(before, writer.written(), t0 + t1 + t2 + t3 + t4, t5);
                        lemma_prefix_grow(before, writer.written(), t0 + t1 + t2 + t3 + t4 + t5, t6);
                        lemma_prefix_grow(before, writer.written(), t0 + t1 + t2 + t3 + t4 + t5 + t6, t7);
                        lemma_prefix_grow(before, writer.written(), t0 + t1 + t2 + t3 + t4 + t5 + t6 + t7, t8);
                        lemma_prefix_grow(before, writer.written(), t0 + t1 + t2 + t3 + t4 + t5 + t6 + t7 + t8, t9);
                    }
                }
                return Err(e);
            },
        }
        assert(fx ==> writer.written() =~= before + (t0 + t1));
        let ghost mid = writer.written();
        match e2.render(writer) {
            Ok(()) => {},
            Err(e) => {
                proof {
                    if fx {
                        lemma_prefix_after(before, mid, writer.written(), t0 + t1, t2);
                        lemma_prefix_grow(before, writer.written(), t0 + t1 + t2, t3);
                        lemma_prefix_grow(before, writer.written(), t0 + t1 + t2 + t3, t4);
                        lemma_prefix_grow(before, writer.written(), t0 + t1 + t2 + t3 + t4, t5);
                        lemma_prefix_grow(before, writer.written(), t0 + t1 + t2 + t3 + t4 + t5, t6);
                        lemma_prefix_grow(before, writer.written(), t0 + t1 + t2 + t3 + t4 + t5 + t6, t7);
                        lemma_prefix_grow(before, writer.written(), t0 + t1 + t2 + t3 + t4 + t5 + t6 + t7, t8);
                        lemma_prefix_grow(before, writer.written(), t0 + t1 + t2 + t3 + t4 + t5 + t6 + t7 + t8, t9);
                    }
                }
                return Err(e);
            },
        }
        assert(fx ==> writer.written() =~= before + (t0 + t1 + t2));
        let ghost mid = writer.written();
        match e3.render(writer) {
            Ok(()) => {},
            Err(e) => {
                proof {
                    if fx {
                        lemma_prefix_after(before, mid, writer.written(), t0 + t1 + t2, t3);
                        lemma_prefix_grow(before, writer.written(), t0 + t1 + t2 + t3, t4);
                        lemma_prefix_grow(before, writer.written(), t0 + t1 + t2 + t3 + t4, t5);
                        lemma_prefix_grow(before, writer.written(), t0 + t1 + t2 + t3 + t4 + t5, t6);
                        lemma_prefix_grow(before, writer.written(), t0 + t1 + t2 + t3 + t4 + t5 + t6, t7);
                        lemma_prefix_grow(before, writer.written(), t0 + t1 + t2 + t3 + t4 + t5 + t6 + t7, t8);
                        lemma_prefix_grow(before, writer.written(), t0 + t1 + t2 + t3 + t4 + t5 + t6 + t7 + t8, t9);
                    }
                }
                return Err(e);
            },
        }
        assert(fx ==> writer.written() =~= before + (t0 + t1 + t2 + t3));
        let ghost mid = writer.written();
        match e4.render(writer) {
            Ok(()) => {},
            Err(e) => {
                proof {
                    if fx {
                        lemma_prefix_after(before, mid, writer.written(), t0 + t1 + t2 + t3, t4);
                        lemma_prefix_grow(before, writer.written(), t0 + t1 + t2 + t3 + t4, t5);
                        lemma_prefix_grow(before, writer.written(), t0 + t1 + t2 + t3 + t4 + t5, t6);
                        lemma_prefix_grow(before, writer.written(), t0 + t1 + t2 + t3 + t4 + t5 + t6, t7);
                        lemma_prefix_grow(before, writer.written(), t0 + t1 + t2 + t3 + t4 + t5 + t6 + t7, t8);
                        lemma_prefix_grow(before, writer.written(), t0 + t1 + t2 + t3 + t4 + t5 + t6 + t7 + t8, t9);
                    }
                }
                return Err(e);
            },
        }
        assert(fx ==> writer.written() =~= before + (t0 + t1 + t2 + t3 + t4));
        let ghost mid = writer.written();
        match e5.render(writer) {
            Ok(()) => {},
            Err(e) => {
                proof {
                    if fx {
                        lemma_prefix_after(before, mid, writer.written(), t0 + t1 + t2 + t3 + t4, t5);
                        lemma_prefix_grow(before, writer.written(), t0 + t1 + t2 + t3 + t4 + t5, t6);
                        lemma_prefix_grow(before, writer.written(), t0 + t1 + t2 + t3 + t4 + t5 + t6, t7);
                        lemma_prefix_grow(before, writer.written(), t0 + t1 + t2 + t3 + t4 + t5 + t6 + t7, t8);
                        lemma_prefix_grow(before, writer.written(), t0 + t1 + t2 + t3 + t4 + t5 + t6 + t7 + t8, t9);
                    }
                }
                return Err(e);
            },
        }
        assert(fx ==> writer.written() =~= before + (t0 + t1 + t2 + t3 + t4 + t5));
        let ghost mid = writer.written();
        match e6.render(writer) {
            Ok(()) => {},
            Err(e) => {
                proof {
                    if fx {
                        lemma_prefix_after(before, mid, writer.written(), t0 + t1 + t2 + t3 + t4 + t5, t6);
                        lemma_prefix_grow(before, writer.written(), t0 + t1 + t2 + t3 + t4 + t5 + t6, t7);
                        lemma_prefix_grow(before, writer.written(), t0 + t1 + t2 + t3 + t4 + t5 + t6 + t7, t8);
                        lemma_prefix_grow(before, writer.written(), t0 + t1 + t2 + t3 + t4 + t5 + t6 + t7 + t8, t9);
                    }
                }
                return Err(e);
            },
        }
        assert(fx ==> writer.written() =~= before + (t0 + t1 + t2 + t3 + t4 + t5 + t6));
        let ghost mid = writer.written();
        match e7.render(writer) {
            Ok(()) => {},
            Err(e) => {
                proof {
                    if fx {
                        lemma_prefix_after(before, mid, writer.written(), t0 + t1 + t2 + t3 + t4 + t5 + t6, t7);
                        lemma_prefix_grow(before, writer.written(), t0 + t1 + t2 + t3 + t4 + t5 + t6 + t7, t8);
                        lemma_prefix_grow(before, writer.written(), t0 + t1 + t2 + t3 + t4 + t5 + t6 + t7 + t8, t9);
                    }
                }
                return Err(e);
            },
        }
        assert(fx ==> writer.written() =~= before + (t0 + t1 + t2 + t3 + t4 + t5 + t6 + t7));
        let ghost mid = writer.written();
        match e8.render(writer) {
            Ok(()) => {},
            Err(e) => {
                proof {
                    if fx {
                        lemma_prefix_after(before, mid, writer.written(), t0 + t1 + t2 + t3 + t4 + t5 + t6 + t7, t8);
                        lemma_prefix_grow(before, writer.written(), t0 + t1 + t2 + t3 + t4 + t5 + t6 + t7 + t8, t9);
                    }
                }
                return Err(e);
            },
        }
        assert(fx ==> writer.written() =~= before + (t0 + t1 + t2 + t3 + t4 + t5 + t6 + t7 + t8));
        let ghost mid = writer.written();
        match e9.render(writer) {
            Ok(()) => {},
            Err(e) => {
                proof {
                    if fx {
                        lemma_prefix_after(before, mid, writer.written(), t0 + t1 + t2 + t3 + t4 + t5 + t6 + t7 + t8, t9);
                    }
                }
                return Err(e);
            },
        }
        assert(fx ==> writer.written() =~= before + (t0 + t1 + t2 + t3 + t4 + t5 + t6 + t7 + t8 + t9));
        Ok(())
    }
}

} // verus!
