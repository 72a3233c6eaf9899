//! Content written verbatim, bypassing the escaper: the caller vouches that
//! it is already safe HTML.
use vstd::prelude::*;

use crate::error::RenderError;
use crate::render::{write_bytes, Render, RenderAttributeValue};
use crate::sink::Sink;
use vstd::string::to_string_from_display_ensures;
use vstd::utf8::encode_utf8;

verus! {

/// A value written in its displayed form, unescaped. It is formatted when
/// rendered.
pub struct Raw<T: std::fmt::Display> {
    value: T,
}

impl<T: std::fmt::Display> Raw<T> {
    /// The value held.
    pub closed spec fn value(&self) -> T {
        self.value
    }
}

/// Wraps `value` for verbatim output of its displayed form.
pub fn raw_disp<T: std::fmt::Display>(value: T) -> (r: Raw<T>)
    ensures
        r.value() == value,
{
    Raw { value }
}

impl<T: std::fmt::Display> Render for Raw<T> {
    /// The displayed form is known only once formatting runs.
    open spec fn text(&self) -> Seq<u8> {
        Seq::empty()
    }

    open spec fn fixed(&self) -> bool {
        false
    }

    /// The value is formatted once and its displayed form written in one
    /// write.
    fn render<W: Sink>(self, writer: &mut W) -> (r: Result<(), RenderError>)
        ensures
            exists|shown: String|
                to_string_from_display_ensures::<T>(&self.value(), shown) && (r is Ok
                    ==> final(writer).written() == old(writer).written() + encode_utf8(shown@)),
            r is Err ==> final(writer).written() == old(writer).written(),
    {
        let shown = self.value.to_string();
        let r = write_bytes(shown.as_str().as_bytes(), writer);
        assert(to_string_from_display_ensures::<T>(&self.value(), shown) && (r is Ok
            ==> writer.written() == old(writer).written() + encode_utf8(shown@)));
        r
    }
}

impl<T: std::fmt::Display> RenderAttributeValue for Raw<T> {
    fn is_none(&self) -> (r: bool) {
        false
    }

    fn is_true(&self) -> (r: bool) {
        false
    }

    fn is_false(&self) -> (r: bool) {
        false
    }
}

/// Bytes written exactly as they are.
pub struct RawBytes {
    bytes: Vec<u8>,
}

impl RawBytes {
    /// The bytes that this value holds.
    pub closed spec fn bytes(&self) -> Seq<u8> {
        self.bytes@
    }
}

/// Wraps bytes that are already safe HTML for verbatim output.
pub fn raw_bytes(raw: Vec<u8>) -> (r: RawBytes)
    ensures
        r.bytes() == raw@,
{
    RawBytes { bytes: raw }
}

impl Render for RawBytes {
    open spec fn text(&self) -> Seq<u8> {
        self.bytes()
    }

    fn render<W: Sink>(self, writer: &mut W) -> (r: Result<(), RenderError>) {
        let r = write_bytes(self.bytes.as_slice(), writer);
        proof {
            if r is Err {
                assert(self.text().take(0) == Seq::<u8>::empty());
            }
        }
        r
    }
}

impl RenderAttributeValue for RawBytes {
    fn is_none(&self) -> (r: bool) {
        false
    }

    fn is_true(&self) -> (r: bool) {
        false
    }

    fn is_false(&self) -> (r: bool) {
        false
    }
}

/// The bytes of `<!DOCTYPE html>`.
pub open spec fn doctype_text() -> Seq<u8> {
    seq![60u8, 33, 68, 79, 67, 84, 89, 80, 69, 32, 104, 116, 109, 108, 62]
}

/// The HTML5 doctype declaration, written verbatim.
pub fn doctype() -> (r: RawBytes)
    ensures
        r.text() == doctype_text(),
{
    let r = raw_bytes(vec![60u8, 33, 68, 79, 67, 84, 89, 80, 69, 32, 104, 116, 109, 108, 62]);
    assert(r.bytes() == doctype_text());
    r
}

} // verus!
