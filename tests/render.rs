use std::borrow::Cow;

use markup::{
    doctype, escape, new, raw_bytes, raw_disp, Escape, Limited, Render, RenderAttributeValue,
    RenderError, Sink,
};

fn rendered<T: Render>(value: T) -> Vec<u8> {
    let mut out: Vec<u8> = Vec::new();
    value.render(&mut out).unwrap();
    out
}

#[test]
fn plain_text_is_unchanged() {
    let mut out: Vec<u8> = Vec::new();
    escape("plain text, with ünïcödé and 'quotes'".as_bytes(), &mut out).unwrap();
    assert_eq!(out, "plain text, with ünïcödé and 'quotes'".as_bytes());
}

#[test]
fn each_reserved_character_becomes_its_entity() {
    assert_eq!(rendered("&"), b"&amp;");
    assert_eq!(rendered("<"), b"&lt;");
    assert_eq!(rendered(">"), b"&gt;");
    assert_eq!(rendered("\""), b"&quot;");
    assert_eq!(rendered("'"), b"'");
    assert_eq!(rendered("\"a&b\""), b"&quot;a&amp;b&quot;");
    assert_eq!(rendered(String::from("<>")), b"&lt;&gt;");
}

#[test]
fn multibyte_text_next_to_reserved_characters() {
    assert_eq!(rendered("≤b"), "≤b".as_bytes());
    assert_eq!(rendered("a≤<b"), "a≤&lt;b".as_bytes());
    assert_eq!(rendered("<≤>"), "&lt;≤&gt;".as_bytes());
}

#[test]
fn booleans_render_and_answer_predicates() {
    assert_eq!(rendered(true), b"true");
    assert_eq!(rendered(false), b"false");
    for b in [true, false] {
        assert!(!b.is_none());
        assert_ne!(b.is_true(), b.is_false());
        assert_eq!(b.is_true(), b);
    }
}

#[test]
fn optional_values() {
    assert_eq!(rendered(Some(42u32)), b"42");
    assert_eq!(rendered(None::<u32>), b"");
    assert!(RenderAttributeValue::is_none(&None::<u32>));
    assert!(!RenderAttributeValue::is_none(&Some(42u32)));
    assert!(!Some(true).is_true());
    assert_eq!(rendered(Some("<")), b"&lt;");
}

#[test]
fn boxed_values_forward() {
    assert_eq!(rendered(Box::new(7i16)), b"7");
    assert!(Box::new(true).is_true());
    assert!(Box::new(false).is_false());
    assert!(Box::new(None::<bool>).is_none());
}

#[test]
fn integers_in_decimal() {
    assert_eq!(rendered(0u8), b"0");
    assert_eq!(rendered(255u8), b"255");
    assert_eq!(rendered(-128i8), b"-128");
    assert_eq!(rendered(-1i32), b"-1");
    assert_eq!(rendered(1234567usize), b"1234567");
    assert_eq!(rendered(u64::MAX), b"18446744073709551615");
    assert_eq!(rendered(i64::MIN), b"-9223372036854775808");
    assert_eq!(rendered(u128::MAX), b"340282366920938463463374607431768211455");
    assert_eq!(rendered(i128::MIN), b"-170141183460469231731687303715884105728");
    assert_eq!(rendered(-42isize), b"-42");
    assert_eq!(rendered(65535u16), b"65535");
    assert!(!5u32.is_none() && !5u32.is_true() && !5u32.is_false());
}

#[test]
fn characters_are_written_unescaped() {
    assert_eq!(rendered('a'), b"a");
    assert_eq!(rendered('<'), b"<");
    assert_eq!(rendered('é'), "é".as_bytes());
    assert_eq!(rendered('≤'), "≤".as_bytes());
    assert_eq!(rendered('😀'), "😀".as_bytes());
}

#[test]
fn tuples_render_in_order() {
    assert_eq!(rendered(("a<", 5u8, true)), b"a&lt;5true");
    assert_eq!(rendered((1u8,)), b"1");
    assert_eq!(
        rendered((1u8, 2u8, 3u8, 4u8, 5u8, 6u8, 7u8, 8u8, 9u8, 0u8)),
        b"1234567890"
    );
}

#[test]
fn tuple_stops_at_first_failure() {
    let mut sink = Limited::new(2);
    let r = ("a", "b", "c", "d").render(&mut sink);
    assert!(matches!(r, Err(RenderError::IoError(_))));
    assert_eq!(sink.contents(), b"ab");
}

#[test]
fn escaper_stops_at_failing_write() {
    let mut sink = Limited::new(1);
    let r = escape(b"a<b>c", &mut sink);
    assert_eq!(r.unwrap_err().kind(), std::io::ErrorKind::WriteZero);
    assert_eq!(sink.contents(), b"a");
    let mut sink = Limited::new(3);
    assert!(escape(b"a<b>c", &mut sink).is_err());
    assert_eq!(sink.contents(), b"a&lt;b");
    let mut sink = Limited::new(0);
    assert!(matches!(true.render(&mut sink), Err(RenderError::IoError(_))));
    assert!(sink.into_inner().is_empty());
}

#[test]
fn render_after_sink_refuses_reports_failure() {
    let mut sink = Limited::new(1);
    sink.write_all(b"x").unwrap();
    assert!(42u8.render(&mut sink).is_err());
    assert!((None::<u8>,).render(&mut sink).is_ok());
    assert!("<".render(&mut sink).is_err());
    assert_eq!(sink.into_inner(), b"x");
}

#[test]
fn escape_adapter_escapes_each_run() {
    let mut adapter = Escape::new(Vec::new());
    adapter.write_all(b"<a").unwrap();
    adapter.write_all(b"&b>").unwrap();
    assert_eq!(adapter.get_ref(), b"&lt;a&amp;b&gt;");
}

#[test]
fn raw_content_bypasses_escaping() {
    assert_eq!(rendered(raw_bytes(b"<b>".to_vec())), b"<b>");
    assert_eq!(rendered(raw_disp("<i>")), b"<i>");
    assert_eq!(rendered(raw_disp(42)), b"42");
    assert_eq!(rendered(raw_disp(1.5f64)), b"1.5");
    assert_eq!(rendered(doctype()), b"<!DOCTYPE html>");
}

#[test]
fn deferred_fragments() {
    let fragment = new(|| Ok(b"<p>".to_vec()));
    assert_eq!(rendered(fragment), b"<p>");
    let failing = new(|| {
        Err(RenderError::wrap(std::io::Error::new(std::io::ErrorKind::Other, "no data")))
    });
    let mut out: Vec<u8> = Vec::new();
    assert!(matches!(failing.render(&mut out), Err(RenderError::Other(_))));
    assert!(out.is_empty());
}

#[test]
fn errors_keep_their_source() {
    let wrapped = RenderError::wrap(std::fmt::Error);
    match wrapped {
        RenderError::Other(e) => assert!(e.get_ref().unwrap().is::<std::fmt::Error>()),
        RenderError::IoError(_) => panic!("wrapped as a sink failure"),
    }
    let from_io = RenderError::from(std::io::Error::new(std::io::ErrorKind::Other, "x"));
    assert!(matches!(from_io, RenderError::IoError(_)));
}

#[test]
fn borrowed_and_owned_text_escape_alike() {
    assert_eq!(rendered(Cow::Borrowed("a<b")), b"a&lt;b");
    assert_eq!(rendered(Cow::<str>::Owned(String::from("\"&\""))), b"&quot;&amp;&quot;");
    assert!(!Cow::Borrowed("x").is_none());
}

#[test]
fn escape_adapter_passes_on_inner_failure_and_flush() {
    let mut adapter = Escape::new(Limited::new(1));
    let r = adapter.write_all(b"a<b");
    assert_eq!(r.unwrap_err().kind(), std::io::ErrorKind::WriteZero);
    assert!(adapter.flush().is_ok());
    assert_eq!(adapter.into_inner().into_inner(), b"a");
}

#[test]
fn plain_text_is_one_write() {
    let mut sink = Limited::new(1);
    escape("no reserved bytes ≤".as_bytes(), &mut sink).unwrap();
    assert_eq!(sink.into_inner(), "no reserved bytes ≤".as_bytes());
    let mut sink = Limited::new(5);
    escape(b"<a>", &mut sink).unwrap();
    assert_eq!(sink.contents(), b"&lt;a&gt;");
}

#[test]
fn single_values_make_one_write() {
    let mut sink = Limited::new(1);
    'é'.render(&mut sink).unwrap();
    raw_bytes(b"<a&b>".to_vec()).render(&mut sink).unwrap_err();
    assert_eq!(sink.into_inner(), "é".as_bytes());
    let mut sink = Limited::new(1);
    (-120i64).render(&mut sink).unwrap();
    assert_eq!(sink.into_inner(), b"-120");
}

#[test]
fn deferred_fragment_may_differ_per_call() {
    let calls = std::cell::Cell::new(0u8);
    let fragment = new(|| {
        calls.set(calls.get() + 1);
        Ok(vec![b'0' + calls.get()])
    });
    assert_eq!(rendered(fragment), b"1");
    assert_eq!(calls.get(), 1);
}
