use markup::{escape, Escape, Sink};

fn escaped_as(input: &str, output: &str) {
    let mut string: Vec<u8> = Vec::new();
    escape(input.as_bytes(), &mut string).unwrap();
    assert_eq!(string, output.as_bytes());
}

fn escaped_through_adapter(input: impl std::fmt::Debug, output: &str) {
    let mut adapter = Escape::new(Vec::new());
    let shown = format!("{:?}", input);
    adapter.write_all(shown.as_bytes()).unwrap();
    assert_eq!(adapter.into_inner(), output.as_bytes());
}

#[test]
fn test() {
    escaped_as("", "");
    escaped_as("<", "&lt;");
    escaped_as("a<", "a&lt;");
    escaped_as("<b", "&lt;b");
    escaped_as("a<b", "a&lt;b");
    escaped_as("a<>b", "a&lt;&gt;b");
    escaped_as("<>", "&lt;&gt;");
    escaped_as("‚Č§", "‚Č§");
    escaped_as("a‚Č§", "a‚Č§");
    escaped_as("‚Č§b", "‚Č§b");
    escaped_as("a‚Č§b", "a‚Č§b");
    escaped_as("a‚Č§‚Č•b", "a‚Č§‚Č•b");
    escaped_as("‚Č§‚Č•", "‚Č§‚Č•");
    escaped_as(
        r#"foo &<>" bar&bar<bar>bar"bar baz&&<<baz>>""baz"#,
        r#"foo &amp;&lt;&gt;&quot; bar&amp;bar&lt;bar&gt;bar&quot;bar baz&amp;&amp;&lt;&lt;baz&gt;&gt;&quot;&quot;baz"#,
    );
}

#[test]
fn test_arguments() {
    escaped_through_adapter("", "&quot;&quot;");
    escaped_through_adapter("<", "&quot;&lt;&quot;");
    escaped_through_adapter("a<", "&quot;a&lt;&quot;");
    escaped_through_adapter("<b", "&quot;&lt;b&quot;");
    escaped_through_adapter("a<b", "&quot;a&lt;b&quot;");
    escaped_through_adapter("a<>b", "&quot;a&lt;&gt;b&quot;");
    escaped_through_adapter("<>", "&quot;&lt;&gt;&quot;");
    escaped_through_adapter("‚Č§", "&quot;‚Č§&quot;");
    escaped_through_adapter("a‚Č§", "&quot;a‚Č§&quot;");
    escaped_through_adapter("‚Č§b", "&quot;‚Č§b&quot;");
    escaped_through_adapter("a‚Č§b", "&quot;a‚Č§b&quot;");
    escaped_through_adapter("a‚Č§‚Č•b", "&quot;a‚Č§‚Č•b&quot;");
    escaped_through_adapter("‚Č§‚Č•", "&quot;‚Č§‚Č•&quot;");
    escaped_through_adapter(
        r#"foo &<>" bar&bar<bar>bar"bar baz&&<<baz>>""baz"#,
        r#"&quot;foo &amp;&lt;&gt;\&quot; bar&amp;bar&lt;bar&gt;bar\&quot;bar baz&amp;&amp;&lt;&lt;baz&gt;&gt;\&quot;\&quot;baz&quot;"#,
    );
    escaped_through_adapter('<', "'&lt;'");
}
