use pastebin::text::{encoded_len, normalize_line_breaks, sanitize};

#[test]
fn sanitize_escapes_and_breaks_lines() {
    assert_eq!(sanitize("a < b && c > d\r\ne\nf"), "a &lt; b &amp;&amp; c &gt; d<br>e<br>f");
}

#[test]
fn sanitize_empty() {
    assert_eq!(sanitize(""), "");
}

#[test]
fn lone_carriage_return_stays() {
    assert_eq!(normalize_line_breaks("\r\r\nx\r"), "\r<br>x\r");
    assert_eq!(normalize_line_breaks("\n\n"), "<br><br>");
}

#[test]
fn encoded_length_in_bytes() {
    assert_eq!(encoded_len(""), 0);
    assert_eq!(encoded_len("abc"), 3);
    assert_eq!(encoded_len("\u{e9}\u{20ac}\u{1F600}"), 9);
}
