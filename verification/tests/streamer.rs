use jj::jenkins::{
    header_lookup, header_parse_bool, header_parse_u64, progressive_text_url, stream_step,
    StreamCursor,
};

fn headers(pairs: &[(&str, &str)]) -> Vec<(String, String)> {
    pairs
        .iter()
        .map(|(k, v)| (String::from(*k), String::from(*v)))
        .collect()
}

#[test]
fn two_chunk_stream_concatenates_and_stops() {
    let mut sink = String::new();
    let mut fetches = 0;

    // First fetch: from offset 0; the server hands back "abc" and
    // points at offset 3 with more to come.
    let url1 = progressive_text_url("http://h/job/x/7/", 0);
    assert_eq!(url1, "http://h/job/x/7/logText/progressiveText?start=0");
    fetches += 1;
    let h1 = headers(&[("x-text-size", "3"), ("x-more-data", "true")]);
    let step1 = stream_step(&h1);
    assert_eq!(
        step1,
        StreamCursor {
            offset: 3,
            more: true
        }
    );
    sink.push_str("abc");

    // Second fetch: from offset 3; the server hands back "def" and
    // signals the end.
    assert!(step1.more);
    let url2 = progressive_text_url("http://h/job/x/7/", step1.offset);
    assert_eq!(url2, "http://h/job/x/7/logText/progressiveText?start=3");
    fetches += 1;
    let h2 = headers(&[("x-text-size", "6"), ("x-more-data", "false")]);
    let step2 = stream_step(&h2);
    assert!(!step2.more);
    sink.push_str("def");

    assert_eq!(sink, "abcdef");
    assert_eq!(fetches, 2);
}

#[test]
fn missing_signals_default_and_terminate() {
    let h = headers(&[("content-type", "text/plain")]);
    let step = stream_step(&h);
    assert_eq!(
        step,
        StreamCursor {
            offset: 0,
            more: false
        }
    );
}

#[test]
fn unreadable_signals_default_and_terminate() {
    let h = headers(&[("x-text-size", "soon"), ("x-more-data", "yes")]);
    let step = stream_step(&h);
    assert_eq!(
        step,
        StreamCursor {
            offset: 0,
            more: false
        }
    );
}

#[test]
fn numeric_header_is_read_in_base_ten() {
    let h = headers(&[("x-text-size", "1048576")]);
    assert_eq!(header_parse_u64(&h, "x-text-size", 0), 1048576);
}

#[test]
fn oversized_numeric_header_falls_back_to_default() {
    let h = headers(&[("x-text-size", "18446744073709551616")]);
    assert_eq!(header_parse_u64(&h, "x-text-size", 7), 7);
}

#[test]
fn signed_or_padded_numbers_are_not_accepted() {
    let h = headers(&[("x-text-size", "+5")]);
    assert_eq!(header_parse_u64(&h, "x-text-size", 0), 0);
    let h2 = headers(&[("x-text-size", " 5")]);
    assert_eq!(header_parse_u64(&h2, "x-text-size", 0), 0);
}

#[test]
fn boolean_header_reads_true_and_false_only() {
    let h = headers(&[("x-more-data", "true")]);
    assert!(header_parse_bool(&h, "x-more-data", false));
    let h2 = headers(&[("x-more-data", "false")]);
    assert!(!header_parse_bool(&h2, "x-more-data", true));
    let h3 = headers(&[("x-more-data", "True")]);
    assert!(!header_parse_bool(&h3, "x-more-data", false));
}

#[test]
fn header_lookup_takes_the_first_match() {
    let h = headers(&[("location", "first"), ("location", "second")]);
    assert_eq!(header_lookup(&h, "location"), Some(&String::from("first")));
    assert_eq!(header_lookup(&h, "missing"), None);
}

#[test]
fn progressive_url_renders_large_offsets() {
    let url = progressive_text_url("http://h/job/x/7/", u64::MAX);
    assert_eq!(
        url,
        "http://h/job/x/7/logText/progressiveText?start=18446744073709551615"
    );
}
