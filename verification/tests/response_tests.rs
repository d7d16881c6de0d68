use smugprobe::response::Response;

fn decode(bytes: &[u8]) -> Response {
    Response::from(bytes.to_vec())
}

#[test]
fn decodes_a_simple_response() {
    let r = decode(b"HTTP/1.1 200 OK\r\nContent-Length: 5\r\n\r\nHELLO");
    assert_eq!(r.status_code(), 200);
    assert_eq!(r.header_count(), 1);
    assert_eq!(r.header_value(b"Content-Length").unwrap(), &b"5".to_vec());
    assert_eq!(r.body(), &b"HELLO".to_vec());
    let (is_smuggling, reasons) = r.analyze_smuggling();
    assert!(!is_smuggling);
    assert!(reasons.is_empty());
}

#[test]
fn conflicting_framing_headers_are_flagged() {
    let r = decode(b"HTTP/1.1 200 OK\r\nTransfer-Encoding: chunked\r\nContent-Length: 0\r\n\r\n");
    let (is_smuggling, reasons) = r.analyze_smuggling();
    assert!(is_smuggling);
    assert!(reasons.iter().any(|s| s.contains("present")));
}

#[test]
fn bad_gateway_gives_exactly_one_status_reason() {
    let r = decode(b"HTTP/1.1 502 Bad Gateway\r\n\r\n");
    assert_eq!(r.status_code(), 502);
    let (is_smuggling, reasons) = r.analyze_smuggling();
    assert!(is_smuggling);
    assert_eq!(reasons.len(), 1);
    assert_eq!(
        reasons[0],
        "Suspicious status code (502) detected, possibly due to smuggling."
    );
}

#[test]
fn empty_input_fires_status_and_empty_rules() {
    let r = decode(b"");
    assert_eq!(r.status_code(), 0);
    assert_eq!(r.header_count(), 0);
    assert!(r.body().is_empty());
    let (is_smuggling, reasons) = r.analyze_smuggling();
    assert!(is_smuggling);
    assert_eq!(reasons.len(), 2);
    assert_eq!(
        reasons[0],
        "Suspicious status code (0) detected, possibly due to smuggling."
    );
    assert_eq!(reasons[1], "Empty or invalid response, possibly due to smuggling.");
}

#[test]
fn undecodable_bytes_yield_the_sentinel() {
    let r = decode(&[0xff, 0xfe, 0x41]);
    assert_eq!(r.status_code(), 0);
    assert_eq!(r.header_count(), 0);
    assert!(r.body().is_empty());
    let (is_smuggling, _) = r.analyze_smuggling();
    assert!(is_smuggling);
}

#[test]
fn content_length_mismatch_is_reported_exactly() {
    let r = decode(b"HTTP/1.1 200 OK\r\nContent-Length: 10\r\n\r\nHELLO");
    let (is_smuggling, reasons) = r.analyze_smuggling();
    assert!(is_smuggling);
    assert_eq!(reasons.len(), 1);
    assert_eq!(
        reasons[0],
        "Content-Length (10) does not match actual body length (5)."
    );
}

#[test]
fn unparsable_content_length_is_reported() {
    let r = decode(b"HTTP/1.1 200 OK\r\nContent-Length: abc\r\n\r\nHELLO");
    let (is_smuggling, reasons) = r.analyze_smuggling();
    assert!(is_smuggling);
    assert!(reasons.iter().any(|s| s == "Invalid Content-Length header value."));
}

#[test]
fn trailing_data_after_final_chunk_is_flagged() {
    let r = decode(b"HTTP/1.1 200 OK\r\nTransfer-Encoding: chunked\r\n\r\n0\r\nEXTRA");
    let (is_smuggling, reasons) = r.analyze_smuggling();
    assert!(is_smuggling);
    assert!(
        reasons
            .iter()
            .any(|s| s == "Unexpected data after chunked encoding termination.")
    );
}

#[test]
fn chunk_size_mismatch_is_flagged() {
    let r = decode(b"HTTP/1.1 200 OK\r\nTransfer-Encoding: chunked\r\n\r\n3\r\nABCD\r\n0\r\n\r\n");
    let (is_smuggling, reasons) = r.analyze_smuggling();
    assert!(is_smuggling);
    assert!(reasons.iter().any(|s| s == "Invalid chunk size or missing chunk data."));
}

#[test]
fn well_formed_chunked_body_is_clean() {
    let r = decode(b"HTTP/1.1 200 OK\r\nTransfer-Encoding: chunked\r\n\r\n5\r\nHELLO\r\n0\r\n");
    let (is_smuggling, reasons) = r.analyze_smuggling();
    assert!(!is_smuggling);
    assert!(reasons.is_empty());
}

#[test]
fn chunked_detection_is_case_insensitive() {
    let r = decode(b"HTTP/1.1 200 OK\r\nTransfer-Encoding: CHUNKED\r\n\r\nnot-hex");
    let (is_smuggling, reasons) = r.analyze_smuggling();
    assert!(is_smuggling);
    assert!(reasons.iter().any(|s| s == "Invalid chunk size format in body."));
}

#[test]
fn injected_headers_are_flagged_each() {
    let r = decode(
        b"HTTP/1.1 200 OK\r\nX-Forwarded-For: 1.2.3.4\r\nX-Forwarded-Host: a\r\n\r\nx",
    );
    let (is_smuggling, reasons) = r.analyze_smuggling();
    assert!(is_smuggling);
    assert_eq!(reasons.len(), 2);
    assert_eq!(
        reasons[0],
        "Suspicious header 'X-Forwarded-For' found, possibly injected."
    );
    assert_eq!(
        reasons[1],
        "Suspicious header 'X-Forwarded-Host' found, possibly injected."
    );
}

#[test]
fn later_header_of_the_same_name_wins() {
    let r = decode(b"HTTP/1.1 200 OK\r\nA: 1\r\nA: 2\r\n\r\n");
    assert_eq!(r.header_count(), 1);
    assert_eq!(r.header_value(b"A").unwrap(), &b"2".to_vec());
}

#[test]
fn header_names_and_values_are_trimmed() {
    let r = decode(b"HTTP/1.1 200 OK\r\n  Content-Length :   5  \r\n\r\nHELLO");
    assert_eq!(r.header_value(b"Content-Length").unwrap(), &b"5".to_vec());
}

#[test]
fn lines_without_a_colon_are_skipped() {
    let r = decode(b"HTTP/1.1 200 OK\r\nnot-a-header\r\nB: 2\r\n\r\n");
    assert_eq!(r.header_count(), 1);
    assert_eq!(r.header_value(b"B").unwrap(), &b"2".to_vec());
}

#[test]
fn body_keeps_its_line_separators_verbatim() {
    let r = decode(b"HTTP/1.1 200 OK\r\n\r\nline1\r\nline2\r\n");
    assert_eq!(r.body(), &b"line1\r\nline2\r\n".to_vec());
}

#[test]
fn unicode_whitespace_around_header_values_is_trimmed() {
    // the value is padded with U+00A0 no-break spaces
    let r = decode(b"HTTP/1.1 200 OK\r\nContent-Length:\xc2\xa05\xc2\xa0\r\n\r\nHELLO");
    assert_eq!(r.header_value(b"Content-Length").unwrap(), &b"5".to_vec());
    let (is_smuggling, reasons) = r.analyze_smuggling();
    assert!(!is_smuggling);
    assert!(reasons.is_empty());
}

#[test]
fn unicode_whitespace_around_chunk_sizes_is_trimmed() {
    // the chunk-size token is padded with U+2003 em spaces
    let r = decode(
        b"HTTP/1.1 200 OK\r\nTransfer-Encoding: chunked\r\n\r\n\xe2\x80\x835\xe2\x80\x83\r\nHELLO\r\n0\r\n",
    );
    let (is_smuggling, reasons) = r.analyze_smuggling();
    assert!(!is_smuggling);
    assert!(reasons.is_empty());
}

#[test]
fn other_transfer_encodings_do_not_count_as_chunked() {
    let r = decode(b"HTTP/1.1 200 OK\r\nTransfer-Encoding: gzip\r\n\r\nx");
    let (is_smuggling, reasons) = r.analyze_smuggling();
    assert!(!is_smuggling);
    assert!(reasons.is_empty());
}

#[test]
fn chunked_detection_uses_unicode_case_folding() {
    // KELVIN SIGN (U+212A) lowercases to 'k'
    let r = decode(
        b"HTTP/1.1 200 OK\r\nTransfer-Encoding: CHUN\xe2\x84\xaaED\r\nContent-Length: 0\r\n\r\n",
    );
    let (is_smuggling, reasons) = r.analyze_smuggling();
    assert!(is_smuggling);
    assert!(reasons.iter().any(|s| s.contains("present")));
}

#[test]
fn blank_lines_inside_the_body_are_kept() {
    let r = decode(b"HTTP/1.1 200 OK\r\n\r\nA\r\n\r\nB");
    assert_eq!(r.body(), &b"A\r\n\r\nB".to_vec());
}

#[test]
fn hexadecimal_chunk_sizes_are_read() {
    let r = decode(
        b"HTTP/1.1 200 OK\r\nTransfer-Encoding: chunked\r\n\r\na\r\n0123456789\r\n0\r\n",
    );
    let (is_smuggling, reasons) = r.analyze_smuggling();
    assert!(!is_smuggling);
    assert!(reasons.is_empty());
}

#[test]
fn unreadable_status_token_decodes_to_zero() {
    let r = decode(b"HTTP/1.1 abc\r\n\r\nx");
    assert_eq!(r.status_code(), 0);
    let r2 = decode(b"NOSPACES\r\n\r\nx");
    assert_eq!(r2.status_code(), 0);
}

#[test]
fn status_token_with_plus_sign_parses() {
    let r = decode(b"HTTP/1.1 +200 OK\r\n\r\nx");
    assert_eq!(r.status_code(), 200);
}
