//! Response decoder and smuggling analyzer. The decoder turns raw
//! response bytes into a status code, header pairs and a verbatim body;
//! bytes that are not valid text yield the undecodable sentinel, itself
//! a meaningful signal. The analyzer applies the heuristic rule set and
//! collects every reason that fires, in evaluation order.

use vstd::prelude::*;
use vstd::string::*;
use crate::text::spec_split_crlf;
use crate::text::split_crlf;
use crate::text::find_byte;
use crate::text::find_byte_at;
use crate::text::lemma_find_byte;
use crate::text::spec_trim;
use crate::text::trim_bytes;
use crate::text::spec_parse_dec;
use crate::text::parse_dec_u64;
use crate::text::spec_parse_hex;
use crate::text::parse_hex_u64;
use crate::text::spec_join_crlf;
use crate::text::join_crlf;
use crate::text::dec_chars;
use crate::text::dec_string;
use crate::text::utf8_to_str;
use crate::text::bytes_eq;
use crate::text::contains_bytes;
use crate::text::lower_of;
use crate::text::lowercase_str;
use crate::text::str_contains;

verus! {

/// The mathematical content of a [`Response`].
#[verifier::ext_equal]
pub ghost struct ResponseModel {
    pub status_code: u16,
    pub headers: Seq<(Seq<u8>, Seq<u8>)>,
    pub body: Seq<u8>,
}

/// Represents an HTTP response with status code, headers, and body.
pub struct Response {
    status_code: u16,
    headers: Vec<(Vec<u8>, Vec<u8>)>,
    body: Vec<u8>,
}

/// The header pairs of a response, read as byte sequences.
pub open spec fn pair_views(hs: Seq<(Vec<u8>, Vec<u8>)>) -> Seq<(Seq<u8>, Seq<u8>)> {
    hs.map_values(|p: (Vec<u8>, Vec<u8>)| (p.0@, p.1@))
}

impl View for Response {
    type V = ResponseModel;

    closed spec fn view(&self) -> ResponseModel {
        ResponseModel {
            status_code: self.status_code,
            headers: pair_views(self.headers@),
            body: self.body@,
        }
    }
}

/// The undecodable sentinel: status zero, no headers, empty body.
pub open spec fn empty_response() -> ResponseModel {
    ResponseModel { status_code: 0, headers: Seq::empty(), body: Seq::empty() }
}

/// Status code of a status line: its second space-delimited token read
/// as a decimal number, or zero when there is none or it does not parse.
pub open spec fn spec_status_of(line: Seq<u8>) -> u16 {
    let i = find_byte(line, 0x20, 0);
    if i == line.len() {
        0
    } else {
        let j = find_byte(line, 0x20, i + 1);
        match spec_parse_dec(line.subrange(i + 1, j), 0xffff) {
            Some(v) => v as u16,
            None => 0,
        }
    }
}

/// Index of the first empty line at or after `from`; `lines.len()` when
/// there is none.
pub open spec fn find_blank(lines: Seq<Seq<u8>>, from: int) -> int
    decreases lines.len() - from,
{
    if from < 0 || from >= lines.len() {
        lines.len() as int
    } else if lines[from].len() == 0 {
        from
    } else {
        find_blank(lines, from + 1)
    }
}

/// Stores `(name, value)`, replacing the value under an existing equal
/// name in place and appending otherwise.
pub open spec fn spec_put(hs: Seq<(Seq<u8>, Seq<u8>)>, name: Seq<u8>, value: Seq<u8>) -> Seq<
    (Seq<u8>, Seq<u8>),
>
    decreases hs.len(),
{
    if hs.len() == 0 {
        seq![(name, value)]
    } else if hs[0].0 == name {
        seq![(name, value)] + hs.drop_first()
    } else {
        seq![hs[0]] + spec_put(hs.drop_first(), name, value)
    }
}

/// One header line added to the collection: split at the first colon,
/// both sides trimmed; a line without a colon is skipped.
pub open spec fn spec_add_header(hs: Seq<(Seq<u8>, Seq<u8>)>, line: Seq<u8>) -> Seq<
    (Seq<u8>, Seq<u8>),
> {
    let c = find_byte(line, 0x3a, 0);
    if c == line.len() {
        hs
    } else {
        spec_put(hs, spec_trim(line.subrange(0, c)), spec_trim(line.subrange(c + 1, line.len() as int)))
    }
}

/// Headers collected from `lines[1..upto]` in order.
pub open spec fn spec_collect_headers(lines: Seq<Seq<u8>>, upto: int) -> Seq<(Seq<u8>, Seq<u8>)>
    decreases upto,
{
    if upto <= 1 {
        Seq::empty()
    } else {
        spec_add_header(spec_collect_headers(lines, upto - 1), lines[upto - 1])
    }
}

/// Everything after the first blank line, rejoined with CRLF, verbatim.
pub open spec fn spec_body_of(lines: Seq<Seq<u8>>, hdr_end: int) -> Seq<u8> {
    if hdr_end >= lines.len() {
        Seq::empty()
    } else {
        spec_join_crlf(lines.skip(hdr_end + 1))
    }
}

/// The whole decoding policy: invalid text yields the sentinel; else the
/// first line gives the status, the lines up to the first blank line give
/// the headers, and the rest is the body.
pub open spec fn spec_decode(bytes: Seq<u8>) -> ResponseModel {
    if !vstd::utf8::valid_utf8(bytes) {
        empty_response()
    } else {
        let lines = spec_split_crlf(bytes);
        let hdr_end = find_blank(lines, 1);
        ResponseModel {
            status_code: spec_status_of(lines[0]),
            headers: spec_collect_headers(lines, hdr_end),
            body: spec_body_of(lines, hdr_end),
        }
    }
}

proof fn lemma_put_no_match(hs: Seq<(Seq<u8>, Seq<u8>)>, name: Seq<u8>, value: Seq<u8>)
    requires
        forall|j: int| 0 <= j < hs.len() ==> (#[trigger] hs[j]).0 != name,
    ensures
        spec_put(hs, name, value) == hs.push((name, value)),
    decreases hs.len(),
{
    if hs.len() == 0 {
        assert(spec_put(hs, name, value) =~= hs.push((name, value)));
    } else {
        assert(hs[0].0 != name);
        lemma_put_no_match(hs.drop_first(), name, value);
        assert(seq![hs[0]] + hs.drop_first().push((name, value)) =~= hs.push((name, value)));
    }
}

proof fn lemma_put_match(hs: Seq<(Seq<u8>, Seq<u8>)>, name: Seq<u8>, value: Seq<u8>, m: int)
    requires
        0 <= m < hs.len(),
        hs[m].0 == name,
        forall|j: int| 0 <= j < m ==> (#[trigger] hs[j]).0 != name,
    ensures
        spec_put(hs, name, value) == hs.update(m, (name, value)),
    decreases hs.len(),
{
    if m == 0 {
        assert(seq![(name, value)] + hs.drop_first() =~= hs.update(0, (name, value)));
    } else {
        lemma_put_match(hs.drop_first(), name, value, m - 1);
        assert(seq![hs[0]] + hs.drop_first().update(m - 1, (name, value)) =~= hs.update(
            m,
            (name, value),
        ));
    }
}

/// Stores one header pair, matching `spec_put`.
fn put_header(headers: &mut Vec<(Vec<u8>, Vec<u8>)>, name: Vec<u8>, value: Vec<u8>)
    ensures
        pair_views(final (headers)@) == spec_put(pair_views(old(headers)@), name@, value@),
{
    let ghost hv = pair_views(headers@);
    let mut i: usize = 0;
    while i < headers.len()
        invariant
            i <= headers@.len(),
            headers@ == old(headers)@,
            hv == pair_views(headers@),
            forall|j: int| 0 <= j < i ==> (#[trigger] hv[j]).0 != name@,
        decreases headers@.len() - i,
    {
        if bytes_eq(headers[i].0.as_slice(), name.as_slice()) {
            assert(hv[i as int].0 == name@);
            headers.set(i, (name, value));
            proof {
                lemma_put_match(hv, name@, value@, i as int);
                assert(pair_views(headers@) =~= hv.update(i as int, (name@, value@)));
            }
            return ;
        }
        i = i + 1;
    }
    proof {
        lemma_put_no_match(hv, name@, value@);
    }
    headers.push((name, value));
    assert(pair_views(headers@) =~= hv.push((name@, value@)));
}

impl Response {
    /// Decodes raw response bytes, matching `spec_decode` exactly.
    pub fn from(response_byte: Vec<u8>) -> (r: Response)
        ensures
            r@ == spec_decode(response_byte@),
    {
        if utf8_to_str(response_byte.as_slice()).is_none() {
            let r = Response { status_code: 0, headers: Vec::new(), body: Vec::new() };
            assert(r@ =~= empty_response());
            return r;
        }
        let lines = split_crlf(response_byte.as_slice());
        let ghost lv = lines@.map_values(|x: Vec<u8>| x@);
        let status_code = status_of_line(&lines[0]);
        let mut hdr_end: usize = 1;
        while hdr_end < lines.len() && !line_is_empty(&lines, hdr_end)
            invariant
                1 <= hdr_end <= lines@.len(),
                lv == lines@.map_values(|x: Vec<u8>| x@),
                find_blank(lv, 1) == find_blank(lv, hdr_end as int),
            decreases lines@.len() - hdr_end,
        {
            hdr_end = hdr_end + 1;
        }
        assert(hdr_end == find_blank(lv, 1));
        let mut headers: Vec<(Vec<u8>, Vec<u8>)> = Vec::new();
        let mut k: usize = 1;
        assert(pair_views(headers@) =~= spec_collect_headers(lv, 1));
        while k < hdr_end
            invariant
                1 <= k <= hdr_end || (hdr_end < 1 && k == 1),
                hdr_end <= lines@.len(),
                lv == lines@.map_values(|x: Vec<u8>| x@),
                pair_views(headers@) == spec_collect_headers(lv, k as int),
            decreases hdr_end - k,
        {
            let line = &lines[k];
            let c = find_byte_at(line.as_slice(), 0x3a, 0);
            proof {
                lemma_find_byte(line@, 0x3a, 0);
            }
            if c < line.len() {
                let name = trim_bytes(vstd::slice::slice_subrange(line.as_slice(), 0, c));
                let value = trim_bytes(
                    vstd::slice::slice_subrange(line.as_slice(), c + 1, line.len()),
                );
                put_header(&mut headers, name, value);
            }
            assert(pair_views(headers@) == spec_collect_headers(lv, k + 1));
            k = k + 1;
        }
        let body = if hdr_end < lines.len() {
            join_crlf(&lines, hdr_end + 1)
        } else {
            Vec::new()
        };
        assert(body@ == spec_body_of(lv, hdr_end as int));
        let r = Response { status_code, headers, body };
        assert(r@ =~= spec_decode(response_byte@));
        r
    }
}

/// Status code of one status line, matching `spec_status_of`.
fn status_of_line(line: &Vec<u8>) -> (r: u16)
    ensures
        r == spec_status_of(line@),
{
    let i = find_byte_at(line.as_slice(), 0x20, 0);
    proof {
        lemma_find_byte(line@, 0x20, 0);
    }
    if i == line.len() {
        return 0;
    }
    let j = find_byte_at(line.as_slice(), 0x20, i + 1);
    proof {
        lemma_find_byte(line@, 0x20, i + 1);
    }
    let tok = vstd::slice::slice_subrange(line.as_slice(), i + 1, j);
    match parse_dec_u64(tok, 0xffff) {
        Some(v) => v as u16,
        None => 0,
    }
}

fn line_is_empty(lines: &Vec<Vec<u8>>, i: usize) -> (r: bool)
    requires
        i < lines@.len(),
    ensures
        r == (lines@.map_values(|x: Vec<u8>| x@)[i as int].len() == 0),
{
    lines[i].len() == 0
}

/// First value stored under `name`, if any.
pub open spec fn spec_header_value(hs: Seq<(Seq<u8>, Seq<u8>)>, name: Seq<u8>) -> Option<Seq<u8>>
    decreases hs.len(),
{
    if hs.len() == 0 {
        None
    } else if hs[0].0 == name {
        Some(hs[0].1)
    } else {
        spec_header_value(hs.drop_first(), name)
    }
}

/// Looks a header up by name, matching `spec_header_value`.
fn find_header<'a>(headers: &'a Vec<(Vec<u8>, Vec<u8>)>, name: &[u8]) -> (r: Option<&'a Vec<u8>>)
    ensures
        match r {
            Some(v) => spec_header_value(pair_views(headers@), name@) == Some(v@),
            None => spec_header_value(pair_views(headers@), name@) is None,
        },
{
    let ghost hv = pair_views(headers@);
    assert(hv.skip(0) =~= hv);
    let mut i: usize = 0;
    while i < headers.len()
        invariant
            i <= headers@.len(),
            hv == pair_views(headers@),
            spec_header_value(hv, name@) == spec_header_value(hv.skip(i as int), name@),
        decreases headers@.len() - i,
    {
        proof {
            assert(hv.skip(i as int)[0] == hv[i as int]);
            assert(hv.skip(i as int).drop_first() =~= hv.skip(i + 1));
        }
        if bytes_eq(headers[i].0.as_slice(), name) {
            return Some(&headers[i].1);
        }
        i = i + 1;
    }
    assert(hv.skip(i as int) =~= Seq::<(Seq<u8>, Seq<u8>)>::empty());
    None
}

/// The kinds of malformed chunked framing the body walk can uncover.
pub enum ChunkFault {
    TrailingData,
    ChunkMismatch,
    BadSizeToken,
}

/// The chunked-body walk from line `i` on: a zero-size chunk must be the
/// final chunk and be followed by nothing; a non-zero chunk's declared
/// size must equal the length of the following line; an unparsable size
/// token ends the walk. The first fault found is reported.
pub open spec fn spec_chunk_fault(ls: Seq<Seq<u8>>, i: int) -> Option<ChunkFault>
    decreases ls.len() - i,
{
    if i < 0 || i >= ls.len() {
        None
    } else {
        match spec_parse_hex(spec_trim(ls[i]), 0xffff_ffff_ffff_ffff) {
            None => Some(ChunkFault::BadSizeToken),
            Some(sz) => if sz == 0 {
                if i + 1 < ls.len() && ls[i + 1].len() != 0 {
                    Some(ChunkFault::TrailingData)
                } else {
                    None
                }
            } else if i + 1 >= ls.len() || ls[i + 1].len() != sz {
                Some(ChunkFault::ChunkMismatch)
            } else {
                spec_chunk_fault(ls, i + 2)
            },
        }
    }
}

/// Walks the body lines as chunked framing, matching `spec_chunk_fault`.
fn chunk_walk(lines: &Vec<Vec<u8>>) -> (r: Option<ChunkFault>)
    ensures
        r == spec_chunk_fault(lines@.map_values(|x: Vec<u8>| x@), 0),
{
    let ghost lv = lines@.map_values(|x: Vec<u8>| x@);
    let mut i: usize = 0;
    while i < lines.len()
        invariant
            i <= lines@.len() + 1,
            lv == lines@.map_values(|x: Vec<u8>| x@),
            spec_chunk_fault(lv, 0) == spec_chunk_fault(lv, i as int),
        decreases lines@.len() - i,
    {
        let t = trim_bytes(lines[i].as_slice());
        match parse_hex_u64(t.as_slice(), 0xffff_ffff_ffff_ffff) {
            None => {
                return Some(ChunkFault::BadSizeToken);
            },
            Some(sz) => {
                if sz == 0 {
                    if i + 1 < lines.len() && lines[i + 1].len() != 0 {
                        return Some(ChunkFault::TrailingData);
                    }
                    return None;
                }
                if i + 1 >= lines.len() || (lines[i + 1].len() as u64) != sz {
                    return Some(ChunkFault::ChunkMismatch);
                }
                i = i + 2;
            },
        }
    }
    None
}

pub open spec fn te_name() -> Seq<u8> {
    "Transfer-Encoding".spec_bytes()
}

pub open spec fn cl_name() -> Seq<u8> {
    "Content-Length".spec_bytes()
}

pub open spec fn chunked_token() -> Seq<u8> {
    "chunked".spec_bytes()
}

/// Whether the response carries a `Transfer-Encoding` value that,
/// lowercased by Unicode's mapping, contains `chunked`. The decoder only
/// stores values cut from valid text; a value that is not would count as
/// not chunked.
pub open spec fn spec_has_chunked(m: ResponseModel) -> bool {
    match spec_header_value(m.headers, te_name()) {
        Some(v) => vstd::utf8::valid_utf8(v) && contains_bytes(
            vstd::utf8::encode_utf8(lower_of(vstd::utf8::decode_utf8(v))),
            chunked_token(),
        ),
        None => false,
    }
}

pub open spec fn msg_both_headers() -> Seq<char> {
    "Both Transfer-Encoding: chunked and Content-Length headers are present."@
}

pub open spec fn msg_len_mismatch(expected: nat, actual: nat) -> Seq<char> {
    "Content-Length ("@ + dec_chars(expected) + ") does not match actual body length ("@
        + dec_chars(actual) + ")."@
}

pub open spec fn msg_invalid_cl() -> Seq<char> {
    "Invalid Content-Length header value."@
}

pub open spec fn msg_trailing_data() -> Seq<char> {
    "Unexpected data after chunked encoding termination."@
}

pub open spec fn msg_chunk_mismatch() -> Seq<char> {
    "Invalid chunk size or missing chunk data."@
}

pub open spec fn msg_bad_size_token() -> Seq<char> {
    "Invalid chunk size format in body."@
}

pub open spec fn msg_status(code: nat) -> Seq<char> {
    "Suspicious status code ("@ + dec_chars(code) + ") detected, possibly due to smuggling."@
}

pub open spec fn msg_injected(name: Seq<char>) -> Seq<char> {
    "Suspicious header '"@ + name + "' found, possibly injected."@
}

pub open spec fn msg_empty_response() -> Seq<char> {
    "Empty or invalid response, possibly due to smuggling."@
}

/// Rule one: conflicting framing headers echoed back.
pub open spec fn rule_both(m: ResponseModel) -> Seq<Seq<char>> {
    if spec_has_chunked(m) && spec_header_value(m.headers, cl_name()) is Some {
        seq![msg_both_headers()]
    } else {
        Seq::empty()
    }
}

/// Rule two: a `Content-Length` that does not parse, or that differs
/// from the actual body length.
pub open spec fn rule_content_length(m: ResponseModel) -> Seq<Seq<char>> {
    match spec_header_value(m.headers, cl_name()) {
        None => Seq::empty(),
        Some(v) => match spec_parse_dec(v, usize::MAX as nat) {
            Some(expected) => if expected != m.body.len() {
                seq![msg_len_mismatch(expected, m.body.len())]
            } else {
                Seq::empty()
            },
            None => seq![msg_invalid_cl()],
        },
    }
}

/// Rule three: malformed chunked framing in the body.
pub open spec fn rule_chunked_body(m: ResponseModel) -> Seq<Seq<char>> {
    if spec_has_chunked(m) {
        match spec_chunk_fault(spec_split_crlf(m.body), 0) {
            Some(ChunkFault::TrailingData) => seq![msg_trailing_data()],
            Some(ChunkFault::ChunkMismatch) => seq![msg_chunk_mismatch()],
            Some(ChunkFault::BadSizeToken) => seq![msg_bad_size_token()],
            None => Seq::empty(),
        }
    } else {
        Seq::empty()
    }
}

pub open spec fn suspicious_status(code: u16) -> bool {
    code == 400 || code == 408 || code == 502 || code == 0 || code == 500 || code == 503
}

/// Rule four: a status code typical of a confused intermediary.
pub open spec fn rule_status(m: ResponseModel) -> Seq<Seq<char>> {
    if suspicious_status(m.status_code) {
        seq![msg_status(m.status_code as nat)]
    } else {
        Seq::empty()
    }
}

/// Rule five: headers that a smuggled request may have injected.
pub open spec fn rule_injected(m: ResponseModel) -> Seq<Seq<char>> {
    (if spec_header_value(m.headers, "X-HTTP-Method-Override".spec_bytes()) is Some {
        seq![msg_injected("X-HTTP-Method-Override"@)]
    } else {
        Seq::empty()
    }) + (if spec_header_value(m.headers, "X-Forwarded-For".spec_bytes()) is Some {
        seq![msg_injected("X-Forwarded-For"@)]
    } else {
        Seq::empty()
    }) + (if spec_header_value(m.headers, "X-Forwarded-Host".spec_bytes()) is Some {
        seq![msg_injected("X-Forwarded-Host"@)]
    } else {
        Seq::empty()
    })
}

/// Rule six: a fully empty response, layered on top of rule four.
pub open spec fn rule_empty(m: ResponseModel) -> Seq<Seq<char>> {
    if m.status_code == 0 && m.body.len() == 0 && m.headers.len() == 0 {
        seq![msg_empty_response()]
    } else {
        Seq::empty()
    }
}

/// Every reason the rule set yields, in evaluation order.
pub open spec fn spec_reasons(m: ResponseModel) -> Seq<Seq<char>> {
    rule_both(m) + rule_content_length(m) + rule_chunked_body(m) + rule_status(m) + rule_injected(
        m,
    ) + rule_empty(m)
}

/// The overall judgment: some rule fired.
pub open spec fn spec_is_smuggling(m: ResponseModel) -> bool {
    spec_reasons(m).len() > 0
}

impl Response {
    /// The decoded status code; zero stands for an absent or unreadable
    /// status line.
    pub fn status_code(&self) -> (r: u16)
        ensures
            r == self@.status_code,
    {
        self.status_code
    }

    /// The decoded body, verbatim.
    pub fn body(&self) -> (r: &Vec<u8>)
        ensures
            r@ == self@.body,
    {
        &self.body
    }

    /// How many distinct headers were decoded.
    pub fn header_count(&self) -> (r: usize)
        ensures
            r == self@.headers.len(),
    {
        self.headers.len()
    }

    /// The value stored under `name`, if any.
    pub fn header_value<'a>(&'a self, name: &[u8]) -> (r: Option<&'a Vec<u8>>)
        ensures
            match r {
                Some(v) => spec_header_value(self@.headers, name@) == Some(v@),
                None => spec_header_value(self@.headers, name@) is None,
            },
    {
        find_header(&self.headers, name)
    }

    /// Whether the response carries chunked transfer encoding.
    fn has_chunked(&self) -> (r: bool)
        ensures
            r == spec_has_chunked(self@),
    {
        match find_header(&self.headers, "Transfer-Encoding".as_bytes()) {
            Some(v) => match utf8_to_str(v.as_slice()) {
                Some(s) => {
                    proof {
                        vstd::utf8::encode_utf8_decode_utf8(s@);
                    }
                    let lower = lowercase_str(s);
                    str_contains(lower.as_str(), "chunked")
                },
                None => false,
            },
            None => false,
        }
    }

    fn push_rule_both(&self, reasons: &mut Vec<String>)
        ensures
            final (reasons)@.map_values(|s: String| s@) == old(reasons)@.map_values(|s: String| s@)
                + rule_both(self@),
    {
        let has_chunked = self.has_chunked();
        let has_content_length = find_header(
            &self.headers,
            "Content-Length".as_bytes(),
        ).is_some();
        if has_chunked && has_content_length {
            reasons.push(String::from_str(
                "Both Transfer-Encoding: chunked and Content-Length headers are present.",
            ));
        }
        assert(final (reasons)@.map_values(|s: String| s@) =~= old(reasons)@.map_values(
            |s: String| s@,
        ) + rule_both(self@));
    }

    fn push_rule_content_length(&self, reasons: &mut Vec<String>)
        ensures
            final (reasons)@.map_values(|s: String| s@) == old(reasons)@.map_values(|s: String| s@)
                + rule_content_length(self@),
    {
        match find_header(&self.headers, "Content-Length".as_bytes()) {
            Some(v) => {
                match parse_dec_u64(v.as_slice(), usize::MAX as u64) {
                    Some(expected64) => {
                        let expected = expected64 as usize;
                        let actual = self.body.len();
                        if actual != expected {
                            let mut s = String::from_str("Content-Length (");
                            s.append(dec_string(expected as u64).as_str());
                            s.append(") does not match actual body length (");
                            s.append(dec_string(actual as u64).as_str());
                            s.append(").");
                            assert(s@ =~= msg_len_mismatch(expected as nat, self@.body.len()));
                            reasons.push(s);
                        }
                    },
                    None => {
                        reasons.push(String::from_str("Invalid Content-Length header value."));
                    },
                }
            },
            None => {},
        }
        assert(final (reasons)@.map_values(|s: String| s@) =~= old(reasons)@.map_values(
            |s: String| s@,
        ) + rule_content_length(self@));
    }

    fn push_rule_chunked_body(&self, reasons: &mut Vec<String>)
        ensures
            final (reasons)@.map_values(|s: String| s@) == old(reasons)@.map_values(|s: String| s@)
                + rule_chunked_body(self@),
    {
        if self.has_chunked() {
            let body_lines = split_crlf(self.body.as_slice());
            match chunk_walk(&body_lines) {
                Some(ChunkFault::TrailingData) => {
                    reasons.push(String::from_str(
                        "Unexpected data after chunked encoding termination.",
                    ));
                },
                Some(ChunkFault::ChunkMismatch) => {
                    reasons.push(String::from_str("Invalid chunk size or missing chunk data."));
                },
                Some(ChunkFault::BadSizeToken) => {
                    reasons.push(String::from_str("Invalid chunk size format in body."));
                },
                None => {},
            }
        }
        assert(final (reasons)@.map_values(|s: String| s@) =~= old(reasons)@.map_values(
            |s: String| s@,
        ) + rule_chunked_body(self@));
    }

    fn push_rule_status(&self, reasons: &mut Vec<String>)
        ensures
            final (reasons)@.map_values(|s: String| s@) == old(reasons)@.map_values(|s: String| s@)
                + rule_status(self@),
    {
        let sc = self.status_code;
        if sc == 400 || sc == 408 || sc == 502 || sc == 0 || sc == 500 || sc == 503 {
            let mut s = String::from_str("Suspicious status code (");
            s.append(dec_string(sc as u64).as_str());
            s.append(") detected, possibly due to smuggling.");
            assert(s@ =~= msg_status(self@.status_code as nat));
            reasons.push(s);
        }
        assert(final (reasons)@.map_values(|s: String| s@) =~= old(reasons)@.map_values(
            |s: String| s@,
        ) + rule_status(self@));
    }

    fn push_rule_injected(&self, reasons: &mut Vec<String>)
        ensures
            final (reasons)@.map_values(|s: String| s@) == old(reasons)@.map_values(|s: String| s@)
                + rule_injected(self@),
    {
        let ghost before = reasons@.map_values(|s: String| s@);
        if find_header(&self.headers, "X-HTTP-Method-Override".as_bytes()).is_some() {
            let mut s = String::from_str("Suspicious header '");
            s.append("X-HTTP-Method-Override");
            s.append("' found, possibly injected.");
            assert(s@ =~= msg_injected("X-HTTP-Method-Override"@));
            reasons.push(s);
        }
        if find_header(&self.headers, "X-Forwarded-For".as_bytes()).is_some() {
            let mut s = String::from_str("Suspicious header '");
            s.append("X-Forwarded-For");
            s.append("' found, possibly injected.");
            assert(s@ =~= msg_injected("X-Forwarded-For"@));
            reasons.push(s);
        }
        if find_header(&self.headers, "X-Forwarded-Host".as_bytes()).is_some() {
            let mut s = String::from_str("Suspicious header '");
            s.append("X-Forwarded-Host");
            s.append("' found, possibly injected.");
            assert(s@ =~= msg_injected("X-Forwarded-Host"@));
            reasons.push(s);
        }
        assert(final (reasons)@.map_values(|s: String| s@) =~= before + rule_injected(self@));
    }

    fn push_rule_empty(&self, reasons: &mut Vec<String>)
        ensures
            final (reasons)@.map_values(|s: String| s@) == old(reasons)@.map_values(|s: String| s@)
                + rule_empty(self@),
    {
        if self.status_code == 0 && self.body.len() == 0 && self.headers.len() == 0 {
            reasons.push(String::from_str("Empty or invalid response, possibly due to smuggling."));
        }
        assert(final (reasons)@.map_values(|s: String| s@) =~= old(reasons)@.map_values(
            |s: String| s@,
        ) + rule_empty(self@));
    }

    /// Applies the heuristic rule set: the returned reasons are exactly
    /// `spec_reasons` of the decoded response, in evaluation order, and
    /// the flag is true exactly when at least one rule fired.
    pub fn analyze_smuggling(&self) -> (r: (bool, Vec<String>))
        ensures
            r.1@.map_values(|s: String| s@) == spec_reasons(self@),
            r.0 == spec_is_smuggling(self@),
    {
        let ghost m = self@;
        let mut reasons: Vec<String> = Vec::new();
        self.push_rule_both(&mut reasons);
        self.push_rule_content_length(&mut reasons);
        self.push_rule_chunked_body(&mut reasons);
        self.push_rule_status(&mut reasons);
        self.push_rule_injected(&mut reasons);
        self.push_rule_empty(&mut reasons);
        assert(reasons@.map_values(|s: String| s@) =~= spec_reasons(m));
        let is_smuggling = reasons.len() > 0;
        (is_smuggling, reasons)
    }
}

} // verus!
