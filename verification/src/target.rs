//! Target resolver: turns a URL of the shape `scheme://host[:port][/path]`
//! with `scheme` either `http` or `https` into a [`TargetConfig`]. Any
//! other shape is rejected; the port defaults to 443 or 80 by scheme and
//! the path defaults to `/`.

use vstd::prelude::*;
use vstd::string::*;
use crate::text::dec_chars;
use crate::text::dec_bytes;
use crate::text::lemma_dec_bytes_digits;

verus! {

/// The one fatal error of the resolver: the URL does not match the
/// accepted grammar.
#[derive(Debug, Clone, Copy, PartialEq, Eq, Structural)]
pub struct MalformedUrlError;

/// Where one probe run is aimed: scheme, host, port and path, immutable
/// once derived from the input URL.
#[derive(Debug, Clone)]
pub struct TargetConfig {
    pub uses_tls: bool,
    pub host: String,
    pub port: u16,
    pub path: String,
}

/// The mathematical content of a [`TargetConfig`].
#[verifier::ext_equal]
pub ghost struct TargetModel {
    pub uses_tls: bool,
    pub host: Seq<char>,
    pub port: u16,
    pub path: Seq<char>,
}

impl View for TargetConfig {
    type V = TargetModel;

    open spec fn view(&self) -> TargetModel {
        TargetModel {
            uses_tls: self.uses_tls,
            host: self.host@,
            port: self.port,
            path: self.path@,
        }
    }
}

/// A character that ends the host part.
pub open spec fn is_stop_char(c: char) -> bool {
    c == ':' || c == '/'
}

pub open spec fn is_digit_char(c: char) -> bool {
    0x30 <= c as u32 <= 0x39
}

/// Index of the first host-ending character at or after `from`;
/// `s.len()` when there is none.
pub open spec fn find_stop(s: Seq<char>, from: int) -> int
    decreases s.len() - from,
{
    if from < 0 || from >= s.len() {
        s.len() as int
    } else if is_stop_char(s[from]) {
        from
    } else {
        find_stop(s, from + 1)
    }
}

/// Index of the first `/` at or after `from`; `s.len()` when there is
/// none.
pub open spec fn find_slash(s: Seq<char>, from: int) -> int
    decreases s.len() - from,
{
    if from < 0 || from >= s.len() {
        s.len() as int
    } else if s[from] == '/' {
        from
    } else {
        find_slash(s, from + 1)
    }
}

pub open spec fn all_digit_chars(s: Seq<char>) -> bool {
    forall|i: int| 0 <= i < s.len() ==> is_digit_char(#[trigger] s[i])
}

/// Value of a digit-character string read in decimal.
pub open spec fn dec_value_chars(s: Seq<char>) -> nat
    decreases s.len(),
{
    if s.len() == 0 {
        0
    } else {
        dec_value_chars(s.drop_last()) * 10 + (if is_digit_char(s.last()) {
            (s.last() as u32 - 0x30) as nat
        } else {
            0
        })
    }
}

pub open spec fn default_port(tls: bool) -> u16 {
    if tls {
        443
    } else {
        80
    }
}

/// The accepted grammar after the scheme: a non-empty host of characters
/// other than `:` and `/`, an optional `:` with a decimal port that fits
/// in sixteen bits, and an optional path beginning with `/`.
pub open spec fn spec_parse_rest(r: Seq<char>, tls: bool) -> Option<TargetModel> {
    let hend = find_stop(r, 0);
    if hend == 0 {
        None
    } else if hend == r.len() {
        Some(
            TargetModel {
                uses_tls: tls,
                host: r.take(hend),
                port: default_port(tls),
                path: "/"@,
            },
        )
    } else if r[hend] == ':' {
        let pend = find_slash(r, hend + 1);
        let digits = r.subrange(hend + 1, pend);
        if digits.len() > 0 && all_digit_chars(digits) && dec_value_chars(digits) <= 0xffff {
            Some(
                TargetModel {
                    uses_tls: tls,
                    host: r.take(hend),
                    port: dec_value_chars(digits) as u16,
                    path: if pend == r.len() {
                        "/"@
                    } else {
                        r.skip(pend)
                    },
                },
            )
        } else {
            None
        }
    } else {
        Some(
            TargetModel {
                uses_tls: tls,
                host: r.take(hend),
                port: default_port(tls),
                path: r.skip(hend),
            },
        )
    }
}

/// What the resolver accepts: `https://` or `http://`, then the rest of
/// the grammar.
pub open spec fn spec_parse_target(s: Seq<char>) -> Option<TargetModel> {
    if s.len() >= 8 && s.take(8) == "https://"@ {
        spec_parse_rest(s.skip(8), true)
    } else if s.len() >= 7 && s.take(7) == "http://"@ {
        spec_parse_rest(s.skip(7), false)
    } else {
        None
    }
}

/// A well-formed target: non-empty host free of `:` and `/`, and a path
/// that begins with `/`.
pub open spec fn target_wf(m: TargetModel) -> bool {
    &&& m.host.len() > 0
    &&& forall|i: int| 0 <= i < m.host.len() ==> !is_stop_char(#[trigger] m.host[i])
    &&& m.path.len() > 0
    &&& m.path[0] == '/'
}

/// The URL implied by a target, with its port written out.
pub open spec fn spec_url_of(m: TargetModel) -> Seq<char> {
    (if m.uses_tls {
        "https://"@
    } else {
        "http://"@
    }) + m.host + seq![':'] + dec_chars(m.port as nat) + m.path
}

pub proof fn lemma_find_stop_exact(s: Seq<char>, from: int, k: int)
    requires
        0 <= from <= k < s.len(),
        forall|j: int| from <= j < k ==> !is_stop_char(#[trigger] s[j]),
        is_stop_char(s[k]),
    ensures
        find_stop(s, from) == k,
    decreases k - from,
{
    if from < k {
        lemma_find_stop_exact(s, from + 1, k);
    }
}

pub proof fn lemma_find_slash_exact(s: Seq<char>, from: int, k: int)
    requires
        0 <= from <= k < s.len(),
        forall|j: int| from <= j < k ==> s[j] != '/',
        s[k] == '/',
    ensures
        find_slash(s, from) == k,
    decreases k - from,
{
    if from < k {
        lemma_find_slash_exact(s, from + 1, k);
    }
}

proof fn lemma_dec_chars_digits(n: nat)
    ensures
        dec_chars(n).len() >= 1,
        all_digit_chars(dec_chars(n)),
        dec_value_chars(dec_chars(n)) == n,
    decreases n,
{
    lemma_dec_bytes_digits(n);
    assert forall|i: int| 0 <= i < dec_chars(n).len() implies is_digit_char(
        #[trigger] dec_chars(n)[i],
    ) by {
        assert(crate::text::is_dec_digit(dec_bytes(n)[i]));
    }
    if n < 10 {
        let c = ((0x30 + n) as u8) as char;
        assert(c as u32 == 0x30 + n);
        assert(dec_chars(n) =~= seq![c]);
        assert(dec_chars(n).drop_last() =~= Seq::<char>::empty());
        assert(dec_chars(n).last() == c);
        assert(dec_value_chars(Seq::<char>::empty()) == 0);
        assert(dec_value_chars(dec_chars(n)) == n);
    } else {
        lemma_dec_chars_digits(n / 10);
        let c = ((0x30 + n % 10) as u8) as char;
        assert(c as u32 == 0x30 + n % 10);
        assert(dec_chars(n) =~= dec_chars(n / 10).push(c));
        assert(dec_chars(n).drop_last() =~= dec_chars(n / 10));
        assert(dec_chars(n).last() == c);
        assert(dec_value_chars(dec_chars(n)) == n / 10 * 10 + n % 10);
    }
}

proof fn lemma_dec_value_chars_step(s: Seq<char>, k: int)
    requires
        0 <= k < s.len(),
    ensures
        dec_value_chars(s.take(k + 1)) == dec_value_chars(s.take(k)) * 10 + (if is_digit_char(
            s[k],
        ) {
            (s[k] as u32 - 0x30) as nat
        } else {
            0
        }),
{
    assert(s.take(k + 1).drop_last() =~= s.take(k));
    assert(s.take(k + 1).last() == s[k]);
}

proof fn lemma_dec_value_chars_prefix_le(s: Seq<char>, k: int)
    requires
        0 <= k <= s.len(),
    ensures
        dec_value_chars(s.take(k)) <= dec_value_chars(s),
    decreases s.len() - k,
{
    if k < s.len() {
        lemma_dec_value_chars_step(s, k);
        assert(dec_value_chars(s.take(k)) * 10 >= dec_value_chars(s.take(k)) * 1)
            by (nonlinear_arith);
        lemma_dec_value_chars_prefix_le(s, k + 1);
        assert(s.take(s.len() as int) =~= s);
    } else {
        assert(s.take(k) =~= s);
    }
}

/// Serializing an accepted target back to a URL, with its port written
/// out, and re-parsing that URL reproduces the same configuration.
pub proof fn lemma_url_round_trip(m: TargetModel)
    requires
        target_wf(m),
    ensures
        spec_parse_target(spec_url_of(m)) == Some(m),
{
    reveal_strlit("https://");
    reveal_strlit("http://");
    reveal_strlit("/");
    let url = spec_url_of(m);
    let scheme: Seq<char> = if m.uses_tls {
        "https://"@
    } else {
        "http://"@
    };
    let k = scheme.len() as int;
    lemma_dec_chars_digits(m.port as nat);
    let digits = dec_chars(m.port as nat);
    assert(url.len() == k + m.host.len() + 1 + digits.len() + m.path.len());
    assert(url.take(k) =~= scheme);
    if m.uses_tls {
        assert(url.len() >= 8 && url.take(8) == "https://"@);
    } else {
        assert(url[4] == ':');
        if url.len() >= 8 && url.take(8) == "https://"@ {
            assert(url.take(8)[4] == url[4]);
            assert(false);
        }
        assert(url.len() >= 7 && url.take(7) == "http://"@);
    }
    let r = url.skip(k);
    assert(r =~= m.host + seq![':'] + digits + m.path);
    let hlen = m.host.len() as int;
    assert(r[hlen] == ':');
    assert forall|j: int| 0 <= j < hlen implies !is_stop_char(#[trigger] r[j]) by {
        assert(r[j] == m.host[j]);
    }
    lemma_find_stop_exact(r, 0, hlen);
    assert(find_stop(r, 0) == hlen);
    assert(hlen > 0 && hlen < r.len());
    assert(r.take(hlen) =~= m.host);
    let pstart = hlen + 1;
    let pend = pstart + digits.len() as int;
    assert(r[pend] == m.path[0]);
    assert forall|j: int| pstart <= j < pend implies r[j] != '/' by {
        assert(r[j] == digits[j - pstart]);
        assert(is_digit_char(digits[j - pstart]));
    }
    lemma_find_slash_exact(r, pstart, pend);
    assert(r.subrange(pstart, pend) =~= digits);
    assert(dec_value_chars(digits) == m.port as nat);
    assert(pend < r.len());
    assert(r.skip(pend) =~= m.path);
    assert(spec_parse_rest(r, m.uses_tls) == Some(m));
}

impl TargetConfig {
    /// Parses a target URL, accepting exactly the grammar of
    /// `spec_parse_target` and reporting the parsed fields.
    pub fn from_url(url: &str) -> (r: Result<TargetConfig, MalformedUrlError>)
        ensures
            match r {
                Ok(cfg) => spec_parse_target(url@) == Some(cfg@) && target_wf(cfg@),
                Err(_) => spec_parse_target(url@) is None,
            },
    {
        let n = url.unicode_len();
        let tls: bool;
        let hstart: usize;
        proof {
            reveal_strlit("https://");
            reveal_strlit("http://");
        }
        if n >= 8 && url.get_char(0) == 'h' && url.get_char(1) == 't' && url.get_char(2) == 't'
            && url.get_char(3) == 'p' && url.get_char(4) == 's' && url.get_char(5) == ':'
            && url.get_char(6) == '/' && url.get_char(7) == '/' {
            tls = true;
            hstart = 8;
            assert(url@.take(8) =~= "https://"@);
        } else if n >= 7 && url.get_char(0) == 'h' && url.get_char(1) == 't' && url.get_char(2)
            == 't' && url.get_char(3) == 'p' && url.get_char(4) == ':' && url.get_char(5) == '/'
            && url.get_char(6) == '/' {
            tls = false;
            hstart = 7;
            assert(url@.take(7) =~= "http://"@);
            assert(url@.len() >= 8 ==> url@.take(8) != "https://"@) by {
                if url@.len() >= 8 && url@.take(8) == "https://"@ {
                    assert(url@.take(8)[4] == url@[4]);
                    assert(url@.take(7)[4] == url@[4]);
                }
            }
        } else {
            assert(spec_parse_target(url@) is None) by {
                if url@.len() >= 8 && url@.take(8) == "https://"@ {
                    assert(url@.take(8)[0] == url@[0]);
                    assert(url@.take(8)[1] == url@[1]);
                    assert(url@.take(8)[2] == url@[2]);
                    assert(url@.take(8)[3] == url@[3]);
                    assert(url@.take(8)[4] == url@[4]);
                    assert(url@.take(8)[5] == url@[5]);
                    assert(url@.take(8)[6] == url@[6]);
                    assert(url@.take(8)[7] == url@[7]);
                }
                if url@.len() >= 7 && url@.take(7) == "http://"@ {
                    assert(url@.take(7)[0] == url@[0]);
                    assert(url@.take(7)[1] == url@[1]);
                    assert(url@.take(7)[2] == url@[2]);
                    assert(url@.take(7)[3] == url@[3]);
                    assert(url@.take(7)[4] == url@[4]);
                    assert(url@.take(7)[5] == url@[5]);
                    assert(url@.take(7)[6] == url@[6]);
                }
            }
            return Err(MalformedUrlError);
        }
        let rest = url.substring_char(hstart, n);
        let ghost rv = rest@;
        assert(rv =~= url@.skip(hstart as int));
        let m = rest.unicode_len();
        let mut hend: usize = 0;
        while hend < m && !stop_char_at(rest, hend)
            invariant
                0 <= hend <= m,
                m == rv.len(),
                rv == rest@,
                find_stop(rv, 0) == find_stop(rv, hend as int),
            decreases m - hend,
        {
            hend = hend + 1;
        }
        assert(hend == find_stop(rv, 0));
        if hend == 0 {
            return Err(MalformedUrlError);
        }
        let host = rest.substring_char(0, hend).to_owned();
        proof {
            lemma_find_stop_bounds(rv, 0);
        }
        if hend == m {
            let cfg = TargetConfig {
                uses_tls: tls,
                host,
                port: if tls {
                    443
                } else {
                    80
                },
                path: String::from_str("/"),
            };
            proof {
                reveal_strlit("/");
            }
            assert(cfg@ =~= spec_parse_rest(rv, tls).unwrap());
            return Ok(cfg);
        }
        let stop = rest.get_char(hend);
        if stop == ':' {
            assert(spec_parse_target(url@) == spec_parse_rest(rv, tls));
            let pstart = hend + 1;
            let mut pend: usize = pstart;
            while pend < m && !slash_char_at(rest, pend)
                invariant
                    pstart <= pend <= m,
                    m == rv.len(),
                    rv == rest@,
                    pstart <= rv.len(),
                    find_slash(rv, pstart as int) == find_slash(rv, pend as int),
                decreases m - pend,
            {
                pend = pend + 1;
            }
            assert(pend == find_slash(rv, pstart as int));
            let ghost digits = rv.subrange(pstart as int, pend as int);
            if pend == pstart {
                assert(digits.len() == 0);
                return Err(MalformedUrlError);
            }
            let mut acc: u32 = 0;
            let mut i: usize = pstart;
            while i < pend
                invariant
                    pstart <= i <= pend <= m,
                    m == rv.len(),
                    rv == rest@,
                    spec_parse_target(url@) == spec_parse_rest(rv, tls),
                    find_stop(rv, 0) == hend as int,
                    hend != 0,
                    hend < m,
                    pstart == hend + 1,
                    rv[hend as int] == ':',
                    pend == find_slash(rv, pstart as int),
                    digits == rv.subrange(pstart as int, pend as int),
                    digits.len() > 0,
                    acc <= 0xffff,
                    acc == dec_value_chars(digits.take(i - pstart)),
                    forall|j: int| 0 <= j < i - pstart ==> is_digit_char(#[trigger] digits[j]),
                decreases pend - i,
            {
                let c = rest.get_char(i);
                let cu = c as u32;
                if !(0x30 <= cu && cu <= 0x39) {
                    assert(!is_digit_char(digits[i - pstart]));
                    return Err(MalformedUrlError);
                }
                let d: u32 = cu - 0x30;
                proof {
                    lemma_dec_value_chars_step(digits, i - pstart);
                }
                let next: u32 = acc * 10 + d;
                if next > 0xffff {
                    proof {
                        lemma_dec_value_chars_prefix_le(digits, i - pstart + 1);
                    }
                    return Err(MalformedUrlError);
                }
                acc = next;
                i = i + 1;
            }
            assert(digits.take(i - pstart) =~= digits);
            let port: u16 = acc as u16;
            let path = if pend == m {
                proof {
                    reveal_strlit("/");
                }
                String::from_str("/")
            } else {
                rest.substring_char(pend, m).to_owned()
            };
            let cfg = TargetConfig { uses_tls: tls, host, port, path };
            assert(cfg@ =~= spec_parse_rest(rv, tls).unwrap());
            return Ok(cfg);
        }
        assert(rv[hend as int] == '/');
        let path = rest.substring_char(hend, m).to_owned();
        let cfg = TargetConfig {
            uses_tls: tls,
            host,
            port: if tls {
                443
            } else {
                80
            },
            path,
        };
        assert(cfg@ =~= spec_parse_rest(rv, tls).unwrap());
        Ok(cfg)
    }
}

fn stop_char_at(s: &str, i: usize) -> (b: bool)
    requires
        i < s@.len(),
    ensures
        b == is_stop_char(s@[i as int]),
{
    let c = s.get_char(i);
    c == ':' || c == '/'
}

fn slash_char_at(s: &str, i: usize) -> (b: bool)
    requires
        i < s@.len(),
    ensures
        b == (s@[i as int] == '/'),
{
    s.get_char(i) == '/'
}

pub proof fn lemma_find_stop_bounds(s: Seq<char>, from: int)
    requires
        0 <= from <= s.len(),
    ensures
        from <= find_stop(s, from) <= s.len(),
        find_stop(s, from) < s.len() ==> is_stop_char(s[find_stop(s, from)]),
        forall|j: int| from <= j < find_stop(s, from) ==> !is_stop_char(#[trigger] s[j]),
    decreases s.len() - from,
{
    if from < s.len() && !is_stop_char(s[from]) {
        lemma_find_stop_bounds(s, from + 1);
    }
}

} // verus!
