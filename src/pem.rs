//! PEM framing of DER certificates.

use vstd::prelude::*;
use vstd::string::*;
use vstd::utf8::is_ascii_chars;

verus! {

broadcast use vstd::string::is_ascii_spec_bytes;

/// Characters per line of the base64 body.
pub const LINE_WIDTH: usize = 65;

/// First line of a PEM certificate block, with its line break.
pub const PEM_HEADER: &'static str = "-----BEGIN CERTIFICATE-----\n";

/// Line break closing the body, and the last line of the block.
pub const PEM_FOOTER: &'static str = "\n-----END CERTIFICATE-----\n";

/// Padded base64 of `bytes`, as `data_encoding::BASE64` writes it.
pub uninterp spec fn base64_of(bytes: Seq<u8>) -> Seq<char>;

/// A symbol of the padded base64 alphabet.
pub open spec fn is_base64_symbol(c: char) -> bool {
    ('A' <= c <= 'Z') || ('a' <= c <= 'z') || ('0' <= c <= '9') || c == '+' || c == '/' || c == '='
}

/// Text made of base64 symbols only.
pub open spec fn is_base64_text(s: Seq<char>) -> bool {
    forall|i: int| 0 <= i < s.len() ==> is_base64_symbol(#[trigger] s[i])
}

/// The bytes of an ASCII text.
pub open spec fn ascii_bytes(s: Seq<char>) -> Seq<u8> {
    s.map_values(|c: char| c as u8)
}

/// Relies on `data_encoding::BASE64.encode`: the padded base64 of the input,
/// written in the RFC 4648 alphabet.
#[verifier::external_body]
fn base64_encode(bytes: &[u8]) -> (r: String)
    ensures
        r@ == base64_of(bytes@),
        is_base64_text(r@),
{
    data_encoding::BASE64.encode(bytes)
}

/// Relies on `data_encoding::BASE64.decode`: the encoding is correct, so
/// decoding the encoding of some bytes returns those bytes. (It also accepts
/// some other texts, such as padded blocks one after the other.)
#[verifier::external_body]
fn base64_decode(text: &[u8]) -> (r: Option<Vec<u8>>)
    ensures
        forall|v: Seq<u8>| text@ == ascii_bytes(#[trigger] base64_of(v)) ==> (r is Some && r->0@ == v),
{
    data_encoding::BASE64.decode(text).ok()
}

/// `s` broken into lines of `LINE_WIDTH` characters; the last line may be
/// shorter and has no line break after it.
pub open spec fn wrap_lines(s: Seq<char>) -> Seq<char>
    decreases s.len(),
{
    if s.len() <= LINE_WIDTH {
        s
    } else {
        s.take(LINE_WIDTH as int) + seq!['\n'] + wrap_lines(s.skip(LINE_WIDTH as int))
    }
}

/// The PEM block of a DER certificate.
pub open spec fn pem_of(der: Seq<u8>) -> Seq<char> {
    PEM_HEADER@ + wrap_lines(base64_of(der)) + PEM_FOOTER@
}

/// `b` without its line-feed bytes.
pub open spec fn strip_newlines(b: Seq<u8>) -> Seq<u8>
    decreases b.len(),
{
    if b.len() == 0 {
        b
    } else if b.last() == 10 {
        strip_newlines(b.drop_last())
    } else {
        strip_newlines(b.drop_last()).push(b.last())
    }
}

/// The base64 body of a PEM certificate block, as bytes without line
/// breaks; `None` where the text is not ASCII or lacks the framing lines.
pub open spec fn pem_body(p: Seq<char>) -> Option<Seq<u8>> {
    let h = PEM_HEADER@;
    let f = PEM_FOOTER@;
    if is_ascii_chars(p) && p.len() >= h.len() + f.len() && p.take(h.len() as int) == h && p.skip(
        p.len() - f.len(),
    ) == f {
        Some(strip_newlines(ascii_bytes(p.subrange(h.len() as int, p.len() - f.len()))))
    } else {
        None
    }
}

/// The PEM block of a DER certificate: base64 of the bytes in lines of 65
/// characters between the `BEGIN CERTIFICATE` and `END CERTIFICATE` lines.
pub fn to_pem(der: &[u8]) -> (r: String)
    ensures
        r@ == pem_of(der@),
        is_base64_text(base64_of(der@)),
{
    let b64 = base64_encode(der);
    let text = b64.as_str();
    proof {
        reveal_strlit("\n");
        assert(is_ascii(text));
    }
    let n = text.unicode_len();
    let mut pem = PEM_HEADER.to_owned();
    let mut i: usize = 0;
    assert(text@.skip(0) =~= text@);
    while n - i > LINE_WIDTH
        invariant
            i <= n,
            n == text@.len(),
            text@ == base64_of(der@),
            is_ascii(text),
            "\n"@ == seq!['\n'],
            pem@ + wrap_lines(text@.skip(i as int)) == PEM_HEADER@ + wrap_lines(text@),
        decreases n - i,
    {
        let line = text.substring_ascii(i, i + LINE_WIDTH);
        proof {
            let rest = text@.skip(i as int);
            assert(rest.take(LINE_WIDTH as int) =~= line@);
            assert(rest.skip(LINE_WIDTH as int) =~= text@.skip(i + LINE_WIDTH));
            assert(pem@ + line@ + "\n"@ + wrap_lines(text@.skip(i + LINE_WIDTH)) =~= pem@
                + wrap_lines(rest));
        }
        pem.append(line);
        pem.append("\n");
        i = i + LINE_WIDTH;
    }
    let last = text.substring_ascii(i, n);
    assert(last@ =~= text@.skip(i as int));
    pem.append(last);
    pem.append(PEM_FOOTER);
    pem
}

/// The DER bytes held in a PEM certificate block: the framing lines are
/// checked, the line breaks of the body dropped and the base64 decoded. Only
/// a body that is exactly the encoding of what it decodes to is accepted.
pub fn der_from_pem(pem: &str) -> (r: Option<Vec<u8>>)
    ensures
        pem_body(pem@) is None ==> r is None,
        r is Some ==> pem_body(pem@) == Some(ascii_bytes(base64_of(r->0@))),
        forall|v: Seq<u8>|
            pem_body(pem@) == Some(ascii_bytes(#[trigger] base64_of(v))) ==> (r is Some && r->0@
                == v),
{
    proof {
        reveal_strlit("-----BEGIN CERTIFICATE-----\n");
        reveal_strlit("\n-----END CERTIFICATE-----\n");
    }
    if !pem.is_ascii() {
        return None;
    }
    let n = pem.unicode_len();
    let h: usize = 28;
    let f: usize = 27;
    if n < h + f {
        return None;
    }
    let head = pem.substring_ascii(0, h).to_owned();
    let tail = pem.substring_ascii(n - f, n).to_owned();
    if !(head == PEM_HEADER.to_owned()) || !(tail == PEM_FOOTER.to_owned()) {
        proof {
            assert(pem@.take(h as int) =~= head@);
            assert(pem@.skip(n - f) =~= tail@);
        }
        return None;
    }
    assert(pem@.take(h as int) =~= PEM_HEADER@);
    assert(pem@.skip(n - f) =~= PEM_FOOTER@);
    let bytes = pem.as_bytes();
    assert(bytes@ =~= ascii_bytes(pem@));
    let mut body: Vec<u8> = Vec::new();
    let mut i: usize = h;
    assert(ascii_bytes(pem@.subrange(h as int, h as int)) =~= Seq::<u8>::empty());
    while i < n - f
        invariant
            h <= i <= n - f,
            n == pem@.len(),
            bytes@ == ascii_bytes(pem@),
            body@ == strip_newlines(ascii_bytes(pem@.subrange(h as int, i as int))),
        decreases n - f - i,
    {
        let b = bytes[i];
        proof {
            let next = ascii_bytes(pem@.subrange(h as int, i + 1));
            assert(next.drop_last() =~= ascii_bytes(pem@.subrange(h as int, i as int)));
            assert(next.last() == b);
        }
        if b != 10 {
            body.push(b);
        }
        i = i + 1;
    }
    match base64_decode(body.as_slice()) {
        Some(v) => {
            let again = base64_encode(v.as_slice());
            let text = again.as_str();
            proof {
                assert(is_ascii(text));
            }
            let enc = text.as_bytes();
            assert(enc@ =~= ascii_bytes(base64_of(v@)));
            if same_bytes(enc, body.as_slice()) {
                Some(v)
            } else {
                None
            }
        },
        None => None,
    }
}

/// Whether two byte strings are equal.
fn same_bytes(a: &[u8], b: &[u8]) -> (r: bool)
    ensures
        r == (a@ == b@),
{
    if a.len() != b.len() {
        return false;
    }
    let mut i: usize = 0;
    while i < a.len()
        invariant
            i <= a.len(),
            a@.len() == b@.len(),
            forall|k: int| 0 <= k < i ==> a@[k] == b@[k],
        decreases a.len() - i,
    {
        if a[i] != b[i] {
            return false;
        }
        i = i + 1;
    }
    assert(a@ =~= b@);
    true
}

proof fn lemma_ascii_bytes_concat(a: Seq<char>, b: Seq<char>)
    ensures
        ascii_bytes(a + b) == ascii_bytes(a) + ascii_bytes(b),
{
    assert(ascii_bytes(a + b) =~= ascii_bytes(a) + ascii_bytes(b));
}

proof fn lemma_strip_concat(a: Seq<u8>, b: Seq<u8>)
    ensures
        strip_newlines(a + b) == strip_newlines(a) + strip_newlines(b),
    decreases b.len(),
{
    if b.len() == 0 {
        assert(a + b =~= a);
        assert(strip_newlines(a) + strip_newlines(b) =~= strip_newlines(a));
    } else {
        let ab = a + b;
        assert(ab.drop_last() =~= a + b.drop_last());
        lemma_strip_concat(a, b.drop_last());
        if b.last() != 10 {
            assert(strip_newlines(a) + strip_newlines(b.drop_last()).push(b.last()) =~= (
            strip_newlines(a) + strip_newlines(b.drop_last())).push(b.last()));
        }
    }
}

proof fn lemma_strip_no_newline(b: Seq<u8>)
    requires
        forall|i: int| 0 <= i < b.len() ==> #[trigger] b[i] != 10,
    ensures
        strip_newlines(b) == b,
    decreases b.len(),
{
    if b.len() > 0 {
        lemma_strip_no_newline(b.drop_last());
        assert(b.drop_last().push(b.last()) =~= b);
    }
}

proof fn lemma_wrap_lines_stripped(s: Seq<char>)
    requires
        is_base64_text(s),
    ensures
        strip_newlines(ascii_bytes(wrap_lines(s))) == ascii_bytes(s),
        is_ascii_chars(wrap_lines(s)),
    decreases s.len(),
{
    if s.len() <= LINE_WIDTH {
        lemma_strip_no_newline(ascii_bytes(s));
    } else {
        let first = s.take(LINE_WIDTH as int);
        let rest = s.skip(LINE_WIDTH as int);
        lemma_wrap_lines_stripped(rest);
        lemma_ascii_bytes_concat(first + seq!['\n'], wrap_lines(rest));
        lemma_ascii_bytes_concat(first, seq!['\n']);
        lemma_strip_no_newline(ascii_bytes(first));
        lemma_strip_concat(ascii_bytes(first) + ascii_bytes(seq!['\n']), ascii_bytes(wrap_lines(rest)));
        lemma_strip_concat(ascii_bytes(first), ascii_bytes(seq!['\n']));
        assert(strip_newlines(ascii_bytes(seq!['\n'])) =~= Seq::<u8>::empty()) by {
            let nl = ascii_bytes(seq!['\n']);
            assert(nl.len() == 1);
            assert(nl[0] == ('\n' as u8));
            assert(('\n' as u8) == 10);
            assert(nl.drop_last() =~= Seq::<u8>::empty());
            assert(strip_newlines(nl.drop_last()) =~= Seq::<u8>::empty());
        }
        lemma_ascii_bytes_concat(first, rest);
        assert(first + rest =~= s);
        assert(ascii_bytes(first) + Seq::<u8>::empty() =~= ascii_bytes(first));
        assert(wrap_lines(s) =~= first + seq!['\n'] + wrap_lines(rest));
    }
}

/// Reading the DER back out of the PEM block of a certificate gives the
/// certificate's bytes: the body of `pem_of(der)` is the base64 text of
/// `der`, which `der_from_pem` maps back to `der`. The alphabet condition is
/// what `to_pem` ensures of every input.
pub proof fn lemma_pem_round_trip(der: Seq<u8>)
    requires
        is_base64_text(base64_of(der)),
    ensures
        pem_body(pem_of(der)) == Some(ascii_bytes(base64_of(der))),
{
    reveal_strlit("-----BEGIN CERTIFICATE-----\n");
    reveal_strlit("\n-----END CERTIFICATE-----\n");
    let w = wrap_lines(base64_of(der));
    lemma_wrap_lines_stripped(base64_of(der));
    let p = pem_of(der);
    let h = PEM_HEADER@;
    let f = PEM_FOOTER@;
    assert(p.take(h.len() as int) =~= h);
    assert(p.skip(p.len() - f.len()) =~= f);
    assert(p.subrange(h.len() as int, p.len() - f.len()) =~= w);
    assert(is_ascii_chars(p));
}

} // verus!
