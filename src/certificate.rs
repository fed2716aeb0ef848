//! The normalized certificate record, its decoder and the peer matcher.

use vstd::prelude::*;
use vstd::string::*;
use crate::instant::{now_utc, remaining_days, remaining_whole_days, UtcInstant};
use crate::pem::{ascii_bytes, base64_of, is_base64_text, lemma_pem_round_trip, pem_body, pem_of, to_pem};
use crate::x509::{
    alt_name_entries, alt_name_entries_of, common_name_values, common_name_values_of, is_ca,
    is_ca_of, not_after, not_after_of, parse_certificate, parse_failure_of, serial_text,
    colon_hex, hex_pair, raw_serial_of, ParsedCertificate,
};

verus! {

/// Why no certificate record could be had.
#[derive(Debug)]
pub enum CertError {
    /// The bytes are not a well-formed DER certificate; holds the parser's
    /// message.
    InvalidFormat(String),
    /// No connection or handshake with the target; holds a message naming it.
    TargetNotReachable(String),
    /// No certificate of the peer chain matches the hostname; holds it.
    TargetHasNoCertMatch(String),
}

/// What a certificate record holds.
pub struct CertificateRecord {
    pub common_name: Seq<char>,
    pub serial_number: Seq<char>,
    pub expiration: UtcInstant,
    pub san_list: Seq<Seq<char>>,
    pub is_ca: bool,
    pub pem: Seq<char>,
}

/// The texts of the present entries, concatenated in order.
pub open spec fn concat_present(parts: Seq<Option<Seq<char>>>) -> Seq<char>
    decreases parts.len(),
{
    if parts.len() == 0 {
        Seq::empty()
    } else {
        let prev = concat_present(parts.drop_last());
        match parts.last() {
            Some(s) => prev + s,
            None => prev,
        }
    }
}

/// The present entries, in order.
pub open spec fn present(entries: Seq<Option<Seq<char>>>) -> Seq<Seq<char>>
    decreases entries.len(),
{
    if entries.len() == 0 {
        Seq::empty()
    } else {
        let prev = present(entries.drop_last());
        match entries.last() {
            Some(s) => prev.push(s),
            None => prev,
        }
    }
}

/// `s` without its colons.
pub open spec fn without_colons(s: Seq<char>) -> Seq<char>
    decreases s.len(),
{
    if s.len() == 0 {
        s
    } else if s.last() == ':' {
        without_colons(s.drop_last())
    } else {
        without_colons(s.drop_last()).push(s.last())
    }
}

/// Bytes as lowercase hex pairs, without separators.
pub open spec fn hex_of(b: Seq<u8>) -> Seq<char>
    decreases b.len(),
{
    if b.len() == 0 {
        Seq::empty()
    } else {
        hex_of(b.drop_last()) + hex_pair(b.last())
    }
}

proof fn lemma_without_colons_concat(a: Seq<char>, b: Seq<char>)
    ensures
        without_colons(a + b) == without_colons(a) + without_colons(b),
    decreases b.len(),
{
    if b.len() == 0 {
        assert(a + b =~= a);
        assert(without_colons(a) + without_colons(b) =~= without_colons(a));
    } else {
        assert((a + b).drop_last() =~= a + b.drop_last());
        lemma_without_colons_concat(a, b.drop_last());
        if b.last() != ':' {
            assert(without_colons(a) + without_colons(b.drop_last()).push(b.last()) =~= (
            without_colons(a) + without_colons(b.drop_last())).push(b.last()));
        }
    }
}

proof fn lemma_hex_pair_without_colons(x: u8)
    ensures
        without_colons(hex_pair(x)) == hex_pair(x),
{
    let p = hex_pair(x);
    assert(p[0] != ':' && p[1] != ':');
    assert(without_colons(p.drop_last()) =~= seq![p[0]]) by {
        assert(p.drop_last().drop_last() =~= Seq::<char>::empty());
        assert(without_colons(p.drop_last().drop_last()) =~= Seq::<char>::empty());
        assert(p.drop_last().last() == p[0]);
        assert(Seq::<char>::empty().push(p[0]) =~= seq![p[0]]);
    }
    assert(seq![p[0]].push(p[1]) =~= p);
}

/// Dropping the colons of the colon-joined hex of some bytes leaves their
/// plain hex.
pub proof fn lemma_serial_hex(b: Seq<u8>)
    ensures
        without_colons(colon_hex(b)) == hex_of(b),
    decreases b.len(),
{
    if b.len() == 1 {
        lemma_hex_pair_without_colons(b[0]);
        assert(b.drop_last() =~= Seq::<u8>::empty());
        assert(hex_of(b.drop_last()) =~= Seq::<char>::empty());
        assert(Seq::<char>::empty() + hex_pair(b[0]) =~= hex_pair(b[0]));
    } else if b.len() > 1 {
        lemma_serial_hex(b.drop_last());
        lemma_hex_pair_without_colons(b.last());
        let sep = seq![':'];
        lemma_without_colons_concat(colon_hex(b.drop_last()) + sep, hex_pair(b.last()));
        lemma_without_colons_concat(colon_hex(b.drop_last()), sep);
        assert(without_colons(sep) =~= Seq::<char>::empty()) by {
            assert(sep.drop_last() =~= Seq::<char>::empty());
            assert(without_colons(sep.drop_last()) =~= Seq::<char>::empty());
            assert(sep.last() == ':');
        }
        assert(hex_of(b.drop_last()) + Seq::<char>::empty() =~= hex_of(b.drop_last()));
    }
}

/// The record decoded from the DER bytes of a certificate that parses.
pub open spec fn certificate_record(der: Seq<u8>) -> CertificateRecord {
    CertificateRecord {
        common_name: concat_present(common_name_values_of(der)),
        serial_number: hex_of(raw_serial_of(der)),
        expiration: UtcInstant { seconds: not_after_of(der).0, nanos: not_after_of(der).1 },
        san_list: present(alt_name_entries_of(der)),
        is_ca: is_ca_of(der),
        pem: pem_of(der),
    }
}

/// The certificate names `name` as its common name or as one of its DNS
/// subject-alternative names, character for character.
pub open spec fn identifies(rec: CertificateRecord, name: Seq<char>) -> bool {
    rec.common_name == name || rec.san_list.contains(name)
}

/// The entry parses and identifies `name`.
pub open spec fn entry_matches(der: Seq<u8>, name: Seq<char>) -> bool {
    parse_failure_of(der) is None && identifies(certificate_record(der), name)
}

/// The record of the last chain entry that matches `name`.
pub open spec fn last_match(name: Seq<char>, chain: Seq<Seq<u8>>) -> Option<CertificateRecord>
    decreases chain.len(),
{
    if chain.len() == 0 {
        None
    } else if entry_matches(chain.last(), name) {
        Some(certificate_record(chain.last()))
    } else {
        last_match(name, chain.drop_last())
    }
}

/// The byte strings of a chain of DER buffers.
pub open spec fn der_chain(certs: Seq<Vec<u8>>) -> Seq<Seq<u8>> {
    certs.map_values(|c: Vec<u8>| c@)
}

/// The records of an optional certificate.
pub open spec fn record_option(c: Option<SimpleCertificate>) -> Option<CertificateRecord> {
    match c {
        Some(c) => Some(c@),
        None => None,
    }
}

/// One decoded X.509 certificate; built once, then only read.
#[derive(Clone)]
pub struct SimpleCertificate {
    common_name: String,
    serial_number: String,
    expiration_date: UtcInstant,
    san_list: Vec<String>,
    is_ca: bool,
    pem: String,
}

impl View for SimpleCertificate {
    type V = CertificateRecord;

    closed spec fn view(&self) -> CertificateRecord {
        CertificateRecord {
            common_name: self.common_name@,
            serial_number: self.serial_number@,
            expiration: self.expiration_date,
            san_list: self.san_list.deep_view(),
            is_ca: self.is_ca,
            pem: self.pem@,
        }
    }
}

/// The texts of the present entries, concatenated in order.
fn join_present(parts: &Vec<Option<String>>) -> (r: String)
    ensures
        r@ == concat_present(parts.deep_view()),
{
    let mut name = String::new();
    let mut i: usize = 0;
    while i < parts.len()
        invariant
            i <= parts.len(),
            name@ == concat_present(parts.deep_view().take(i as int)),
        decreases parts.len() - i,
    {
        proof {
            assert(parts.deep_view().take(i + 1).drop_last() =~= parts.deep_view().take(i as int));
        }
        if let Some(s) = &parts[i] {
            name.append(s.as_str());
        }
        i = i + 1;
    }
    assert(parts.deep_view().take(i as int) =~= parts.deep_view());
    name
}

/// The present entries, in order.
fn collect_present(entries: &Vec<Option<String>>) -> (r: Vec<String>)
    ensures
        r.deep_view() == present(entries.deep_view()),
{
    let mut names: Vec<String> = Vec::new();
    let mut i: usize = 0;
    while i < entries.len()
        invariant
            i <= entries.len(),
            names.deep_view() == present(entries.deep_view().take(i as int)),
        decreases entries.len() - i,
    {
        proof {
            assert(entries.deep_view().take(i + 1).drop_last() =~= entries.deep_view().take(
                i as int,
            ));
        }
        if let Some(s) = &entries[i] {
            let ghost before = names.deep_view();
            names.push(s.clone());
            assert(names.deep_view() =~= before.push(s@));
        }
        i = i + 1;
    }
    assert(entries.deep_view().take(i as int) =~= entries.deep_view());
    names
}

/// The ASCII text `s` without its colons.
fn strip_colons(s: &String) -> (r: String)
    requires
        s.is_ascii(),
    ensures
        r@ == without_colons(s@),
{
    let text = s.as_str();
    let n = text.unicode_len();
    let mut out = String::new();
    let mut i: usize = 0;
    while i < n
        invariant
            i <= n,
            n == text@.len(),
            text@ == s@,
            text.is_ascii(),
            out@ == without_colons(text@.take(i as int)),
        decreases n - i,
    {
        let piece = text.substring_ascii(i, i + 1);
        proof {
            assert(text@.take(i + 1).drop_last() =~= text@.take(i as int));
            assert(piece@ =~= seq![text@[i as int]]);
        }
        if text.get_char(i) != ':' {
            out.append(piece);
        }
        i = i + 1;
    }
    assert(text@.take(i as int) =~= text@);
    out
}

/// The serial number's bytes as lowercase hex pairs, without separators.
pub(crate) fn get_serial_number(cert: &ParsedCertificate) -> (r: String)
    ensures
        r@ == hex_of(raw_serial_of(cert.der())),
{
    let r = strip_colons(&serial_text(cert));
    proof {
        lemma_serial_hex(raw_serial_of(cert.der()));
    }
    r
}

/// The texts of the subject's common-name attributes that read as strings,
/// concatenated; empty where there is none.
pub(crate) fn get_common_name(cert: &ParsedCertificate) -> (r: String)
    ensures
        r@ == concat_present(common_name_values_of(cert.der())),
{
    join_present(&common_name_values(cert))
}

/// The DNS entries of the subject-alternative-name extension, in encoding
/// order; entries of other kinds are left out.
pub(crate) fn get_san_dns_names(cert: &ParsedCertificate) -> (r: Vec<String>)
    ensures
        r.deep_view() == present(alt_name_entries_of(cert.der())),
{
    collect_present(&alt_name_entries(cert))
}

impl SimpleCertificate {
    /// The record of a parsed certificate with its PEM text.
    fn build(cert: &ParsedCertificate, pem: String) -> (r: SimpleCertificate)
        ensures
            r@ == (CertificateRecord { pem: pem@, ..certificate_record(cert.der()) }),
    {
        SimpleCertificate {
            common_name: get_common_name(cert),
            serial_number: get_serial_number(cert),
            expiration_date: not_after(cert),
            san_list: get_san_dns_names(cert),
            is_ca: is_ca(cert),
            pem,
        }
    }

    /// Decodes one DER certificate: subject common name, serial number in
    /// hex without colons, expiration instant, DNS subject-alternative
    /// names, CA flag and PEM text. Bytes that do not parse give
    /// `InvalidFormat` with the parser's message.
    pub fn from_certificate_der(der_cert: &[u8]) -> (r: Result<SimpleCertificate, CertError>)
        ensures
            parse_failure_of(der_cert@) is None ==> r is Ok && r->Ok_0@ == certificate_record(
                der_cert@,
            ),
            parse_failure_of(der_cert@) is Some ==> r is Err && r->Err_0 is InvalidFormat
                && Some(r->Err_0->InvalidFormat_0@) == parse_failure_of(der_cert@),
            r is Err ==> r->Err_0 is InvalidFormat && r->Err_0->InvalidFormat_0@.len() > 0,
            is_base64_text(base64_of(der_cert@)),
    {
        let pem = to_pem(der_cert);
        match parse_certificate(der_cert) {
            Ok(cert) => Ok(Self::build(&cert, pem)),
            Err(e) => Err(CertError::InvalidFormat(e)),
        }
    }

    /// Whether the record names `name` as common name or DNS
    /// subject-alternative name, exactly.
    fn identifies_name(&self, name: &String) -> (r: bool)
        ensures
            r == identifies(self@, name@),
    {
        if self.common_name == *name {
            return true;
        }
        let mut j: usize = 0;
        while j < self.san_list.len()
            invariant
                j <= self.san_list.len(),
                self@.san_list == self.san_list.deep_view(),
                forall|k: int| 0 <= k < j ==> self.san_list.deep_view()[k] != name@,
            decreases self.san_list.len() - j,
        {
            if self.san_list[j] == *name {
                assert(self@.san_list[j as int] == name@);
                return true;
            }
            j = j + 1;
        }
        false
    }

    /// Of a peer chain, the record of the last certificate that decodes and
    /// whose common name or a DNS subject-alternative name equals
    /// `peer_name` exactly; entries that do not decode are passed over.
    /// `None` for an absent or empty chain or where nothing matches.
    pub fn find_matching_certificate(peer_name: &str, certs: Option<&[Vec<u8>]>) -> (r: Option<
        SimpleCertificate,
    >)
        ensures
            record_option(r) == match certs {
                Some(cs) => last_match(peer_name@, der_chain(cs@)),
                None => None,
            },
    {
        let mut found: Option<SimpleCertificate> = None;
        if let Some(chain) = certs {
            let name = peer_name.to_owned();
            let mut i: usize = 0;
            assert(der_chain(chain@).take(0) =~= Seq::<Seq<u8>>::empty());
            while i < chain.len()
                invariant
                    i <= chain.len(),
                    name@ == peer_name@,
                    record_option(found) == last_match(peer_name@, der_chain(chain@).take(i as int)),
                decreases chain.len() - i,
            {
                proof {
                    let next = der_chain(chain@).take(i + 1);
                    assert(next.drop_last() =~= der_chain(chain@).take(i as int));
                    assert(next.last() == chain@[i as int]@);
                }
                if let Ok(c) = Self::from_certificate_der(chain[i].as_slice()) {
                    if c.identifies_name(&name) {
                        found = Some(c);
                    }
                }
                i = i + 1;
            }
            assert(der_chain(chain@).take(i as int) =~= der_chain(chain@));
        }
        found
    }

    /// The serial number in hex, without separators.
    pub fn get_serial_number(&self) -> (r: &str)
        ensures
            r@ == self@.serial_number,
    {
        self.serial_number.as_str()
    }

    /// The subject common name; empty where the subject has none.
    pub fn get_common_name(&self) -> (r: &str)
        ensures
            r@ == self@.common_name,
    {
        self.common_name.as_str()
    }

    /// The DNS subject-alternative names in encoding order.
    pub fn get_san_dns_names(&self) -> (r: &Vec<String>)
        ensures
            r.deep_view() == self@.san_list,
    {
        &self.san_list
    }

    /// The certificate as PEM text.
    pub fn get_pem(&self) -> (r: String)
        ensures
            r@ == self@.pem,
    {
        self.pem.clone()
    }

    /// Whether basic constraints mark the certificate as a CA.
    pub fn is_ca(&self) -> (r: bool)
        ensures
            r == self@.is_ca,
    {
        self.is_ca
    }

    /// The "not valid after" instant.
    pub fn get_expiration_date(&self) -> (r: UtcInstant)
        ensures
            r == self@.expiration,
    {
        self.expiration_date
    }

    /// Whole days from `now` until expiration, truncated toward zero;
    /// negative once the certificate has been expired a full day.
    pub fn remaining_days_at(&self, now: UtcInstant) -> (r: i64)
        ensures
            r as int == remaining_days(self@.expiration, now),
    {
        remaining_whole_days(self.expiration_date, now)
    }

    /// Whole days from the current UTC time until expiration, truncated
    /// toward zero.
    pub fn get_remaining_days(&self) -> (r: i64)
        ensures
            exists|now: UtcInstant|
                now.nanos < 1_000_000_000 && r as int == remaining_days(self@.expiration, now),
    {
        let now = now_utc();
        self.remaining_days_at(now)
    }
}

/// A chain without an entry that decodes to a certificate naming `name`
/// has no match; the empty chain is one such.
pub proof fn lemma_no_match(name: Seq<char>, chain: Seq<Seq<u8>>)
    requires
        forall|i: int| 0 <= i < chain.len() ==> !entry_matches(#[trigger] chain[i], name),
    ensures
        last_match(name, chain) is None,
    decreases chain.len(),
{
    if chain.len() > 0 {
        assert(!entry_matches(chain[chain.len() - 1], name));
        lemma_no_match(name, chain.drop_last());
    }
}

/// Matching compares text exactly, with no case folding or wildcards: a
/// matched record has the queried name, character for character, as its
/// common name or among its DNS names, and came from an entry of the chain.
pub proof fn lemma_match_is_exact(name: Seq<char>, chain: Seq<Seq<u8>>)
    ensures
        last_match(name, chain) is Some ==> {
            let rec = last_match(name, chain)->0;
            &&& rec.common_name == name || exists|i: int|
                0 <= i < rec.san_list.len() && rec.san_list[i] == name
            &&& exists|i: int| 0 <= i < chain.len() && rec == certificate_record(chain[i])
        },
    decreases chain.len(),
{
    if chain.len() > 0 {
        lemma_match_is_exact(name, chain.drop_last());
        if !entry_matches(chain.last(), name) && last_match(name, chain) is Some {
            let rec = last_match(name, chain)->0;
            let i = choose|i: int|
                0 <= i < chain.drop_last().len() && rec == certificate_record(chain.drop_last()[i]);
            assert(rec == certificate_record(chain[i]));
        }
    }
}

/// Decoding a certificate, reading the DER back out of its PEM text and
/// decoding that gives the same record: the PEM body is the base64 text of
/// the decoded bytes (in the alphabet, as `from_certificate_der` ensures), so
/// `der_from_pem` returns exactly those bytes, and `certificate_record`
/// depends on the bytes alone.
pub proof fn lemma_decode_round_trip(der: Seq<u8>)
    requires
        parse_failure_of(der) is None,
        is_base64_text(base64_of(der)),
    ensures
        pem_body(certificate_record(der).pem) == Some(ascii_bytes(base64_of(der))),
{
    lemma_pem_round_trip(der);
}

} // verus!
