//! The fields of an X.509 certificate, read through `x509_parser`.
//!
//! Each reading is named by a spec function of the certificate's DER bytes:
//! parsing is deterministic, so what is read depends on those bytes alone.

use vstd::prelude::*;
use crate::instant::UtcInstant;
use x509_parser::extensions::GeneralName;
use x509_parser::prelude::{FromDer, X509Certificate};

verus! {

#[verifier::external_type_specification]
#[verifier::external_body]
pub struct ExX509Certificate<'a>(X509Certificate<'a>);

/// `None` where `X509Certificate::from_der` accepts the bytes; else the text
/// of the parser's error.
pub uninterp spec fn parse_failure_of(der: Seq<u8>) -> Option<Seq<char>>;

/// The bytes of the serial number, as `raw_serial` gives them.
pub uninterp spec fn raw_serial_of(der: Seq<u8>) -> Seq<u8>;

/// The lowercase hex digit of `d` (below 16).
pub open spec fn hex_digit(d: int) -> char {
    if d == 0 { '0' } else if d == 1 { '1' } else if d == 2 { '2' } else if d == 3 { '3' }
    else if d == 4 { '4' } else if d == 5 { '5' } else if d == 6 { '6' } else if d == 7 { '7' }
    else if d == 8 { '8' } else if d == 9 { '9' } else if d == 10 { 'a' } else if d == 11 { 'b' }
    else if d == 12 { 'c' } else if d == 13 { 'd' } else if d == 14 { 'e' } else { 'f' }
}

/// A byte as two lowercase hex digits.
pub open spec fn hex_pair(b: u8) -> Seq<char> {
    seq![hex_digit(b as int / 16), hex_digit(b as int % 16)]
}

/// Bytes as lowercase hex pairs joined by colons.
pub open spec fn colon_hex(b: Seq<u8>) -> Seq<char>
    decreases b.len(),
{
    if b.len() == 0 {
        Seq::empty()
    } else if b.len() == 1 {
        hex_pair(b[0])
    } else {
        colon_hex(b.drop_last()) + seq![':'] + hex_pair(b.last())
    }
}

/// Each common-name attribute of the subject, in encoding order: its text,
/// or `None` where it is not a string type that reads as UTF-8.
pub uninterp spec fn common_name_values_of(der: Seq<u8>) -> Seq<Option<Seq<char>>>;

/// Each entry of the subject-alternative-name extension, in encoding order:
/// the name of a DNS entry, `None` for an entry of another kind. Empty where
/// the extension is absent or does not parse.
pub uninterp spec fn alt_name_entries_of(der: Seq<u8>) -> Seq<Option<Seq<char>>>;

/// The "not valid after" instant as Unix seconds and nanoseconds.
pub uninterp spec fn not_after_of(der: Seq<u8>) -> (i64, u32);

/// Whether the basic-constraints extension marks the certificate as a CA.
pub uninterp spec fn is_ca_of(der: Seq<u8>) -> bool;

/// A certificate that parsed, with the bytes it was parsed from.
pub(crate) struct ParsedCertificate<'a> {
    cert: X509Certificate<'a>,
    der: &'a [u8],
}

impl<'a> ParsedCertificate<'a> {
    /// The bytes the certificate was parsed from.
    pub closed spec fn der(&self) -> Seq<u8> {
        self.der@
    }
}

/// Relies on `X509Certificate::from_der` (default parser options): it accepts
/// or rejects the bytes, and renders a rejection through nom's `Display`,
/// whose every form is a non-empty message. Bytes after the certificate are
/// not looked at.
#[verifier::external_body]
pub(crate) fn parse_certificate<'a>(der: &'a [u8]) -> (r: Result<ParsedCertificate<'a>, String>)
    ensures
        r is Ok <==> parse_failure_of(der@) is None,
        r is Ok ==> r->Ok_0.der() == der@,
        r is Err ==> parse_failure_of(der@) == Some(r->Err_0@) && r->Err_0@.len() > 0,
{
    match X509Certificate::from_der(der) {
        Ok((_, cert)) => Ok(ParsedCertificate { cert, der }),
        Err(e) => Err(e.to_string()),
    }
}

/// Relies on `X509Certificate::raw_serial_as_string`, which is
/// `format_serial(raw_serial)`: each byte as `{:02x}` followed by a colon,
/// the last colon popped. So ASCII text.
#[verifier::external_body]
pub(crate) fn serial_text(p: &ParsedCertificate) -> (r: String)
    ensures
        r@ == colon_hex(raw_serial_of(p.der())),
        r.is_ascii(),
{
    p.cert.raw_serial_as_string()
}

/// Relies on `X509Name::iter_common_name` over the subject and
/// `AttributeTypeAndValue::as_str` on each attribute found.
#[verifier::external_body]
pub(crate) fn common_name_values(p: &ParsedCertificate) -> (r: Vec<Option<String>>)
    ensures
        r.deep_view() == common_name_values_of(p.der()),
{
    p.cert.subject().iter_common_name().map(|cn| cn.as_str().ok().map(String::from)).collect()
}

/// Relies on `X509Certificate::subject_alternative_name`: the general names
/// of the extension, DNS names moved out as text.
#[verifier::external_body]
pub(crate) fn alt_name_entries(p: &ParsedCertificate) -> (r: Vec<Option<String>>)
    ensures
        r.deep_view() == alt_name_entries_of(p.der()),
{
    match p.cert.subject_alternative_name() {
        Ok(Some(san)) => san.value.general_names.iter().map(|gn| match gn {
            GeneralName::DNSName(n) => Some(n.to_string()),
            _ => None,
        }).collect(),
        _ => Vec::new(),
    }
}

/// Relies on `Validity::not_after` and `ASN1Time::to_datetime`, read back
/// with `OffsetDateTime::unix_timestamp` and `nanosecond` (below one second).
#[verifier::external_body]
pub(crate) fn not_after(p: &ParsedCertificate) -> (r: UtcInstant)
    ensures
        (r.seconds, r.nanos) == not_after_of(p.der()),
        r.nanos < 1_000_000_000,
{
    let t = p.cert.validity().not_after.to_datetime();
    UtcInstant { seconds: t.unix_timestamp(), nanos: t.nanosecond() }
}

/// Relies on `X509Certificate::is_ca`.
#[verifier::external_body]
pub(crate) fn is_ca(p: &ParsedCertificate) -> (r: bool)
    ensures
        r == is_ca_of(p.der()),
{
    p.cert.is_ca()
}

} // verus!
