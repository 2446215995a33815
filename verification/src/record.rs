use crate::error::{Error, ErrorView};
use crate::text::{decimal, numbered, push_decimal};
use crate::utils::{domain_name, lemma_name_end_in_bounds, name_end, parse_domain};
use crate::wire::{i32_at, read_i32, read_u16, read_u32, u16_at, u32_at};
use vstd::string::StringExecFns;
use vstd::prelude::*;
use vstd::std_specs::convert::TryFromSpecImpl;

verus! {

/// The type of a resource record, by the code that stands for it on the wire.
#[non_exhaustive]
#[derive(Debug, PartialEq, Eq, Structural, Clone, Copy)]
pub enum RecordType {
    /// host address
    A,
    /// authoritative name server
    NS,
    /// mail destination (obsolete)
    MD,
    /// mail forwarder (obsolete)
    MF,
    /// the canonical name for an alias
    CNAME,
    /// marks the start of a zone of authority
    SOA,
    /// mailbox domain name
    MB,
    /// mail group member
    MG,
    /// mail rename domain name
    MR,
    /// null record
    NULL,
    /// well known service description
    WKS,
    /// domain name pointer
    PTR,
    /// host information
    HINFO,
    /// mailbox or mail list information
    MINFO,
    /// mail exchange
    MX,
    /// text strings
    TXT,
    /// IPv6 host address
    AAAA,
}

impl RecordType {
    /// The code of this type on the wire.
    pub open spec fn code(self) -> u16 {
        match self {
            RecordType::A => 1,
            RecordType::NS => 2,
            RecordType::MD => 3,
            RecordType::MF => 4,
            RecordType::CNAME => 5,
            RecordType::SOA => 6,
            RecordType::MB => 7,
            RecordType::MG => 8,
            RecordType::MR => 9,
            RecordType::NULL => 10,
            RecordType::WKS => 11,
            RecordType::PTR => 12,
            RecordType::HINFO => 13,
            RecordType::MINFO => 14,
            RecordType::MX => 15,
            RecordType::TXT => 16,
            RecordType::AAAA => 28,
        }
    }

    /// The type that `code` stands for, if it stands for one.
    pub open spec fn of_code(code: u16) -> Option<RecordType> {
        if code == 1 {
            Some(RecordType::A)
        } else if code == 2 {
            Some(RecordType::NS)
        } else if code == 3 {
            Some(RecordType::MD)
        } else if code == 4 {
            Some(RecordType::MF)
        } else if code == 5 {
            Some(RecordType::CNAME)
        } else if code == 6 {
            Some(RecordType::SOA)
        } else if code == 7 {
            Some(RecordType::MB)
        } else if code == 8 {
            Some(RecordType::MG)
        } else if code == 9 {
            Some(RecordType::MR)
        } else if code == 10 {
            Some(RecordType::NULL)
        } else if code == 11 {
            Some(RecordType::WKS)
        } else if code == 12 {
            Some(RecordType::PTR)
        } else if code == 13 {
            Some(RecordType::HINFO)
        } else if code == 14 {
            Some(RecordType::MINFO)
        } else if code == 15 {
            Some(RecordType::MX)
        } else if code == 16 {
            Some(RecordType::TXT)
        } else if code == 28 {
            Some(RecordType::AAAA)
        } else {
            None
        }
    }

    /// What decoding a type from `code` yields.
    pub open spec fn decoded(code: u16) -> Result<RecordType, ErrorView> {
        match RecordType::of_code(code) {
            Some(record_type) => Ok(record_type),
            None => Err(
                ErrorView::ResolverError(
                    "can't parse unknown record type: "@ + decimal(code as nat),
                ),
            ),
        }
    }

    /// The code of this type on the wire.
    pub fn to_u16(&self) -> (code: u16)
        ensures
            code == self.code(),
            RecordType::of_code(code) == Some(*self),
    {
        match self {
            RecordType::A => 1,
            RecordType::NS => 2,
            RecordType::MD => 3,
            RecordType::MF => 4,
            RecordType::CNAME => 5,
            RecordType::SOA => 6,
            RecordType::MB => 7,
            RecordType::MG => 8,
            RecordType::MR => 9,
            RecordType::NULL => 10,
            RecordType::WKS => 11,
            RecordType::PTR => 12,
            RecordType::HINFO => 13,
            RecordType::MINFO => 14,
            RecordType::MX => 15,
            RecordType::TXT => 16,
            RecordType::AAAA => 28,
        }
    }
}

impl TryFrom<u16> for RecordType {
    type Error = Error;

    /// The type that `value` stands for. Other values are rejected.
    fn try_from(value: u16) -> (r: Result<RecordType, Error>)
        ensures
            match RecordType::decoded(value) {
                Ok(record_type) => r == Ok::<RecordType, Error>(record_type),
                Err(fault) => r matches Err(error) && error@ == fault,
            },
    {
        match value {
            1 => Ok(RecordType::A),
            2 => Ok(RecordType::NS),
            3 => Ok(RecordType::MD),
            4 => Ok(RecordType::MF),
            5 => Ok(RecordType::CNAME),
            6 => Ok(RecordType::SOA),
            7 => Ok(RecordType::MB),
            8 => Ok(RecordType::MG),
            9 => Ok(RecordType::MR),
            10 => Ok(RecordType::NULL),
            11 => Ok(RecordType::WKS),
            12 => Ok(RecordType::PTR),
            13 => Ok(RecordType::HINFO),
            14 => Ok(RecordType::MINFO),
            15 => Ok(RecordType::MX),
            16 => Ok(RecordType::TXT),
            28 => Ok(RecordType::AAAA),
            _ => Err(
                Error::ResolverError(numbered("can't parse unknown record type: ", value as u128)),
            ),
        }
    }
}

/// The law of `TryFrom` is not claimed for this impl: its error carries a
/// text, and no ghost expression can build a `String`. The contract of
/// `try_from` states the result in full.
impl TryFromSpecImpl<u16> for RecordType {
    open spec fn obeys_try_from_spec() -> bool {
        false
    }

    open spec fn try_from_spec(value: u16) -> Result<RecordType, Error> {
        arbitrary()
    }
}

/// The class of a resource record.
#[derive(Debug, PartialEq, Eq, Structural, Clone, Copy)]
pub enum RecordClass {
    /// the Internet
    IN,
    /// the CSNET class (obsolete)
    CS,
    /// the CHAOS class
    CH,
    /// Hesiod
    HS,
}

impl RecordClass {
    /// The code of this class on the wire.
    pub open spec fn code(self) -> u16 {
        match self {
            RecordClass::IN => 1,
            RecordClass::CS => 2,
            RecordClass::CH => 3,
            RecordClass::HS => 4,
        }
    }

    /// The class that `code` stands for, if it stands for one.
    pub open spec fn of_code(code: u16) -> Option<RecordClass> {
        if code == 1 {
            Some(RecordClass::IN)
        } else if code == 2 {
            Some(RecordClass::CS)
        } else if code == 3 {
            Some(RecordClass::CH)
        } else if code == 4 {
            Some(RecordClass::HS)
        } else {
            None
        }
    }

    /// What decoding a class from `code` yields.
    pub open spec fn decoded(code: u16) -> Result<RecordClass, ErrorView> {
        match RecordClass::of_code(code) {
            Some(record_class) => Ok(record_class),
            None => Err(ErrorView::ResolverError("unknown RR class: "@ + decimal(code as nat))),
        }
    }

    /// The code of this class on the wire.
    pub fn to_u16(&self) -> (code: u16)
        ensures
            code == self.code(),
            RecordClass::of_code(code) == Some(*self),
    {
        match self {
            RecordClass::IN => 1,
            RecordClass::CS => 2,
            RecordClass::CH => 3,
            RecordClass::HS => 4,
        }
    }
}

impl TryFrom<u16> for RecordClass {
    type Error = Error;

    /// The class that `value` stands for. Other values are rejected.
    fn try_from(value: u16) -> (r: Result<RecordClass, Error>)
        ensures
            match RecordClass::decoded(value) {
                Ok(record_class) => r == Ok::<RecordClass, Error>(record_class),
                Err(fault) => r matches Err(error) && error@ == fault,
            },
    {
        match value {
            1 => Ok(RecordClass::IN),
            2 => Ok(RecordClass::CS),
            3 => Ok(RecordClass::CH),
            4 => Ok(RecordClass::HS),
            _ => Err(Error::ResolverError(numbered("unknown RR class: ", value as u128))),
        }
    }
}

/// The law of `TryFrom` is not claimed for this impl, for the reason given
/// at [`RecordType`]. The contract of `try_from` states the result in full.
impl TryFromSpecImpl<u16> for RecordClass {
    open spec fn obeys_try_from_spec() -> bool {
        false
    }

    open spec fn try_from_spec(value: u16) -> Result<RecordClass, Error> {
        arbitrary()
    }
}

/// An IPv4 address: its four bytes, in the order in which they are written.
#[derive(Debug, PartialEq, Eq, Structural, Clone, Copy)]
pub struct Ipv4Address(pub u8, pub u8, pub u8, pub u8);

/// An IPv6 address: its eight 16-bit groups, in the order in which they are
/// written.
#[derive(Debug, PartialEq, Eq, Structural, Clone, Copy)]
pub struct Ipv6Address(pub u16, pub u16, pub u16, pub u16, pub u16, pub u16, pub u16, pub u16);

/// The data of a resource record, by the type of the record.
#[non_exhaustive]
#[derive(Debug)]
pub enum RecordData {
    CNAME(String),
    NS(String),
    A(Ipv4Address),
    AAAA(Ipv6Address),
    SOA(SoaRecord),
}

/// The data of a record that marks the start of a zone of authority.
#[derive(Debug)]
pub struct SoaRecord {
    pub m_name: String,
    pub r_name: String,
    pub serial: u32,
    pub refresh: i32,
    pub retry: i32,
    pub expire: i32,
    pub minimum: u32,
}

/// A [`SoaRecord`] with its names as sequences of characters.
pub struct SoaRecordView {
    pub m_name: Seq<char>,
    pub r_name: Seq<char>,
    pub serial: u32,
    pub refresh: i32,
    pub retry: i32,
    pub expire: i32,
    pub minimum: u32,
}

impl View for SoaRecord {
    type V = SoaRecordView;

    open spec fn view(&self) -> SoaRecordView {
        SoaRecordView {
            m_name: self.m_name@,
            r_name: self.r_name@,
            serial: self.serial,
            refresh: self.refresh,
            retry: self.retry,
            expire: self.expire,
            minimum: self.minimum,
        }
    }
}

/// A [`RecordData`] with its names as sequences of characters.
pub enum RecordDataView {
    CNAME(Seq<char>),
    NS(Seq<char>),
    A(Ipv4Address),
    AAAA(Ipv6Address),
    SOA(SoaRecordView),
}

impl View for RecordData {
    type V = RecordDataView;

    open spec fn view(&self) -> RecordDataView {
        match *self {
            RecordData::CNAME(domain) => RecordDataView::CNAME(domain@),
            RecordData::NS(domain) => RecordDataView::NS(domain@),
            RecordData::A(ip) => RecordDataView::A(ip),
            RecordData::AAAA(ip) => RecordDataView::AAAA(ip),
            RecordData::SOA(soa) => RecordDataView::SOA(soa@),
        }
    }
}

/// The text of a complaint that `len` bytes are too few where `expected`
/// are needed to hold `what`.
pub open spec fn too_short(what: Seq<char>, len: int, expected: int) -> ErrorView {
    ErrorView::ResolverError(
        "can't parse "@ + what + " with length "@ + decimal(len as nat) + ", expect "@ + decimal(
            expected as nat,
        ),
    )
}

/// Builds the complaint that [`too_short`] describes.
fn complain_too_short(what: &str, len: usize, expected: u128) -> (error: Error)
    ensures
        error@ == too_short(what@, len as int, expected as int),
{
    let mut text = "can't parse ".to_owned();
    text.append(what);
    text.append(" with length ");
    push_decimal(&mut text, len as u128);
    text.append(", expect ");
    push_decimal(&mut text, expected);
    Error::ResolverError(text)
}

/// The IPv4 address that `buf` holds at `start`.
pub open spec fn ipv4_at(buf: Seq<u8>, start: int) -> Ipv4Address {
    Ipv4Address(buf[start], buf[start + 1], buf[start + 2], buf[start + 3])
}

/// The IPv6 address that `buf` holds at `start`.
pub open spec fn ipv6_at(buf: Seq<u8>, start: int) -> Ipv6Address {
    Ipv6Address(
        u16_at(buf, start),
        u16_at(buf, start + 2),
        u16_at(buf, start + 4),
        u16_at(buf, start + 6),
        u16_at(buf, start + 8),
        u16_at(buf, start + 10),
        u16_at(buf, start + 12),
        u16_at(buf, start + 14),
    )
}

/// The data of an A record at `start`, and where they end.
pub open spec fn a_at(buf: Seq<u8>, start: int) -> Result<(RecordDataView, int), ErrorView> {
    if buf.len() < start + 4 {
        Err(too_short("IPv4 address"@, buf.len() as int, start + 4))
    } else {
        Ok((RecordDataView::A(ipv4_at(buf, start)), start + 4))
    }
}

/// The data of an AAAA record at `start`, and where they end.
pub open spec fn aaaa_at(buf: Seq<u8>, start: int) -> Result<(RecordDataView, int), ErrorView> {
    if buf.len() < start + 16 {
        Err(too_short("IPv6 address"@, buf.len() as int, start + 16))
    } else {
        Ok((RecordDataView::AAAA(ipv6_at(buf, start)), start + 16))
    }
}

/// The data of a CNAME record at `start`, and where they end.
pub open spec fn cname_at(buf: Seq<u8>, start: int) -> Result<(RecordDataView, int), ErrorView> {
    match domain_name(buf, start) {
        Ok(domain) => Ok((RecordDataView::CNAME(domain), name_end(buf, start))),
        Err(fault) => Err(fault),
    }
}

/// The data of an NS record at `start`, and where they end.
pub open spec fn ns_at(buf: Seq<u8>, start: int) -> Result<(RecordDataView, int), ErrorView> {
    match domain_name(buf, start) {
        Ok(domain) => Ok((RecordDataView::NS(domain), name_end(buf, start))),
        Err(fault) => Err(fault),
    }
}

/// The data of an SOA record at `start`, and where they end: two names, then
/// five numbers of 32 bits.
pub open spec fn soa_at(buf: Seq<u8>, start: int) -> Result<(RecordDataView, int), ErrorView> {
    let second = name_end(buf, start);
    let numbers = name_end(buf, second);
    match domain_name(buf, start) {
        Err(fault) => Err(fault),
        Ok(m_name) => match domain_name(buf, second) {
            Err(fault) => Err(fault),
            Ok(r_name) => if buf.len() < numbers + 20 {
                Err(too_short("SOA record"@, buf.len() as int, numbers + 20))
            } else {
                Ok(
                    (
                        RecordDataView::SOA(
                            SoaRecordView {
                                m_name,
                                r_name,
                                serial: u32_at(buf, numbers),
                                refresh: i32_at(buf, numbers + 4),
                                retry: i32_at(buf, numbers + 8),
                                expire: i32_at(buf, numbers + 12),
                                minimum: u32_at(buf, numbers + 16),
                            },
                        ),
                        numbers + 20,
                    ),
                )
            },
        },
    }
}

/// The complaint about a record whose data this library does not decode.
pub open spec fn unsupported(record_type: RecordType) -> ErrorView {
    ErrorView::ResolverError(
        "can't parse data of record type: "@ + decimal(record_type.code() as nat),
    )
}

/// The data of a record of type `record_type` at `start`, and where they end.
/// Data are decoded for the types A, AAAA, CNAME, NS and SOA.
pub open spec fn rdata_at(buf: Seq<u8>, record_type: RecordType, start: int) -> Result<
    (RecordDataView, int),
    ErrorView,
> {
    match record_type {
        RecordType::A => a_at(buf, start),
        RecordType::AAAA => aaaa_at(buf, start),
        RecordType::CNAME => cname_at(buf, start),
        RecordType::NS => ns_at(buf, start),
        RecordType::SOA => soa_at(buf, start),
        _ => Err(unsupported(record_type)),
    }
}

/// Whether the decoder's result `r` is what `expected` describes.
pub open spec fn rdata_agrees(
    r: Result<(RecordData, usize), Error>,
    expected: Result<(RecordDataView, int), ErrorView>,
) -> bool {
    match expected {
        Ok((data, end)) => r matches Ok((d, e)) && d@ == data && e == end,
        Err(fault) => r matches Err(error) && error@ == fault,
    }
}

impl RecordData {
    /// Decodes the data of a record of type `record_type` that start at
    /// `start_pos`, and returns them with the position behind them.
    pub fn from_response(buf: &[u8], record_type: &RecordType, start_pos: usize) -> (r: Result<
        (RecordData, usize),
        Error,
    >)
        ensures
            rdata_agrees(r, rdata_at(buf@, *record_type, start_pos as int)),
            r matches Ok((_, end)) ==> end <= buf.len(),
    {
        match record_type {
            RecordType::A => Self::parse_a(buf, start_pos),
            RecordType::AAAA => Self::parse_aaaa(buf, start_pos),
            RecordType::CNAME => Self::parse_cname(buf, start_pos),
            RecordType::NS => Self::parse_ns(buf, start_pos),
            RecordType::SOA => Self::parse_soa(buf, start_pos),
            _ => Err(
                Error::ResolverError(
                    numbered("can't parse data of record type: ", record_type.to_u16() as u128),
                ),
            ),
        }
    }

    /// An A record has 32 bits of data: an IPv4 address.
    pub fn parse_a(buf: &[u8], start_pos: usize) -> (r: Result<(RecordData, usize), Error>)
        ensures
            rdata_agrees(r, a_at(buf@, start_pos as int)),
            r matches Ok((_, end)) ==> end <= buf.len(),
    {
        if start_pos > buf.len() || buf.len() - start_pos < 4 {
            return Err(complain_too_short("IPv4 address", buf.len(), start_pos as u128 + 4));
        }
        let ip = Ipv4Address(
            buf[start_pos],
            buf[start_pos + 1],
            buf[start_pos + 2],
            buf[start_pos + 3],
        );

        Ok((RecordData::A(ip), start_pos + 4))
    }

    /// An AAAA record has 128 bits of data: an IPv6 address.
    pub fn parse_aaaa(buf: &[u8], start_pos: usize) -> (r: Result<(RecordData, usize), Error>)
        ensures
            rdata_agrees(r, aaaa_at(buf@, start_pos as int)),
            r matches Ok((_, end)) ==> end <= buf.len(),
    {
        if start_pos > buf.len() || buf.len() - start_pos < 16 {
            return Err(complain_too_short("IPv6 address", buf.len(), start_pos as u128 + 16));
        }
        let ip = Ipv6Address(
            read_u16(buf, start_pos),
            read_u16(buf, start_pos + 2),
            read_u16(buf, start_pos + 4),
            read_u16(buf, start_pos + 6),
            read_u16(buf, start_pos + 8),
            read_u16(buf, start_pos + 10),
            read_u16(buf, start_pos + 12),
            read_u16(buf, start_pos + 14),
        );

        Ok((RecordData::AAAA(ip), start_pos + 16))
    }

    /// The data of a CNAME record are one name.
    pub fn parse_cname(buf: &[u8], start_pos: usize) -> (r: Result<(RecordData, usize), Error>)
        ensures
            rdata_agrees(r, cname_at(buf@, start_pos as int)),
            r matches Ok((_, end)) ==> end <= buf.len(),
    {
        match parse_domain(buf, start_pos) {
            Ok((domain, domain_end)) => Ok((RecordData::CNAME(domain), domain_end)),
            Err(error) => Err(error),
        }
    }

    /// The data of an NS record are one name.
    pub fn parse_ns(buf: &[u8], start_pos: usize) -> (r: Result<(RecordData, usize), Error>)
        ensures
            rdata_agrees(r, ns_at(buf@, start_pos as int)),
            r matches Ok((_, end)) ==> end <= buf.len(),
    {
        match parse_domain(buf, start_pos) {
            Ok((domain, domain_end)) => Ok((RecordData::NS(domain), domain_end)),
            Err(error) => Err(error),
        }
    }

    /// The data of an SOA record are two names and five numbers of 32 bits:
    /// serial, refresh, retry, expire and minimum. Refresh, retry and expire
    /// are signed.
    pub fn parse_soa(buf: &[u8], start_pos: usize) -> (r: Result<(RecordData, usize), Error>)
        ensures
            rdata_agrees(r, soa_at(buf@, start_pos as int)),
            r matches Ok((_, end)) ==> end <= buf.len(),
    {
        let (m_name, domain_end) = match parse_domain(buf, start_pos) {
            Ok(found) => found,
            Err(error) => {
                return Err(error);
            },
        };
        let (r_name, domain_end) = match parse_domain(buf, domain_end) {
            Ok(found) => found,
            Err(error) => {
                return Err(error);
            },
        };

        if buf.len() - domain_end < 20 {
            return Err(complain_too_short("SOA record", buf.len(), domain_end as u128 + 20));
        }
        let serial = read_u32(buf, domain_end);
        let refresh = read_i32(buf, domain_end + 4);
        let retry = read_i32(buf, domain_end + 8);
        let expire = read_i32(buf, domain_end + 12);
        let minimum = read_u32(buf, domain_end + 16);

        Ok(
            (
                RecordData::SOA(
                    SoaRecord { m_name, r_name, serial, refresh, retry, expire, minimum },
                ),
                domain_end + 20,
            ),
        )
    }
}

/// One entry of the answer, authority or additional section of a message.
#[derive(Debug)]
pub struct ResourceRecord {
    /// The domain name to which this record pertains.
    pub name: String,
    /// The type of the record, which decides the form of its data.
    pub r_type: RecordType,
    /// The class of the record.
    pub r_class: RecordClass,
    /// For how many seconds the record may be kept.
    pub ttl: u32,
    /// The length that the record declares for its data, in bytes.
    pub rd_length: u16,
    /// The data of the record.
    pub r_data: RecordData,
}

/// A [`ResourceRecord`] with its names as sequences of characters.
pub struct ResourceRecordView {
    pub name: Seq<char>,
    pub r_type: RecordType,
    pub r_class: RecordClass,
    pub ttl: u32,
    pub rd_length: u16,
    pub r_data: RecordDataView,
}

impl View for ResourceRecord {
    type V = ResourceRecordView;

    open spec fn view(&self) -> ResourceRecordView {
        ResourceRecordView {
            name: self.name@,
            r_type: self.r_type,
            r_class: self.r_class,
            ttl: self.ttl,
            rd_length: self.rd_length,
            r_data: self.r_data@,
        }
    }
}

/// The complaint about a record whose declared data do not fit the message.
pub open spec fn no_room_for_data(expected: int, len: int) -> ErrorView {
    ErrorView::ResolverError(
        "resource record doesn't contain enough space for RDATA, expect: "@ + decimal(
            expected as nat,
        ) + ", got: "@ + decimal(len as nat),
    )
}

/// The record that `buf` holds at `start`, and where it ends: a name, then
/// ten bytes with type, class, time to live and the length of the data, then
/// the data, which must fit the message in the length declared.
pub open spec fn record_at(buf: Seq<u8>, start: int) -> Result<
    (ResourceRecordView, int),
    ErrorView,
> {
    let fixed = name_end(buf, start);
    let rd_length = u16_at(buf, fixed + 8);
    match domain_name(buf, start) {
        Err(fault) => Err(fault),
        Ok(name) => if buf.len() < fixed + 10 {
            Err(ErrorView::ResolverError("resource record is out of bound"@))
        } else {
            match RecordType::decoded(u16_at(buf, fixed)) {
                Err(fault) => Err(fault),
                Ok(r_type) => match RecordClass::decoded(u16_at(buf, fixed + 2)) {
                    Err(fault) => Err(fault),
                    Ok(r_class) => if buf.len() < fixed + 10 + rd_length {
                        Err(no_room_for_data(fixed + 10 + rd_length, buf.len() as int))
                    } else {
                        match rdata_at(buf, r_type, fixed + 10) {
                            Err(fault) => Err(fault),
                            Ok((r_data, end)) => Ok(
                                (
                                    ResourceRecordView {
                                        name,
                                        r_type,
                                        r_class,
                                        ttl: u32_at(buf, fixed + 4),
                                        rd_length,
                                        r_data,
                                    },
                                    end,
                                ),
                            ),
                        }
                    },
                },
            }
        },
    }
}

/// Whether the decoder's result `r` is what `expected` describes.
pub open spec fn record_agrees(
    r: Result<(ResourceRecord, usize), Error>,
    expected: Result<(ResourceRecordView, int), ErrorView>,
) -> bool {
    match expected {
        Ok((record, end)) => r matches Ok((rr, e)) && rr@ == record && e == end,
        Err(fault) => r matches Err(error) && error@ == fault,
    }
}

impl ResourceRecord {
    /// Decodes the resource record that starts at `start_pos`, and returns
    /// it with the position behind its data.
    pub fn from_response(buf: &[u8], start_pos: usize) -> (r: Result<(Self, usize), Error>)
        ensures
            record_agrees(r, record_at(buf@, start_pos as int)),
            r matches Ok((_, end)) ==> end <= buf.len(),
    {
        let (name, name_end) = match parse_domain(buf, start_pos) {
            Ok(found) => found,
            Err(error) => {
                return Err(error);
            },
        };

        // Type, class, time to live and the length of the data take 2 + 2 + 4 + 2 bytes.
        if buf.len() - name_end < 10 {
            return Err(Error::resolver("resource record is out of bound"));
        }
        let rr_type = match RecordType::try_from(read_u16(buf, name_end)) {
            Ok(rr_type) => rr_type,
            Err(error) => {
                return Err(error);
            },
        };
        let rr_class = match RecordClass::try_from(read_u16(buf, name_end + 2)) {
            Ok(rr_class) => rr_class,
            Err(error) => {
                return Err(error);
            },
        };
        let ttl = read_u32(buf, name_end + 4);
        let rd_length = read_u16(buf, name_end + 8);

        if buf.len() - name_end - 10 < rd_length as usize {
            let mut text =
                "resource record doesn't contain enough space for RDATA, expect: ".to_owned();
            push_decimal(&mut text, name_end as u128 + 10 + rd_length as u128);
            text.append(", got: ");
            push_decimal(&mut text, buf.len() as u128);
            return Err(Error::ResolverError(text));
        }
        let (r_data, rdata_end) = match RecordData::from_response(buf, &rr_type, name_end + 10) {
            Ok(found) => found,
            Err(error) => {
                return Err(error);
            },
        };

        let rr = Self { name, r_type: rr_type, r_class: rr_class, ttl, rd_length, r_data };

        Ok((rr, rdata_end))
    }

    /// The address of this record, where its data are an IPv4 address.
    pub fn ipv4_ip(&self) -> (ip: Option<Ipv4Address>)
        ensures
            ip == match self@.r_data {
                RecordDataView::A(address) => Some(address),
                _ => None,
            },
    {
        match self.r_data {
            RecordData::A(ip) => Some(ip),
            _ => None,
        }
    }
}

} // verus!
