use crate::error::{Error, ErrorView, NameServerError};
use crate::record::{
    record_at, RecordClass, RecordType, ResourceRecord, ResourceRecordView,
};
use crate::text::{decimal, numbered};
use crate::utils::{domain_name, label_stop, labels, name_end, parse_domain};
use crate::wire::{push_u16, read_u16, u16_at, u16_bytes};
use rand::Rng;
use vstd::prelude::*;
use vstd::slice::slice_subrange;
use vstd::std_specs::convert::TryFromSpecImpl;
use vstd::utf8::encode_utf8;

verus! {

/// A number for the identifier of a query, from `rand::thread_rng().gen()`.
/// Nothing is claimed of the number.
#[verifier::external_body]
fn random_id() -> (id: u16) {
    rand::thread_rng().gen()
}

/// The header of a message: six numbers of 16 bits.
///
/// `flags` holds, from the most significant bit down: QR, four bits of
/// OPCODE, AA, TC, RD, RA, three reserved bits and four bits of RCODE.
#[derive(Debug, PartialEq, Eq, Structural, Clone, Copy)]
pub struct MessageHeader {
    pub id: u16,
    pub flags: u16,
    pub qd_count: u16,
    pub an_count: u16,
    pub ns_count: u16,
    pub ar_count: u16,
}

impl MessageHeader {
    /// The header of a standard query with identifier `id`.
    pub open spec fn query(id: u16, qd_count: u16) -> MessageHeader {
        MessageHeader { id, flags: 0, qd_count, an_count: 0, ns_count: 0, ar_count: 0 }
    }

    /// The header that the first twelve bytes of `buf` hold.
    pub open spec fn at(buf: Seq<u8>) -> MessageHeader {
        MessageHeader {
            id: u16_at(buf, 0),
            flags: u16_at(buf, 2),
            qd_count: u16_at(buf, 4),
            an_count: u16_at(buf, 6),
            ns_count: u16_at(buf, 8),
            ar_count: u16_at(buf, 10),
        }
    }

    /// What decoding a header from `bytes` yields: a header is exactly
    /// twelve bytes.
    pub open spec fn decoded(bytes: Seq<u8>) -> Result<MessageHeader, ErrorView> {
        if bytes.len() != 12 {
            Err(
                ErrorView::ResolverError(
                    "can't parse response header with length: "@ + decimal(bytes.len()),
                ),
            )
        } else {
            Ok(MessageHeader::at(bytes))
        }
    }

    /// The twelve bytes of this header.
    pub open spec fn wire(self) -> Seq<u8> {
        u16_bytes(self.id) + u16_bytes(self.flags) + u16_bytes(self.qd_count) + u16_bytes(
            self.an_count,
        ) + u16_bytes(self.ns_count) + u16_bytes(self.ar_count)
    }

    /// The response code in `flags`: its four lowest bits.
    pub open spec fn rcode(flags: u16) -> u16 {
        flags % 16
    }

    /// What checking the response code in `flags` yields.
    pub open spec fn rcode_checked(flags: u16) -> Result<(), ErrorView> {
        if MessageHeader::rcode(flags) == 0 {
            Ok(())
        } else {
            Err(ErrorView::ServerError(NameServerError::of_code(MessageHeader::rcode(flags))))
        }
    }

    /// What holding the header `response` against the header `query` of the
    /// query yields. The response code is looked at first. Then identifier
    /// and question count must be those of the query.
    pub open spec fn validated(query: MessageHeader, response: MessageHeader) -> Result<
        (),
        ErrorView,
    > {
        if MessageHeader::rcode_checked(response.flags) is Err {
            MessageHeader::rcode_checked(response.flags)
        } else if query.id == response.id && query.qd_count == response.qd_count {
            Ok(())
        } else {
            Err(ErrorView::ResolverError("mismatched response header"@))
        }
    }

    /// The header of a standard query with the given identifier.
    pub fn with_id(id: u16, qd_count: u16) -> (header: MessageHeader)
        ensures
            header == MessageHeader::query(id, qd_count),
    {
        MessageHeader {
            id,
            // A query has QR = 0 and, for a standard query, OPCODE = 0.
            flags: 0,
            qd_count,
            an_count: 0,
            ns_count: 0,
            ar_count: 0,
        }
    }

    /// The header of a standard query with a random identifier.
    pub fn with_qd_count(qd_count: u16) -> (header: MessageHeader)
        ensures
            header == MessageHeader::query(header.id, qd_count),
    {
        MessageHeader::with_id(random_id(), qd_count)
    }

    /// The twelve bytes of this header, each number most significant byte
    /// first.
    pub fn to_be_bytes(&self) -> (header: Vec<u8>)
        ensures
            header@ == self.wire(),
            header@.len() == 12,
            MessageHeader::decoded(header@) == Ok::<MessageHeader, ErrorView>(*self),
    {
        let mut header = Vec::with_capacity(12);
        push_u16(&mut header, self.id);
        push_u16(&mut header, self.flags);
        push_u16(&mut header, self.qd_count);
        push_u16(&mut header, self.an_count);
        push_u16(&mut header, self.ns_count);
        push_u16(&mut header, self.ar_count);
        proof {
            lemma_header_round_trip(*self);
        }
        header
    }

    /// Holds the header `response` against the header `question` of the
    /// query. The counts of records are not compared: a query has none.
    pub fn validate(question: &Self, response: &Self) -> (r: Result<(), Error>)
        ensures
            match MessageHeader::validated(*question, *response) {
                Ok(_) => r is Ok,
                Err(fault) => r matches Err(error) && error@ == fault,
            },
    {
        match Self::check_rcode(&response.flags) {
            Ok(_) => {},
            Err(error) => {
                return Err(error);
            },
        }
        if question.id == response.id && question.qd_count == response.qd_count {
            Ok(())
        } else {
            Err(Error::resolver("mismatched response header"))
        }
    }

    /// Fails with the server's complaint where the response code in `flags`
    /// is not zero.
    pub fn check_rcode(flags: &u16) -> (r: Result<(), Error>)
        ensures
            match MessageHeader::rcode_checked(*flags) {
                Ok(_) => r is Ok,
                Err(fault) => r matches Err(error) && error@ == fault,
            },
    {
        let value: u16 = *flags;
        let r_code: u16 = value & 0x000F;
        assert(value & 0x000F == value % 16) by (bit_vector);

        match r_code {
            0 => Ok(()),
            _ => Err(Error::ServerError(NameServerError::from(r_code))),
        }
    }
}

/// Decoding the bytes of a header gives the header back.
pub proof fn lemma_header_round_trip(header: MessageHeader)
    ensures
        header.wire().len() == 12,
        MessageHeader::decoded(header.wire()) == Ok::<MessageHeader, ErrorView>(header),
{
    let bytes = header.wire();
    assert(bytes =~= seq![
        (header.id / 256) as u8,
        (header.id % 256) as u8,
        (header.flags / 256) as u8,
        (header.flags % 256) as u8,
        (header.qd_count / 256) as u8,
        (header.qd_count % 256) as u8,
        (header.an_count / 256) as u8,
        (header.an_count % 256) as u8,
        (header.ns_count / 256) as u8,
        (header.ns_count % 256) as u8,
        (header.ar_count / 256) as u8,
        (header.ar_count % 256) as u8,
    ]);
}

impl<'a> TryFrom<&'a [u8]> for MessageHeader {
    type Error = Error;

    /// Decodes a header from the twelve bytes that hold it.
    fn try_from(header: &'a [u8]) -> (r: Result<MessageHeader, Error>)
        ensures
            match MessageHeader::decoded(header@) {
                Ok(decoded) => r == Ok::<MessageHeader, Error>(decoded),
                Err(fault) => r matches Err(error) && error@ == fault,
            },
    {
        if header.len() != 12 {
            return Err(
                Error::ResolverError(
                    numbered("can't parse response header with length: ", header.len() as u128),
                ),
            );
        }
        Ok(
            MessageHeader {
                id: read_u16(header, 0),
                flags: read_u16(header, 2),
                qd_count: read_u16(header, 4),
                an_count: read_u16(header, 6),
                ns_count: read_u16(header, 8),
                ar_count: read_u16(header, 10),
            },
        )
    }
}

/// The law of `TryFrom` is not claimed for this impl: its error carries a
/// text, and no ghost expression can build a `String`. The contract of
/// `try_from` states the result in full.
impl<'a> TryFromSpecImpl<&'a [u8]> for MessageHeader {
    open spec fn obeys_try_from_spec() -> bool {
        false
    }

    open spec fn try_from_spec(header: &'a [u8]) -> Result<MessageHeader, Error> {
        arbitrary()
    }
}

/// The question of a message: a name, and the type and class asked for.
#[derive(Debug)]
pub struct MessageQuestion {
    pub domain: String,
    pub q_type: RecordType,
    pub q_class: RecordClass,
}

/// A [`MessageQuestion`] with its name as a sequence of characters.
pub struct MessageQuestionView {
    pub domain: Seq<char>,
    pub q_type: RecordType,
    pub q_class: RecordClass,
}

impl View for MessageQuestion {
    type V = MessageQuestionView;

    open spec fn view(&self) -> MessageQuestionView {
        MessageQuestionView { domain: self.domain@, q_type: self.q_type, q_class: self.q_class }
    }
}

/// The labels one after the other, each behind a byte with its length, and
/// a zero byte at the end. A length is written modulo 256.
pub open spec fn encode_labels(labels: Seq<Seq<u8>>) -> Seq<u8>
    decreases labels.len(),
{
    if labels.len() == 0 {
        seq![0u8]
    } else {
        seq![(labels[0].len() % 256) as u8] + labels[0] + encode_labels(labels.drop_first())
    }
}

/// The name `domain` as it stands in a message: the labels between its dots.
pub open spec fn qname(domain: Seq<char>) -> Seq<u8> {
    encode_labels(labels(encode_utf8(domain)))
}

impl MessageQuestionView {
    /// The question asked about `domain` for `record_type`, in class IN.
    pub open spec fn about(domain: Seq<char>, record_type: RecordType) -> MessageQuestionView {
        MessageQuestionView { domain, q_type: record_type, q_class: RecordClass::IN }
    }

    /// The bytes of this question: the name, then type and class.
    pub open spec fn wire(self) -> Seq<u8> {
        qname(self.domain) + u16_bytes(self.q_type.code()) + u16_bytes(self.q_class.code())
    }

    /// What holding the question `response` against the question `query` of
    /// the query yields: name, class and type must be the same.
    pub open spec fn validated(query: MessageQuestionView, response: MessageQuestionView) -> Result<
        (),
        ErrorView,
    > {
        if query.domain == response.domain && query.q_class == response.q_class && query.q_type
            == response.q_type {
            Ok(())
        } else {
            Err(ErrorView::ResolverError("response data doesn't match question"@))
        }
    }
}

/// The question that `buf` holds at `start`, and where it ends: a name, then
/// four bytes with type and class.
pub open spec fn question_at(buf: Seq<u8>, start: int) -> Result<
    (MessageQuestionView, int),
    ErrorView,
> {
    let fixed = name_end(buf, start);
    match domain_name(buf, start) {
        Err(fault) => Err(fault),
        Ok(domain) => if fixed + 4 > buf.len() {
            Err(ErrorView::ResolverError("Question field is our of bound"@))
        } else {
            match RecordType::decoded(u16_at(buf, fixed)) {
                Err(fault) => Err(fault),
                Ok(q_type) => match RecordClass::decoded(u16_at(buf, fixed + 2)) {
                    Err(fault) => Err(fault),
                    Ok(q_class) => Ok((MessageQuestionView { domain, q_type, q_class }, fixed + 4)),
                },
            }
        },
    }
}

/// The encoding of a first label and of the labels after it.
pub proof fn lemma_encode_first_label(label: Seq<u8>, others: Seq<Seq<u8>>)
    ensures
        encode_labels(seq![label] + others) == seq![(label.len() % 256) as u8] + label
            + encode_labels(others),
{
    assert((seq![label] + others).drop_first() =~= others);
}

/// Appends `bytes` to `out`.
fn push_bytes(out: &mut Vec<u8>, bytes: &[u8])
    ensures
        final(out)@ == old(out)@ + bytes@,
{
    let mut i: usize = 0;
    while i < bytes.len()
        invariant
            i <= bytes.len(),
            out@ == old(out)@ + bytes@.take(i as int),
        decreases bytes.len() - i,
    {
        out.push(bytes[i]);
        assert(bytes@.take(i + 1) =~= bytes@.take(i as int).push(bytes@[i as int]));
        i += 1;
    }
    assert(bytes@.take(i as int) =~= bytes@);
}

impl MessageQuestion {
    /// The question asked about `domain` for `record_type`, in class IN.
    pub fn with_domain(domain: &str, record_type: &RecordType) -> (question: MessageQuestion)
        ensures
            question@ == MessageQuestionView::about(domain@, *record_type),
    {
        Self { domain: domain.to_owned(), q_type: *record_type, q_class: RecordClass::IN }
    }

    /// Decodes the question that starts at `start_pos`, and returns it with
    /// the position behind it.
    pub fn from_response(buf: &[u8], start_pos: usize) -> (r: Result<(Self, usize), Error>)
        ensures
            match question_at(buf@, start_pos as int) {
                Ok((question, end)) => r matches Ok((q, e)) && q@ == question && e == end,
                Err(fault) => r matches Err(error) && error@ == fault,
            },
            r matches Ok((_, end)) ==> end <= buf.len(),
    {
        let (domain, qname_end_pos) = match parse_domain(buf, start_pos) {
            Ok(found) => found,
            Err(error) => {
                return Err(error);
            },
        };

        // Behind the name stand two bytes for the type and two for the class.
        if buf.len() - qname_end_pos < 4 {
            return Err(Error::resolver("Question field is our of bound"));
        }
        let q_type = match RecordType::try_from(read_u16(buf, qname_end_pos)) {
            Ok(q_type) => q_type,
            Err(error) => {
                return Err(error);
            },
        };
        let q_class = match RecordClass::try_from(read_u16(buf, qname_end_pos + 2)) {
            Ok(q_class) => q_class,
            Err(error) => {
                return Err(error);
            },
        };

        Ok((Self { domain, q_type, q_class }, qname_end_pos + 4))
    }

    /// The bytes of this question: the name, then type and class.
    pub fn to_bytes(&self) -> (question: Vec<u8>)
        ensures
            question@ == self@.wire(),
    {
        let mut question = self.build_qname();
        push_u16(&mut question, self.q_type.to_u16());
        push_u16(&mut question, self.q_class.to_u16());

        question
    }

    /// The name of the question as it stands in a message. For the name
    /// "blog.wtcx.dev" these are the bytes of "4blog4wtcx3dev0", with the
    /// digits standing for bytes of that value.
    pub fn build_qname(&self) -> (bytes: Vec<u8>)
        ensures
            bytes@ == qname(self.domain@),
    {
        let name = self.domain.as_str().as_bytes();
        let mut out: Vec<u8> = Vec::new();
        let mut start: usize = 0;
        assert(name@.skip(0) =~= name@);
        loop
            invariant
                start <= name.len(),
                name@ == encode_utf8(self.domain@),
                encode_labels(labels(name@)) == out@ + encode_labels(
                    labels(name@.skip(start as int)),
                ),
            decreases name.len() - start,
        {
            let stop = label_stop(name, start);
            let ghost label = name@.subrange(start as int, stop as int);
            let ghost before = out@;
            out.push(((stop - start) % 256) as u8);
            push_bytes(&mut out, slice_subrange(name, start, stop));
            if stop == name.len() {
                // Every name ends with the empty label of the root.
                out.push(0);
                proof {
                    lemma_encode_first_label(label, Seq::empty());
                    assert(seq![label] + Seq::<Seq<u8>>::empty() =~= seq![label]);
                    assert(out@ =~= before + (seq![(label.len() % 256) as u8] + label + seq![
                        0u8,
                    ]));
                }
                return out;
            }
            proof {
                lemma_encode_first_label(label, labels(name@.skip(stop + 1)));
                assert(before + (seq![(label.len() % 256) as u8] + label + encode_labels(
                    labels(name@.skip(stop + 1)),
                )) =~= out@ + encode_labels(labels(name@.skip(stop + 1))));
            }
            start = stop + 1;
        }
    }

    /// Holds the question `response` against the question `query` of the
    /// query: they must be the same.
    pub fn validate(query: &Self, response: &Self) -> (r: Result<(), Error>)
        ensures
            match MessageQuestionView::validated(query@, response@) {
                Ok(_) => r is Ok,
                Err(fault) => r matches Err(error) && error@ == fault,
            },
    {
        if query.domain == response.domain && query.q_class == response.q_class && query.q_type
            == response.q_type {
            Ok(())
        } else {
            Err(Error::resolver("response data doesn't match question"))
        }
    }
}

/// A message: a header, one question and three lists of resource records.
///
/// A query holds header and question and has empty lists. A response is
/// decoded from the bytes that a name server sent.
#[derive(Debug)]
pub struct Message {
    pub header: MessageHeader,
    pub question: MessageQuestion,
    pub answers: Vec<ResourceRecord>,
    pub authorities: Vec<ResourceRecord>,
    pub additionals: Vec<ResourceRecord>,
}

/// A [`Message`] with its names as sequences of characters.
pub struct MessageView {
    pub header: MessageHeader,
    pub question: MessageQuestionView,
    pub answers: Seq<ResourceRecordView>,
    pub authorities: Seq<ResourceRecordView>,
    pub additionals: Seq<ResourceRecordView>,
}

/// The views of `records`, in order.
pub open spec fn views(records: Seq<ResourceRecord>) -> Seq<ResourceRecordView> {
    records.map_values(|record: ResourceRecord| record@)
}

impl View for Message {
    type V = MessageView;

    open spec fn view(&self) -> MessageView {
        MessageView {
            header: self.header,
            question: self.question@,
            answers: views(self.answers@),
            authorities: views(self.authorities@),
            additionals: views(self.additionals@),
        }
    }
}

impl MessageView {
    /// The query with identifier `id` that asks about `domain` for
    /// `record_type`.
    pub open spec fn query(id: u16, domain: Seq<char>, record_type: RecordType) -> MessageView {
        MessageView {
            header: MessageHeader::query(id, 1),
            question: MessageQuestionView::about(domain, record_type),
            answers: Seq::empty(),
            authorities: Seq::empty(),
            additionals: Seq::empty(),
        }
    }

    /// The bytes that are sent for this message as a query: its header and
    /// its question.
    pub open spec fn query_bytes(self) -> Seq<u8> {
        self.header.wire() + self.question.wire()
    }
}

/// `count` records one after the other from `start` on, and where the last
/// of them ends.
pub open spec fn records_at(buf: Seq<u8>, start: int, count: nat) -> Result<
    (Seq<ResourceRecordView>, int),
    ErrorView,
>
    decreases count,
{
    if count == 0 {
        Ok((Seq::empty(), start))
    } else {
        match record_at(buf, start) {
            Err(fault) => Err(fault),
            Ok((first, next)) => match records_at(buf, next, (count - 1) as nat) {
                Err(fault) => Err(fault),
                Ok((others, end)) => Ok((seq![first] + others, end)),
            },
        }
    }
}

/// `rest` with the records `done` put in front of its records.
pub open spec fn after_records(
    done: Seq<ResourceRecordView>,
    rest: Result<(Seq<ResourceRecordView>, int), ErrorView>,
) -> Result<(Seq<ResourceRecordView>, int), ErrorView> {
    match rest {
        Ok((others, end)) => Ok((done + others, end)),
        Err(fault) => Err(fault),
    }
}

/// The bytes of `buf` that are taken for its header: the first twelve, or
/// all of them where there are fewer.
pub open spec fn header_bytes(buf: Seq<u8>) -> Seq<u8> {
    if buf.len() < 12 {
        buf
    } else {
        buf.take(12)
    }
}

/// The message that `buf` holds as the response to `query`.
///
/// The header comes first and must fit the header of the query. The question
/// starts at byte 12 and must be the question of the query. Behind it stand
/// the answers, the authorities and the additionals, as many of each as the
/// header counts. The first fault met on the way is the result.
pub open spec fn response_to(buf: Seq<u8>, query: MessageView) -> Result<MessageView, ErrorView> {
    match MessageHeader::decoded(header_bytes(buf)) {
        Err(fault) => Err(fault),
        Ok(header) => match MessageHeader::validated(query.header, header) {
            Err(fault) => Err(fault),
            Ok(_) => match question_at(buf, 12) {
                Err(fault) => Err(fault),
                Ok((question, answers_at)) => match MessageQuestionView::validated(
                    query.question,
                    question,
                ) {
                    Err(fault) => Err(fault),
                    Ok(_) => match records_at(buf, answers_at, header.an_count as nat) {
                        Err(fault) => Err(fault),
                        Ok((answers, authorities_at)) => match records_at(
                            buf,
                            authorities_at,
                            header.ns_count as nat,
                        ) {
                            Err(fault) => Err(fault),
                            Ok((authorities, additionals_at)) => match records_at(
                                buf,
                                additionals_at,
                                header.ar_count as nat,
                            ) {
                                Err(fault) => Err(fault),
                                Ok((additionals, _)) => Ok(
                                    MessageView {
                                        header,
                                        question,
                                        answers,
                                        authorities,
                                        additionals,
                                    },
                                ),
                            },
                        },
                    },
                },
            },
        },
    }
}

/// The first twelve bytes of a query decode to the header of the query: the
/// identifier that was chosen for it, and one question.
pub proof fn lemma_query_header_round_trip(id: u16, domain: Seq<char>, record_type: RecordType)
    ensures
        MessageHeader::decoded(
            header_bytes(MessageView::query(id, domain, record_type).query_bytes()),
        ) == Ok::<MessageHeader, ErrorView>(MessageHeader::query(id, 1)),
        MessageHeader::query(id, 1).id == id,
        MessageHeader::query(id, 1).qd_count == 1,
{
    let query = MessageView::query(id, domain, record_type);
    lemma_header_round_trip(query.header);
    assert(query.query_bytes().take(12) =~= query.header.wire());
}

/// Decodes `count` records one after the other from `start_pos` on, and
/// returns them with the position behind the last.
pub fn decode_records(buf: &[u8], start_pos: usize, count: u16) -> (r: Result<
    (Vec<ResourceRecord>, usize),
    Error,
>)
    ensures
        match records_at(buf@, start_pos as int, count as nat) {
            Ok((records, end)) => r matches Ok((found, e)) && views(found@) == records && e == end,
            Err(fault) => r matches Err(error) && error@ == fault,
        },
{
    let mut records: Vec<ResourceRecord> = Vec::new();
    let mut last_pos = start_pos;
    let mut i: u16 = 0;
    assert(views(records@) =~= Seq::empty());
    assert(after_records(Seq::empty(), records_at(buf@, start_pos as int, count as nat))
        == records_at(buf@, start_pos as int, count as nat)) by {
        match records_at(buf@, start_pos as int, count as nat) {
            Ok((others, _)) => {
                assert(Seq::<ResourceRecordView>::empty() + others =~= others);
            },
            Err(_) => {},
        }
    }
    while i < count
        invariant
            i <= count,
            records_at(buf@, start_pos as int, count as nat) == after_records(
                views(records@),
                records_at(buf@, last_pos as int, (count - i) as nat),
            ),
        decreases count - i,
    {
        let ghost done = views(records@);
        let (resource_record, record_end) = match ResourceRecord::from_response(buf, last_pos) {
            Ok(found) => found,
            Err(error) => {
                return Err(error);
            },
        };
        let ghost first = resource_record@;
        records.push(resource_record);
        proof {
            assert(views(records@) =~= done.push(first));
            match records_at(buf@, record_end as int, (count - i - 1) as nat) {
                Ok((others, _)) => {
                    assert(done + (seq![first] + others) =~= done.push(first) + others);
                },
                Err(_) => {},
            }
        }
        last_pos = record_end;
        i += 1;
    }
    proof {
        assert(views(records@) + Seq::<ResourceRecordView>::empty() =~= views(records@));
    }
    Ok((records, last_pos))
}

impl Message {
    /// The query with identifier `id` that asks about `domain` for
    /// `record_type`.
    pub fn with_id(id: u16, domain: &str, record_type: &RecordType) -> (query: Message)
        ensures
            query@ == MessageView::query(id, domain@, *record_type),
    {
        let query = Self {
            header: MessageHeader::with_id(id, 1),
            question: MessageQuestion::with_domain(domain, record_type),
            answers: Vec::new(),
            authorities: Vec::new(),
            additionals: Vec::new(),
        };
        assert(query@.answers =~= Seq::empty());
        assert(query@.authorities =~= Seq::empty());
        assert(query@.additionals =~= Seq::empty());
        query
    }

    /// A query with a random identifier that asks about `domain` for
    /// `record_type`.
    pub fn new_query(domain: &str, record_type: &RecordType) -> (query: Message)
        ensures
            query@ == MessageView::query(query.header.id, domain@, *record_type),
    {
        let query = Self {
            header: MessageHeader::with_qd_count(1),
            question: MessageQuestion::with_domain(domain, record_type),
            answers: Vec::new(),
            authorities: Vec::new(),
            additionals: Vec::new(),
        };
        assert(query@.answers =~= Seq::empty());
        assert(query@.authorities =~= Seq::empty());
        assert(query@.additionals =~= Seq::empty());
        query
    }

    /// The bytes to send for a standard query: header and question.
    pub fn to_query_bytes(&self) -> (payload: Vec<u8>)
        ensures
            payload@ == self@.query_bytes(),
    {
        let mut payload = self.header.to_be_bytes();
        let question = self.question.to_bytes();
        push_bytes(&mut payload, question.as_slice());

        payload
    }

    /// Decodes the response in `buf` to the query `query`.
    pub fn with_response(buf: &[u8], query: &Self) -> (r: Result<Self, Error>)
        ensures
            match response_to(buf@, query@) {
                Ok(message) => r matches Ok(m) && m@ == message,
                Err(fault) => r matches Err(error) && error@ == fault,
            },
    {
        // The header takes the first twelve bytes: six numbers of 16 bits.
        let head = if buf.len() < 12 {
            buf
        } else {
            slice_subrange(buf, 0, 12)
        };
        let header = match MessageHeader::try_from(head) {
            Ok(header) => header,
            Err(error) => {
                return Err(error);
            },
        };
        match MessageHeader::validate(&query.header, &header) {
            Ok(_) => {},
            Err(error) => {
                return Err(error);
            },
        }

        // The question starts at the thirteenth byte; its length varies.
        let (question, question_end) = match MessageQuestion::from_response(buf, 12) {
            Ok(found) => found,
            Err(error) => {
                return Err(error);
            },
        };
        match MessageQuestion::validate(&query.question, &question) {
            Ok(_) => {},
            Err(error) => {
                return Err(error);
            },
        }

        let (answers, answers_end) = match decode_records(buf, question_end, header.an_count) {
            Ok(found) => found,
            Err(error) => {
                return Err(error);
            },
        };
        let (authorities, authorities_end) = match decode_records(
            buf,
            answers_end,
            header.ns_count,
        ) {
            Ok(found) => found,
            Err(error) => {
                return Err(error);
            },
        };
        let (additionals, _) = match decode_records(buf, authorities_end, header.ar_count) {
            Ok(found) => found,
            Err(error) => {
                return Err(error);
            },
        };

        Ok(Self { header, question, answers, authorities, additionals })
    }
}

} // verus!
