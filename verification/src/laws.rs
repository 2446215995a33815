//! Laws that tie encoding and decoding together.

use crate::error::ErrorView;
use crate::message::{
    encode_labels, header_bytes, lemma_encode_first_label, lemma_header_round_trip, qname,
    question_at, records_at, response_to, MessageHeader, MessageQuestionView, MessageView,
};
use crate::record::{RecordClass, RecordType};
use crate::utils::{
    domain_name, first_dot, is_pointer, label_bytes, label_end, label_ok, label_text, labels,
    labels_ok, name_at, name_end, prepend, DOT,
};
use crate::wire::{u16_at, u16_bytes};
use vstd::prelude::*;
use vstd::utf8::{
    decode_first_scalar, decode_utf8, decode_utf8_split, encode_utf8, encode_utf8_decode_utf8,
    encode_utf8_valid_utf8, is_char_boundary_iff_not_is_continuation_byte, pop_first_scalar,
    valid_utf8, valid_utf8_split,
};

verus! {

/// The first dot of `name` lies inside `name` or at its end, and where it
/// lies inside there is a dot.
pub proof fn lemma_first_dot_is_a_dot(name: Seq<u8>)
    ensures
        0 <= first_dot(name) <= name.len(),
        first_dot(name) < name.len() ==> name[first_dot(name)] == DOT,
    decreases name.len(),
{
    if name.len() > 0 && name[0] != DOT {
        lemma_first_dot_is_a_dot(name.drop_first());
    }
}

/// A dot in well-formed UTF-8 stands between two pieces of well-formed
/// UTF-8, and the text of the whole is the text of the first piece, a dot
/// and the text of the second.
pub proof fn lemma_text_splits_at_dot(name: Seq<u8>, cut: int)
    requires
        valid_utf8(name),
        0 <= cut < name.len(),
        name[cut] == DOT,
    ensures
        valid_utf8(name.take(cut)),
        valid_utf8(name.skip(cut + 1)),
        decode_utf8(name) == decode_utf8(name.take(cut)) + seq!['.'] + decode_utf8(
            name.skip(cut + 1),
        ),
{
    let tail = name.subrange(cut, name.len() as int);
    is_char_boundary_iff_not_is_continuation_byte(name, cut);
    valid_utf8_split(name, cut);
    decode_utf8_split(name, cut);
    assert(name.subrange(0, cut) =~= name.take(cut));
    assert(tail[0] == DOT);
    assert(pop_first_scalar(tail) =~= name.skip(cut + 1));
    assert(0x2Eu8 & 0x7F == 0x2E) by (bit_vector);
    assert(decode_first_scalar(tail) == 0x2E);
    assert('.' as u32 == 0x2E);
    assert(decode_utf8(tail) =~= seq!['.'] + decode_utf8(name.skip(cut + 1)));
    assert(decode_utf8(name) =~= decode_utf8(name.take(cut)) + seq!['.'] + decode_utf8(
        name.skip(cut + 1),
    ));
}

/// Where a message holds the encoding of well-formed labels, decoding there
/// gives the text of the name with these labels, and the bytes of the name
/// are the bytes of the encoding.
pub proof fn lemma_labels_decode(buf: Seq<u8>, pos: int, seen: Set<int>, name: Seq<u8>)
    requires
        valid_utf8(name),
        labels_ok(name),
        0 <= pos,
        pos + encode_labels(labels(name)).len() <= buf.len(),
        buf.subrange(pos, pos + encode_labels(labels(name)).len()) == encode_labels(labels(name)),
    ensures
        name_at(buf, pos, seen) == Ok::<Seq<char>, ErrorView>(decode_utf8(name)),
        name_end(buf, pos) == pos + encode_labels(labels(name)).len(),
    decreases name.len(),
{
    let wire = encode_labels(labels(name));
    let cut = first_dot(name);
    lemma_first_dot_is_a_dot(name);
    assert forall|i: int| 0 <= i < wire.len() implies buf[pos + i] == wire[i] by {
        assert(buf.subrange(pos, pos + wire.len())[i] == buf[pos + i]);
    }
    if cut < name.len() {
        let label = name.take(cut);
        let rest = name.skip(cut + 1);
        let others = encode_labels(labels(rest));
        assert(labels(name)[0] == label);
        assert(label_ok(label));
        lemma_encode_first_label(label, labels(rest));
        assert(wire == seq![(label.len() % 256) as u8] + label + others);
        assert(wire.len() == 1 + label.len() + others.len());
        assert(wire[0] == label.len());
        assert forall|i: int| 0 <= i < label.len() implies wire[1 + i] == label[i] by {}
        assert forall|i: int| 0 <= i < others.len() implies wire[1 + label.len() + i]
            == others[i] by {}
        assert(label_end(buf, pos) == pos + 1 + label.len());
        assert(label_bytes(buf, pos) =~= label);

        assert forall|i: int| 0 <= i < labels(rest).len() implies label_ok(
            #[trigger] labels(rest)[i],
        ) by {
            assert(labels(rest)[i] == labels(name)[i + 1]);
        }
        assert(labels(rest).len() >= 1);
        lemma_encode_first_label(labels(rest)[0], labels(rest).drop_first());
        assert(seq![labels(rest)[0]] + labels(rest).drop_first() =~= labels(rest));
        assert(label_ok(labels(rest)[0]));
        assert(others[0] == labels(rest)[0].len());
        assert(buf[label_end(buf, pos)] == others[0]);

        lemma_text_splits_at_dot(name, cut);
        assert(buf.subrange(label_end(buf, pos), label_end(buf, pos) + others.len()) =~= others);
        lemma_labels_decode(buf, label_end(buf, pos), seen, rest);
        assert(label_text(buf, pos) == decode_utf8(label) + seq!['.']);
        assert(name_end(buf, pos) == name_end(buf, label_end(buf, pos)));
        assert(name_at(buf, pos, seen) == prepend(
            label_text(buf, pos),
            name_at(buf, label_end(buf, pos), seen),
        ));
    } else {
        assert(labels(name) =~= seq![name]);
        assert(labels(name)[0] == name);
        assert(label_ok(name));
        lemma_encode_first_label(name, Seq::empty());
        assert(seq![name] + Seq::<Seq<u8>>::empty() =~= seq![name]);
        assert(wire == seq![(name.len() % 256) as u8] + name + seq![0u8]);
        assert(wire.len() == name.len() + 2);
        assert(wire[0] == name.len());
        assert forall|i: int| 0 <= i < name.len() implies wire[1 + i] == name[i] by {}
        assert(wire[1 + name.len() as int] == 0);
        assert(label_end(buf, pos) == pos + 1 + name.len());
        assert(label_bytes(buf, pos) =~= name);
        assert(buf[label_end(buf, pos)] == 0);
        assert(name_at(buf, label_end(buf, pos), seen) == Ok::<Seq<char>, ErrorView>(
            Seq::empty(),
        ));
        assert(decode_utf8(name) + Seq::<char>::empty() =~= decode_utf8(name));
        assert(name_end(buf, label_end(buf, pos)) == label_end(buf, pos) + 1);
        assert(name_end(buf, pos) == name_end(buf, label_end(buf, pos)));
        assert(name_at(buf, pos, seen) == prepend(
            label_text(buf, pos),
            name_at(buf, label_end(buf, pos), seen),
        ));
    }
}

/// A name with well-formed labels is decoded from its encoding as it was
/// written, and decoding stops behind the encoding.
pub proof fn lemma_name_round_trip(buf: Seq<u8>, start: int, domain: Seq<char>)
    requires
        labels_ok(encode_utf8(domain)),
        0 <= start,
        start + qname(domain).len() <= buf.len(),
        buf.subrange(start, start + qname(domain).len()) == qname(domain),
    ensures
        domain_name(buf, start) == Ok::<Seq<char>, ErrorView>(domain),
        name_end(buf, start) == start + qname(domain).len(),
{
    encode_utf8_valid_utf8(domain);
    encode_utf8_decode_utf8(domain);
    lemma_labels_decode(buf, start, set![start], encode_utf8(domain));
}

/// Decoding the code of a record type gives the type back.
pub proof fn lemma_record_type_round_trip(record_type: RecordType)
    ensures
        RecordType::of_code(record_type.code()) == Some(record_type),
        RecordType::decoded(record_type.code()) == Ok::<RecordType, ErrorView>(record_type),
{
}

/// Decoding the code of a record class gives the class back.
pub proof fn lemma_record_class_round_trip(record_class: RecordClass)
    ensures
        RecordClass::of_code(record_class.code()) == Some(record_class),
        RecordClass::decoded(record_class.code()) == Ok::<RecordClass, ErrorView>(record_class),
{
}

/// The bytes of a question about a name with well-formed labels decode,
/// wherever a message holds them, to the question.
pub proof fn lemma_question_round_trip(buf: Seq<u8>, start: int, question: MessageQuestionView)
    requires
        labels_ok(encode_utf8(question.domain)),
        0 <= start,
        start + question.wire().len() <= buf.len(),
        buf.subrange(start, start + question.wire().len()) == question.wire(),
    ensures
        question_at(buf, start) == Ok::<(MessageQuestionView, int), ErrorView>(
            (question, start + question.wire().len()),
        ),
{
    let wire = question.wire();
    let name = qname(question.domain);
    let length = name.len() as int;
    let fixed = start + length;
    assert(wire.len() == name.len() + 4);
    assert forall|i: int| 0 <= i < wire.len() implies buf[start + i] == wire[i] by {
        assert(buf.subrange(start, start + wire.len())[i] == buf[start + i]);
    }
    assert(buf.subrange(start, start + name.len()) =~= name);
    lemma_name_round_trip(buf, start, question.domain);
    assert(buf[fixed] == wire[length]);
    assert(buf[fixed + 1] == wire[length + 1]);
    assert(buf[fixed + 2] == wire[length + 2]);
    assert(buf[fixed + 3] == wire[length + 3]);
    assert(u16_at(buf, fixed) == question.q_type.code());
    assert(u16_at(buf, fixed + 2) == question.q_class.code());
    lemma_record_type_round_trip(question.q_type);
    lemma_record_class_round_trip(question.q_class);
}

/// A query about a name with well-formed labels is, read as a response to
/// itself, the query: a name server that sends the question back as it got
/// it passes the check of the response against the query.
pub proof fn lemma_query_answers_itself(id: u16, domain: Seq<char>, record_type: RecordType)
    requires
        labels_ok(encode_utf8(domain)),
    ensures
        response_to(
            MessageView::query(id, domain, record_type).query_bytes(),
            MessageView::query(id, domain, record_type),
        ) == Ok::<MessageView, ErrorView>(MessageView::query(id, domain, record_type)),
{
    let query = MessageView::query(id, domain, record_type);
    let bytes = query.query_bytes();
    lemma_header_round_trip(query.header);
    assert(header_bytes(bytes) =~= query.header.wire());
    assert(bytes.subrange(12, 12 + query.question.wire().len() as int)
        =~= query.question.wire());
    lemma_question_round_trip(bytes, 12, query.question);
    assert(MessageHeader::rcode(query.header.flags) == 0);
    assert(MessageHeader::validated(query.header, query.header) is Ok);
    assert(MessageQuestionView::validated(query.question, query.question) is Ok);
    assert(records_at(bytes, bytes.len() as int, 0) == Ok::<
        (Seq<crate::record::ResourceRecordView>, int),
        ErrorView,
    >((Seq::empty(), bytes.len() as int)));
}

} // verus!
