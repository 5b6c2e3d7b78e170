//! The query packet: a header that announces one question, and the
//! question that asks for pointers to the peer-discovery service.

use crate::name::{
    append_qname, check_name, encode_labels, labels, labels_fit, lemma_label_end_at,
    lemma_labels_single, lemma_labels_split, name_verdict, qname, NameError,
};
use crate::wire::{append_u16, be16, be16_value, lemma_be16_injective};
use vstd::prelude::*;

verus! {

/// An encoded query, ready to be sent.
pub type MdnsPacket = Vec<u8>;

/// The name asked for, written as a fully qualified domain name.
pub const SERVICE_NAME_FQDN: &'static str = "_p2p._udp.local.";

/// The flags of a standard query.
pub const QUERY_FLAGS: u16 = 0x0000;

/// The number of questions in the packet.
pub const QUESTION_COUNT: u16 = 1;

/// The record type asked for: a domain name pointer.
pub const RECORD_TYPE_PTR: u16 = 0x000c;

/// The record class asked for: the Internet.
pub const RECORD_CLASS_IN: u16 = 0x0001;

/// The length of the packet that asks for `SERVICE_NAME_FQDN`.
pub const QUERY_LEN: usize = 33;

/// The bytes of `SERVICE_NAME_FQDN`.
pub open spec fn service_name() -> Seq<u8> {
    seq![
        0x5fu8, 0x70, 0x32, 0x70, 0x2e,
        0x5f, 0x75, 0x64, 0x70, 0x2e,
        0x6c, 0x6f, 0x63, 0x61, 0x6c, 0x2e,
    ]
}

/// `SERVICE_NAME_FQDN` on the wire: the labels `_p2p`, `_udp` and `local`,
/// then the root.
pub open spec fn service_qname() -> Seq<u8> {
    seq![
        4u8, 0x5f, 0x70, 0x32, 0x70,
        4, 0x5f, 0x75, 0x64, 0x70,
        5, 0x6c, 0x6f, 0x63, 0x61, 0x6c,
        0,
    ]
}

/// The twelve bytes of the header: the transaction identifier, the flags of
/// a standard query, and the counts of questions, answers, authorities and
/// additional records, of which only the first is not zero.
pub open spec fn header(id: u16) -> Seq<u8> {
    be16(id) + be16(QUERY_FLAGS) + be16(QUESTION_COUNT) + be16(0) + be16(0) + be16(0)
}

/// The question for pointers to `name`: the name in wire form, the record
/// type and the record class.
pub open spec fn question(name: Seq<u8>) -> Seq<u8> {
    qname(name) + be16(RECORD_TYPE_PTR) + be16(RECORD_CLASS_IN)
}

/// The packet that asks for `name` under the transaction identifier `id`.
pub open spec fn query_packet(id: u16, name: Seq<u8>) -> Seq<u8> {
    header(id) + question(name)
}

/// The packet that asks for `SERVICE_NAME_FQDN` under the transaction
/// identifier `id`.
pub open spec fn query_bytes(id: u16) -> Seq<u8> {
    query_packet(id, service_name())
}

/// What follows the transaction identifier in every packet that asks for
/// `SERVICE_NAME_FQDN`: the flags, the four counts, the name, the record
/// type and the record class.
pub open spec fn query_tail() -> Seq<u8> {
    seq![
        0u8, 0, 0, 1, 0, 0, 0, 0, 0, 0,
        4, 0x5f, 0x70, 0x32, 0x70,
        4, 0x5f, 0x75, 0x64, 0x70,
        5, 0x6c, 0x6f, 0x63, 0x61, 0x6c,
        0,
        0, 0x0c, 0, 1,
    ]
}

/// Appends the header of a query with one question to `out`.
pub fn append_header(out: &mut Vec<u8>, id: u16)
    ensures
        final(out)@ == old(out)@ + header(id),
{
    append_u16(out, id);
    append_u16(out, QUERY_FLAGS);
    append_u16(out, QUESTION_COUNT);
    append_u16(out, 0x0);
    append_u16(out, 0x0);
    append_u16(out, 0x0);
}

/// Appends the question for pointers to `name` to `out`.
pub fn append_question(out: &mut Vec<u8>, name: &[u8])
    requires
        labels_fit(name@),
    ensures
        final(out)@ == old(out)@ + question(name@),
{
    append_qname(out, name);
    append_u16(out, RECORD_TYPE_PTR);
    append_u16(out, RECORD_CLASS_IN);
}

/// Builds the packet that asks for `name` under the transaction identifier
/// `id`, where `check_name` accepts the name, and otherwise says why it
/// does not.
pub fn encode_query(id: u16, name: &[u8]) -> (built: Result<MdnsPacket, NameError>)
    ensures
        match built {
            Ok(packet) => name_verdict(name@) is Ok && packet@ == query_packet(id, name@),
            Err(e) => name_verdict(name@) == Err::<(), NameError>(e),
        },
{
    match check_name(name) {
        Ok(()) => {
            let mut out: Vec<u8> = Vec::new();
            append_header(&mut out, id);
            append_question(&mut out, name);
            Ok(out)
        },
        Err(e) => Err(e),
    }
}

/// The service name splits into the labels `_p2p`, `_udp` and `local` and
/// ends in its root. Each label fits, every byte is ASCII, and the wire
/// form is `service_qname()`.
pub proof fn lemma_service_name()
    ensures
        labels(service_name()) == seq![
            seq![0x5fu8, 0x70, 0x32, 0x70],
            seq![0x5fu8, 0x75, 0x64, 0x70],
            seq![0x6cu8, 0x6f, 0x63, 0x61, 0x6c],
            Seq::<u8>::empty(),
        ],
        name_verdict(service_name()) is Ok,
        qname(service_name()) == service_qname(),
{
    let s0 = service_name();
    let s1 = seq![0x5fu8, 0x75, 0x64, 0x70, 0x2e, 0x6c, 0x6f, 0x63, 0x61, 0x6c, 0x2e];
    let s2 = seq![0x6cu8, 0x6f, 0x63, 0x61, 0x6c, 0x2e];
    let s3 = Seq::<u8>::empty();
    let l0 = seq![0x5fu8, 0x70, 0x32, 0x70];
    let l1 = seq![0x5fu8, 0x75, 0x64, 0x70];
    let l2 = seq![0x6cu8, 0x6f, 0x63, 0x61, 0x6c];
    assert(s0.take(4) =~= l0 && s0.skip(5) =~= s1);
    assert(s1.take(4) =~= l1 && s1.skip(5) =~= s2);
    assert(s2.take(5) =~= l2 && s2.skip(6) =~= s3);
    lemma_label_end_at(s3, 0);
    lemma_labels_single(s3);
    lemma_label_end_at(s2, 5);
    lemma_labels_split(s2, 5);
    lemma_label_end_at(s1, 4);
    lemma_labels_split(s1, 4);
    lemma_label_end_at(s0, 4);
    lemma_labels_split(s0, 4);
    assert(encode_labels(labels(s1)) =~= seq![
        4u8, 0x5f, 0x75, 0x64, 0x70,
        5, 0x6c, 0x6f, 0x63, 0x61, 0x6c,
        0,
    ]);
}

/// Builds the packet that asks for `SERVICE_NAME_FQDN` under the
/// transaction identifier `id`.
pub fn build_query_with_id(id: u16) -> (packet: MdnsPacket)
    ensures
        packet@ == query_bytes(id),
{
    let mut out: Vec<u8> = Vec::with_capacity(QUERY_LEN);
    let name = SERVICE_NAME_FQDN.as_bytes();
    proof {
        reveal_strlit("_p2p._udp.local.");
        vstd::string::is_ascii_spec_bytes(SERVICE_NAME_FQDN);
        assert(name@ =~= service_name());
        lemma_service_name();
    }
    append_header(&mut out, id);
    append_question(&mut out, name);
    out
}

/// Draws a transaction identifier from `rand::random`, which asks the
/// thread's generator for sixteen bits. Any value may come back, and two
/// draws need not agree, so nothing is promised of the result. The call
/// takes no argument, so no precondition can exclude its one failure: it
/// panics where the operating system gives the generator no seed.
#[verifier::external_body]
fn random_transaction_id() -> (id: u16) {
    rand::random()
}

/// Builds the packet that asks for `SERVICE_NAME_FQDN` under a transaction
/// identifier drawn at random. Whatever was drawn, the packet has
/// `QUERY_LEN` bytes, and all but its first two are those of `query_tail()`.
pub fn build_query() -> (packet: MdnsPacket)
    ensures
        exists|id: u16| packet@ == query_bytes(id),
        packet@.len() == QUERY_LEN,
        packet@.skip(2) == query_tail(),
{
    let id: u16 = random_transaction_id();
    let packet = build_query_with_id(id);
    proof {
        lemma_query_bytes(id);
    }
    packet
}

/// The packet that asks for `SERVICE_NAME_FQDN` is the transaction
/// identifier in two bytes and then `query_tail()`: `QUERY_LEN` bytes in
/// all, of which twelve are the header, seventeen the name and four the
/// record type and class.
pub proof fn lemma_query_bytes(id: u16)
    ensures
        query_bytes(id) == be16(id) + query_tail(),
        query_bytes(id).len() == QUERY_LEN,
        header(id).len() == 12,
        qname(service_name()).len() == 17,
        query_bytes(id).take(2) == be16(id),
        query_bytes(id).skip(2) == query_tail(),
{
    lemma_service_name();
}

/// Two packets that ask for the same name differ at most in their first
/// two bytes, which hold the transaction identifiers: they have the same
/// length and agree from the third byte on. They are the same packet only
/// where the identifiers are the same.
pub proof fn lemma_packets_differ_only_in_id(a: u16, b: u16, name: Seq<u8>)
    ensures
        query_packet(a, name).len() == query_packet(b, name).len(),
        query_packet(a, name).skip(2) == query_packet(b, name).skip(2),
        query_packet(a, name).take(2) == be16(a),
        query_packet(b, name).take(2) == be16(b),
        query_packet(a, name) == query_packet(b, name) <==> a == b,
{
    if query_packet(a, name) == query_packet(b, name) {
        lemma_be16_injective(a, b);
    }
}

/// Whatever the transaction identifier and the name, the header reads, as
/// big-endian numbers: the identifier, no flags, one question, and no
/// answers, authorities or additional records.
pub proof fn lemma_header_fields(id: u16, name: Seq<u8>)
    ensures
        query_packet(id, name).len() >= 12,
        be16_value(query_packet(id, name)[0], query_packet(id, name)[1]) == id,
        be16_value(query_packet(id, name)[2], query_packet(id, name)[3]) == 0,
        be16_value(query_packet(id, name)[4], query_packet(id, name)[5]) == 1,
        be16_value(query_packet(id, name)[6], query_packet(id, name)[7]) == 0,
        be16_value(query_packet(id, name)[8], query_packet(id, name)[9]) == 0,
        be16_value(query_packet(id, name)[10], query_packet(id, name)[11]) == 0,
        query_packet(id, name).subrange(2, 12) == seq![0u8, 0, 0, 1, 0, 0, 0, 0, 0, 0],
{
}

/// Whatever the transaction identifier and the name, the packet ends with
/// the record type of a pointer and the class of the Internet, and the
/// name in wire form stands between the header and these.
pub proof fn lemma_question_fields(id: u16, name: Seq<u8>)
    ensures
        query_packet(id, name).len() == 12 + qname(name).len() + 4,
        query_packet(id, name).subrange(12, query_packet(id, name).len() - 4) == qname(name),
        query_packet(id, name).skip(query_packet(id, name).len() - 4) == seq![0u8, 0x0c, 0, 1],
{
}

} // verus!
