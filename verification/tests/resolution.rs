use tiny_resolver_rs::resolver::{
    pick_address, pick_name, pick_random, picked, root_name_servers, Inspection, MAX_ATTEMPTS,
    MAX_DEPTH,
};
use tiny_resolver_rs::{
    query, Error, Ipv4Address, Message, NameServerError, RecordData, RecordType, Resolver, Step,
};

fn wire_name(domain: &str) -> Vec<u8> {
    let mut out = Vec::new();
    for label in domain.split('.') {
        out.push(label.len() as u8);
        out.extend_from_slice(label.as_bytes());
    }
    out.push(0);
    out
}

fn wire_record(name: &str, r_type: u16, r_data: &[u8]) -> Vec<u8> {
    let mut out = wire_name(name);
    out.extend_from_slice(&r_type.to_be_bytes());
    out.extend_from_slice(&1u16.to_be_bytes());
    out.extend_from_slice(&60u32.to_be_bytes());
    out.extend_from_slice(&(r_data.len() as u16).to_be_bytes());
    out.extend_from_slice(r_data);
    out
}

fn a_record(name: &str, ip: [u8; 4]) -> Vec<u8> {
    wire_record(name, 1, &ip)
}

fn ns_record(name: &str, server: &str) -> Vec<u8> {
    wire_record(name, 2, &wire_name(server))
}

/// The reply to the query `payload` with the given records, padded to the
/// size of a datagram.
fn reply(
    payload: &[u8],
    answers: &[Vec<u8>],
    authorities: &[Vec<u8>],
    additionals: &[Vec<u8>],
) -> Vec<u8> {
    let mut out = payload[0..2].to_vec();
    out.extend_from_slice(&0x8000u16.to_be_bytes());
    out.extend_from_slice(&1u16.to_be_bytes());
    out.extend_from_slice(&(answers.len() as u16).to_be_bytes());
    out.extend_from_slice(&(authorities.len() as u16).to_be_bytes());
    out.extend_from_slice(&(additionals.len() as u16).to_be_bytes());
    out.extend_from_slice(&payload[12..]);
    for record in answers.iter().chain(authorities).chain(additionals) {
        out.extend_from_slice(record);
    }
    out.resize(512, 0);
    out
}

fn expect_send(step: Step) -> (Resolver, Ipv4Address, Vec<u8>) {
    match step {
        Step::Continue { resolver, server, payload } => (resolver, server, payload),
        other => panic!("expected a query to send, got {:?}", other),
    }
}

fn expect_failure(step: Step) -> String {
    match step {
        Step::Failed(Error::ResolverError(text)) => text,
        other => panic!("expected a resolver error, got {:?}", other),
    }
}

/// Checks that `payload` is a standard query about `domain` for the type
/// with code `q_type`.
fn assert_asks(payload: &[u8], domain: &str, q_type: u16) {
    assert_eq!(&payload[2..12], [0, 0, 0, 1, 0, 0, 0, 0, 0, 0]);
    let mut question = wire_name(domain);
    question.extend_from_slice(&q_type.to_be_bytes());
    question.extend_from_slice(&1u16.to_be_bytes());
    assert_eq!(&payload[12..], question.as_slice());
}

#[test]
fn there_are_thirteen_root_servers() {
    let roots = root_name_servers();
    assert_eq!(roots.len(), 13);
    assert_eq!(roots[0], Ipv4Address(198, 41, 0, 4));
    assert_eq!(roots[1], Ipv4Address(170, 247, 170, 2));
    assert_eq!(roots[2], Ipv4Address(192, 33, 4, 12));
    assert_eq!(roots[3], Ipv4Address(199, 7, 91, 13));
    assert_eq!(roots[4], Ipv4Address(192, 203, 230, 10));
    assert_eq!(roots[5], Ipv4Address(192, 5, 5, 241));
    assert_eq!(roots[6], Ipv4Address(192, 112, 36, 4));
    assert_eq!(roots[7], Ipv4Address(198, 97, 190, 53));
    assert_eq!(roots[8], Ipv4Address(192, 36, 148, 17));
    assert_eq!(roots[9], Ipv4Address(192, 58, 128, 30));
    assert_eq!(roots[10], Ipv4Address(193, 0, 14, 129));
    assert_eq!(roots[11], Ipv4Address(199, 7, 83, 42));
    assert_eq!(roots[12], Ipv4Address(202, 12, 27, 33));
    assert_eq!(MAX_ATTEMPTS, 5);
    assert_eq!(MAX_DEPTH, 16);
}

#[test]
fn picks_one_of_the_candidates() {
    let candidates = [3u32, 5, 8];
    for _ in 0..50 {
        let chosen = pick_random(&candidates).unwrap();
        assert!(candidates.contains(&chosen));
    }
    assert_eq!(pick_random(&[42u8]).unwrap(), 42);
    let names = ["a".to_string(), "b".to_string()];
    for _ in 0..20 {
        assert!(names.contains(&pick_name(&names).unwrap()));
    }
    let servers = [Ipv4Address(1, 1, 1, 1), Ipv4Address(2, 2, 2, 2)];
    for _ in 0..20 {
        assert!(servers.contains(&pick_address(&servers).unwrap()));
    }
}

#[test]
fn picks_every_candidate_sooner_or_later() {
    let candidates = [0usize, 1, 2, 3];
    let mut seen = [false; 4];
    for _ in 0..400 {
        seen[pick_random(&candidates).unwrap()] = true;
    }
    assert_eq!(seen, [true; 4]);
}

#[test]
fn picking_among_none_fails() {
    let nothing: [Ipv4Address; 0] = [];
    match pick_random(&nothing) {
        Err(Error::ResolverError(text)) => assert_eq!(text, "can't pick name server"),
        other => panic!("expected a resolver error, got {:?}", other),
    }
    match pick_address(&nothing) {
        Err(Error::ResolverError(text)) => assert_eq!(text, "can't pick name server"),
        other => panic!("expected a resolver error, got {:?}", other),
    }
    match pick_name(&[]) {
        Err(Error::ResolverError(text)) => assert_eq!(text, "can't pick name server"),
        other => panic!("expected a resolver error, got {:?}", other),
    }
    match picked::<u8>(None) {
        Err(Error::ResolverError(text)) => assert_eq!(text, "can't pick name server"),
        other => panic!("expected a resolver error, got {:?}", other),
    }
    assert_eq!(picked(Some(&7u8)).unwrap(), 7);
}

#[test]
fn query_ids_vary() {
    let first = Message::new_query("example.test", &RecordType::A).header.id;
    let varies = (0..64).any(|_| Message::new_query("example.test", &RecordType::A).header.id != first);
    assert!(varies);
}

#[test]
fn invalid_name_is_not_asked_for() {
    for domain in ["", "-", "bad name.test", "a..b"] {
        match query(domain, &RecordType::A) {
            Step::Failed(Error::InvalidHostname) => {}
            other => panic!("expected an invalid host name, got {:?}", other),
        }
    }
}

#[test]
fn first_query_goes_to_a_root_server() {
    let (_, server, payload) = expect_send(query("example.test", &RecordType::AAAA));
    assert!(root_name_servers().contains(&server));
    assert_asks(&payload, "example.test", 28);
    let (_, server, payload) = expect_send(Resolver::resolve("not a name", &RecordType::NS));
    assert!(root_name_servers().contains(&server));
    assert_asks(&payload, "not a name", 2);
}

#[test]
fn answer_ends_the_resolution() {
    let (resolver, _, payload) = expect_send(query("example.test", &RecordType::A));
    let response = reply(&payload, &[a_record("example.test", [192, 0, 2, 7])], &[], &[]);
    match resolver.on_response(&response) {
        Step::Done(message) => {
            assert_eq!(message.header.id, u16::from_be_bytes([payload[0], payload[1]]));
            assert_eq!(message.header.flags, 0x8000);
            assert_eq!(message.header.an_count, 1);
            assert_eq!(message.question.domain, "example.test");
            assert_eq!(message.answers.len(), 1);
            assert_eq!(message.answers[0].name, "example.test");
            assert_eq!(message.answers[0].ipv4_ip(), Some(Ipv4Address(192, 0, 2, 7)));
            assert!(message.authorities.is_empty());
            assert!(message.additionals.is_empty());
        }
        other => panic!("expected the answer, got {:?}", other),
    }
}

#[test]
fn answer_counts_even_beside_other_records() {
    let (resolver, _, payload) = expect_send(query("example.test", &RecordType::A));
    let response = reply(
        &payload,
        &[wire_record("example.test", 5, &wire_name("other.test"))],
        &[ns_record("test", "ns.test")],
        &[a_record("ns.test", [192, 0, 2, 53])],
    );
    match resolver.on_response(&response) {
        Step::Done(message) => {
            match message.answers[0].r_data {
                RecordData::CNAME(ref domain) => assert_eq!(domain, "other.test"),
                ref other => panic!("expected a CNAME, got {:?}", other),
            }
            assert_eq!(message.authorities.len(), 1);
            assert_eq!(message.additionals.len(), 1);
        }
        other => panic!("expected the answer, got {:?}", other),
    }
}

#[test]
fn referral_with_glue_is_followed() {
    let (resolver, _, payload) = expect_send(query("example.test", &RecordType::A));
    let glue = [Ipv4Address(192, 0, 2, 1), Ipv4Address(192, 0, 2, 2)];
    let response = reply(
        &payload,
        &[],
        &[ns_record("test", "ns1.test"), ns_record("test", "ns2.test")],
        &[
            a_record("ns1.test", [192, 0, 2, 1]),
            wire_record("ns1.test", 28, &[0; 16]),
            a_record("ns2.test", [192, 0, 2, 2]),
        ],
    );
    let (_, server, next) = expect_send(resolver.on_response(&response));
    assert!(glue.contains(&server));
    assert_asks(&next, "example.test", 1);
}

#[test]
fn delegation_without_glue_resolves_the_name_server_first() {
    let (resolver, _, payload) = expect_send(query("example.test", &RecordType::AAAA));
    let response = reply(&payload, &[], &[ns_record("test", "ns1.child.test")], &[]);
    let (resolver, server, nested) = expect_send(resolver.on_response(&response));
    assert!(root_name_servers().contains(&server));
    assert_asks(&nested, "ns1.child.test", 1);

    let response = reply(&nested, &[a_record("ns1.child.test", [10, 0, 0, 1])], &[], &[]);
    let (resolver, server, resumed) = expect_send(resolver.on_response(&response));
    assert_eq!(server, Ipv4Address(10, 0, 0, 1));
    assert_asks(&resumed, "example.test", 28);

    let response = reply(&resumed, &[wire_record("example.test", 28, &[1; 16])], &[], &[]);
    match resolver.on_response(&response) {
        Step::Done(message) => assert_eq!(message.question.domain, "example.test"),
        other => panic!("expected the answer, got {:?}", other),
    }
}

#[test]
fn additionals_without_addresses_do_not_count_as_glue() {
    let (resolver, _, payload) = expect_send(query("example.test", &RecordType::A));
    let response = reply(
        &payload,
        &[],
        &[ns_record("test", "ns1.test")],
        &[wire_record("ns1.test", 28, &[0; 16])],
    );
    let (_, server, nested) = expect_send(resolver.on_response(&response));
    assert!(root_name_servers().contains(&server));
    assert_asks(&nested, "ns1.test", 1);
}

#[test]
fn one_of_the_name_servers_is_resolved() {
    let names = ["ns1.test", "ns2.test", "ns3.test"];
    for _ in 0..10 {
        let (resolver, _, payload) = expect_send(query("example.test", &RecordType::A));
        let authorities: Vec<Vec<u8>> = names.iter().map(|name| ns_record("test", name)).collect();
        let response = reply(&payload, &[], &authorities, &[]);
        let (_, _, nested) = expect_send(resolver.on_response(&response));
        let asked = names.iter().any(|name| {
            let mut question = wire_name(name);
            question.extend_from_slice(&[0, 1, 0, 1]);
            nested[12..] == question[..]
        });
        assert!(asked);
    }
}

#[test]
fn name_server_without_address_ends_everything() {
    let (resolver, _, payload) = expect_send(query("example.test", &RecordType::A));
    let response = reply(&payload, &[], &[ns_record("test", "ns1.test")], &[]);
    let (resolver, _, nested) = expect_send(resolver.on_response(&response));
    let response = reply(&nested, &[wire_record("ns1.test", 5, &wire_name("x.test"))], &[], &[]);
    assert_eq!(expect_failure(resolver.on_response(&response)), "can't pick name server");
}

#[test]
fn response_with_nothing_to_go_on_fails() {
    let (resolver, _, payload) = expect_send(query("example.test", &RecordType::A));
    let response = reply(&payload, &[], &[], &[]);
    assert_eq!(
        expect_failure(resolver.on_response(&response)),
        "it's really impossible but let's just explode"
    );

    let (resolver, _, payload) = expect_send(query("example.test", &RecordType::A));
    let response = reply(
        &payload,
        &[],
        &[wire_record("test", 6, &{
            let mut soa = wire_name("ns.test");
            soa.extend_from_slice(&wire_name("admin.test"));
            soa.extend_from_slice(&[0; 20]);
            soa
        })],
        &[],
    );
    assert_eq!(
        expect_failure(resolver.on_response(&response)),
        "it's really impossible but let's just explode"
    );
}

#[test]
fn attempts_are_bounded() {
    let (mut resolver, _, mut payload) = expect_send(query("example.test", &RecordType::A));
    let mut sent = 1;
    loop {
        let response = reply(
            &payload,
            &[],
            &[ns_record("test", "ns.test")],
            &[a_record("ns.test", [192, 0, 2, sent as u8])],
        );
        match resolver.on_response(&response) {
            Step::Continue { resolver: next, server, payload: query } => {
                assert_eq!(server, Ipv4Address(192, 0, 2, sent as u8));
                assert_asks(&query, "example.test", 1);
                resolver = next;
                payload = query;
                sent += 1;
            }
            Step::Failed(Error::ResolverError(text)) => {
                assert_eq!(text, "problem resolving address: example.test");
                break;
            }
            other => panic!("unexpected {:?}", other),
        }
        assert!(sent <= 1 + MAX_ATTEMPTS);
    }
    assert_eq!(sent, 1 + MAX_ATTEMPTS);
}

/// Sends the first query for `example.test` and every further query that
/// a resolution is allowed, each reply naming one server to go on with.
fn after_the_last_query() -> (Resolver, Vec<u8>) {
    let (mut resolver, _, mut payload) = expect_send(query("example.test", &RecordType::A));
    for _ in 0..MAX_ATTEMPTS {
        let response = reply(&payload, &[], &[], &[a_record("ns.test", [192, 0, 2, 1])]);
        let (next, _, query) = expect_send(resolver.on_response(&response));
        resolver = next;
        payload = query;
    }
    (resolver, payload)
}

#[test]
fn answer_to_the_last_query_is_returned() {
    let (resolver, payload) = after_the_last_query();
    let response = reply(&payload, &[a_record("example.test", [192, 0, 2, 9])], &[], &[]);
    match resolver.on_response(&response) {
        Step::Done(message) => {
            assert_eq!(message.answers.len(), 1);
            assert_eq!(message.answers[0].ipv4_ip(), Some(Ipv4Address(192, 0, 2, 9)));
        }
        other => panic!("expected the answer, got {:?}", other),
    }
}

#[test]
fn last_reply_with_nothing_to_go_on_is_not_exhaustion() {
    let (resolver, payload) = after_the_last_query();
    let response = reply(&payload, &[], &[], &[]);
    assert_eq!(
        expect_failure(resolver.on_response(&response)),
        "it's really impossible but let's just explode"
    );
}

#[test]
fn last_reply_that_refers_on_is_exhaustion() {
    let (resolver, payload) = after_the_last_query();
    let response = reply(&payload, &[], &[], &[a_record("ns.test", [192, 0, 2, 1])]);
    assert_eq!(
        expect_failure(resolver.on_response(&response)),
        "problem resolving address: example.test"
    );
    let (resolver, payload) = after_the_last_query();
    let response = reply(&payload, &[], &[ns_record("test", "ns.test")], &[]);
    assert_eq!(
        expect_failure(resolver.on_response(&response)),
        "problem resolving address: example.test"
    );
}

#[test]
fn answer_to_the_last_nested_query_is_used() {
    let (resolver, _, payload) = expect_send(query("example.test", &RecordType::A));
    let response = reply(&payload, &[], &[ns_record("test", "ns.test")], &[]);
    let (mut resolver, _, mut payload) = expect_send(resolver.on_response(&response));
    for _ in 0..MAX_ATTEMPTS {
        let response = reply(&payload, &[], &[], &[a_record("x.test", [192, 0, 2, 1])]);
        let (next, _, query) = expect_send(resolver.on_response(&response));
        resolver = next;
        payload = query;
    }
    let response = reply(&payload, &[a_record("ns.test", [192, 0, 2, 53])], &[], &[]);
    let (_, server, resumed) = expect_send(resolver.on_response(&response));
    assert_eq!(server, Ipv4Address(192, 0, 2, 53));
    assert_asks(&resumed, "example.test", 1);
}

#[test]
fn nested_resolution_has_attempts_of_its_own() {
    let (resolver, _, payload) = expect_send(query("example.test", &RecordType::A));
    let response = reply(&payload, &[], &[ns_record("test", "ns.test")], &[]);
    let (mut resolver, _, mut payload) = expect_send(resolver.on_response(&response));
    for _ in 0..MAX_ATTEMPTS {
        assert_asks(&payload, "ns.test", 1);
        let response = reply(&payload, &[], &[], &[a_record("x.test", [192, 0, 2, 1])]);
        let (next, _, query) = expect_send(resolver.on_response(&response));
        resolver = next;
        payload = query;
    }
    let response = reply(&payload, &[], &[], &[a_record("x.test", [192, 0, 2, 1])]);
    assert_eq!(
        expect_failure(resolver.on_response(&response)),
        "problem resolving address: ns.test"
    );
}

#[test]
fn waiting_resolution_counts_the_query_after_a_nested_one() {
    let (mut resolver, _, mut payload) = expect_send(query("example.test", &RecordType::A));
    for _ in 0..MAX_ATTEMPTS {
        let response = reply(&payload, &[], &[ns_record("test", "ns.test")], &[]);
        let (nested, _, query) = expect_send(resolver.on_response(&response));
        assert_asks(&query, "ns.test", 1);
        let response = reply(&query, &[a_record("ns.test", [192, 0, 2, 1])], &[], &[]);
        let (next, server, query) = expect_send(nested.on_response(&response));
        assert_eq!(server, Ipv4Address(192, 0, 2, 1));
        assert_asks(&query, "example.test", 1);
        resolver = next;
        payload = query;
    }
    let response = reply(&payload, &[], &[ns_record("test", "ns.test")], &[]);
    assert_eq!(
        expect_failure(resolver.on_response(&response)),
        "problem resolving address: example.test"
    );
}

#[test]
fn faulty_reply_ends_everything() {
    let (resolver, _, payload) = expect_send(query("example.test", &RecordType::A));
    let mut response = reply(&payload, &[a_record("example.test", [192, 0, 2, 7])], &[], &[]);
    response[0] ^= 0xFF;
    assert_eq!(expect_failure(resolver.on_response(&response)), "mismatched response header");

    let (resolver, _, payload) = expect_send(query("example.test", &RecordType::A));
    let mut response = reply(&payload, &[], &[], &[]);
    response[3] = 3;
    match resolver.on_response(&response) {
        Step::Failed(Error::ServerError(NameServerError::NxDomain)) => {}
        other => panic!("expected a server error, got {:?}", other),
    }

    let (resolver, _, _) = expect_send(query("example.test", &RecordType::A));
    assert_eq!(
        expect_failure(resolver.on_response(&[1, 2, 3])),
        "can't parse response header with length: 3"
    );

    let (resolver, _, payload) = expect_send(query("example.test", &RecordType::A));
    let response = reply(&payload, &[], &[ns_record("test", "ns.test")], &[]);
    let (resolver, _, nested) = expect_send(resolver.on_response(&response));
    let response = reply(&nested, &[wire_record("ns.test", 15, &[0, 1, 0])], &[], &[]);
    assert_eq!(
        expect_failure(resolver.on_response(&response)),
        "can't parse data of record type: 15"
    );
}

#[test]
fn transport_failure_ends_everything() {
    let (resolver, _, _) = expect_send(query("example.test", &RecordType::A));
    let failure = std::io::Error::new(std::io::ErrorKind::TimedOut, "no reply");
    match resolver.on_transport_error(failure) {
        Step::Failed(Error::NetworkError(cause)) => {
            assert_eq!(cause.kind(), std::io::ErrorKind::TimedOut);
            assert_eq!(cause.to_string(), "no reply");
        }
        other => panic!("expected a network error, got {:?}", other),
    }
}

#[test]
fn decoded_response_can_be_handed_over() {
    let (resolver, _, payload) = expect_send(query("example.test", &RecordType::A));
    let response = reply(&payload, &[], &[], &[a_record("ns.test", [192, 0, 2, 1])]);
    let asked = Message::with_id(
        u16::from_be_bytes([payload[0], payload[1]]),
        "example.test",
        &RecordType::A,
    );
    let message = Message::with_response(&response, &asked).unwrap();
    let (_, server, next) = expect_send(resolver.on_message(message));
    assert_eq!(server, Ipv4Address(192, 0, 2, 1));
    assert_asks(&next, "example.test", 1);
}

#[test]
fn inspection_ranks_answers_glue_and_name_servers() {
    let asked = Message::with_id(1, "example.test", &RecordType::A);
    let payload = asked.to_query_bytes();
    let decode = |answers: &[Vec<u8>], authorities: &[Vec<u8>], additionals: &[Vec<u8>]| {
        Message::with_response(&reply(&payload, answers, authorities, additionals), &asked).unwrap()
    };
    let answer = a_record("example.test", [192, 0, 2, 7]);
    let name_server = ns_record("test", "ns.test");
    let glue = a_record("ns.test", [192, 0, 2, 1]);

    let all = decode(&[answer.clone()], &[name_server.clone()], &[glue.clone()]);
    assert!(matches!(Resolver::inspect(&all), Inspection::Answered));
    let referred = decode(&[], &[name_server.clone()], &[glue.clone(), glue.clone()]);
    match Resolver::inspect(&referred) {
        Inspection::Referred(servers) => {
            assert_eq!(servers, [Ipv4Address(192, 0, 2, 1), Ipv4Address(192, 0, 2, 1)])
        }
        other => panic!("unexpected {:?}", other),
    }
    let delegated = decode(&[], &[name_server.clone(), ns_record("test", "ns2.test")], &[]);
    match Resolver::inspect(&delegated) {
        Inspection::Delegated(names) => assert_eq!(names, ["ns.test", "ns2.test"]),
        other => panic!("unexpected {:?}", other),
    }
    let stuck = decode(&[], &[glue.clone()], &[name_server.clone()]);
    assert!(matches!(Resolver::inspect(&stuck), Inspection::Stuck));

    assert_eq!(Resolver::extract_ipv4_ips(&all.answers), [Ipv4Address(192, 0, 2, 7)]);
    assert!(Resolver::extract_ipv4_ips(&all.authorities).is_empty());
    assert_eq!(Resolver::extract_domains(&all.authorities, &RecordType::NS), ["ns.test"]);
    assert!(Resolver::extract_domains(&all.authorities, &RecordType::A).is_empty());
    assert!(Resolver::extract_domains(&all.answers, &RecordType::NS).is_empty());
}

#[test]
fn delegation_depth_is_bounded() {
    let (mut resolver, _, mut payload) = expect_send(query("example.test", &RecordType::A));
    for depth in 1..MAX_DEPTH {
        let name_server = format!("ns{}.test", depth);
        let response = reply(&payload, &[], &[ns_record("test", &name_server)], &[]);
        let (next, server, nested) = expect_send(resolver.on_response(&response));
        assert!(root_name_servers().contains(&server));
        assert_asks(&nested, &name_server, 1);
        resolver = next;
        payload = nested;
    }
    let response = reply(&payload, &[], &[ns_record("test", "deeper.test")], &[]);
    assert_eq!(
        expect_failure(resolver.on_response(&response)),
        "delegation is too deep: ns15.test"
    );
}

#[test]
fn deepest_resolution_can_still_be_answered() {
    let (mut resolver, _, mut payload) = expect_send(query("example.test", &RecordType::A));
    for depth in 1..MAX_DEPTH {
        let name_server = format!("ns{}.test", depth);
        let response = reply(&payload, &[], &[ns_record("test", &name_server)], &[]);
        let (next, _, nested) = expect_send(resolver.on_response(&response));
        resolver = next;
        payload = nested;
    }
    let mut waiting = vec!["example.test".to_string()];
    waiting.extend((1..MAX_DEPTH - 1).map(|depth| format!("ns{}.test", depth)));
    while let Some(name) = waiting.pop() {
        let response = reply(&payload, &[a_record("any.test", [192, 0, 2, 1])], &[], &[]);
        let (next, server, resumed) = expect_send(resolver.on_response(&response));
        assert_eq!(server, Ipv4Address(192, 0, 2, 1));
        assert_asks(&resumed, &name, 1);
        resolver = next;
        payload = resumed;
    }
    let response = reply(&payload, &[a_record("example.test", [192, 0, 2, 2])], &[], &[]);
    assert!(matches!(resolver.on_response(&response), Step::Done(_)));
}
