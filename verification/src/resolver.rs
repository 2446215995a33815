use crate::error::{Error, ErrorView};
use crate::message::{response_to, views, Message, MessageView};
use crate::record::{
    Ipv4Address, RecordData, RecordDataView, RecordType, ResourceRecord, ResourceRecordView,
};
use crate::utils::{valid_hostname, validate_domain};
use rand::seq::SliceRandom;
use vstd::prelude::*;
use vstd::string::StringExecFns;

verus! {

/// How many more queries a resolution sends after its first one.
pub const MAX_ATTEMPTS: usize = 5;

/// How many resolutions can be in progress at once: the one asked for, and
/// those of name servers that wait one for the other.
pub const MAX_DEPTH: usize = 16;

/// The protocols over which a query can travel.
#[non_exhaustive]
#[derive(Debug)]
pub enum Protocol {
    DOH,
    DOT,
    TCP,
    UDP,
}

/// One element of `candidates`, picked by `SliceRandom::choose` with the
/// generator of `rand::thread_rng()`: `None` exactly when there is no
/// candidate. Which element is picked is left open.
#[verifier::external_body]
fn choose_one<T>(candidates: &[T]) -> (chosen: Option<&T>)
    ensures
        chosen is None <==> candidates@.len() == 0,
        chosen matches Some(item) ==> candidates@.contains(*item),
{
    candidates.choose(&mut rand::thread_rng())
}

/// The addresses of the thirteen name servers of the root zone, from
/// a.root-servers.net to m.root-servers.net.
pub open spec fn root_servers() -> Seq<Ipv4Address> {
    seq![
        Ipv4Address(198, 41, 0, 4),
        Ipv4Address(170, 247, 170, 2),
        Ipv4Address(192, 33, 4, 12),
        Ipv4Address(199, 7, 91, 13),
        Ipv4Address(192, 203, 230, 10),
        Ipv4Address(192, 5, 5, 241),
        Ipv4Address(192, 112, 36, 4),
        Ipv4Address(198, 97, 190, 53),
        Ipv4Address(192, 36, 148, 17),
        Ipv4Address(192, 58, 128, 30),
        Ipv4Address(193, 0, 14, 129),
        Ipv4Address(199, 7, 83, 42),
        Ipv4Address(202, 12, 27, 33),
    ]
}

/// The addresses of the name servers of the root zone.
pub fn root_name_servers() -> (servers: Vec<Ipv4Address>)
    ensures
        servers@ == root_servers(),
{
    let mut servers: Vec<Ipv4Address> = Vec::with_capacity(13);
    servers.push(Ipv4Address(198, 41, 0, 4));
    servers.push(Ipv4Address(170, 247, 170, 2));
    servers.push(Ipv4Address(192, 33, 4, 12));
    servers.push(Ipv4Address(199, 7, 91, 13));
    servers.push(Ipv4Address(192, 203, 230, 10));
    servers.push(Ipv4Address(192, 5, 5, 241));
    servers.push(Ipv4Address(192, 112, 36, 4));
    servers.push(Ipv4Address(198, 97, 190, 53));
    servers.push(Ipv4Address(192, 36, 148, 17));
    servers.push(Ipv4Address(192, 58, 128, 30));
    servers.push(Ipv4Address(193, 0, 14, 129));
    servers.push(Ipv4Address(199, 7, 83, 42));
    servers.push(Ipv4Address(202, 12, 27, 33));
    assert(servers@ =~= root_servers());
    servers
}

/// The address that `record` gives: that of an A record whose data are an
/// address.
pub open spec fn address_of(record: ResourceRecordView) -> Option<Ipv4Address> {
    match record.r_data {
        RecordDataView::A(ip) => if record.r_type == RecordType::A {
            Some(ip)
        } else {
            None
        },
        _ => None,
    }
}

/// The addresses that `records` give, in the order of the records.
pub open spec fn ipv4_addresses(records: Seq<ResourceRecordView>) -> Seq<Ipv4Address>
    decreases records.len(),
{
    if records.len() == 0 {
        Seq::empty()
    } else {
        match address_of(records.last()) {
            Some(ip) => ipv4_addresses(records.drop_last()).push(ip),
            None => ipv4_addresses(records.drop_last()),
        }
    }
}

/// The name that `record` gives as a record of type `record_type`: that of
/// a record of this type whose data are the name of a name server.
pub open spec fn name_of(record: ResourceRecordView, record_type: RecordType) -> Option<
    Seq<char>,
> {
    match record.r_data {
        RecordDataView::NS(domain) => if record.r_type == record_type {
            Some(domain)
        } else {
            None
        },
        _ => None,
    }
}

/// The names that `records` give as records of type `record_type`, in the
/// order of the records.
pub open spec fn server_names(records: Seq<ResourceRecordView>, record_type: RecordType) -> Seq<
    Seq<char>,
>
    decreases records.len(),
{
    if records.len() == 0 {
        Seq::empty()
    } else {
        match name_of(records.last(), record_type) {
            Some(domain) => server_names(records.drop_last(), record_type).push(domain),
            None => server_names(records.drop_last(), record_type),
        }
    }
}

/// The texts of `names` as sequences of characters.
pub open spec fn texts(names: Seq<String>) -> Seq<Seq<char>> {
    names.map_values(|name: String| name@)
}

/// The complaint that there is no name server to pick.
pub open spec fn nothing_to_pick() -> ErrorView {
    ErrorView::ResolverError("can't pick name server"@)
}

/// What a choice among candidates comes to: the chosen one, or a complaint
/// where none was chosen.
pub fn picked<T: Clone>(chosen: Option<&T>) -> (r: Result<T, Error>)
    ensures
        match chosen {
            Some(item) => r matches Ok(copy) && cloned(*item, copy),
            None => r matches Err(error) && error@ == nothing_to_pick(),
        },
{
    match chosen {
        Some(item) => Ok(item.clone()),
        None => Err(Error::resolver("can't pick name server")),
    }
}

/// Picks one of `candidates` at random. Fails exactly when there is none.
pub fn pick_random<T: Clone>(candidates: &[T]) -> (r: Result<T, Error>)
    ensures
        match r {
            Ok(copy) => exists|i: int|
                0 <= i < candidates@.len() && cloned(#[trigger] candidates@[i], copy),
            Err(error) => candidates@.len() == 0 && error@ == nothing_to_pick(),
        },
{
    picked(choose_one(candidates))
}

/// Picks one of the addresses `candidates` at random.
pub fn pick_address(candidates: &[Ipv4Address]) -> (r: Result<Ipv4Address, Error>)
    ensures
        match r {
            Ok(server) => candidates@.contains(server),
            Err(error) => candidates@.len() == 0 && error@ == nothing_to_pick(),
        },
{
    pick_random(candidates)
}

/// Picks one of the names `candidates` at random.
pub fn pick_name(candidates: &[String]) -> (r: Result<String, Error>)
    ensures
        match r {
            Ok(name) => texts(candidates@).contains(name@),
            Err(error) => candidates@.len() == 0 && error@ == nothing_to_pick(),
        },
{
    let r = pick_random(candidates);
    proof {
        if r is Ok {
            let i = choose|i: int|
                0 <= i < candidates@.len() && cloned(#[trigger] candidates@[i], r->Ok_0);
            assert(texts(candidates@)[i] == candidates@[i]@);
        }
    }
    r
}

/// What a response without a fault means for the resolution that asked.
pub enum Verdict {
    /// It answers the question.
    Answered,
    /// It has no answer and names these addresses of name servers to ask next.
    Referred(Seq<Ipv4Address>),
    /// It has neither, and names these name servers, whose addresses have to
    /// be resolved first.
    Delegated(Seq<Seq<char>>),
    /// It has nothing to go on with.
    Stuck,
}

/// What the response `message` means: answers count first, then the addresses
/// among the additionals, then the name servers among the authorities.
pub open spec fn verdict(message: MessageView) -> Verdict {
    if message.answers.len() > 0 {
        Verdict::Answered
    } else if ipv4_addresses(message.additionals).len() > 0 {
        Verdict::Referred(ipv4_addresses(message.additionals))
    } else if server_names(message.authorities, RecordType::NS).len() > 0 {
        Verdict::Delegated(server_names(message.authorities, RecordType::NS))
    } else {
        Verdict::Stuck
    }
}

/// A [`Verdict`] with the candidates it names.
#[derive(Debug)]
pub enum Inspection {
    Answered,
    Referred(Vec<Ipv4Address>),
    Delegated(Vec<String>),
    Stuck,
}

impl View for Inspection {
    type V = Verdict;

    open spec fn view(&self) -> Verdict {
        match *self {
            Inspection::Answered => Verdict::Answered,
            Inspection::Referred(servers) => Verdict::Referred(servers@),
            Inspection::Delegated(names) => Verdict::Delegated(texts(names@)),
            Inspection::Stuck => Verdict::Stuck,
        }
    }
}

/// One resolution in progress.
#[derive(Debug)]
pub struct Lookup {
    /// The name to resolve.
    pub domain: String,
    /// The type of record asked for.
    pub record_type: RecordType,
    /// How many queries were sent for it after the first.
    pub attempts: usize,
}

/// A [`Lookup`] with its name as a sequence of characters.
pub struct LookupView {
    pub domain: Seq<char>,
    pub record_type: RecordType,
    pub attempts: nat,
}

impl View for Lookup {
    type V = LookupView;

    open spec fn view(&self) -> LookupView {
        LookupView {
            domain: self.domain@,
            record_type: self.record_type,
            attempts: self.attempts as nat,
        }
    }
}

impl LookupView {
    /// This resolution with one more query counted.
    pub open spec fn retried(self) -> LookupView {
        LookupView { attempts: self.attempts + 1, ..self }
    }
}

/// The views of `lookups`, in order.
pub open spec fn lookup_views(lookups: Seq<Lookup>) -> Seq<LookupView> {
    lookups.map_values(|lookup: Lookup| lookup@)
}

/// The state of a resolution between two queries: the resolutions in
/// progress, and the identifier of the query that is on its way.
///
/// The first resolution is the one that the caller asked for. Each further
/// one resolves the name of a name server that the one before it needs, and
/// the query on its way belongs to the last.
#[derive(Debug)]
pub struct Resolver {
    lookups: Vec<Lookup>,
    id: u16,
}

/// What a [`Resolver`] holds.
pub struct ResolverView {
    pub lookups: Seq<LookupView>,
    pub id: u16,
}

impl ResolverView {
    /// The query that is on its way: that of the last resolution.
    pub open spec fn asks(self) -> MessageView {
        MessageView::query(self.id, self.lookups.last().domain, self.lookups.last().record_type)
    }
}

impl View for Resolver {
    type V = ResolverView;

    closed spec fn view(&self) -> ResolverView {
        ResolverView { lookups: lookup_views(self.lookups@), id: self.id }
    }
}

/// What to do next for a resolution.
#[derive(Debug)]
pub enum Step {
    /// Send `payload` to port 53 of `server`, and hand the reply to
    /// [`Resolver::on_response`] of `resolver`.
    Continue { resolver: Resolver, server: Ipv4Address, payload: Vec<u8> },
    /// The resolution is over: this is the response with the answer.
    Done(Message),
    /// The resolution is over without an answer.
    Failed(Error),
}

/// A [`Step`] with the views of what it holds.
pub enum StepView {
    Continue { resolver: ResolverView, server: Ipv4Address, payload: Seq<u8> },
    Done(MessageView),
    Failed(ErrorView),
}

impl View for Step {
    type V = StepView;

    open spec fn view(&self) -> StepView {
        match *self {
            Step::Continue { resolver, server, payload } => StepView::Continue {
                resolver: resolver@,
                server,
                payload: payload@,
            },
            Step::Done(message) => StepView::Done(message@),
            Step::Failed(error) => StepView::Failed(error@),
        }
    }
}

/// The complaint that the queries allowed for `domain` are used up.
pub open spec fn exhausted(domain: Seq<char>) -> ErrorView {
    ErrorView::ResolverError("problem resolving address: "@ + domain)
}

/// The complaint that the name servers to resolve for `domain` lead too far
/// from one to the next.
pub open spec fn too_deep(domain: Seq<char>) -> ErrorView {
    ErrorView::ResolverError("delegation is too deep: "@ + domain)
}

/// The complaint about a response that leaves nothing to go on with.
pub open spec fn stuck() -> ErrorView {
    ErrorView::ResolverError("it's really impossible but let's just explode"@)
}

/// `step` asks one of `servers` for the last of `lookups`, with the
/// resolutions in progress being `lookups`.
pub open spec fn asks_one_of(
    lookups: Seq<LookupView>,
    servers: Seq<Ipv4Address>,
    step: StepView,
) -> bool {
    step matches StepView::Continue { resolver, server, payload } && servers.contains(server)
        && resolver.lookups == lookups && payload == resolver.asks().query_bytes()
}

/// `step` goes on with the last of `lookups` at one of `servers`, which
/// counts as one more query for it, or fails where there is no server.
pub open spec fn retries(
    lookups: Seq<LookupView>,
    servers: Seq<Ipv4Address>,
    step: StepView,
) -> bool {
    if servers.len() == 0 {
        step == StepView::Failed(nothing_to_pick())
    } else {
        asks_one_of(lookups.drop_last().push(lookups.last().retried()), servers, step)
    }
}

/// `step` starts to resolve the address of one of the name servers `names`
/// at a root server, with `lookups` waiting for it.
pub open spec fn descends(lookups: Seq<LookupView>, names: Seq<Seq<char>>, step: StepView) -> bool {
    exists|i: int|
        0 <= i < names.len() && asks_one_of(
            lookups.push(
                LookupView { domain: #[trigger] names[i], record_type: RecordType::A, attempts: 0 },
            ),
            root_servers(),
            step,
        )
}

/// Whether `step` may follow when the response `message` reaches the last
/// of the resolutions `lookups`.
///
/// Every response is looked at. An answer ends the resolution that asked:
/// the first one is done, and any other gives the addresses among which the
/// resolution before it picks its next server. A response with nothing to go
/// on with ends everything. Any other response asks for one more query: the
/// resolution goes on at one of the addresses that the response names, or
/// starts to resolve one of the name servers that it names, unless
/// `MAX_DEPTH` resolutions are in progress already. Where the resolution has
/// sent all the queries it was allowed, that ends everything instead.
pub open spec fn may_follow_message(
    lookups: Seq<LookupView>,
    message: MessageView,
    step: StepView,
) -> bool {
    let current = lookups.last();
    match verdict(message) {
        Verdict::Answered => if lookups.len() == 1 {
            step == StepView::Done(message)
        } else {
            retries(lookups.drop_last(), ipv4_addresses(message.answers), step)
        },
        Verdict::Referred(servers) => if current.attempts >= MAX_ATTEMPTS {
            step == StepView::Failed(exhausted(current.domain))
        } else {
            retries(lookups, servers, step)
        },
        Verdict::Delegated(names) => if current.attempts >= MAX_ATTEMPTS {
            step == StepView::Failed(exhausted(current.domain))
        } else if lookups.len() >= MAX_DEPTH {
            step == StepView::Failed(too_deep(current.domain))
        } else {
            descends(lookups, names, step)
        },
        Verdict::Stuck => step == StepView::Failed(stuck()),
    }
}

/// An answer to the resolution that the caller asked for is returned,
/// however many queries that resolution has sent.
pub proof fn lemma_answer_is_returned(
    lookups: Seq<LookupView>,
    message: MessageView,
    step: StepView,
)
    requires
        may_follow_message(lookups, message, step),
        lookups.len() == 1,
        message.answers.len() > 0,
    ensures
        step == StepView::Done(message),
{
}

/// A response that asks for one more query ends everything where the
/// resolution has sent all the queries it was allowed.
pub proof fn lemma_attempts_are_bounded(
    lookups: Seq<LookupView>,
    message: MessageView,
    step: StepView,
)
    requires
        may_follow_message(lookups, message, step),
        lookups.last().attempts >= MAX_ATTEMPTS,
        verdict(message) is Referred || verdict(message) is Delegated,
    ensures
        step == StepView::Failed(exhausted(lookups.last().domain)),
{
}

/// Whether `step` may follow when the reply `buf` reaches a resolver that
/// holds `before`.
///
/// A reply that does not decode as the response to the query on its way ends
/// everything with the fault found. Any other is a response, and the step is
/// one that may follow it.
pub open spec fn may_follow(before: ResolverView, buf: Seq<u8>, step: StepView) -> bool {
    match response_to(buf, before.asks()) {
        Err(fault) => step == StepView::Failed(fault),
        Ok(message) => may_follow_message(before.lookups, message, step),
    }
}

/// Each of the resolutions `lookups` may send one more query.
pub open spec fn may_go_on(lookups: Seq<LookupView>) -> bool {
    forall|i: int| 0 <= i < lookups.len() ==> (#[trigger] lookups[i]).attempts < MAX_ATTEMPTS
}

/// The resolutions `lookups` can be those of a resolver: there is one and
/// there are no more than allowed, the last has sent no more queries than
/// allowed, and those that wait for it may each send one more.
pub open spec fn in_progress(lookups: Seq<LookupView>) -> bool {
    &&& 1 <= lookups.len() <= MAX_DEPTH
    &&& lookups.last().attempts <= MAX_ATTEMPTS
    &&& may_go_on(lookups.drop_last())
}

/// Where `step` goes on, it goes on with resolutions that are within their
/// bounds: there are no more than `MAX_DEPTH` of them, and none has sent or
/// will send more than `MAX_ATTEMPTS` queries after its first.
pub open spec fn within_bounds(step: StepView) -> bool {
    step matches StepView::Continue { resolver, .. } ==> in_progress(resolver.lookups)
}

impl Resolver {
    /// Every resolver holds resolutions that are within their bounds.
    #[verifier::type_invariant]
    spec fn well_formed(self) -> bool {
        in_progress(lookup_views(self.lookups@))
    }

    /// The names of the name servers that `records` give as records of type
    /// `record_type`.
    pub fn extract_domains(records: &[ResourceRecord], record_type: &RecordType) -> (names: Vec<
        String,
    >)
        ensures
            texts(names@) == server_names(views(records@), *record_type),
    {
        let mut names: Vec<String> = Vec::new();
        let mut i: usize = 0;
        assert(records@.take(0) =~= Seq::empty());
        assert(views(records@.take(0)) =~= Seq::empty());
        assert(texts(names@) =~= Seq::empty());
        while i < records.len()
            invariant
                i <= records.len(),
                texts(names@) == server_names(views(records@.take(i as int)), *record_type),
            decreases records.len() - i,
        {
            let ghost before = names@;
            let rr = &records[i];
            proof {
                assert(records@.take(i + 1).drop_last() =~= records@.take(i as int));
                assert(views(records@.take(i + 1)).drop_last() =~= views(records@.take(i as int)));
                assert(views(records@.take(i + 1)).last() == rr@);
            }
            if rr.r_type == *record_type {
                match &rr.r_data {
                    RecordData::NS(domain) => {
                        names.push(domain.clone());
                        assert(texts(names@) =~= texts(before).push(domain@));
                    },
                    _ => {},
                }
            }
            i += 1;
        }
        assert(records@.take(i as int) =~= records@);
        names
    }

    /// The addresses that `records` give.
    pub fn extract_ipv4_ips(records: &[ResourceRecord]) -> (ips: Vec<Ipv4Address>)
        ensures
            ips@ == ipv4_addresses(views(records@)),
    {
        let mut ips: Vec<Ipv4Address> = Vec::new();
        let mut i: usize = 0;
        assert(records@.take(0) =~= Seq::empty());
        assert(views(records@.take(0)) =~= Seq::empty());
        while i < records.len()
            invariant
                i <= records.len(),
                ips@ == ipv4_addresses(views(records@.take(i as int))),
            decreases records.len() - i,
        {
            let rr = &records[i];
            proof {
                assert(records@.take(i + 1).drop_last() =~= records@.take(i as int));
                assert(views(records@.take(i + 1)).drop_last() =~= views(records@.take(i as int)));
                assert(views(records@.take(i + 1)).last() == rr@);
            }
            if rr.r_type == RecordType::A {
                match rr.ipv4_ip() {
                    Some(ip) => {
                        ips.push(ip);
                    },
                    None => {},
                }
            }
            i += 1;
        }
        assert(records@.take(i as int) =~= records@);
        ips
    }

    /// What the response `message` means for the resolution that asked.
    pub fn inspect(message: &Message) -> (inspection: Inspection)
        ensures
            inspection@ == verdict(message@),
    {
        if message.answers.len() > 0 {
            return Inspection::Answered;
        }
        let servers = Self::extract_ipv4_ips(message.additionals.as_slice());
        if servers.len() > 0 {
            return Inspection::Referred(servers);
        }
        let names = Self::extract_domains(message.authorities.as_slice(), &RecordType::NS);
        if names.len() > 0 {
            return Inspection::Delegated(names);
        }
        Inspection::Stuck
    }
}

impl Resolver {
    /// The step that sends `query` to `server` for the last of `lookups`.
    fn ask(lookups: Vec<Lookup>, server: Ipv4Address, query: &Message) -> (step: Step)
        requires
            in_progress(lookup_views(lookups@)),
            query@ == MessageView::query(
                query.header.id,
                lookups@.last().domain@,
                lookups@.last().record_type,
            ),
        ensures
            step@ == (StepView::Continue {
                resolver: ResolverView { lookups: lookup_views(lookups@), id: query.header.id },
                server,
                payload: query@.query_bytes(),
            }),
            asks_one_of(lookup_views(lookups@), seq![server], step@),
            within_bounds(step@),
    {
        let payload = query.to_query_bytes();
        let resolver = Resolver { lookups, id: query.header.id };
        assert(seq![server][0] == server);
        Step::Continue { resolver, server, payload }
    }

    /// Goes on with `lookup` at one of `servers`, with `waiting` waiting for
    /// it: one more query is counted for `lookup`.
    fn retry(waiting: Vec<Lookup>, lookup: Lookup, servers: &[Ipv4Address]) -> (step: Step)
        requires
            lookup.attempts < MAX_ATTEMPTS,
            may_go_on(lookup_views(waiting@)),
            waiting@.len() < MAX_DEPTH,
        ensures
            retries(lookup_views(waiting@.push(lookup)), servers@, step@),
            within_bounds(step@),
    {
        let ghost before = lookup_views(waiting@.push(lookup));
        let server = match pick_address(servers) {
            Ok(server) => server,
            Err(error) => {
                return Step::Failed(error);
            },
        };
        let mut lookup = lookup;
        lookup.attempts = lookup.attempts + 1;
        let query = Message::new_query(lookup.domain.as_str(), &lookup.record_type);
        let mut lookups = waiting;
        lookups.push(lookup);
        proof {
            assert(lookup_views(lookups@) =~= before.drop_last().push(before.last().retried()));
            assert(lookup_views(lookups@).drop_last() =~= lookup_views(waiting@));
        }
        let step = Self::ask(lookups, server, &query);
        step
    }

    /// Starts to resolve `domain` for `record_type` at a root server, with
    /// `waiting` waiting for it.
    fn descend(waiting: Vec<Lookup>, domain: String, record_type: RecordType) -> (step: Step)
        requires
            may_go_on(lookup_views(waiting@)),
            waiting@.len() < MAX_DEPTH,
        ensures
            asks_one_of(
                lookup_views(waiting@).push(
                    LookupView { domain: domain@, record_type, attempts: 0 },
                ),
                root_servers(),
                step@,
            ),
            within_bounds(step@),
    {
        let roots = root_name_servers();
        let server = match pick_address(roots.as_slice()) {
            Ok(server) => server,
            Err(error) => {
                return Step::Failed(error);
            },
        };
        let query = Message::new_query(domain.as_str(), &record_type);
        let mut lookups = waiting;
        lookups.push(Lookup { domain, record_type, attempts: 0 });
        proof {
            assert(lookup_views(lookups@) =~= lookup_views(waiting@).push(
                LookupView { domain: domain@, record_type, attempts: 0 },
            ));
            assert(lookup_views(lookups@).drop_last() =~= lookup_views(waiting@));
        }
        let step = Self::ask(lookups, server, &query);
        step
    }

    /// The first step of resolving `domain` for `record_type`: a query to
    /// one of the root servers.
    pub fn resolve(domain: &str, record_type: &RecordType) -> (step: Step)
        ensures
            asks_one_of(
                seq![LookupView { domain: domain@, record_type: *record_type, attempts: 0 }],
                root_servers(),
                step@,
            ),
            within_bounds(step@),
    {
        let waiting: Vec<Lookup> = Vec::new();
        assert(lookup_views(waiting@).push(
            LookupView { domain: domain@, record_type: *record_type, attempts: 0 },
        ) =~= seq![LookupView { domain: domain@, record_type: *record_type, attempts: 0 }]);
        Self::descend(waiting, domain.to_owned(), *record_type)
    }

    /// The complaint that the queries allowed for `lookup` are used up.
    fn give_up(lookup: &Lookup) -> (error: Error)
        ensures
            error@ == exhausted(lookup.domain@),
    {
        let mut text = "problem resolving address: ".to_owned();
        text.append(lookup.domain.as_str());
        Error::ResolverError(text)
    }

    /// The step that follows the response `message` to the query on its way.
    pub fn on_message(self, message: Message) -> (step: Step)
        ensures
            may_follow_message(self@.lookups, message@, step@),
            within_bounds(step@),
    {
        proof {
            use_type_invariant(&self);
        }
        let Resolver { lookups, id } = self;
        let mut lookups = lookups;
        let ghost all = lookups@;
        let current = lookups.pop().unwrap();
        proof {
            assert(lookup_views(all).last() == current@);
            assert(lookup_views(lookups@) =~= lookup_views(all).drop_last());
        }
        match Self::inspect(&message) {
            Inspection::Answered => {
                if lookups.len() == 0 {
                    Step::Done(message)
                } else {
                    // The name server is found: the resolution that waits
                    // for it goes on at one of its addresses.
                    let servers = Self::extract_ipv4_ips(message.answers.as_slice());
                    let ghost waiting = lookups@;
                    let outer = lookups.pop().unwrap();
                    proof {
                        assert(lookups@.push(outer) =~= waiting);
                        assert(lookup_views(waiting).last() == outer@);
                        assert(lookup_views(lookups@) =~= lookup_views(waiting).drop_last());
                        assert forall|i: int| 0 <= i < lookup_views(lookups@).len() implies (
                        #[trigger] lookup_views(lookups@)[i]).attempts < MAX_ATTEMPTS by {
                            assert(lookup_views(lookups@)[i] == lookup_views(waiting)[i]);
                        }
                    }
                    Self::retry(lookups, outer, servers.as_slice())
                }
            },
            Inspection::Referred(servers) => {
                if current.attempts >= MAX_ATTEMPTS {
                    return Step::Failed(Self::give_up(&current));
                }
                proof {
                    assert(lookups@.push(current) =~= all);
                }
                Self::retry(lookups, current, servers.as_slice())
            },
            Inspection::Delegated(names) => {
                if current.attempts >= MAX_ATTEMPTS {
                    return Step::Failed(Self::give_up(&current));
                }
                if lookups.len() + 1 >= MAX_DEPTH {
                    let mut text = "delegation is too deep: ".to_owned();
                    text.append(current.domain.as_str());
                    return Step::Failed(Error::ResolverError(text));
                }
                let ghost waiting = lookups@;
                lookups.push(current);
                proof {
                    assert(lookups@ =~= all);
                    assert forall|i: int| 0 <= i < lookup_views(all).len() implies (
                    #[trigger] lookup_views(all)[i]).attempts < MAX_ATTEMPTS by {
                        if i < waiting.len() {
                            assert(lookup_views(all)[i] == lookup_views(waiting)[i]);
                        }
                    }
                }
                match pick_name(names.as_slice()) {
                    Ok(name) => {
                        let step = Self::descend(lookups, name, RecordType::A);
                        proof {
                            let i = choose|i: int|
                                0 <= i < texts(names@).len() && texts(names@)[i] == name@;
                            assert(texts(names@)[i] == name@);
                        }
                        step
                    },
                    Err(error) => Step::Failed(error),
                }
            },
            Inspection::Stuck => Step::Failed(
                Error::resolver("it's really impossible but let's just explode"),
            ),
        }
    }

    /// The step that follows the reply `buf` to the query on its way.
    pub fn on_response(self, buf: &[u8]) -> (step: Step)
        ensures
            may_follow(self@, buf@, step@),
            within_bounds(step@),
    {
        proof {
            use_type_invariant(&self);
        }
        let query = Message::with_id(
            self.id,
            self.lookups[self.lookups.len() - 1].domain.as_str(),
            &self.lookups[self.lookups.len() - 1].record_type,
        );
        assert(query@ == self@.asks());
        match Message::with_response(buf, &query) {
            Ok(message) => self.on_message(message),
            Err(error) => Step::Failed(error),
        }
    }

    /// The step that follows when the query on its way could not be sent or
    /// no reply to it could be received: everything ends with this failure.
    pub fn on_transport_error(self, failure: std::io::Error) -> (step: Step)
        ensures
            step@ == StepView::Failed(ErrorView::NetworkError(failure)),
    {
        Step::Failed(Error::NetworkError(failure))
    }
}

/// The first step of resolving `domain` for `record_type`: the name is
/// validated, and a valid one is asked for at one of the root servers.
pub fn query(domain: &str, record_type: &RecordType) -> (step: Step)
    ensures
        if valid_hostname(domain@) {
            asks_one_of(
                seq![LookupView { domain: domain@, record_type: *record_type, attempts: 0 }],
                root_servers(),
                step@,
            )
        } else {
            step@ == StepView::Failed(ErrorView::InvalidHostname)
        },
        within_bounds(step@),
{
    match validate_domain(domain) {
        Ok(_) => Resolver::resolve(domain, record_type),
        Err(error) => Step::Failed(error),
    }
}

} // verus!
