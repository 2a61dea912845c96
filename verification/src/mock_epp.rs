//! A deterministic endpoint picker: reads the model that a request asks for and
//! answers with the endpoint that is configured for it.
use vstd::hash_map::StringHashMap;
use vstd::prelude::*;
use vstd::string::*;
use vstd::utf8::*;

use crate::text::{joined, lent_text, optional_text};

verus! {

/// Header that carries the endpoint.
pub const DESTINATION_HEADER: &'static str = "x-gateway-destination-endpoint";

/// Port that is listened on when none is configured.
pub const DEFAULT_PORT: u16 = 50051;

/// Where the first equals sign of `raw` stands; its length when there is none.
pub open spec fn first_equals(raw: Seq<char>) -> int
    decreases raw.len(),
{
    if raw.len() == 0 || raw[0] == '=' {
        0
    } else {
        1 + first_equals(raw.drop_first())
    }
}

/// The model and the endpoint that `raw` names, or what is wrong with it.
pub open spec fn route_of(raw: Seq<char>) -> Result<(Seq<char>, Seq<char>), Seq<char>> {
    let at = first_equals(raw);
    if at == raw.len() {
        Err("expected model=endpoint, got: "@ + raw)
    } else if at == 0 || at == raw.len() - 1 {
        Err("model and endpoint must be non-empty: "@ + raw)
    } else {
        Ok((raw.take(at), raw.skip(at + 1)))
    }
}

/// `str::split_once` at the equals sign: what stands before the first one and
/// what stands after it, and nothing when there is none.
#[verifier::external_body]
fn split_at_equals(raw: &str) -> (r: Option<(&str, &str)>)
    ensures
        r is Some <==> raw@.contains('='),
        r matches Some(parts) ==> !parts.0@.contains('=') && raw@ == parts.0@ + seq!['=']
            + parts.1@,
{
    raw.split_once('=')
}

/// A text without equals signs is as long as where its first one would stand.
proof fn lemma_no_equals(raw: Seq<char>)
    requires
        !raw.contains('='),
    ensures
        first_equals(raw) == raw.len(),
    decreases raw.len(),
{
    if raw.len() > 0 {
        assert(raw[0] != '=');
        assert forall|i: int| 0 <= i < raw.drop_first().len() implies raw.drop_first()[i]
            != '=' by {
            assert(raw.drop_first()[i] == raw[i + 1]);
        }
        lemma_no_equals(raw.drop_first());
    }
}

/// The first equals sign stands behind what has none.
proof fn lemma_first_equals(model: Seq<char>, endpoint: Seq<char>)
    requires
        !model.contains('='),
    ensures
        first_equals(model + seq!['='] + endpoint) == model.len(),
    decreases model.len(),
{
    let raw = model + seq!['='] + endpoint;
    if model.len() == 0 {
        assert(raw[0] == '=');
    } else {
        assert(model[0] != '=');
        assert(raw[0] == model[0]);
        let rest = model.drop_first();
        assert forall|i: int| 0 <= i < rest.len() implies rest[i] != '=' by {
            assert(rest[i] == model[i + 1]);
        }
        lemma_first_equals(rest, endpoint);
        assert(raw.drop_first() =~= rest + seq!['='] + endpoint);
    }
}

/// Read one `model=endpoint` route.
pub fn parse_route(raw: &str) -> (r: Result<(String, String), String>)
    ensures
        match (r, route_of(raw@)) {
            (Ok(route), Ok(expected)) => route.0@ == expected.0 && route.1@ == expected.1,
            (Err(text), Err(expected)) => text@ == expected,
            _ => false,
        },
{
    match split_at_equals(raw) {
        None => {
            proof {
                lemma_no_equals(raw@);
            }
            Err(joined("expected model=endpoint, got: ", raw))
        },
        Some((model, endpoint)) => {
            proof {
                lemma_first_equals(model@, endpoint@);
                assert(raw@.take(model@.len() as int) =~= model@);
                assert(raw@.skip(model@.len() as int + 1) =~= endpoint@);
            }
            if model.is_empty() || endpoint.is_empty() {
                Err(joined("model and endpoint must be non-empty: ", raw))
            } else {
                Ok((model.to_owned(), endpoint.to_owned()))
            }
        },
    }
}

/// A route is read back from how it is written, whatever its endpoint holds.
pub proof fn law_routes_read_back(model: Seq<char>, endpoint: Seq<char>)
    requires
        model.len() > 0,
        endpoint.len() > 0,
        !model.contains('='),
    ensures
        route_of(model + seq!['='] + endpoint) == Ok::<(Seq<char>, Seq<char>), Seq<char>>(
            (model, endpoint),
        ),
{
    let raw = model + seq!['='] + endpoint;
    lemma_first_equals(model, endpoint);
    assert(raw.take(model.len() as int) =~= model);
    assert(raw.skip(model.len() as int + 1) =~= endpoint);
}

/// What each pair says.
pub open spec fn pair_views(list: Seq<(String, String)>) -> Seq<(Seq<char>, Seq<char>)> {
    list.map_values(|pair: (String, String)| (pair.0@, pair.1@))
}

/// The endpoint of each model; the last one counts.
pub open spec fn endpoints_of(list: Seq<(Seq<char>, Seq<char>)>) -> Map<Seq<char>, Seq<char>>
    decreases list.len(),
{
    if list.len() == 0 {
        Map::empty()
    } else {
        endpoints_of(list.drop_last()).insert(list.last().0, list.last().1)
    }
}

/// The endpoint of each model.
pub struct Routes {
    endpoints: StringHashMap<String>,
}

impl View for Routes {
    type V = Map<Seq<char>, Seq<char>>;

    closed spec fn view(&self) -> Map<Seq<char>, Seq<char>> {
        self.endpoints@.map_values(|endpoint: String| endpoint@)
    }
}

impl Routes {
    /// The routes in `list`; of several for one model the last one counts.
    pub fn from_list(list: Vec<(String, String)>) -> (r: Self)
        ensures
            r@ == endpoints_of(pair_views(list@)),
    {
        let ghost said = pair_views(list@);
        let ghost pairs = list@;
        let mut r = Self { endpoints: StringHashMap::new() };
        assert(r@ =~= Map::empty());
        for pair in iter: list
            invariant
                iter.seq() == pairs,
                said == pair_views(pairs),
                r@ == endpoints_of(said.take(iter.index())),
        {
            let ghost n = iter.index();
            assert(said.take(n + 1).drop_last() =~= said.take(n));
            let ghost before = r@;
            let (model, endpoint) = pair;
            r.endpoints.insert(model, endpoint);
            assert(r@ =~= before.insert(model@, endpoint@));
        }
        assert(said.take(said.len() as int) =~= said);
        r
    }

    /// The endpoint of `model`.
    pub fn get(&self, model: &str) -> (r: Option<&str>)
        ensures
            lent_text(r) == (if self@.dom().contains(model@) {
                Some(self@[model@])
            } else {
                None
            }),
    {
        match self.endpoints.get(model) {
            Some(endpoint) => Some(endpoint.as_str()),
            None => None,
        }
    }

    /// Number of models that have an endpoint.
    pub fn len(&self) -> (r: usize)
        ensures
            r == self@.dom().len(),
    {
        assert(self@.dom() =~= self.endpoints@.dom());
        self.endpoints.len()
    }
}

/// The last of several routes for a model is the one that counts.
pub proof fn law_last_route_counts(list: Seq<(Seq<char>, Seq<char>)>, i: int)
    requires
        0 <= i < list.len(),
        forall|j: int| i < j < list.len() ==> (#[trigger] list[j]).0 != list[i].0,
    ensures
        endpoints_of(list).dom().contains(list[i].0),
        endpoints_of(list)[list[i].0] == list[i].1,
    decreases list.len(),
{
    if i < list.len() - 1 {
        assert(list[list.len() - 1].0 != list[i].0);
        assert forall|j: int| i < j < list.drop_last().len() implies (
        #[trigger] list.drop_last()[j]).0 != list.drop_last()[i].0 by {
            assert(list[j].0 != list[i].0);
        }
        law_last_route_counts(list.drop_last(), i);
    }
}

/// One message of a request that is read.
#[derive(Debug)]
pub enum Message {
    /// The headers of the request.
    RequestHeaders,
    /// A part of its body.
    RequestBody {
        /// The bytes of the part.
        body: Vec<u8>,
        /// Whether it is the last one.
        end_of_stream: bool,
    },
    /// Something that does not matter here.
    Other,
    /// Nothing at all.
    Empty,
}

/// What a [`Message`] says.
pub ghost enum MessageView {
    /// The headers of the request.
    RequestHeaders,
    /// A part of its body, and whether it is the last one.
    RequestBody(Seq<u8>, bool),
    /// Something that does not matter here.
    Other,
    /// Nothing at all.
    Empty,
}

impl View for Message {
    type V = MessageView;

    open spec fn view(&self) -> MessageView {
        match self {
            Message::RequestHeaders => MessageView::RequestHeaders,
            Message::RequestBody { body, end_of_stream } => MessageView::RequestBody(
                body@,
                *end_of_stream,
            ),
            Message::Other => MessageView::Other,
            Message::Empty => MessageView::Empty,
        }
    }
}

/// What was read of a request so far.
#[derive(Debug)]
pub struct BodyReader {
    /// The body.
    pub body: Vec<u8>,
    /// Whether the headers have come.
    pub saw_headers: bool,
    /// Whether the last part of the body has come.
    pub complete: bool,
}

/// What a [`BodyReader`] says.
pub ghost struct ReaderView {
    /// The body.
    pub body: Seq<u8>,
    /// Whether the headers have come.
    pub saw_headers: bool,
    /// Whether the last part of the body has come.
    pub complete: bool,
}

impl View for BodyReader {
    type V = ReaderView;

    open spec fn view(&self) -> ReaderView {
        ReaderView { body: self.body@, saw_headers: self.saw_headers, complete: self.complete }
    }
}

impl ReaderView {
    /// Nothing was read yet.
    pub open spec fn start() -> ReaderView {
        ReaderView { body: seq![], saw_headers: false, complete: false }
    }

    /// What is known after one more message. Messages after the last part of the
    /// body are not read.
    pub open spec fn after(self, message: MessageView) -> ReaderView {
        if self.complete {
            self
        } else {
            match message {
                MessageView::RequestHeaders => ReaderView { saw_headers: true, ..self },
                MessageView::RequestBody(body, end_of_stream) => ReaderView {
                    body: self.body + body,
                    complete: end_of_stream,
                    ..self
                },
                _ => self,
            }
        }
    }

    /// The body, once its last part has come.
    pub open spec fn finished(self) -> Option<Seq<u8>> {
        if self.complete {
            Some(self.body)
        } else {
            None
        }
    }
}

impl BodyReader {
    /// A reader that has read nothing yet.
    pub fn new() -> (r: Self)
        ensures
            r@ == ReaderView::start(),
    {
        let r = Self { body: Vec::new(), saw_headers: false, complete: false };
        assert(r.body@ =~= seq![]);
        r
    }

    /// Take one more message.
    pub fn receive(&mut self, message: &Message)
        ensures
            final(self)@ == old(self)@.after(message@),
    {
        if self.complete {
            return ;
        }
        match message {
            Message::RequestHeaders => {
                self.saw_headers = true;
            },
            Message::RequestBody { body, end_of_stream } => {
                self.body.extend_from_slice(body.as_slice());
                assert(self.body@ =~= old(self).body@ + body@);
                self.complete = *end_of_stream;
            },
            _ => {},
        }
    }

    /// The body, when no more messages come. There is none when the messages ended
    /// before its last part.
    pub fn finish(self) -> (r: Option<Vec<u8>>)
        ensures
            r is Some <==> self.complete,
            r matches Some(body) ==> body@ == self@.body,
    {
        if self.complete {
            Some(self.body)
        } else {
            None
        }
    }
}

/// What is known after `messages`.
pub open spec fn reader_after(messages: Seq<MessageView>) -> ReaderView
    decreases messages.len(),
{
    if messages.len() == 0 {
        ReaderView::start()
    } else {
        reader_after(messages.drop_last()).after(messages.last())
    }
}

/// The bytes of all parts of the body, in order.
pub open spec fn joined_parts(messages: Seq<MessageView>) -> Seq<u8>
    decreases messages.len(),
{
    if messages.len() == 0 {
        seq![]
    } else {
        match messages.last() {
            MessageView::RequestBody(body, _) => joined_parts(messages.drop_last()) + body,
            _ => joined_parts(messages.drop_last()),
        }
    }
}

/// Whether a message is the last part of a body.
pub open spec fn is_last_part(message: MessageView) -> bool {
    message matches MessageView::RequestBody(_, end_of_stream) && end_of_stream
}

/// As long as the last part of the body has not come, the body is what came so
/// far; it is complete as soon as that part comes.
pub proof fn law_body_is_all_parts(messages: Seq<MessageView>)
    requires
        messages.len() > 0,
        forall|i: int| 0 <= i < messages.len() - 1 ==> !is_last_part(#[trigger] messages[i]),
    ensures
        reader_after(messages).body == joined_parts(messages),
        reader_after(messages).complete == is_last_part(messages.last()),
    decreases messages.len(),
{
    let front = messages.drop_last();
    if front.len() > 0 {
        assert forall|i: int| 0 <= i < front.len() - 1 implies !is_last_part(
            #[trigger] front[i],
        ) by {
            assert(front[i] == messages[i]);
        }
        law_body_is_all_parts(front);
        assert(!is_last_part(messages[front.len() - 1]));
        assert(front.last() == messages[front.len() - 1]);
    }
    assert(!reader_after(front).complete);
    assert(reader_after(front).body == joined_parts(front));
}

/// Messages give a body exactly when the last part is among them. It is made of
/// all parts up to that one, whatever comes after.
pub proof fn law_only_whole_bodies_are_given(messages: Seq<MessageView>)
    ensures
        reader_after(messages).finished() is None <==> forall|i: int|
            0 <= i < messages.len() ==> !is_last_part(#[trigger] messages[i]),
        forall|i: int|
            0 <= i < messages.len() && is_last_part(#[trigger] messages[i]) && (forall|j: int|
                0 <= j < i ==> !is_last_part(#[trigger] messages[j])) ==> reader_after(
                messages,
            ).finished() == Some(joined_parts(messages.take(i + 1))),
    decreases messages.len(),
{
    if messages.len() > 0 {
        let front = messages.drop_last();
        law_only_whole_bodies_are_given(front);
        assert forall|i: int| 0 <= i < front.len() implies front[i] == messages[i] by {}
        assert(messages.last() == messages[messages.len() - 1]);
        if forall|i: int| 0 <= i < front.len() ==> !is_last_part(#[trigger] front[i]) {
            assert(forall|i: int|
                0 <= i < messages.len() - 1 ==> !is_last_part(#[trigger] messages[i])) by {
                assert forall|i: int| 0 <= i < messages.len() - 1 implies !is_last_part(
                    #[trigger] messages[i],
                ) by {
                    assert(!is_last_part(front[i]));
                }
            }
            law_body_is_all_parts(messages);
            assert(messages.take(messages.len() as int) =~= messages);
        } else {
            let k = choose|i: int| 0 <= i < front.len() && is_last_part(#[trigger] front[i]);
            assert(is_last_part(messages[k]));
            assert(reader_after(front).complete);
            assert(reader_after(messages) == reader_after(front));
        }
        assert forall|i: int|
            0 <= i < messages.len() && is_last_part(#[trigger] messages[i]) && (forall|j: int|
                0 <= j < i ==> !is_last_part(#[trigger] messages[j])) implies reader_after(
            messages,
        ).finished() == Some(joined_parts(messages.take(i + 1))) by {
            if i < front.len() {
                assert forall|j: int| 0 <= j < i implies !is_last_part(#[trigger] front[j]) by {
                    assert(front[j] == messages[j]);
                }
                assert(is_last_part(front[i]));
                assert(front.take(i + 1) =~= messages.take(i + 1));
            } else {
                assert(messages.take(i + 1) =~= messages);
            }
        }
    }
}

/// What comes after the last part of the body is not read.
pub proof fn law_complete_bodies_stay(read: Seq<MessageView>, more: Seq<MessageView>)
    requires
        reader_after(read).complete,
    ensures
        reader_after(read + more) == reader_after(read),
    decreases more.len(),
{
    if more.len() == 0 {
        assert(read + more =~= read);
    } else {
        law_complete_bodies_stay(read, more.drop_last());
        assert((read + more).drop_last() =~= read + more.drop_last());
    }
}

/// The text of the member `name` of the JSON object `body`; nothing when `body`
/// is no JSON object, has no such member or holds no text there.
pub uninterp spec fn json_member_text(body: Seq<u8>, name: Seq<char>) -> Option<Seq<char>>;

/// `serde_json::from_slice` into a `serde_json::Value`, then its `get` and
/// `as_str`: the text of a member of the top-level object, which depends on the
/// bytes and the name alone.
#[verifier::external_body]
fn json_text(body: &[u8], name: &str) -> (r: Option<String>)
    ensures
        optional_text(r) == json_member_text(body@, name@),
{
    let value = serde_json::from_slice::<serde_json::Value>(body).ok()?;
    value.get(name)?.as_str().map(str::to_owned)
}

/// The model that a request body asks for.
pub fn request_model(body: &[u8]) -> (r: Option<String>)
    ensures
        optional_text(r) == json_member_text(body@, "model"@),
{
    json_text(body, "model")
}

/// What a header does to one of the same name.
#[derive(Debug, Clone, Copy, PartialEq, Eq, Structural)]
pub enum HeaderAction {
    /// It takes its place, and is there in any case.
    OverwriteIfExistsOrAdd,
}

/// A header to set.
#[derive(Debug)]
pub struct HeaderMutation {
    /// Name of the header.
    pub key: &'static str,
    /// Bytes of its value.
    pub raw_value: Vec<u8>,
    /// What it does to one of the same name.
    pub append_action: HeaderAction,
}

/// What a [`HeaderMutation`] says.
pub ghost struct MutationView {
    /// Name of the header.
    pub key: Seq<char>,
    /// Bytes of its value.
    pub raw_value: Seq<u8>,
    /// What it does to one of the same name.
    pub append_action: HeaderAction,
}

/// One answer.
#[derive(Debug)]
pub enum ProcessingResponse {
    /// What happens to the headers of the request.
    RequestHeaders(Option<HeaderMutation>),
    /// The body goes on as it is.
    RequestBody,
}

/// What a [`ProcessingResponse`] says.
pub ghost enum ResponseView {
    /// What happens to the headers of the request.
    RequestHeaders(Option<MutationView>),
    /// The body goes on as it is.
    RequestBody,
}

impl View for ProcessingResponse {
    type V = ResponseView;

    open spec fn view(&self) -> ResponseView {
        match self {
            ProcessingResponse::RequestHeaders(Some(mutation)) => ResponseView::RequestHeaders(
                Some(
                    MutationView {
                        key: mutation.key@,
                        raw_value: mutation.raw_value@,
                        append_action: mutation.append_action,
                    },
                ),
            ),
            ProcessingResponse::RequestHeaders(None) => ResponseView::RequestHeaders(None),
            ProcessingResponse::RequestBody => ResponseView::RequestBody,
        }
    }
}

/// The answer that sends a request to `destination`, or leaves it alone.
pub open spec fn headers_answer(destination: Option<Seq<char>>) -> ResponseView {
    match destination {
        None => ResponseView::RequestHeaders(None),
        Some(endpoint) => ResponseView::RequestHeaders(
            Some(
                MutationView {
                    key: DESTINATION_HEADER@,
                    raw_value: encode_utf8(endpoint),
                    append_action: HeaderAction::OverwriteIfExistsOrAdd,
                },
            ),
        ),
    }
}

/// The answer that sends a request to `destination`, or leaves it alone.
pub fn headers_response(destination: Option<&str>) -> (r: ProcessingResponse)
    ensures
        r@ == headers_answer(lent_text(destination)),
{
    match destination {
        None => ProcessingResponse::RequestHeaders(None),
        Some(endpoint) => {
            let mut raw_value: Vec<u8> = Vec::new();
            raw_value.extend_from_slice(endpoint.as_bytes());
            assert(raw_value@ =~= encode_utf8(endpoint@));
            ProcessingResponse::RequestHeaders(
                Some(
                    HeaderMutation {
                        key: DESTINATION_HEADER,
                        raw_value,
                        append_action: HeaderAction::OverwriteIfExistsOrAdd,
                    },
                ),
            )
        },
    }
}

/// The answer that lets the body go on.
pub fn body_continue_response() -> (r: ProcessingResponse)
    ensures
        r@ == ResponseView::RequestBody,
{
    ProcessingResponse::RequestBody
}

/// Where a request for `model` goes.
pub open spec fn destination_of(
    model: Option<Seq<char>>,
    endpoints: Map<Seq<char>, Seq<char>>,
) -> Option<Seq<char>> {
    match model {
        Some(name) => if endpoints.dom().contains(name) {
            Some(endpoints[name])
        } else {
            None
        },
        None => None,
    }
}

/// The answer to a request for `model`.
pub fn model_response(model: Option<String>, routes: &Routes) -> (r: ProcessingResponse)
    ensures
        r@ == headers_answer(destination_of(optional_text(model), routes@)),
{
    match model {
        None => headers_response(None),
        Some(name) => headers_response(routes.get(name.as_str())),
    }
}

/// The answer to a request with the given body.
pub fn route_response(body: &[u8], routes: &Routes) -> (r: ProcessingResponse)
    ensures
        r@ == headers_answer(destination_of(json_member_text(body@, "model"@), routes@)),
{
    model_response(request_model(body), routes)
}

/// All answers to a request with the given body: where it goes, then that its
/// body goes on.
pub fn route_responses(body: &[u8], routes: &Routes) -> (r: Vec<ProcessingResponse>)
    ensures
        r@.len() == 2,
        r@[0]@ == headers_answer(destination_of(json_member_text(body@, "model"@), routes@)),
        r@[1]@ == ResponseView::RequestBody,
{
    let mut r: Vec<ProcessingResponse> = Vec::new();
    r.push(route_response(body, routes));
    r.push(body_continue_response());
    r
}

/// The endpoint of a request depends on its model and the routes alone: without
/// a model or a route for it, the request is left alone.
pub proof fn law_only_routed_models_are_sent(
    model: Option<Seq<char>>,
    endpoints: Map<Seq<char>, Seq<char>>,
)
    ensures
        headers_answer(destination_of(model, endpoints)) == ResponseView::RequestHeaders(None)
            <==> (model is None || !endpoints.dom().contains(model->0)),
{
}

/// What is no route: a text without an equals sign, and one with nothing before
/// its first or behind it. Each is named whole in the answer.
pub proof fn law_other_texts_are_no_routes(raw: Seq<char>, model: Seq<char>, endpoint: Seq<char>)
    requires
        !model.contains('='),
    ensures
        !raw.contains('=') ==> route_of(raw) == Err::<(Seq<char>, Seq<char>), Seq<char>>(
            "expected model=endpoint, got: "@ + raw,
        ),
        model.len() == 0 || endpoint.len() == 0 ==> route_of(model + seq!['='] + endpoint) == Err::<
            (Seq<char>, Seq<char>),
            Seq<char>,
        >("model and endpoint must be non-empty: "@ + (model + seq!['='] + endpoint)),
{
    if !raw.contains('=') {
        lemma_no_equals(raw);
    }
    lemma_first_equals(model, endpoint);
}

/// A model has an endpoint exactly when some route is for it.
pub proof fn law_only_listed_models_have_endpoints(
    list: Seq<(Seq<char>, Seq<char>)>,
    model: Seq<char>,
)
    ensures
        endpoints_of(list).dom().contains(model) <==> exists|i: int|
            0 <= i < list.len() && (#[trigger] list[i]).0 == model,
    decreases list.len(),
{
    if list.len() > 0 {
        let front = list.drop_last();
        law_only_listed_models_have_endpoints(front, model);
        assert(list[list.len() - 1] == list.last());
        if endpoints_of(front).dom().contains(model) {
            let i = choose|i: int| 0 <= i < front.len() && (#[trigger] front[i]).0 == model;
            assert(list[i].0 == model);
        }
        if exists|i: int| 0 <= i < list.len() && (#[trigger] list[i]).0 == model {
            let i = choose|i: int| 0 <= i < list.len() && (#[trigger] list[i]).0 == model;
            if i < front.len() {
                assert(front[i].0 == model);
            }
        }
    }
}

/// One more message: a part of the body is added at its end, headers are noted,
/// the last part ends it all, and anything else changes nothing.
pub proof fn law_messages_add_to_what_was_read(
    before: ReaderView,
    body: Seq<u8>,
    end_of_stream: bool,
    message: MessageView,
)
    ensures
        before.complete ==> before.after(message) == before,
        !before.complete ==> {
            let after = before.after(MessageView::RequestBody(body, end_of_stream));
            &&& after.body == before.body + body
            &&& after.complete == end_of_stream
            &&& after.saw_headers == before.saw_headers
        },
        !before.complete ==> {
            let after = before.after(MessageView::RequestHeaders);
            &&& after.body == before.body
            &&& !after.complete
            &&& after.saw_headers
        },
        message is Other || message is Empty ==> before.after(message) == before,
        ReaderView::start().body.len() == 0,
        !ReaderView::start().complete,
        !ReaderView::start().saw_headers,
{
}

/// A request for a model that has an endpoint is sent there: the bytes of the
/// endpoint become the destination header, in place of any that was there. Any
/// other request is left alone.
pub proof fn law_requests_go_to_the_endpoint_of_their_model(
    model: Option<Seq<char>>,
    endpoints: Map<Seq<char>, Seq<char>>,
)
    ensures
        headers_answer(destination_of(model, endpoints)) == (if model is Some
            && endpoints.dom().contains(model->0) {
            ResponseView::RequestHeaders(
                Some(
                    MutationView {
                        key: "x-gateway-destination-endpoint"@,
                        raw_value: encode_utf8(endpoints[model->0]),
                        append_action: HeaderAction::OverwriteIfExistsOrAdd,
                    },
                ),
            )
        } else {
            ResponseView::RequestHeaders(None)
        }),
{
}

/// Messages, answers and what was read are seen as they are.
pub proof fn law_messages_are_seen_as_they_are(
    body: Vec<u8>,
    end_of_stream: bool,
    reader: BodyReader,
    mutation: HeaderMutation,
    list: Seq<(String, String)>,
    i: int,
)
    ensures
        Message::RequestHeaders@ == MessageView::RequestHeaders,
        (Message::RequestBody { body, end_of_stream })@ == MessageView::RequestBody(
            body@,
            end_of_stream,
        ),
        Message::Other@ == MessageView::Other,
        Message::Empty@ == MessageView::Empty,
        reader@.body == reader.body@,
        reader@.saw_headers == reader.saw_headers,
        reader@.complete == reader.complete,
        ProcessingResponse::RequestBody@ == ResponseView::RequestBody,
        ProcessingResponse::RequestHeaders(None)@ == ResponseView::RequestHeaders(None),
        ProcessingResponse::RequestHeaders(Some(mutation))@ == ResponseView::RequestHeaders(
            Some(
                MutationView {
                    key: mutation.key@,
                    raw_value: mutation.raw_value@,
                    append_action: mutation.append_action,
                },
            ),
        ),
        pair_views(list).len() == list.len(),
        0 <= i < list.len() ==> pair_views(list)[i] == (list[i].0@, list[i].1@),
{
}

} // verus!
