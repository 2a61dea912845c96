//! The registry of filters: the built-in ones, those for AI, and any others.
use praxis_filter::{FilterFactory, FilterRegistry};
use vstd::prelude::*;
use vstd::string::*;

verus! {

/// The registry of the `praxis_filter` crate: filters by name.
#[verifier::external_type_specification]
#[verifier::external_body]
pub struct ExFilterRegistry(FilterRegistry);

/// What makes a filter, from the `praxis_filter` crate.
#[verifier::external_type_specification]
#[verifier::external_body]
pub struct ExFilterFactory(FilterFactory);

/// The names in `registry`, each with whether its filter is security-critical.
pub uninterp spec fn registered_classes(registry: FilterRegistry) -> Map<Seq<char>, bool>;

/// What makes the filters in `registry`, by name.
pub uninterp spec fn registered_factories(registry: FilterRegistry) -> Map<
    Seq<char>,
    FilterFactory,
>;

/// What a registry holds.
#[verifier::ext_equal]
pub ghost struct RegistryView {
    /// Whether each filter is security-critical.
    pub classes: Map<Seq<char>, bool>,
    /// What makes each filter.
    pub factories: Map<Seq<char>, FilterFactory>,
}

/// What `registry` holds.
pub open spec fn held_by(registry: FilterRegistry) -> RegistryView {
    RegistryView {
        classes: registered_classes(registry),
        factories: registered_factories(registry),
    }
}

impl RegistryView {
    /// Whether the name is taken.
    pub open spec fn has(self, name: Seq<char>) -> bool {
        self.classes.dom().contains(name)
    }

    /// The registry with one more filter.
    pub open spec fn with(self, entry: EntryView) -> RegistryView {
        RegistryView {
            classes: self.classes.insert(entry.name, entry.security),
            factories: self.factories.insert(entry.name, entry.factory),
        }
    }
}

/// The built-in filters that are always there, each with whether it is
/// security-critical: those that `praxis_filter` has in any build, and the last
/// one, which it has with its feature `spiffe`, as this library asks for it.
pub open spec fn core_builtins() -> Seq<(Seq<char>, bool)> {
    seq![
        ("access_log"@, false),
        ("circuit_breaker"@, false),
        ("compression"@, false),
        ("cors"@, true),
        ("csrf"@, true),
        ("credential_injection"@, true),
        ("endpoint_selector"@, false),
        ("head_classifier"@, false),
        ("headers"@, false),
        ("forwarded_headers"@, true),
        ("grpc_detection"@, false),
        ("grpc_status"@, false),
        ("grpc_timeout"@, false),
        ("grpc_web"@, false),
        ("guardrails"@, true),
        ("ip_acl"@, true),
        ("load_balancer"@, false),
        ("path_rewrite"@, false),
        ("rate_limit"@, true),
        ("redirect"@, false),
        ("request_id"@, false),
        ("router"@, false),
        ("static_response"@, false),
        ("sticky_sessions"@, false),
        ("timeout"@, false),
        ("trace_context"@, false),
        ("url_rewrite"@, false),
        ("json_body"@, false),
        ("json_body_field"@, false),
        ("json_rpc"@, false),
        ("sni_router"@, false),
        ("tcp_access_log"@, false),
        ("tcp_load_balancer"@, false),
        ("peer_identity_trust"@, true),
    ]
}

/// The built-in filters that are there only if `praxis_filter` was built with
/// them, each with whether it is security-critical.
pub open spec fn optional_builtins() -> Seq<(Seq<char>, bool)> {
    seq![
        ("basic_auth"@, true),
        ("cloud_events"@, false),
        ("policy"@, true),
        ("iterative_request_router"@, false),
    ]
}

/// All filters that may be built in.
pub open spec fn all_builtins() -> Seq<(Seq<char>, bool)> {
    core_builtins() + optional_builtins()
}

/// Whether a filter of that name may be built in.
pub open spec fn is_builtin_name(name: Seq<char>) -> bool {
    exists|i: int| 0 <= i < all_builtins().len() && (#[trigger] all_builtins()[i]).0 == name
}

/// Whether a registry holds what may be built in: all core filters, any of the
/// optional ones and nothing else, each with its class.
pub open spec fn holds_builtins(registry: RegistryView) -> bool {
    &&& forall|i: int|
        0 <= i < core_builtins().len() ==> registry.has((#[trigger] core_builtins()[i]).0)
            && registry.classes[core_builtins()[i].0] == core_builtins()[i].1
    &&& forall|name: Seq<char>| #[trigger]
        registry.has(name) ==> all_builtins().contains((name, registry.classes[name]))
}

/// `FilterRegistry::with_builtins`: a registry of the built-in filters. It holds
/// every core filter and no filter that is neither core nor optional, each with
/// its class. Which of the optional filters there are depends on how the crate
/// was built and is left open, as is what makes the filters.
#[verifier::external_body]
fn with_builtins() -> (r: FilterRegistry)
    ensures
        forall|i: int|
            0 <= i < core_builtins().len() ==> registered_classes(r).dom().contains(
                (#[trigger] core_builtins()[i]).0,
            ) && registered_classes(r)[core_builtins()[i].0] == core_builtins()[i].1,
        forall|name: Seq<char>| #[trigger]
            registered_classes(r).dom().contains(name) ==> all_builtins().contains(
                (name, registered_classes(r)[name]),
            ),
{
    FilterRegistry::with_builtins()
}

/// `FilterRegistry::register`: takes in a filter that is not security-critical,
/// unless its name is taken, and tells whether it did.
#[verifier::external_body]
fn register(registry: &mut FilterRegistry, name: &str, factory: FilterFactory) -> (r: bool)
    ensures
        r == !registered_classes(*old(registry)).dom().contains(name@),
        registered_classes(*final(registry)) == (if r {
            registered_classes(*old(registry)).insert(name@, false)
        } else {
            registered_classes(*old(registry))
        }),
        registered_factories(*final(registry)) == (if r {
            registered_factories(*old(registry)).insert(name@, factory)
        } else {
            registered_factories(*old(registry))
        }),
{
    registry.register(name, factory).is_ok()
}

/// `FilterRegistry::register_with_class` with `SecurityClass::Security`: takes in
/// a security-critical filter, unless its name is taken, and tells whether it
/// did.
#[verifier::external_body]
fn register_security(registry: &mut FilterRegistry, name: &str, factory: FilterFactory) -> (r: bool)
    ensures
        r == !registered_classes(*old(registry)).dom().contains(name@),
        registered_classes(*final(registry)) == (if r {
            registered_classes(*old(registry)).insert(name@, true)
        } else {
            registered_classes(*old(registry))
        }),
        registered_factories(*final(registry)) == (if r {
            registered_factories(*old(registry)).insert(name@, factory)
        } else {
            registered_factories(*old(registry))
        }),
{
    registry.register_with_class(name, factory, praxis_filter::SecurityClass::Security).is_ok()
}

/// A filter to register.
pub struct FilterEntry {
    /// Name of the filter.
    pub name: String,
    /// Whether it is security-critical.
    pub security: bool,
    /// What makes it.
    pub factory: FilterFactory,
}

/// What a [`FilterEntry`] says.
pub ghost struct EntryView {
    /// Name of the filter.
    pub name: Seq<char>,
    /// Whether it is security-critical.
    pub security: bool,
    /// What makes it.
    pub factory: FilterFactory,
}

impl View for FilterEntry {
    type V = EntryView;

    open spec fn view(&self) -> EntryView {
        EntryView { name: self.name@, security: self.security, factory: self.factory }
    }
}

/// What the entries say.
pub open spec fn entry_views(entries: Seq<FilterEntry>) -> Seq<EntryView> {
    entries.map_values(|entry: FilterEntry| entry@)
}

/// A filter name that is used twice.
#[derive(Debug)]
pub struct DuplicateFilter {
    /// The name.
    pub name: String,
}

impl DuplicateFilter {
    /// The text of the error.
    pub fn message(&self) -> (r: String)
        ensures
            r@ == "duplicate filter name: '"@ + self.name@ + "'"@,
    {
        let mut r = "duplicate filter name: '".to_owned();
        r.append(self.name.as_str());
        r.append("'");
        r
    }
}

/// The registry with all of `entries`, or the first name that is taken when its
/// turn comes.
pub open spec fn extended(before: RegistryView, entries: Seq<EntryView>) -> Result<
    RegistryView,
    Seq<char>,
>
    decreases entries.len(),
{
    if entries.len() == 0 {
        Ok(before)
    } else {
        match extended(before, entries.drop_last()) {
            Err(name) => Err(name),
            Ok(front) => if front.has(entries.last().name) {
                Err(entries.last().name)
            } else {
                Ok(front.with(entries.last()))
            },
        }
    }
}

/// Registering two lists one after the other registers both.
proof fn lemma_extended_append(before: RegistryView, a: Seq<EntryView>, b: Seq<EntryView>)
    ensures
        extended(before, a + b) == (match extended(before, a) {
            Err(name) => Err(name),
            Ok(middle) => extended(middle, b),
        }),
    decreases b.len(),
{
    if b.len() == 0 {
        assert(a + b =~= a);
    } else {
        lemma_extended_append(before, a, b.drop_last());
        assert((a + b).drop_last() =~= a + b.drop_last());
    }
}

/// Whether `r` says what became of registering `entries`.
pub open spec fn registers(
    r: Result<(), DuplicateFilter>,
    before: FilterRegistry,
    after: FilterRegistry,
    entries: Seq<EntryView>,
) -> bool {
    match extended(held_by(before), entries) {
        Ok(all) => r is Ok && held_by(after) == all,
        Err(name) => r matches Err(e) && e.name@ == name,
    }
}

/// A name that is taken in the front part of a list is taken in the list.
proof fn lemma_taken_in_prefix(before: RegistryView, entries: Seq<EntryView>, n: int)
    requires
        0 <= n <= entries.len(),
        extended(before, entries.take(n)) is Err,
    ensures
        extended(before, entries) == extended(before, entries.take(n)),
    decreases entries.len() - n,
{
    if n < entries.len() {
        assert(entries.take(n + 1).drop_last() =~= entries.take(n));
        lemma_taken_in_prefix(before, entries, n + 1);
    } else {
        assert(entries.take(n) =~= entries);
    }
}

/// Register all of `entries`, in order, until a name is taken.
fn register_entries(registry: &mut FilterRegistry, entries: Vec<FilterEntry>) -> (r: Result<
    (),
    DuplicateFilter,
>)
    ensures
        registers(r, *old(registry), *final(registry), entry_views(entries@)),
{
    let ghost list = entries@;
    let ghost said = entry_views(entries@);
    let ghost before = held_by(*registry);
    for entry in iter: entries
        invariant
            iter.seq() == list,
            said == entry_views(list),
            before == held_by(*old(registry)),
            extended(before, said.take(iter.index())) == Ok::<RegistryView, Seq<char>>(
                held_by(*registry),
            ),
    {
        let ghost n = iter.index();
        assert(said.take(n + 1).drop_last() =~= said.take(n));
        assert(said.take(n + 1).last() == entry@);
        let taken_in = if entry.security {
            register_security(registry, entry.name.as_str(), entry.factory)
        } else {
            register(registry, entry.name.as_str(), entry.factory)
        };
        if !taken_in {
            proof {
                lemma_taken_in_prefix(before, said, n + 1);
            }
            return Err(DuplicateFilter { name: entry.name });
        }
    }
    assert(said.take(said.len() as int) =~= said);
    Ok(())
}

/// An entry for a filter that is not security-critical.
fn standard(name: &str, factory: FilterFactory) -> (r: FilterEntry)
    ensures
        r@ == (EntryView { name: name@, security: false, factory }),
{
    FilterEntry { name: name.to_owned(), security: false, factory }
}

/// An entry for a security-critical filter.
fn security(name: &str, factory: FilterFactory) -> (r: FilterEntry)
    ensures
        r@ == (EntryView { name: name@, security: true, factory }),
{
    FilterEntry { name: name.to_owned(), security: true, factory }
}


/// Filters for agent protocols, each by what makes it.
pub struct AgenticFilters {
    /// Makes `a2a`.
    pub a2a: FilterFactory,
    /// Makes `mcp`.
    pub mcp: FilterFactory,
}

impl AgenticFilters {
    /// The filters, in the order in which they are registered.
    pub open spec fn entries(self) -> Seq<EntryView> {
        seq![
            EntryView { name: "a2a"@, security: false, factory: self.a2a },
            EntryView { name: "mcp"@, security: false, factory: self.mcp },
        ]
    }
}

/// Register the filters for agent protocols.
fn register_agentic_filters(
    registry: &mut FilterRegistry,
    filters: AgenticFilters,
) -> (r: Result<(), DuplicateFilter>)
    ensures
        registers(r, *old(registry), *final(registry), filters.entries()),
{
    let mut entries: Vec<FilterEntry> = Vec::new();
    entries.push(standard("a2a", filters.a2a));
    entries.push(standard("mcp", filters.mcp));
    assert(entry_views(entries@) =~= filters.entries());
    register_entries(registry, entries)
}

/// Filters that suit any API, each by what makes it.
pub struct GeneralAiFilters {
    /// Makes `ai_guardrails`.
    pub ai_guardrails: FilterFactory,
    /// Makes `model_to_header`.
    pub model_to_header: FilterFactory,
    /// Makes `prompt_enrich`.
    pub prompt_enrich: FilterFactory,
    /// Makes `token_count`.
    pub token_count: FilterFactory,
    /// Makes `token_usage_headers`.
    pub token_usage_headers: FilterFactory,
}

impl GeneralAiFilters {
    /// The filters, in the order in which they are registered.
    pub open spec fn entries(self) -> Seq<EntryView> {
        seq![
            EntryView { name: "ai_guardrails"@, security: false, factory: self.ai_guardrails },
            EntryView { name: "model_to_header"@, security: false, factory: self.model_to_header },
            EntryView { name: "prompt_enrich"@, security: false, factory: self.prompt_enrich },
            EntryView { name: "token_count"@, security: false, factory: self.token_count },
            EntryView {
                name: "token_usage_headers"@,
                security: false,
                factory: self.token_usage_headers,
            },
        ]
    }
}

/// Register the filters for any API.
fn register_general_ai_filters(
    registry: &mut FilterRegistry,
    filters: GeneralAiFilters,
) -> (r: Result<(), DuplicateFilter>)
    ensures
        registers(r, *old(registry), *final(registry), filters.entries()),
{
    let mut entries: Vec<FilterEntry> = Vec::new();
    entries.push(standard("ai_guardrails", filters.ai_guardrails));
    entries.push(standard("model_to_header", filters.model_to_header));
    entries.push(standard("prompt_enrich", filters.prompt_enrich));
    entries.push(standard("token_count", filters.token_count));
    entries.push(standard("token_usage_headers", filters.token_usage_headers));
    assert(entry_views(entries@) =~= filters.entries());
    register_entries(registry, entries)
}

/// Filters for the Anthropic API, each by what makes it.
pub struct AnthropicFilters {
    /// Makes `anthropic_messages_format`.
    pub anthropic_messages_format: FilterFactory,
    /// Makes `anthropic_messages_protocol`.
    pub anthropic_messages_protocol: FilterFactory,
    /// Makes `anthropic_stream_events`.
    pub anthropic_stream_events: FilterFactory,
    /// Makes `anthropic_to_openai`.
    pub anthropic_to_openai: FilterFactory,
    /// Makes `anthropic_validate`.
    pub anthropic_validate: FilterFactory,
}

impl AnthropicFilters {
    /// The filters, in the order in which they are registered.
    pub open spec fn entries(self) -> Seq<EntryView> {
        seq![
            EntryView {
                name: "anthropic_messages_format"@,
                security: false,
                factory: self.anthropic_messages_format,
            },
            EntryView {
                name: "anthropic_messages_protocol"@,
                security: false,
                factory: self.anthropic_messages_protocol,
            },
            EntryView {
                name: "anthropic_stream_events"@,
                security: false,
                factory: self.anthropic_stream_events,
            },
            EntryView {
                name: "anthropic_to_openai"@,
                security: false,
                factory: self.anthropic_to_openai,
            },
            EntryView {
                name: "anthropic_validate"@,
                security: false,
                factory: self.anthropic_validate,
            },
        ]
    }
}

/// Register the filters for the Anthropic API.
fn register_anthropic_filters(
    registry: &mut FilterRegistry,
    filters: AnthropicFilters,
) -> (r: Result<(), DuplicateFilter>)
    ensures
        registers(r, *old(registry), *final(registry), filters.entries()),
{
    let mut entries: Vec<FilterEntry> = Vec::new();
    entries.push(standard("anthropic_messages_format", filters.anthropic_messages_format));
    entries.push(standard("anthropic_messages_protocol", filters.anthropic_messages_protocol));
    entries.push(standard("anthropic_stream_events", filters.anthropic_stream_events));
    entries.push(standard("anthropic_to_openai", filters.anthropic_to_openai));
    entries.push(standard("anthropic_validate", filters.anthropic_validate));
    assert(entry_views(entries@) =~= filters.entries());
    register_entries(registry, entries)
}

/// Filters for answers of the OpenAI Responses API, each by what makes it.
pub struct OpenaiResponseFilters {
    /// Makes `openai_response_store`.
    pub openai_response_store: FilterFactory,
    /// Makes `openai_stream_events`.
    pub openai_stream_events: FilterFactory,
    /// Makes `openai_responses_proxy`.
    pub openai_responses_proxy: FilterFactory,
    /// Makes `openai_mcp_tool_resolve`.
    pub openai_mcp_tool_resolve: FilterFactory,
    /// Makes `openai_tool_parse`.
    pub openai_tool_parse: FilterFactory,
    /// Makes `openai_web_search`.
    pub openai_web_search: FilterFactory,
    /// Makes `openai_mcp_dispatch`.
    pub openai_mcp_dispatch: FilterFactory,
}

impl OpenaiResponseFilters {
    /// The filters, in the order in which they are registered.
    pub open spec fn entries(self) -> Seq<EntryView> {
        seq![
            EntryView {
                name: "openai_response_store"@,
                security: false,
                factory: self.openai_response_store,
            },
            EntryView {
                name: "openai_stream_events"@,
                security: false,
                factory: self.openai_stream_events,
            },
            EntryView {
                name: "openai_responses_proxy"@,
                security: false,
                factory: self.openai_responses_proxy,
            },
            EntryView {
                name: "openai_mcp_tool_resolve"@,
                security: false,
                factory: self.openai_mcp_tool_resolve,
            },
            EntryView {
                name: "openai_tool_parse"@,
                security: false,
                factory: self.openai_tool_parse,
            },
            EntryView {
                name: "openai_web_search"@,
                security: false,
                factory: self.openai_web_search,
            },
            EntryView {
                name: "openai_mcp_dispatch"@,
                security: false,
                factory: self.openai_mcp_dispatch,
            },
        ]
    }
}

/// Register the filters for answers of the OpenAI Responses API.
fn register_openai_response_filters(
    registry: &mut FilterRegistry,
    filters: OpenaiResponseFilters,
) -> (r: Result<(), DuplicateFilter>)
    ensures
        registers(r, *old(registry), *final(registry), filters.entries()),
{
    let mut entries: Vec<FilterEntry> = Vec::new();
    entries.push(standard("openai_response_store", filters.openai_response_store));
    entries.push(standard("openai_stream_events", filters.openai_stream_events));
    entries.push(standard("openai_responses_proxy", filters.openai_responses_proxy));
    entries.push(standard("openai_mcp_tool_resolve", filters.openai_mcp_tool_resolve));
    entries.push(standard("openai_tool_parse", filters.openai_tool_parse));
    entries.push(standard("openai_web_search", filters.openai_web_search));
    entries.push(standard("openai_mcp_dispatch", filters.openai_mcp_dispatch));
    assert(entry_views(entries@) =~= filters.entries());
    register_entries(registry, entries)
}

/// Filters for the OpenAI Responses API, each by what makes it.
pub struct OpenaiResponsesFilters {
    /// Makes `openai_doc_extract`.
    pub openai_doc_extract: FilterFactory,
    /// Makes `openai_file_resolve`.
    pub openai_file_resolve: FilterFactory,
    /// Makes `openai_responses_format`.
    pub openai_responses_format: FilterFactory,
    /// Makes `openai_responses_model_rewrite`.
    pub openai_responses_model_rewrite: FilterFactory,
    /// Makes `openai_responses_validate`.
    pub openai_responses_validate: FilterFactory,
    /// Makes `openai_responses_rehydrate`.
    pub openai_responses_rehydrate: FilterFactory,
    /// Filters for answers.
    pub answers: OpenaiResponseFilters,
}

impl OpenaiResponsesFilters {
    /// The filters, in the order in which they are registered.
    pub open spec fn entries(self) -> Seq<EntryView> {
        seq![
            EntryView {
                name: "openai_doc_extract"@,
                security: false,
                factory: self.openai_doc_extract,
            },
            EntryView {
                name: "openai_file_resolve"@,
                security: false,
                factory: self.openai_file_resolve,
            },
            EntryView {
                name: "openai_responses_format"@,
                security: false,
                factory: self.openai_responses_format,
            },
            EntryView {
                name: "openai_responses_model_rewrite"@,
                security: false,
                factory: self.openai_responses_model_rewrite,
            },
            EntryView {
                name: "openai_responses_validate"@,
                security: false,
                factory: self.openai_responses_validate,
            },
            EntryView {
                name: "openai_responses_rehydrate"@,
                security: false,
                factory: self.openai_responses_rehydrate,
            },
        ] + self.answers.entries()
    }
}

/// Register the filters for the OpenAI Responses API.
fn register_openai_responses_filters(
    registry: &mut FilterRegistry,
    filters: OpenaiResponsesFilters,
) -> (r: Result<(), DuplicateFilter>)
    ensures
        registers(r, *old(registry), *final(registry), filters.entries()),
{
    let mut entries: Vec<FilterEntry> = Vec::new();
    entries.push(standard("openai_doc_extract", filters.openai_doc_extract));
    entries.push(standard("openai_file_resolve", filters.openai_file_resolve));
    entries.push(standard("openai_responses_format", filters.openai_responses_format));
    entries.push(
        standard("openai_responses_model_rewrite", filters.openai_responses_model_rewrite),
    );
    entries.push(standard("openai_responses_validate", filters.openai_responses_validate));
    entries.push(standard("openai_responses_rehydrate", filters.openai_responses_rehydrate));
    proof {
        let requests = entry_views(entries@);
        assert(filters.entries() =~= requests + filters.answers.entries());
        lemma_extended_append(held_by(*registry), requests, filters.answers.entries());
    }
    match register_entries(registry, entries) {
        Err(e) => {
            return Err(e);
        },
        Ok(()) => {},
    }
    register_openai_response_filters(registry, filters.answers)
}

/// Filters for routing between gateways, each by what makes it.
pub struct GridFilters {
    /// Makes `grid_route`.
    pub grid_route: FilterFactory,
    /// Makes `grid_provider_route`.
    pub grid_provider_route: FilterFactory,
    /// Makes `grid_credential_inject`.
    pub grid_credential_inject: FilterFactory,
}

impl GridFilters {
    /// The filters, in the order in which they are registered.
    pub open spec fn entries(self) -> Seq<EntryView> {
        seq![
            EntryView { name: "grid_route"@, security: false, factory: self.grid_route },
            EntryView {
                name: "grid_provider_route"@,
                security: true,
                factory: self.grid_provider_route,
            },
            EntryView {
                name: "grid_credential_inject"@,
                security: true,
                factory: self.grid_credential_inject,
            },
        ]
    }
}

/// Register the filters for routing between gateways.
fn register_grid_filters(
    registry: &mut FilterRegistry,
    filters: GridFilters,
) -> (r: Result<(), DuplicateFilter>)
    ensures
        registers(r, *old(registry), *final(registry), filters.entries()),
{
    let mut entries: Vec<FilterEntry> = Vec::new();
    entries.push(standard("grid_route", filters.grid_route));
    entries.push(security("grid_provider_route", filters.grid_provider_route));
    entries.push(security("grid_credential_inject", filters.grid_credential_inject));
    assert(entry_views(entries@) =~= filters.entries());
    register_entries(registry, entries)
}

/// Filters for the OpenAI API, each by what makes it.
pub struct OpenaiFilters {
    /// Filters for the Responses API.
    pub responses: OpenaiResponsesFilters,
    /// Makes `openai_conversations`.
    pub openai_conversations: FilterFactory,
}

impl OpenaiFilters {
    /// The filters, in the order in which they are registered.
    pub open spec fn entries(self) -> Seq<EntryView> {
        self.responses.entries() + seq![
            EntryView {
                name: "openai_conversations"@,
                security: false,
                factory: self.openai_conversations,
            },
        ]
    }
}

/// Register the filters for the OpenAI API.
fn register_openai_filters(
    registry: &mut FilterRegistry,
    filters: OpenaiFilters,
) -> (r: Result<(), DuplicateFilter>)
    ensures
        registers(r, *old(registry), *final(registry), filters.entries()),
{
    let ghost last = filters.entries().skip(13);
    proof {
        assert(filters.entries() =~= filters.responses.entries() + last);
        lemma_extended_append(held_by(*registry), filters.responses.entries(), last);
    }
    match register_openai_responses_filters(registry, filters.responses) {
        Err(e) => {
            return Err(e);
        },
        Ok(()) => {},
    }
    let mut entries: Vec<FilterEntry> = Vec::new();
    entries.push(standard("openai_conversations", filters.openai_conversations));
    assert(entry_views(entries@) =~= last);
    register_entries(registry, entries)
}

/// All filters for AI, each by what makes it.
pub struct AiFilters {
    /// Filters for agent protocols.
    pub agentic: AgenticFilters,
    /// Filters that suit any API.
    pub general: GeneralAiFilters,
    /// Filters for the Anthropic API.
    pub anthropic: AnthropicFilters,
    /// Filters for the OpenAI API.
    pub openai: OpenaiFilters,
    /// Filters for routing between gateways.
    pub grid: GridFilters,
}

impl AiFilters {
    /// The filters, in the order in which they are registered.
    pub open spec fn entries(self) -> Seq<EntryView> {
        self.agentic.entries() + self.general.entries() + self.anthropic.entries()
            + self.openai.entries() + self.grid.entries()
    }
}

/// Register all filters for AI.
fn register_ai_filters(
    registry: &mut FilterRegistry,
    filters: AiFilters,
) -> (r: Result<(), DuplicateFilter>)
    ensures
        registers(r, *old(registry), *final(registry), filters.entries()),
{
    let ghost before = held_by(*registry);
    let ghost one = filters.agentic.entries();
    let ghost two = one + filters.general.entries();
    let ghost three = two + filters.anthropic.entries();
    let ghost four = three + filters.openai.entries();
    proof {
        lemma_extended_append(before, one, filters.general.entries());
        lemma_extended_append(before, two, filters.anthropic.entries());
        lemma_extended_append(before, three, filters.openai.entries());
        lemma_extended_append(before, four, filters.grid.entries());
    }
    match register_agentic_filters(registry, filters.agentic) {
        Err(e) => {
            return Err(e);
        },
        Ok(()) => {},
    }
    match register_general_ai_filters(registry, filters.general) {
        Err(e) => {
            return Err(e);
        },
        Ok(()) => {},
    }
    match register_anthropic_filters(registry, filters.anthropic) {
        Err(e) => {
            return Err(e);
        },
        Ok(()) => {},
    }
    match register_openai_filters(registry, filters.openai) {
        Err(e) => {
            return Err(e);
        },
        Ok(()) => {},
    }
    register_grid_filters(registry, filters.grid)
}

/// The names of the filters for AI.
pub open spec fn ai_names() -> Seq<Seq<char>> {
    seq![
        "a2a"@,
        "mcp"@,
        "ai_guardrails"@,
        "model_to_header"@,
        "prompt_enrich"@,
        "token_count"@,
        "token_usage_headers"@,
        "anthropic_messages_format"@,
        "anthropic_messages_protocol"@,
        "anthropic_stream_events"@,
        "anthropic_to_openai"@,
        "anthropic_validate"@,
        "openai_doc_extract"@,
        "openai_file_resolve"@,
        "openai_responses_format"@,
        "openai_responses_model_rewrite"@,
        "openai_responses_validate"@,
        "openai_responses_rehydrate"@,
        "openai_response_store"@,
        "openai_stream_events"@,
        "openai_responses_proxy"@,
        "openai_mcp_tool_resolve"@,
        "openai_tool_parse"@,
        "openai_web_search"@,
        "openai_mcp_dispatch"@,
        "openai_conversations"@,
        "grid_route"@,
        "grid_provider_route"@,
        "grid_credential_inject"@,
    ]
}

/// What tells the names of the filters for AI apart: their lengths, first
/// letters and eighth letters.
spec fn mark(name: Seq<char>) -> (nat, char, char) {
    (
        name.len(),
        name[0],
        if name.len() > 7 {
            name[7]
        } else {
            ' '
        },
    )
}

/// No two filters for AI go by the same name.
#[verifier::spinoff_prover]
pub proof fn law_ai_names_are_distinct()
    ensures
        ai_names().no_duplicates(),
{
    reveal_strlit("a2a");
    reveal_strlit("mcp");
    reveal_strlit("ai_guardrails");
    reveal_strlit("model_to_header");
    reveal_strlit("prompt_enrich");
    reveal_strlit("token_count");
    reveal_strlit("token_usage_headers");
    reveal_strlit("anthropic_messages_format");
    reveal_strlit("anthropic_messages_protocol");
    reveal_strlit("anthropic_stream_events");
    reveal_strlit("anthropic_to_openai");
    reveal_strlit("anthropic_validate");
    reveal_strlit("openai_doc_extract");
    reveal_strlit("openai_file_resolve");
    reveal_strlit("openai_responses_format");
    reveal_strlit("openai_responses_model_rewrite");
    reveal_strlit("openai_responses_validate");
    reveal_strlit("openai_responses_rehydrate");
    reveal_strlit("openai_response_store");
    reveal_strlit("openai_stream_events");
    reveal_strlit("openai_responses_proxy");
    reveal_strlit("openai_mcp_tool_resolve");
    reveal_strlit("openai_tool_parse");
    reveal_strlit("openai_web_search");
    reveal_strlit("openai_mcp_dispatch");
    reveal_strlit("openai_conversations");
    reveal_strlit("grid_route");
    reveal_strlit("grid_provider_route");
    reveal_strlit("grid_credential_inject");
    let names = ai_names();
    assert(mark(names[0]) == (3nat, 'a', ' '));
    assert(mark(names[1]) == (3nat, 'm', ' '));
    assert(mark(names[2]) == (13nat, 'a', 'd'));
    assert(mark(names[3]) == (15nat, 'm', 'o'));
    assert(mark(names[4]) == (13nat, 'p', 'e'));
    assert(mark(names[5]) == (11nat, 't', 'o'));
    assert(mark(names[6]) == (19nat, 't', 's'));
    assert(mark(names[7]) == (25nat, 'a', 'i'));
    assert(mark(names[8]) == (27nat, 'a', 'i'));
    assert(mark(names[9]) == (23nat, 'a', 'i'));
    assert(mark(names[10]) == (19nat, 'a', 'i'));
    assert(mark(names[11]) == (18nat, 'a', 'i'));
    assert(mark(names[12]) == (18nat, 'o', 'd'));
    assert(mark(names[13]) == (19nat, 'o', 'f'));
    assert(mark(names[14]) == (23nat, 'o', 'r'));
    assert(mark(names[15]) == (30nat, 'o', 'r'));
    assert(mark(names[16]) == (25nat, 'o', 'r'));
    assert(mark(names[17]) == (26nat, 'o', 'r'));
    assert(mark(names[18]) == (21nat, 'o', 'r'));
    assert(mark(names[19]) == (20nat, 'o', 's'));
    assert(mark(names[20]) == (22nat, 'o', 'r'));
    assert(mark(names[21]) == (23nat, 'o', 'm'));
    assert(mark(names[22]) == (17nat, 'o', 't'));
    assert(mark(names[23]) == (17nat, 'o', 'w'));
    assert(mark(names[24]) == (19nat, 'o', 'm'));
    assert(mark(names[25]) == (20nat, 'o', 'c'));
    assert(mark(names[26]) == (10nat, 'g', 'u'));
    assert(mark(names[27]) == (19nat, 'g', 'o'));
    assert(mark(names[28]) == (22nat, 'g', 'e'));
}

/// Whether a name begins like that of a filter for AI.
spec fn has_ai_head(name: Seq<char>) -> bool {
    ||| name[0] == 'a' && name[1] == '2' && name[2] == 'a'
    ||| name[0] == 'a' && name[1] == 'i' && name[2] == '_'
    ||| name[0] == 'a' && name[1] == 'n' && name[2] == 't'
    ||| name[0] == 'g' && name[1] == 'r' && name[2] == 'i'
    ||| name[0] == 'm' && name[1] == 'c' && name[2] == 'p'
    ||| name[0] == 'm' && name[1] == 'o' && name[2] == 'd'
    ||| name[0] == 'o' && name[1] == 'p' && name[2] == 'e'
    ||| name[0] == 'p' && name[1] == 'r' && name[2] == 'o'
    ||| name[0] == 't' && name[1] == 'o' && name[2] == 'k'
}

/// The names of the filters for AI begin like such names.
#[verifier::spinoff_prover]
proof fn lemma_ai_heads()
    ensures
        forall|i: int|
            0 <= i < ai_names().len() ==> has_ai_head(#[trigger] ai_names()[i]),
{
    reveal_strlit("a2a");
    reveal_strlit("mcp");
    reveal_strlit("ai_guardrails");
    reveal_strlit("model_to_header");
    reveal_strlit("prompt_enrich");
    reveal_strlit("token_count");
    reveal_strlit("token_usage_headers");
    reveal_strlit("anthropic_messages_format");
    reveal_strlit("anthropic_messages_protocol");
    reveal_strlit("anthropic_stream_events");
    reveal_strlit("anthropic_to_openai");
    reveal_strlit("anthropic_validate");
    reveal_strlit("openai_doc_extract");
    reveal_strlit("openai_file_resolve");
    reveal_strlit("openai_responses_format");
    reveal_strlit("openai_responses_model_rewrite");
    reveal_strlit("openai_responses_validate");
    reveal_strlit("openai_responses_rehydrate");
    reveal_strlit("openai_response_store");
    reveal_strlit("openai_stream_events");
    reveal_strlit("openai_responses_proxy");
    reveal_strlit("openai_mcp_tool_resolve");
    reveal_strlit("openai_tool_parse");
    reveal_strlit("openai_web_search");
    reveal_strlit("openai_mcp_dispatch");
    reveal_strlit("openai_conversations");
    reveal_strlit("grid_route");
    reveal_strlit("grid_provider_route");
    reveal_strlit("grid_credential_inject");
}

/// The names of the core filters do not.
#[verifier::spinoff_prover]
proof fn lemma_core_heads()
    ensures
        forall|i: int|
            0 <= i < core_builtins().len() ==> !has_ai_head((#[trigger] core_builtins()[i]).0),
{
    reveal_strlit("access_log");
    reveal_strlit("circuit_breaker");
    reveal_strlit("compression");
    reveal_strlit("cors");
    reveal_strlit("csrf");
    reveal_strlit("credential_injection");
    reveal_strlit("endpoint_selector");
    reveal_strlit("head_classifier");
    reveal_strlit("headers");
    reveal_strlit("forwarded_headers");
    reveal_strlit("grpc_detection");
    reveal_strlit("grpc_status");
    reveal_strlit("grpc_timeout");
    reveal_strlit("grpc_web");
    reveal_strlit("guardrails");
    reveal_strlit("ip_acl");
    reveal_strlit("load_balancer");
    reveal_strlit("path_rewrite");
    reveal_strlit("rate_limit");
    reveal_strlit("redirect");
    reveal_strlit("request_id");
    reveal_strlit("router");
    reveal_strlit("static_response");
    reveal_strlit("sticky_sessions");
    reveal_strlit("timeout");
    reveal_strlit("trace_context");
    reveal_strlit("url_rewrite");
    reveal_strlit("json_body");
    reveal_strlit("json_body_field");
    reveal_strlit("json_rpc");
    reveal_strlit("sni_router");
    reveal_strlit("tcp_access_log");
    reveal_strlit("tcp_load_balancer");
    reveal_strlit("peer_identity_trust");
}

/// The names of the optional filters do not.
#[verifier::spinoff_prover]
proof fn lemma_optional_heads()
    ensures
        forall|i: int|
            0 <= i < optional_builtins().len() ==> !has_ai_head((#[trigger] optional_builtins()[i]).0),
{
    reveal_strlit("basic_auth");
    reveal_strlit("cloud_events");
    reveal_strlit("policy");
    reveal_strlit("iterative_request_router");
}

/// No built-in filter goes by the name of one of the filters for AI.
pub proof fn law_builtins_leave_ai_names_free(name: Seq<char>)
    requires
        is_builtin_name(name),
    ensures
        !ai_names().contains(name),
{
    lemma_ai_heads();
    lemma_core_heads();
    lemma_optional_heads();
    let i = choose|i: int|
        0 <= i < all_builtins().len() && (#[trigger] all_builtins()[i]).0 == name;
    if i < core_builtins().len() {
        assert(core_builtins()[i].0 == name);
    } else {
        assert(optional_builtins()[i - core_builtins().len()].0 == name);
    }
}

/// Whether a list of filters can be registered after `before`: no name is taken
/// and none is used twice.
pub open spec fn can_follow(before: RegistryView, entries: Seq<EntryView>) -> bool {
    &&& forall|i: int| 0 <= i < entries.len() ==> !before.has((#[trigger] entries[i]).name)
    &&& forall|i: int, j: int|
        0 <= i < j < entries.len() ==> (#[trigger] entries[i]).name != (#[trigger] entries[j]).name
}

/// A list can be registered exactly when no name is taken and none is used
/// twice. Then every filter of it is found under its name, and whatever was
/// there before stays.
pub proof fn law_registering_adds_exactly_the_list(before: RegistryView, entries: Seq<EntryView>)
    ensures
        extended(before, entries) is Ok <==> can_follow(before, entries),
        extended(before, entries) matches Ok(all) ==> {
            &&& forall|name: Seq<char>|
                #![trigger all.has(name)]
                all.has(name) <==> before.has(name) || exists|i: int|
                    0 <= i < entries.len() && (#[trigger] entries[i]).name == name
            &&& forall|i: int|
                0 <= i < entries.len() ==> all.has((#[trigger] entries[i]).name)
                    && all.classes[entries[i].name] == entries[i].security
                    && all.factories[entries[i].name] == entries[i].factory
            &&& forall|name: Seq<char>|
                #![trigger before.has(name)]
                before.has(name) ==> all.classes[name] == before.classes[name]
                    && all.factories[name] == before.factories[name]
        },
    decreases entries.len(),
{
    if entries.len() > 0 {
        let front = entries.drop_last();
        let last = entries.len() - 1;
        law_registering_adds_exactly_the_list(before, front);
        assert forall|i: int| 0 <= i < last implies front[i] == entries[i] by {}
        if can_follow(before, entries) {
            assert forall|i: int| 0 <= i < front.len() implies !before.has(
                (#[trigger] front[i]).name,
            ) by {
                assert(!before.has(entries[i].name));
            }
            assert forall|i: int, j: int| 0 <= i < j < front.len() implies (
            #[trigger] front[i]).name != (#[trigger] front[j]).name by {
                assert(entries[i].name != entries[j].name);
            }
            assert(can_follow(before, front));
            assert(!before.has(entries[last].name));
        }
        if extended(before, front) is Ok {
            let middle = extended(before, front)->Ok_0;
            assert(middle.has(entries[last].name) <==> before.has(entries[last].name)
                || exists|i: int|
                0 <= i < front.len() && (#[trigger] front[i]).name == entries[last].name);
            if extended(before, entries) is Ok {
                let all = extended(before, entries)->Ok_0;
                assert forall|i: int| 0 <= i < entries.len() implies !before.has(
                    (#[trigger] entries[i]).name,
                ) by {
                    if i < last {
                        assert(!before.has(front[i].name));
                    }
                }
                assert forall|i: int, j: int| 0 <= i < j < entries.len() implies (
                #[trigger] entries[i]).name != (#[trigger] entries[j]).name by {
                    assert(front[i].name == entries[i].name);
                    if j < last {
                        assert(front[i].name != front[j].name);
                    }
                }
                assert forall|name: Seq<char>|
                    #![trigger all.has(name)]
                    all.has(name) <==> before.has(name) || exists|i: int|
                        0 <= i < entries.len() && (#[trigger] entries[i]).name == name by {
                    assert(all.has(name) <==> middle.has(name) || name == entries[last].name);
                    if exists|i: int| 0 <= i < front.len() && (#[trigger] front[i]).name == name {
                        let i = choose|i: int|
                            0 <= i < front.len() && (#[trigger] front[i]).name == name;
                        assert(entries[i].name == name);
                    }
                    if exists|i: int| 0 <= i < entries.len() && (#[trigger] entries[i]).name
                        == name {
                        let i = choose|i: int|
                            0 <= i < entries.len() && (#[trigger] entries[i]).name == name;
                        if i < last {
                            assert(front[i].name == name);
                        }
                    }
                }
                assert forall|i: int| 0 <= i < entries.len() implies all.has(
                    (#[trigger] entries[i]).name,
                ) && all.classes[entries[i].name] == entries[i].security
                    && all.factories[entries[i].name] == entries[i].factory by {
                    if i < last {
                        assert(middle.has(front[i].name));
                    }
                }
            } else {
                assert(middle.has(entries[last].name));
                if !before.has(entries[last].name) {
                    let i = choose|i: int|
                        0 <= i < front.len() && (#[trigger] front[i]).name == entries[last].name;
                    assert(entries[i].name == entries[last].name);
                }
            }
        }
    }
}

/// The filters for AI go by exactly their names, so that any registry in which
/// none of these is taken can take them all.
pub proof fn law_ai_filters_fit_any_free_registry(before: RegistryView, filters: AiFilters)
    requires
        forall|i: int| 0 <= i < ai_names().len() ==> !before.has(#[trigger] ai_names()[i]),
    ensures
        extended(before, filters.entries()) is Ok,
{
    lemma_ai_entries(filters);
    law_ai_names_are_distinct();
    let entries = filters.entries();
    assert forall|i: int| 0 <= i < entries.len() implies !before.has(
        (#[trigger] entries[i]).name,
    ) by {
        assert(entries[i].name == ai_names()[i]);
    }
    assert forall|i: int, j: int| 0 <= i < j < entries.len() implies (#[trigger] entries[i]).name
        != (#[trigger] entries[j]).name by {
        assert(entries[i].name == ai_names()[i]);
        assert(entries[j].name == ai_names()[j]);
    }
    law_registering_adds_exactly_the_list(before, entries);
}

/// The entries of the filters for AI bear their names, in order.
#[verifier::spinoff_prover]
proof fn lemma_ai_entries(filters: AiFilters)
    ensures
        filters.entries().len() == ai_names().len(),
        forall|i: int|
            0 <= i < ai_names().len() ==> (#[trigger] filters.entries()[i]).name == ai_names()[i],
{
    assert(filters.entries().map_values(|entry: EntryView| entry.name) =~= ai_names());
    assert forall|i: int| 0 <= i < ai_names().len() implies (
    #[trigger] filters.entries()[i]).name == ai_names()[i] by {
        assert(filters.entries().map_values(|entry: EntryView| entry.name)[i] == ai_names()[i]);
    }
}

/// Register filters from elsewhere.
fn register_external_filters(registry: &mut FilterRegistry, external: Vec<FilterEntry>) -> (r:
    Result<(), DuplicateFilter>)
    ensures
        registers(r, *old(registry), *final(registry), entry_views(external@)),
{
    register_entries(registry, external)
}

/// `registry` with the filters for AI and those from elsewhere. Fails on the
/// first name that is taken when its turn comes.
pub fn extend_registry(
    registry: FilterRegistry,
    filters: AiFilters,
    external: Vec<FilterEntry>,
) -> (r: Result<FilterRegistry, DuplicateFilter>)
    ensures
        match extended(held_by(registry), filters.entries() + entry_views(external@)) {
            Ok(all) => r matches Ok(full) && held_by(full) == all,
            Err(name) => r matches Err(e) && e.name@ == name,
        },
{
    proof {
        lemma_extended_append(held_by(registry), filters.entries(), entry_views(external@));
    }
    let mut full = registry;
    match register_ai_filters(&mut full, filters) {
        Err(e) => {
            return Err(e);
        },
        Ok(()) => {},
    }
    match register_external_filters(&mut full, external) {
        Err(e) => Err(e),
        Ok(()) => Ok(full),
    }
}

/// Whether filters from elsewhere get neither in each other's way nor in that of
/// any filter that may be there already.
pub open spec fn all_free(external: Seq<EntryView>) -> bool {
    &&& forall|i: int|
        0 <= i < external.len() ==> !ai_names().contains((#[trigger] external[i]).name)
            && !is_builtin_name(external[i].name)
    &&& forall|i: int, j: int|
        0 <= i < j < external.len() ==> (#[trigger] external[i]).name != (
        #[trigger] external[j]).name
}

/// A registry of the built-in filters, the filters for AI and those from
/// elsewhere. Fails on the first name from elsewhere that is taken when its turn
/// comes.
///
/// Which of the optional built-in filters are there depends on the build: the
/// contract holds for each choice of them, and is decided by the arguments unless
/// a filter from elsewhere goes by the name of an optional one.
pub fn build_full_registry(filters: AiFilters, external: Vec<FilterEntry>) -> (r: Result<
    FilterRegistry,
    DuplicateFilter,
>)
    ensures
        exists|builtins: RegistryView| #[trigger]
            holds_builtins(builtins) && match extended(
                builtins,
                filters.entries() + entry_views(external@),
            ) {
                Ok(all) => r matches Ok(full) && held_by(full) == all,
                Err(name) => r matches Err(e) && e.name@ == name,
            },
        all_free(entry_views(external@)) ==> r is Ok,
        r matches Ok(full) ==> {
            let entries = filters.entries() + entry_views(external@);
            &&& forall|i: int|
                0 <= i < core_builtins().len() ==> held_by(full).has(
                    (#[trigger] core_builtins()[i]).0,
                ) && held_by(full).classes[core_builtins()[i].0] == core_builtins()[i].1
            &&& forall|i: int|
                0 <= i < entries.len() ==> held_by(full).has((#[trigger] entries[i]).name)
                    && held_by(full).classes[entries[i].name] == entries[i].security
                    && held_by(full).factories[entries[i].name] == entries[i].factory
            &&& forall|name: Seq<char>| #[trigger]
                held_by(full).has(name) ==> is_builtin_name(name) || exists|i: int|
                    0 <= i < entries.len() && (#[trigger] entries[i]).name == name
        },
        r matches Err(e) ==> exists|i: int|
            0 <= i < external@.len() && (#[trigger] external@[i])@.name == e.name@,
        (exists|i: int, j: int|
            0 <= i < external@.len() && 0 <= j < ai_names().len() && (
            #[trigger] external@[i])@.name == #[trigger] ai_names()[j]) ==> r is Err,
        (exists|i: int, j: int|
            0 <= i < external@.len() && 0 <= j < core_builtins().len() && (
            #[trigger] external@[i])@.name == (#[trigger] core_builtins()[j]).0) ==> r is Err,
        (exists|i: int, j: int|
            0 <= i < j < external@.len() && (#[trigger] external@[i])@.name == (
            #[trigger] external@[j])@.name) ==> r is Err,
{
    let builtins = with_builtins();
    proof {
        assert forall|name: Seq<char>| #[trigger] held_by(builtins).has(name) implies all_builtins(
        ).contains((name, held_by(builtins).classes[name])) by {
            assert(registered_classes(builtins).dom().contains(name));
        }
        assert forall|i: int| 0 <= i < core_builtins().len() implies held_by(builtins).has(
            (#[trigger] core_builtins()[i]).0,
        ) && held_by(builtins).classes[core_builtins()[i].0] == core_builtins()[i].1 by {}
        assert(holds_builtins(held_by(builtins)));
        lemma_full_registry(held_by(builtins), filters, entry_views(external@));
        assert forall|i: int| 0 <= i < external@.len() implies entry_views(external@)[i] == (
        #[trigger] external@[i])@ by {}
    }
    extend_registry(builtins, filters, external)
}

/// What becomes of registering the filters for AI and those from elsewhere after
/// the built-in ones.
proof fn lemma_full_registry(before: RegistryView, filters: AiFilters, others: Seq<EntryView>)
    requires
        holds_builtins(before),
    ensures
        all_free(others) ==> extended(before, filters.entries() + others) is Ok,
        extended(before, filters.entries() + others) matches Ok(all) ==> {
            let entries = filters.entries() + others;
            &&& forall|i: int|
                0 <= i < core_builtins().len() ==> all.has((#[trigger] core_builtins()[i]).0)
                    && all.classes[core_builtins()[i].0] == core_builtins()[i].1
            &&& forall|i: int|
                0 <= i < entries.len() ==> all.has((#[trigger] entries[i]).name)
                    && all.classes[entries[i].name] == entries[i].security
                    && all.factories[entries[i].name] == entries[i].factory
            &&& forall|name: Seq<char>| #[trigger]
                all.has(name) ==> is_builtin_name(name) || exists|i: int|
                    0 <= i < entries.len() && (#[trigger] entries[i]).name == name
        },
        extended(before, filters.entries() + others) matches Err(name) ==> exists|i: int|
            0 <= i < others.len() && (#[trigger] others[i]).name == name,
        forall|i: int, j: int|
            0 <= i < others.len() && 0 <= j < ai_names().len() && (#[trigger] others[i]).name
                == #[trigger] ai_names()[j] ==> extended(before, filters.entries() + others) is Err,
        forall|i: int, j: int|
            0 <= i < others.len() && 0 <= j < core_builtins().len() && (#[trigger] others[i]).name
                == (#[trigger] core_builtins()[j]).0 ==> extended(
                before,
                filters.entries() + others,
            ) is Err,
        forall|i: int, j: int|
            0 <= i < j < others.len() && (#[trigger] others[i]).name == (#[trigger] others[j]).name
                ==> extended(before, filters.entries() + others) is Err,
{
    assert forall|name: Seq<char>| #[trigger] before.has(name) implies is_builtin_name(name) by {
        lemma_held_is_builtin(before, name);
    }
    assert forall|i: int| 0 <= i < ai_names().len() implies !before.has(
        #[trigger] ai_names()[i],
    ) by {
        if before.has(ai_names()[i]) {
            law_builtins_leave_ai_names_free(ai_names()[i]);
        }
    }
    law_ai_filters_fit_any_free_registry(before, filters);
    lemma_ai_entries(filters);
    lemma_second_list(before, filters.entries(), ai_names(), core_builtins(), others);
}

/// What is held where only built-in filters are held may be built in.
proof fn lemma_held_is_builtin(registry: RegistryView, name: Seq<char>)
    requires
        holds_builtins(registry),
        registry.has(name),
    ensures
        is_builtin_name(name),
{
    let pair = (name, registry.classes[name]);
    assert(all_builtins().contains(pair));
    let i = choose|i: int| 0 <= i < all_builtins().len() && all_builtins()[i] == pair;
    assert(all_builtins()[i].0 == name);
}

/// What becomes of registering a second list after one that fits, whose names
/// are `names`, where the filters of `core` are held already.
proof fn lemma_second_list(
    before: RegistryView,
    first: Seq<EntryView>,
    names: Seq<Seq<char>>,
    core: Seq<(Seq<char>, bool)>,
    second: Seq<EntryView>,
)
    requires
        extended(before, first) is Ok,
        first.len() == names.len(),
        forall|i: int| 0 <= i < names.len() ==> (#[trigger] first[i]).name == names[i],
        forall|i: int|
            0 <= i < core.len() ==> before.has((#[trigger] core[i]).0) && before.classes[core[i].0]
                == core[i].1,
    ensures
        (forall|i: int|
            0 <= i < second.len() ==> !before.has((#[trigger] second[i]).name) && !names.contains(
                second[i].name,
            )) && (forall|i: int, j: int|
            0 <= i < j < second.len() ==> (#[trigger] second[i]).name != (
            #[trigger] second[j]).name) ==> extended(before, first + second) is Ok,
        extended(before, first + second) matches Ok(all) ==> {
            let entries = first + second;
            &&& forall|i: int|
                0 <= i < core.len() ==> all.has((#[trigger] core[i]).0) && all.classes[core[i].0]
                    == core[i].1
            &&& forall|i: int|
                0 <= i < entries.len() ==> all.has((#[trigger] entries[i]).name)
                    && all.classes[entries[i].name] == entries[i].security
                    && all.factories[entries[i].name] == entries[i].factory
            &&& forall|name: Seq<char>| #[trigger]
                all.has(name) ==> before.has(name) || exists|i: int|
                    0 <= i < entries.len() && (#[trigger] entries[i]).name == name
        },
        extended(before, first + second) matches Err(name) ==> exists|i: int|
            0 <= i < second.len() && (#[trigger] second[i]).name == name,
        forall|i: int, j: int|
            0 <= i < second.len() && 0 <= j < names.len() && (#[trigger] second[i]).name
                == #[trigger] names[j] ==> extended(before, first + second) is Err,
        forall|i: int, j: int|
            0 <= i < second.len() && 0 <= j < core.len() && (#[trigger] second[i]).name == (
            #[trigger] core[j]).0 ==> extended(before, first + second) is Err,
        forall|i: int, j: int|
            0 <= i < j < second.len() && (#[trigger] second[i]).name == (#[trigger] second[j]).name
                ==> extended(before, first + second) is Err,
{
    let entries = first + second;
    law_registering_adds_exactly_the_list(before, first);
    law_registering_adds_exactly_the_list(before, entries);
    lemma_extended_append(before, first, second);
    lemma_taken_name_is_listed(extended(before, first)->Ok_0, second);
    if (forall|i: int|
        0 <= i < second.len() ==> !before.has((#[trigger] second[i]).name) && !names.contains(
            second[i].name,
        )) && (forall|i: int, j: int|
        0 <= i < j < second.len() ==> (#[trigger] second[i]).name != (#[trigger] second[j]).name) {
        assert forall|i: int| 0 <= i < entries.len() implies !before.has(
            (#[trigger] entries[i]).name,
        ) by {
            if i < first.len() {
                assert(entries[i] == first[i]);
            } else {
                assert(entries[i] == second[i - first.len()]);
            }
        }
        assert forall|i: int, j: int| 0 <= i < j < entries.len() implies (
        #[trigger] entries[i]).name != (#[trigger] entries[j]).name by {
            if j < first.len() {
                assert(first[i].name != first[j].name);
            } else if i < first.len() {
                assert(names.contains(first[i].name)) by {
                    assert(names[i] == first[i].name);
                }
                assert(entries[j] == second[j - first.len()]);
            } else {
                assert(entries[i] == second[i - first.len()]);
                assert(entries[j] == second[j - first.len()]);
            }
        }
    }
    assert forall|i: int, j: int|
        0 <= i < second.len() && 0 <= j < names.len() && (#[trigger] second[i]).name
            == #[trigger] names[j] implies !can_follow(before, entries) by {
        assert(entries[j] == first[j]);
        assert(entries[j].name == entries[first.len() + i].name);
    }
    assert forall|i: int, j: int|
        0 <= i < second.len() && 0 <= j < core.len() && (#[trigger] second[i]).name == (
        #[trigger] core[j]).0 implies !can_follow(before, entries) by {
        assert(before.has(entries[first.len() + i].name));
    }
    assert forall|i: int, j: int|
        0 <= i < j < second.len() && (#[trigger] second[i]).name == (
        #[trigger] second[j]).name implies !can_follow(before, entries) by {
        assert(entries[first.len() + i].name == entries[first.len() + j].name);
    }
}

/// A name that is taken when its turn comes is one of the list.
proof fn lemma_taken_name_is_listed(before: RegistryView, entries: Seq<EntryView>)
    ensures
        extended(before, entries) matches Err(name) ==> exists|i: int|
            0 <= i < entries.len() && (#[trigger] entries[i]).name == name,
    decreases entries.len(),
{
    if entries.len() > 0 {
        let front = entries.drop_last();
        lemma_taken_name_is_listed(before, front);
        if extended(before, front) is Err {
            let name = extended(before, front)->Err_0;
            let i = choose|i: int| 0 <= i < front.len() && (#[trigger] front[i]).name == name;
            assert(entries[i].name == name);
        } else {
            assert(entries[entries.len() - 1].name == entries.last().name);
        }
    }
}

/// Each filter for AI is made by its own factory, and of all of them only those of
/// the provider's side of the grid are security-critical.
#[verifier::spinoff_prover]
pub proof fn law_filters_are_made_by_their_own_factories(before: RegistryView, filters: AiFilters)
    requires
        forall|i: int| 0 <= i < ai_names().len() ==> !before.has(#[trigger] ai_names()[i]),
    ensures
        extended(before, filters.entries()) matches Ok(all) && {
            &&& all.factories["a2a"@] == filters.agentic.a2a
            &&& all.factories["mcp"@] == filters.agentic.mcp
            &&& all.factories["ai_guardrails"@] == filters.general.ai_guardrails
            &&& all.factories["model_to_header"@] == filters.general.model_to_header
            &&& all.factories["prompt_enrich"@] == filters.general.prompt_enrich
            &&& all.factories["token_count"@] == filters.general.token_count
            &&& all.factories["token_usage_headers"@] == filters.general.token_usage_headers
            &&& all.factories["anthropic_messages_format"@] == filters.anthropic.anthropic_messages_format
            &&& all.factories["anthropic_messages_protocol"@] == filters.anthropic.anthropic_messages_protocol
            &&& all.factories["anthropic_stream_events"@] == filters.anthropic.anthropic_stream_events
            &&& all.factories["anthropic_to_openai"@] == filters.anthropic.anthropic_to_openai
            &&& all.factories["anthropic_validate"@] == filters.anthropic.anthropic_validate
            &&& all.factories["openai_doc_extract"@] == filters.openai.responses.openai_doc_extract
            &&& all.factories["openai_file_resolve"@] == filters.openai.responses.openai_file_resolve
            &&& all.factories["openai_responses_format"@] == filters.openai.responses.openai_responses_format
            &&& all.factories["openai_responses_model_rewrite"@] == filters.openai.responses.openai_responses_model_rewrite
            &&& all.factories["openai_responses_validate"@] == filters.openai.responses.openai_responses_validate
            &&& all.factories["openai_responses_rehydrate"@] == filters.openai.responses.openai_responses_rehydrate
            &&& all.factories["openai_response_store"@] == filters.openai.responses.answers.openai_response_store
            &&& all.factories["openai_stream_events"@] == filters.openai.responses.answers.openai_stream_events
            &&& all.factories["openai_responses_proxy"@] == filters.openai.responses.answers.openai_responses_proxy
            &&& all.factories["openai_mcp_tool_resolve"@] == filters.openai.responses.answers.openai_mcp_tool_resolve
            &&& all.factories["openai_tool_parse"@] == filters.openai.responses.answers.openai_tool_parse
            &&& all.factories["openai_web_search"@] == filters.openai.responses.answers.openai_web_search
            &&& all.factories["openai_mcp_dispatch"@] == filters.openai.responses.answers.openai_mcp_dispatch
            &&& all.factories["openai_conversations"@] == filters.openai.openai_conversations
            &&& all.factories["grid_route"@] == filters.grid.grid_route
            &&& all.factories["grid_provider_route"@] == filters.grid.grid_provider_route
            &&& all.factories["grid_credential_inject"@] == filters.grid.grid_credential_inject
            &&& forall|i: int|
                0 <= i < ai_names().len() ==> {
                    let name = #[trigger] ai_names()[i];
                    &&& all.classes.dom().contains(name)
                    &&& all.factories.dom().contains(name)
                    &&& all.classes[name] <==> name == "grid_provider_route"@ || name
                        == "grid_credential_inject"@
                }
        },
{
    law_ai_filters_fit_any_free_registry(before, filters);
    let entries = filters.entries();
    let all = extended(before, entries)->Ok_0;
    lemma_ai_entries(filters);
    law_ai_names_are_distinct();
    lemma_entries_are_held(before, entries);
    assert(entries[0].name == "a2a"@ && entries[0].factory == filters.agentic.a2a
        && entries[0].security == false);
    assert(entries[1].name == "mcp"@ && entries[1].factory == filters.agentic.mcp
        && entries[1].security == false);
    assert(entries[2].name == "ai_guardrails"@ && entries[2].factory == filters.general.ai_guardrails
        && entries[2].security == false);
    assert(entries[3].name == "model_to_header"@ && entries[3].factory == filters.general.model_to_header
        && entries[3].security == false);
    assert(entries[4].name == "prompt_enrich"@ && entries[4].factory == filters.general.prompt_enrich
        && entries[4].security == false);
    assert(entries[5].name == "token_count"@ && entries[5].factory == filters.general.token_count
        && entries[5].security == false);
    assert(entries[6].name == "token_usage_headers"@ && entries[6].factory == filters.general.token_usage_headers
        && entries[6].security == false);
    assert(entries[7].name == "anthropic_messages_format"@ && entries[7].factory == filters.anthropic.anthropic_messages_format
        && entries[7].security == false);
    assert(entries[8].name == "anthropic_messages_protocol"@ && entries[8].factory == filters.anthropic.anthropic_messages_protocol
        && entries[8].security == false);
    assert(entries[9].name == "anthropic_stream_events"@ && entries[9].factory == filters.anthropic.anthropic_stream_events
        && entries[9].security == false);
    assert(entries[10].name == "anthropic_to_openai"@ && entries[10].factory == filters.anthropic.anthropic_to_openai
        && entries[10].security == false);
    assert(entries[11].name == "anthropic_validate"@ && entries[11].factory == filters.anthropic.anthropic_validate
        && entries[11].security == false);
    assert(entries[12].name == "openai_doc_extract"@ && entries[12].factory == filters.openai.responses.openai_doc_extract
        && entries[12].security == false);
    assert(entries[13].name == "openai_file_resolve"@ && entries[13].factory == filters.openai.responses.openai_file_resolve
        && entries[13].security == false);
    assert(entries[14].name == "openai_responses_format"@ && entries[14].factory == filters.openai.responses.openai_responses_format
        && entries[14].security == false);
    assert(entries[15].name == "openai_responses_model_rewrite"@ && entries[15].factory == filters.openai.responses.openai_responses_model_rewrite
        && entries[15].security == false);
    assert(entries[16].name == "openai_responses_validate"@ && entries[16].factory == filters.openai.responses.openai_responses_validate
        && entries[16].security == false);
    assert(entries[17].name == "openai_responses_rehydrate"@ && entries[17].factory == filters.openai.responses.openai_responses_rehydrate
        && entries[17].security == false);
    assert(entries[18].name == "openai_response_store"@ && entries[18].factory == filters.openai.responses.answers.openai_response_store
        && entries[18].security == false);
    assert(entries[19].name == "openai_stream_events"@ && entries[19].factory == filters.openai.responses.answers.openai_stream_events
        && entries[19].security == false);
    assert(entries[20].name == "openai_responses_proxy"@ && entries[20].factory == filters.openai.responses.answers.openai_responses_proxy
        && entries[20].security == false);
    assert(entries[21].name == "openai_mcp_tool_resolve"@ && entries[21].factory == filters.openai.responses.answers.openai_mcp_tool_resolve
        && entries[21].security == false);
    assert(entries[22].name == "openai_tool_parse"@ && entries[22].factory == filters.openai.responses.answers.openai_tool_parse
        && entries[22].security == false);
    assert(entries[23].name == "openai_web_search"@ && entries[23].factory == filters.openai.responses.answers.openai_web_search
        && entries[23].security == false);
    assert(entries[24].name == "openai_mcp_dispatch"@ && entries[24].factory == filters.openai.responses.answers.openai_mcp_dispatch
        && entries[24].security == false);
    assert(entries[25].name == "openai_conversations"@ && entries[25].factory == filters.openai.openai_conversations
        && entries[25].security == false);
    assert(entries[26].name == "grid_route"@ && entries[26].factory == filters.grid.grid_route
        && entries[26].security == false);
    assert(entries[27].name == "grid_provider_route"@ && entries[27].factory == filters.grid.grid_provider_route
        && entries[27].security == true);
    assert(entries[28].name == "grid_credential_inject"@ && entries[28].factory == filters.grid.grid_credential_inject
        && entries[28].security == true);
    assert(ai_names()[27] == "grid_provider_route"@);
    assert(ai_names()[28] == "grid_credential_inject"@);
    assert forall|i: int| 0 <= i < ai_names().len() implies {
        let name = #[trigger] ai_names()[i];
        &&& all.classes.dom().contains(name)
        &&& all.factories.dom().contains(name)
        &&& all.classes[name] <==> name == "grid_provider_route"@ || name
            == "grid_credential_inject"@
    } by {
        assert(entries[i].name == ai_names()[i]);
        assert(entries[i].security <==> i == 27 || i == 28);
    }
}

/// Every filter of a list that was registered is held under its name.
proof fn lemma_entries_are_held(before: RegistryView, entries: Seq<EntryView>)
    requires
        extended(before, entries) is Ok,
    ensures
        ({
            let all = extended(before, entries)->Ok_0;
            forall|i: int|
                0 <= i < entries.len() ==> {
                    let name = (#[trigger] entries[i]).name;
                    &&& all.classes.dom().contains(name)
                    &&& all.factories.dom().contains(name)
                    &&& all.classes[name] == entries[i].security
                    &&& all.factories[name] == entries[i].factory
                }
        }),
    decreases entries.len(),
{
    law_registering_adds_exactly_the_list(before, entries);
    if entries.len() > 0 {
        let front = entries.drop_last();
        lemma_entries_are_held(before, front);
        assert forall|i: int| 0 <= i < front.len() implies front[i] == entries[i] by {}
        let all = extended(before, entries)->Ok_0;
        assert forall|i: int| 0 <= i < entries.len() implies {
            let name = (#[trigger] entries[i]).name;
            &&& all.classes.dom().contains(name)
            &&& all.factories.dom().contains(name)
            &&& all.classes[name] == entries[i].security
            &&& all.factories[name] == entries[i].factory
        } by {
            if i < front.len() {
                assert(front[i].name == entries[i].name);
            }
        }
    }
}

/// Registering stops at the first name that is taken, by the registry or by an
/// earlier filter of the list, and that name is reported.
pub proof fn law_the_first_taken_name_is_reported(
    before: RegistryView,
    entries: Seq<EntryView>,
    i: int,
)
    requires
        0 <= i < entries.len(),
        before.classes.dom().contains(entries[i].name) || exists|j: int|
            0 <= j < i && (#[trigger] entries[j]).name == entries[i].name,
        forall|k: int|
            0 <= k < i ==> !before.classes.dom().contains((#[trigger] entries[k]).name),
        forall|j: int, k: int|
            0 <= j < k < i ==> (#[trigger] entries[j]).name != (#[trigger] entries[k]).name,
    ensures
        extended(before, entries) == Err::<RegistryView, Seq<char>>(entries[i].name),
{
    let front = entries.take(i);
    assert forall|k: int| 0 <= k < front.len() implies !before.has((#[trigger] front[k]).name) by {
        assert(front[k] == entries[k]);
    }
    assert forall|j: int, k: int| 0 <= j < k < front.len() implies (#[trigger] front[j]).name != (
    #[trigger] front[k]).name by {
        assert(entries[j].name != entries[k].name);
    }
    law_registering_adds_exactly_the_list(before, front);
    let middle = extended(before, front)->Ok_0;
    let more = entries.take(i + 1);
    assert(more.drop_last() =~= front);
    assert(more.last() == entries[i]);
    assert(middle.has(entries[i].name)) by {
        if !before.has(entries[i].name) {
            let j = choose|j: int| 0 <= j < i && (#[trigger] entries[j]).name == entries[i].name;
            assert(front[j].name == entries[i].name);
        }
    }
    lemma_taken_in_prefix(before, entries, i + 1);
}

/// Entries are seen as they are, all of them and in their order.
pub proof fn law_entries_are_seen_as_they_are(entries: Seq<FilterEntry>, i: int)
    requires
        0 <= i < entries.len(),
    ensures
        entry_views(entries).len() == entries.len(),
        entry_views(entries)[i].name == entries[i].name@,
        entry_views(entries)[i].security == entries[i].security,
        entry_views(entries)[i].factory == entries[i].factory,
{
}

/// What is answered when a list is registered: all is well exactly when none of
/// its names is taken and none is used twice, and then each of its filters is
/// there. Otherwise the answer names one of them.
pub proof fn law_registering_is_answered(
    r: Result<(), DuplicateFilter>,
    before: FilterRegistry,
    after: FilterRegistry,
    entries: Seq<EntryView>,
)
    requires
        registers(r, before, after, entries),
    ensures
        r is Ok <==> {
            &&& forall|i: int|
                0 <= i < entries.len() ==> !held_by(before).classes.dom().contains(
                    (#[trigger] entries[i]).name,
                )
            &&& forall|i: int, j: int|
                0 <= i < j < entries.len() ==> (#[trigger] entries[i]).name != (
                #[trigger] entries[j]).name
        },
        r is Ok ==> forall|i: int|
            0 <= i < entries.len() ==> {
                let name = (#[trigger] entries[i]).name;
                &&& held_by(after).classes.dom().contains(name)
                &&& held_by(after).classes[name] == entries[i].security
                &&& held_by(after).factories[name] == entries[i].factory
            },
        r matches Err(e) ==> exists|i: int|
            0 <= i < entries.len() && (#[trigger] entries[i]).name == e.name@,
{
    law_registering_adds_exactly_the_list(held_by(before), entries);
    if r is Ok {
        lemma_entries_are_held(held_by(before), entries);
    } else {
        lemma_taken_name_is_listed(held_by(before), entries);
    }
}

} // verus!
