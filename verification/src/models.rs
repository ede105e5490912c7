//! The plain data of the proxy: configuration, shared state, cache entries,
//! responses and errors.

use axum::http::HeaderMap;
use vstd::prelude::*;

use crate::headers::{header_fields, Fields};
use crate::text::same_text;

verus! {

// Configuration

/// The configuration of the proxy.
#[derive(Clone, Debug)]
pub struct Args {
    /// Address and port to listen on.
    pub bind_addr: String,
    /// Base URL of the external API to proxy to.
    pub external_api_base: String,
    /// Max outbound requests per second.
    pub rate_limit_per_sec: u32,
    /// Burst capacity for rate limiting.
    pub rate_limit_burst: u32,
    /// Redis connection string; caching is enabled where one is given.
    pub redis_url: Option<String>,
    /// Cache time-to-live in seconds.
    pub cache_ttl_secs: usize,
    /// Cache the responses of all methods, idempotent or not.
    pub skip_idempotency_check: bool,
    /// Hard timeout for the entire retry cycle in seconds.
    pub hard_timeout_secs: u64,
    /// Timeout for each upstream request in seconds.
    pub upstream_timeout_secs: u64,
    /// Maximum elapsed time for retries in seconds.
    pub max_elapsed_time_secs: u64,
    /// Initial backoff interval in milliseconds.
    pub initial_backoff_ms: u64,
    /// Max response size to buffer or cache in bytes. Larger responses are
    /// streamed; 0 disables streaming.
    pub max_body_size: u64,
    /// Proxy URL.
    pub proxy_url: Option<String>,
    /// Proxy username.
    pub proxy_username: Option<String>,
    /// Proxy password.
    pub proxy_password: Option<String>,
    /// Default headers as a JSON object of strings.
    pub default_headers: Option<String>,
}

/// The default listening address.
pub const DEFAULT_BIND_ADDR: &'static str = "0.0.0.0:8080";

/// The default number of outbound requests per second.
pub const DEFAULT_RATE_LIMIT_PER_SEC: u32 = 10;

/// The default burst capacity.
pub const DEFAULT_RATE_LIMIT_BURST: u32 = 1;

/// The default time-to-live of a cache entry in seconds.
pub const DEFAULT_CACHE_TTL_SECS: usize = 600;

/// The default hard timeout of a retry cycle in seconds.
pub const DEFAULT_HARD_TIMEOUT_SECS: u64 = 60;

/// The default timeout of one upstream request in seconds.
pub const DEFAULT_UPSTREAM_TIMEOUT_SECS: u64 = 30;

/// The default maximum elapsed time for retries in seconds.
pub const DEFAULT_MAX_ELAPSED_TIME_SECS: u64 = 30;

/// The default initial backoff interval in milliseconds.
pub const DEFAULT_INITIAL_BACKOFF_MS: u64 = 200;

/// The default size up to which a response is buffered, ten mebibytes.
pub const DEFAULT_MAX_BODY_SIZE: u64 = 10_485_760;

impl Args {
    /// The configuration for an upstream API with every setting at its default.
    pub fn for_upstream(external_api_base: String) -> (args: Args)
        ensures
            args.bind_addr@ == DEFAULT_BIND_ADDR@,
            args.external_api_base@ == external_api_base@,
            args.rate_limit_per_sec == DEFAULT_RATE_LIMIT_PER_SEC,
            args.rate_limit_burst == DEFAULT_RATE_LIMIT_BURST,
            args.redis_url is None,
            args.cache_ttl_secs == DEFAULT_CACHE_TTL_SECS,
            !args.skip_idempotency_check,
            args.hard_timeout_secs == DEFAULT_HARD_TIMEOUT_SECS,
            args.upstream_timeout_secs == DEFAULT_UPSTREAM_TIMEOUT_SECS,
            args.max_elapsed_time_secs == DEFAULT_MAX_ELAPSED_TIME_SECS,
            args.initial_backoff_ms == DEFAULT_INITIAL_BACKOFF_MS,
            args.max_body_size == DEFAULT_MAX_BODY_SIZE,
            args.proxy_url is None,
            args.proxy_username is None,
            args.proxy_password is None,
            args.default_headers is None,
    {
        Args {
            bind_addr: DEFAULT_BIND_ADDR.to_string(),
            external_api_base,
            rate_limit_per_sec: DEFAULT_RATE_LIMIT_PER_SEC,
            rate_limit_burst: DEFAULT_RATE_LIMIT_BURST,
            redis_url: None,
            cache_ttl_secs: DEFAULT_CACHE_TTL_SECS,
            skip_idempotency_check: false,
            hard_timeout_secs: DEFAULT_HARD_TIMEOUT_SECS,
            upstream_timeout_secs: DEFAULT_UPSTREAM_TIMEOUT_SECS,
            max_elapsed_time_secs: DEFAULT_MAX_ELAPSED_TIME_SECS,
            initial_backoff_ms: DEFAULT_INITIAL_BACKOFF_MS,
            max_body_size: DEFAULT_MAX_BODY_SIZE,
            proxy_url: None,
            proxy_username: None,
            proxy_password: None,
            default_headers: None,
        }
    }
}

// Shared state

/// What every request is handled with: the configuration and the headers that
/// are added to upstream requests.
pub struct AppState {
    pub cfg: Args,
    pub default_headers: HeaderMap,
}

// Header tables

/// A table of texts: each name with its values in order.
pub type TextTable = Map<Seq<char>, Seq<Seq<char>>>;

/// An entry of a header table: a name and its values.
#[derive(Debug)]
pub struct HeaderEntry {
    pub name: String,
    pub values: Vec<String>,
}

/// The texts of a list of strings.
pub open spec fn texts_of(strings: Seq<String>) -> Seq<Seq<char>> {
    strings.map_values(|s: String| s@)
}

impl View for HeaderEntry {
    type V = (Seq<char>, Seq<Seq<char>>);

    open spec fn view(&self) -> (Seq<char>, Seq<Seq<char>>) {
        (self.name@, texts_of(self.values@))
    }
}

/// The views of a list of entries.
pub open spec fn entry_views(entries: Seq<HeaderEntry>) -> Seq<(Seq<char>, Seq<Seq<char>>)> {
    entries.map_values(|entry: HeaderEntry| entry@)
}

/// No name occurs twice.
pub open spec fn distinct_names(entries: Seq<(Seq<char>, Seq<Seq<char>>)>) -> bool {
    forall|i: int, j: int|
        0 <= i < j < entries.len() ==> (#[trigger] entries[i]).0 != (#[trigger] entries[j]).0
}

/// The table that a list of entries stands for, a later entry in place of an
/// earlier one of the same name.
pub open spec fn table_of(entries: Seq<(Seq<char>, Seq<Seq<char>>)>) -> TextTable
    decreases entries.len(),
{
    if entries.len() == 0 {
        Map::empty()
    } else {
        table_of(entries.drop_last()).insert(entries.last().0, entries.last().1)
    }
}

/// A list of entries with distinct names holds, at each name, the values of the
/// entry with that name.
pub proof fn lemma_table_of_entries(entries: Seq<(Seq<char>, Seq<Seq<char>>)>)
    requires
        distinct_names(entries),
    ensures
        forall|i: int|
            #![trigger entries[i]]
            0 <= i < entries.len() ==> table_of(entries).contains_key(entries[i].0) && table_of(
                entries,
            )[entries[i].0] == entries[i].1,
        forall|n: Seq<char>| #[trigger]
            table_of(entries).contains_key(n) ==> exists|i: int|
                0 <= i < entries.len() && (#[trigger] entries[i]).0 == n,
    decreases entries.len(),
{
    if entries.len() > 0 {
        let front = entries.drop_last();
        assert forall|i: int, j: int| 0 <= i < j < front.len() implies (#[trigger] front[i]).0 != (
        #[trigger] front[j]).0 by {
            assert(front[i] == entries[i] && front[j] == entries[j]);
        }
        lemma_table_of_entries(front);
        assert forall|i: int| #![trigger entries[i]] 0 <= i < entries.len() implies table_of(
            entries,
        ).contains_key(entries[i].0) && table_of(entries)[entries[i].0] == entries[i].1 by {
            if i < front.len() {
                assert(front[i] == entries[i]);
                assert(entries[i].0 != entries[entries.len() - 1].0);
            }
        }
        assert forall|n: Seq<char>| #[trigger] table_of(entries).contains_key(n) implies exists|
            i: int,
        |
            0 <= i < entries.len() && (#[trigger] entries[i]).0 == n by {
            if n == entries.last().0 {
                assert(entries[entries.len() - 1].0 == n);
            } else {
                assert(table_of(front).contains_key(n));
                let i = choose|i: int| 0 <= i < front.len() && (#[trigger] front[i]).0 == n;
                assert(entries[i].0 == n);
            }
        }
    }
}

/// Replacing the values of one entry replaces the values of its name.
proof fn lemma_table_of_update(
    entries: Seq<(Seq<char>, Seq<Seq<char>>)>,
    k: int,
    values: Seq<Seq<char>>,
)
    requires
        distinct_names(entries),
        0 <= k < entries.len(),
    ensures
        distinct_names(entries.update(k, (entries[k].0, values))),
        table_of(entries.update(k, (entries[k].0, values))) == table_of(entries).insert(
            entries[k].0,
            values,
        ),
{
    let after = entries.update(k, (entries[k].0, values));
    assert forall|i: int, j: int| 0 <= i < j < after.len() implies (#[trigger] after[i]).0 != (
    #[trigger] after[j]).0 by {
        assert(after[i].0 == entries[i].0 && after[j].0 == entries[j].0);
        assert(entries[i].0 != entries[j].0);
    }
    lemma_table_of_entries(entries);
    lemma_table_of_entries(after);
    let left = table_of(after);
    let right = table_of(entries).insert(entries[k].0, values);
    assert forall|n: Seq<char>| left.contains_key(n) <==> right.contains_key(n) by {
        if left.contains_key(n) {
            let i = choose|i: int| 0 <= i < after.len() && (#[trigger] after[i]).0 == n;
            assert(entries[i].0 == n);
        }
        if right.contains_key(n) && n != entries[k].0 {
            let i = choose|i: int| 0 <= i < entries.len() && (#[trigger] entries[i]).0 == n;
            assert(after[i].0 == n);
        }
        assert(after[k].0 == entries[k].0);
    }
    assert forall|n: Seq<char>| left.contains_key(n) implies left[n] == right[n] by {
        let i = choose|i: int| 0 <= i < after.len() && (#[trigger] after[i]).0 == n;
        assert(entries[i].0 == n);
        if i == k {
            assert(after[k].1 == values);
        } else {
            assert(after[i] == entries[i]);
            if i < k {
                assert(entries[i].0 != entries[k].0);
            } else {
                assert(entries[k].0 != entries[i].0);
            }
        }
    }
    assert(left =~= right);
}

/// Header names with the texts of their values. A name has one entry; a lookup
/// compares names letter by letter.
#[derive(Debug)]
pub struct HeaderTable {
    entries: Vec<HeaderEntry>,
}

impl View for HeaderTable {
    type V = TextTable;

    open spec fn view(&self) -> TextTable {
        table_of(self.order())
    }
}

impl HeaderTable {
    /// The entries in the order in which the table lists them.
    pub closed spec fn order(&self) -> Seq<(Seq<char>, Seq<Seq<char>>)> {
        entry_views(self.entries@)
    }

    #[verifier::type_invariant]
    spec fn names_are_distinct(&self) -> bool {
        distinct_names(entry_views(self.entries@))
    }

    /// A table without entries.
    pub fn new() -> (table: HeaderTable)
        ensures
            table.order() == Seq::<(Seq<char>, Seq<Seq<char>>)>::empty(),
            table@ == Map::<Seq<char>, Seq<Seq<char>>>::empty(),
    {
        let table = HeaderTable { entries: Vec::new() };
        assert(table.order() =~= Seq::empty());
        table
    }

    /// The entries, each name once.
    pub fn entries(&self) -> (entries: &Vec<HeaderEntry>)
        ensures
            entry_views(entries@) == self.order(),
            distinct_names(self.order()),
    {
        proof {
            use_type_invariant(self);
        }
        &self.entries
    }

    /// Where a name stands in the table.
    fn position(&self, name: &str) -> (found: Option<usize>)
        ensures
            match found {
                Some(i) => i < self.entries@.len() && self.entries@[i as int].name@ == name@,
                None => !self@.contains_key(name@),
            },
    {
        proof {
            use_type_invariant(self);
            lemma_table_of_entries(self.order());
        }
        let ghost order = self.order();
        for i in 0..self.entries.len()
            invariant
                order == self.order(),
                forall|k: int| 0 <= k < i ==> (#[trigger] order[k]).0 != name@,
                order.len() == self.entries@.len(),
        {
            assert(order[i as int].0 == self.entries@[i as int].name@);
            if same_text(self.entries[i].name.as_str(), name) {
                return Some(i);
            }
        }
        None
    }

    /// The values of a name.
    pub fn get(&self, name: &str) -> (values: Option<&Vec<String>>)
        ensures
            match values {
                Some(list) => self@.contains_key(name@) && texts_of(list@) == self@[name@],
                None => !self@.contains_key(name@),
            },
    {
        proof {
            use_type_invariant(self);
            lemma_table_of_entries(self.order());
        }
        match self.position(name) {
            Some(i) => {
                assert(self.order()[i as int] == self.entries@[i as int]@);
                Some(&self.entries[i].values)
            },
            None => None,
        }
    }

    /// Gives a name these values, in place of those that it may have.
    pub fn insert(&mut self, name: String, values: Vec<String>)
        ensures
            final(self)@ == old(self)@.insert(name@, texts_of(values@)),
    {
        proof {
            use_type_invariant(&*self);
            lemma_table_of_entries(self.order());
        }
        let ghost before = self.order();
        let found = self.position(name.as_str());
        let mut entries: Vec<HeaderEntry> = Vec::new();
        std::mem::swap(&mut entries, &mut self.entries);
        match found {
            Some(i) => {
                let ghost texts = texts_of(values@);
                proof {
                    lemma_table_of_update(before, i as int, texts);
                    assert(before[i as int].0 == name@);
                }
                entries.set(i, HeaderEntry { name, values });
                assert(entry_views(entries@) =~= before.update(
                    i as int,
                    (before[i as int].0, texts),
                ));
            },
            None => {
                let ghost entry = (name@, texts_of(values@));
                entries.push(HeaderEntry { name, values });
                proof {
                    let after = entry_views(entries@);
                    assert(after =~= before.push(entry));
                    assert forall|i: int, j: int| 0 <= i < j < after.len() implies (
                    #[trigger] after[i]).0 != (#[trigger] after[j]).0 by {
                        assert(after[i] == before[i]);
                        if j < before.len() {
                            assert(after[j] == before[j]);
                        } else {
                            assert(table_of(before).contains_key(before[i].0));
                        }
                    }
                    assert(after.drop_last() =~= before);
                }
            },
        }
        self.entries = entries;
    }

    /// Puts a value behind the values that the name has.
    pub fn append(&mut self, name: String, value: String)
        ensures
            final(self)@ == old(self)@.insert(
                name@,
                (if old(self)@.contains_key(name@) {
                    old(self)@[name@]
                } else {
                    Seq::empty()
                }).push(value@),
            ),
    {
        let mut values: Vec<String> = match self.get(name.as_str()) {
            Some(list) => clone_strings(list),
            None => Vec::new(),
        };
        let ghost texts = texts_of(values@);
        assert(texts =~= (if self@.contains_key(name@) {
            self@[name@]
        } else {
            Seq::empty()
        }));
        values.push(value);
        assert(texts_of(values@) =~= texts.push(value@));
        self.insert(name, values);
    }
}

/// Copies a list of strings.
pub fn clone_strings(strings: &Vec<String>) -> (copy: Vec<String>)
    ensures
        texts_of(copy@) == texts_of(strings@),
{
    let mut copy: Vec<String> = Vec::new();
    for i in 0..strings.len()
        invariant
            copy@.len() == i,
            forall|k: int| 0 <= k < i ==> (#[trigger] copy@[k])@ == strings@[k]@,
    {
        copy.push(strings[i].clone());
    }
    assert(texts_of(copy@) =~= texts_of(strings@));
    copy
}

// Cache entries

/// A response as the cache holds it.
#[derive(Debug)]
pub struct CachedResponse {
    pub status: u16,
    pub headers: HeaderTable,
    /// The body in base64.
    pub body: String,
}

// Responses

/// The body of a response to the client.
pub enum ResponseBody {
    /// These bytes.
    Bytes(Vec<u8>),
    /// What the upstream response goes on to deliver.
    Upstream,
}

/// What a response delivers as its body.
pub enum BodyView {
    Bytes(Seq<u8>),
    Upstream,
}

impl View for ResponseBody {
    type V = BodyView;

    open spec fn view(&self) -> BodyView {
        match self {
            ResponseBody::Bytes(bytes) => BodyView::Bytes(bytes@),
            ResponseBody::Upstream => BodyView::Upstream,
        }
    }
}

/// A response to the client.
pub struct ProxyResponse {
    pub status: u16,
    pub headers: HeaderMap,
    pub body: ResponseBody,
}

impl ProxyResponse {
    /// The header fields of the response.
    pub open spec fn fields(&self) -> Fields {
        header_fields(self.headers)
    }
}

/// What a request is answered: a response, or an error status with a message.
pub type HandlerResult = Result<ProxyResponse, (u16, String)>;

// Errors

/// Why an upstream attempt did not succeed.
#[derive(Debug)]
pub enum UpstreamError {
    /// The request failed, with the reason.
    RequestFailed(String),
    /// The upstream answered with a status that counts as a failure.
    BadStatus(String),
}

impl UpstreamError {
    /// The text of the error.
    pub open spec fn text(&self) -> Seq<char> {
        match self {
            UpstreamError::RequestFailed(reason) => "Upstream request failed: "@ + reason@,
            UpstreamError::BadStatus(status) => "Upstream returned error status: "@ + status@,
        }
    }

    /// Renders the error.
    pub fn message(&self) -> (message: String)
        ensures
            message@ == self.text(),
    {
        match self {
            UpstreamError::RequestFailed(reason) => "Upstream request failed: ".to_string().concat(
                reason.as_str(),
            ),
            UpstreamError::BadStatus(status) => {
                "Upstream returned error status: ".to_string().concat(status.as_str())
            },
        }
    }
}

} // verus!
