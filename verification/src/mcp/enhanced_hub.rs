//! A hub of MCP servers, each with a pool of connections.
//!
//! Connections are made and used elsewhere; the hub keeps count of them,
//! chooses among them, and says what becomes of a server when one is made,
//! fails, or is lost.

use vstd::prelude::*;
use core::time::Duration;
use vstd::arithmetic::div_mod::{
    lemma_fundamental_div_mod, lemma_fundamental_div_mod_converse, lemma_mod_equivalence,
    lemma_small_mod,
};
use crate::error::{copy_error, error_text, internal2, AgentError, ErrorView};
use crate::mcp::types::{copy_tools, tool_views, McpServerConfig, McpToolInfo, ToolView};
use crate::text::{join, joined, same_text, texts};
use crate::time::whole_nanos;

verus! {

/// The state of the connection to a server.
#[derive(Debug, PartialEq)]
pub enum ConnectionState {
    Disconnected,
    Connecting,
    Connected,
    Failed(String),
    Unhealthy(String),
}

/// The mathematical value of a [`ConnectionState`].
pub enum StateView {
    Disconnected,
    Connecting,
    Connected,
    Failed(Seq<char>),
    Unhealthy(Seq<char>),
}

impl View for ConnectionState {
    type V = StateView;

    open spec fn view(&self) -> StateView {
        match *self {
            ConnectionState::Disconnected => StateView::Disconnected,
            ConnectionState::Connecting => StateView::Connecting,
            ConnectionState::Connected => StateView::Connected,
            ConnectionState::Failed(s) => StateView::Failed(s@),
            ConnectionState::Unhealthy(s) => StateView::Unhealthy(s@),
        }
    }
}

impl ConnectionState {
    /// A copy with the same value.
    pub fn copy(&self) -> (r: ConnectionState)
        ensures
            r == *self,
    {
        match self {
            ConnectionState::Disconnected => ConnectionState::Disconnected,
            ConnectionState::Connecting => ConnectionState::Connecting,
            ConnectionState::Connected => ConnectionState::Connected,
            ConnectionState::Failed(s) => ConnectionState::Failed(s.clone()),
            ConnectionState::Unhealthy(s) => ConnectionState::Unhealthy(s.clone()),
        }
    }
}

/// The most connections a server's pool holds.
pub const MAX_CONNECTIONS: usize = 5;

/// One server of the hub.
pub struct ServerEntry {
    pub config: McpServerConfig,
    /// How many connections there are.
    pub clients: usize,
    pub tools: Vec<McpToolInfo>,
    pub state: ConnectionState,
    /// Attempts to reconnect since the last success.
    pub reconnect_attempts: u32,
    /// Counts the choices among the connections.
    pub round_robin_idx: usize,
}

/// The mathematical value of a [`ServerEntry`].
pub struct EntryView {
    pub config: McpServerConfig,
    pub clients: usize,
    pub tools: Seq<ToolView>,
    pub state: StateView,
    pub attempts: u32,
    pub round_robin: usize,
}

impl View for ServerEntry {
    type V = EntryView;

    open spec fn view(&self) -> EntryView {
        EntryView {
            config: self.config,
            clients: self.clients,
            tools: tool_views(self.tools@),
            state: self.state@,
            attempts: self.reconnect_attempts,
            round_robin: self.round_robin_idx,
        }
    }
}

// ---------------------------------------------------------------------------
// One server
// ---------------------------------------------------------------------------

/// A server that nothing has been done with.
pub open spec fn fresh_entry(config: McpServerConfig) -> EntryView {
    EntryView {
        config,
        clients: 0,
        tools: Seq::empty(),
        state: StateView::Disconnected,
        attempts: 0,
        round_robin: 0,
    }
}

pub open spec fn pool_full() -> ErrorView {
    ErrorView::ResourceUnavailable("Maximum connections reached"@)
}

/// The outcome of an attempt, as a value.
pub open spec fn attempt_error(a: Result<(), AgentError>) -> Option<ErrorView> {
    match a {
        Ok(_) => None,
        Err(e) => Some(e@),
    }
}

/// Why a connection is not added, if it is not: the pool is full, or the
/// attempt failed.
pub open spec fn add_error(e: EntryView, attempt: Option<ErrorView>) -> Option<ErrorView> {
    if e.clients >= MAX_CONNECTIONS {
        Some(pool_full())
    } else {
        attempt
    }
}

/// The server after an attempt to add a connection.
pub open spec fn after_add(e: EntryView, attempt: Option<ErrorView>) -> EntryView {
    if add_error(e, attempt) is Some {
        e
    } else {
        EntryView { clients: (e.clients + 1) as usize, state: StateView::Connected, ..e }
    }
}

/// The server after its part in connecting all servers: a failure is kept as
/// its state.
pub open spec fn after_connect(e: EntryView, attempt: Option<ErrorView>) -> EntryView {
    match add_error(e, attempt) {
        Some(x) => EntryView { state: StateView::Failed(error_text(x)), ..e },
        None => after_add(e, attempt),
    }
}

/// Two to the power of `n`.
pub open spec fn doubled(n: nat) -> nat
    decreases n,
{
    if n == 0 {
        1
    } else {
        2 * doubled((n - 1) as nat)
    }
}

/// The wait before reconnecting for the `attempt`th time, in milliseconds: it
/// doubles each time, up to half a minute.
pub open spec fn backoff(attempt: nat) -> nat {
    let d = 1000 * doubled(
        if attempt < 5 {
            attempt
        } else {
            5
        },
    );
    if d < 30_000 {
        d
    } else {
        30_000
    }
}

/// The next value of a counter that starts anew once it is used up.
pub open spec fn counted(n: usize) -> usize {
    if n == usize::MAX {
        0
    } else {
        (n + 1) as usize
    }
}

/// A counter after `k` steps.
pub open spec fn counted_by(n: usize, k: nat) -> usize
    decreases k,
{
    if k == 0 {
        n
    } else {
        counted(counted_by(n, (k - 1) as nat))
    }
}

/// The connection whose turn it is.
pub open spec fn next_choice(e: EntryView) -> Option<usize> {
    if e.clients == 0 {
        None
    } else {
        Some((e.round_robin % e.clients) as usize)
    }
}

/// A server after a connection was chosen.
pub open spec fn after_choice(e: EntryView) -> EntryView {
    if e.clients == 0 {
        e
    } else {
        EntryView { round_robin: counted(e.round_robin), ..e }
    }
}

fn count(n: usize) -> (r: usize)
    ensures
        r == counted(n),
{
    if n == usize::MAX {
        0
    } else {
        n + 1
    }
}

impl ServerEntry {
    pub fn new(config: McpServerConfig) -> (r: Self)
        ensures
            r@ == fresh_entry(config),
    {
        let r = ServerEntry {
            config,
            clients: 0,
            tools: Vec::new(),
            state: ConnectionState::Disconnected,
            reconnect_attempts: 0,
            round_robin_idx: 0,
        };
        assert(r@.tools =~= Seq::empty());
        r
    }

    /// Chooses a connection: each in turn.
    pub fn get_available_client(&mut self) -> (r: Option<usize>)
        ensures
            r == next_choice(old(self)@),
            final(self)@ == after_choice(old(self)@),
    {
        let choice = self.next_client();
        if self.clients > 0 {
            self.round_robin_idx = count(self.round_robin_idx);
        }
        choice
    }

    /// The connection that is chosen next.
    pub fn next_client(&self) -> (r: Option<usize>)
        ensures
            r == next_choice(self@),
    {
        if self.clients == 0 {
            return None;
        }
        Some(self.round_robin_idx % self.clients)
    }

    /// Whether the pool has room for another connection.
    pub fn has_room(&self) -> (r: bool)
        ensures
            r == (self.clients < MAX_CONNECTIONS),
    {
        self.clients < MAX_CONNECTIONS
    }

    /// Adds a connection, where `attempt` is what trying to make one came to;
    /// a full pool takes none.
    pub fn add_client(&mut self, attempt: &Result<(), AgentError>) -> (r: Result<(), AgentError>)
        ensures
            final(self)@ == after_add(old(self)@, attempt_error(*attempt)),
            attempt_error(r) == add_error(old(self)@, attempt_error(*attempt)),
    {
        if self.clients >= MAX_CONNECTIONS {
            return Err(
                AgentError::ResourceUnavailable("Maximum connections reached".to_owned()),
            );
        }
        match attempt {
            Ok(_) => {
                self.clients += 1;
                self.state = ConnectionState::Connected;
                Ok(())
            },
            Err(e) => Err(copy_error(e)),
        }
    }

    /// Starts reconnecting: counts the attempt and gives the wait before it.
    pub fn begin_reconnect(&mut self) -> (r: u64)
        requires
            old(self).reconnect_attempts < u32::MAX,
        ensures
            final(self)@ == (EntryView {
                attempts: (old(self).reconnect_attempts + 1) as u32,
                ..old(self)@
            }),
            r == backoff((old(self).reconnect_attempts + 1) as nat),
    {
        self.reconnect_attempts += 1;
        proof {
            reveal_with_fuel(doubled, 7);
        }
        match self.reconnect_attempts {
            1 => 2000,
            2 => 4000,
            3 => 8000,
            4 => 16_000,
            _ => 30_000,
        }
    }

    /// Finishes reconnecting, where `attempt` is what trying to connect came
    /// to: the old connections are gone either way.
    pub fn finish_reconnect(&mut self, attempt: &Result<(), AgentError>) -> (r: Result<
        (),
        AgentError,
    >)
        ensures
            attempt_error(r) == attempt_error(*attempt),
            final(self)@ == match attempt_error(*attempt) {
                None => EntryView {
                    clients: 1,
                    state: StateView::Connected,
                    attempts: 0,
                    ..old(self)@
                },
                Some(e) => EntryView {
                    clients: 0,
                    state: StateView::Failed(error_text(e)),
                    ..old(self)@
                },
            },
    {
        self.clients = 0;
        match self.add_client(attempt) {
            Ok(_) => {
                self.reconnect_attempts = 0;
                Ok(())
            },
            Err(e) => {
                self.state = ConnectionState::Failed(e.to_text());
                Err(e)
            },
        }
    }

    /// Takes note of a health check, where `outcome` is what asking the server
    /// over the chosen connection came to; without a connection the server is
    /// not asked.
    pub fn health_check(&mut self, outcome: &Result<(), AgentError>) -> (r: bool)
        ensures
            r == (old(self).clients > 0 && *outcome is Ok),
            final(self)@ == after_check(old(self)@, attempt_error(*outcome)),
    {
        if self.get_available_client().is_none() {
            return false;
        }
        match outcome {
            Ok(_) => {
                self.state = ConnectionState::Connected;
                true
            },
            Err(e) => {
                self.state = ConnectionState::Unhealthy(e.to_text());
                false
            },
        }
    }

    /// Whether the server is to be reconnected after a health check.
    pub fn needs_reconnect(&self, healthy: bool) -> (r: bool)
        ensures
            r == (!healthy && self.state is Unhealthy && self.config.auto_reconnect),
    {
        let unhealthy = match &self.state {
            ConnectionState::Unhealthy(_) => true,
            _ => false,
        };
        !healthy && unhealthy && self.config.auto_reconnect
    }

    /// Drops all connections.
    pub fn disconnect(&mut self)
        ensures
            final(self)@ == disconnected(old(self)@),
    {
        self.clients = 0;
        self.state = ConnectionState::Disconnected;
    }

    /// Takes note of what asking for the server's tools over the chosen
    /// connection came to; without a connection the server is not asked.
    pub fn on_discovered(&mut self, outcome: &Result<Vec<McpToolInfo>, AgentError>) -> (r: bool)
        ensures
            r == (old(self).clients > 0 && *outcome is Ok),
            final(self)@ == after_discovery(old(self)@, *outcome),
    {
        if self.get_available_client().is_none() {
            return false;
        }
        match outcome {
            Ok(tools) => {
                self.tools = copy_tools(tools);
                true
            },
            Err(e) => {
                self.state = ConnectionState::Failed(e.to_text());
                false
            },
        }
    }

    /// Chooses a connection for each tool: the connections in turn.  Without a
    /// connection no tool is offered.
    pub fn register(&mut self) -> (r: Vec<usize>)
        ensures
            r@ == chosen_clients(old(self)@),
            final(self)@ == after_register(old(self)@),
    {
        let mut out: Vec<usize> = Vec::new();
        if self.clients == 0 {
            assert(out@ =~= chosen_clients(self@));
            return out;
        }
        let ghost start = self@;
        let total: usize = self.tools.len();
        let mut j: usize = 0;
        assert(out@ =~= chosen_clients(start).take(0));
        while j < total
            invariant
                total == start.tools.len(),
                j <= total,
                self.clients == start.clients,
                start.clients > 0,
                self@ == (EntryView {
                    round_robin: counted_by(start.round_robin, j as nat),
                    ..start
                }),
                out@ == chosen_clients(start).take(j as int),
            decreases total - j,
        {
            let idx: usize = self.round_robin_idx % self.clients;
            self.round_robin_idx = count(self.round_robin_idx);
            out.push(idx);
            j += 1;
            assert(chosen_clients(start).take(j as int) == chosen_clients(start).take(j - 1).push(
                idx,
            ));
        }
        assert(chosen_clients(start).take(total as int) == chosen_clients(start));
        out
    }
}

/// A server without connections.
pub open spec fn disconnected(e: EntryView) -> EntryView {
    EntryView { clients: 0, state: StateView::Disconnected, ..e }
}

/// A server after a health check that came to `error`, if any.
pub open spec fn after_check(e: EntryView, error: Option<ErrorView>) -> EntryView {
    if e.clients == 0 {
        e
    } else {
        EntryView {
            state: match error {
                None => StateView::Connected,
                Some(x) => StateView::Unhealthy(error_text(x)),
            },
            ..after_choice(e)
        }
    }
}

/// A server after its tools were asked for.
pub open spec fn after_discovery(
    e: EntryView,
    outcome: Result<Vec<McpToolInfo>, AgentError>,
) -> EntryView {
    if e.clients == 0 {
        e
    } else {
        match outcome {
            Ok(t) => EntryView { tools: tool_views(t@), ..after_choice(e) },
            Err(x) => EntryView { state: StateView::Failed(error_text(x@)), ..after_choice(e) },
        }
    }
}

/// The connection chosen for each of a server's tools.
pub open spec fn chosen_clients(e: EntryView) -> Seq<usize> {
    if e.clients == 0 {
        Seq::empty()
    } else {
        Seq::new(
            e.tools.len(),
            |j: int| (counted_by(e.round_robin, j as nat) % e.clients) as usize,
        )
    }
}

/// A server after connections were chosen for its tools.
pub open spec fn after_register(e: EntryView) -> EntryView {
    if e.clients == 0 {
        e
    } else {
        EntryView { round_robin: counted_by(e.round_robin, e.tools.len()), ..e }
    }
}

// ---------------------------------------------------------------------------
// The hub
// ---------------------------------------------------------------------------

/// The default time between two health checks, in seconds.
pub const HEALTH_CHECK_SECS: u64 = 30;

/// A hub of servers, each known by its name.
pub struct EnhancedMcpHub {
    pub servers: Vec<ServerEntry>,
    /// The time between two health checks.
    pub health_check_interval: Duration,
    /// Whether the health checks are to stop.
    pub shutdown: bool,
}

pub open spec fn entry_views(s: Seq<ServerEntry>) -> Seq<EntryView> {
    Seq::new(s.len(), |i: int| s[i]@)
}

/// The position of the server called `name`.
pub open spec fn position(s: Seq<EntryView>, name: Seq<char>) -> Option<int>
    decreases s.len(),
{
    if s.len() == 0 {
        None
    } else if s.last().config.name@ == name {
        Some(s.len() - 1)
    } else {
        position(s.drop_last(), name)
    }
}

proof fn lemma_position(s: Seq<EntryView>, name: Seq<char>)
    ensures
        match position(s, name) {
            Some(i) => 0 <= i < s.len() && s[i].config.name@ == name,
            None => forall|i: int| 0 <= i < s.len() ==> (#[trigger] s[i]).config.name@ != name,
        },
    decreases s.len(),
{
    if s.len() > 0 && s.last().config.name@ != name {
        lemma_position(s.drop_last(), name);
        if position(s.drop_last(), name) is None {
            assert forall|i: int| 0 <= i < s.len() implies (#[trigger] s[i]).config.name@
                != name by {
                if i < s.len() - 1 {
                    assert(s.drop_last()[i].config.name@ != name);
                }
            }
        }
    }
}

/// Every server has a name of its own.
pub open spec fn distinct_names(s: Seq<EntryView>) -> bool {
    forall|i: int, j: int|
        0 <= i < j < s.len() ==> (#[trigger] s[i]).config.name@ != (#[trigger] s[j]).config.name@
}

proof fn lemma_same_configs(a: Seq<EntryView>, b: Seq<EntryView>)
    requires
        a.len() == b.len(),
        forall|i: int| 0 <= i < a.len() ==> (#[trigger] b[i]).config == a[i].config,
    ensures
        distinct_names(a) ==> distinct_names(b),
{
}

/// The servers with `config` among them, in the place of the one of its name.
pub open spec fn with_server(s: Seq<EntryView>, config: McpServerConfig) -> Seq<EntryView> {
    match position(s, config.name@) {
        Some(i) => s.update(i, fresh_entry(config)),
        None => s.push(fresh_entry(config)),
    }
}

/// The failures among the first `n` servers, as name and error.
pub open spec fn failures(
    s: Seq<EntryView>,
    attempts: Seq<Result<(), AgentError>>,
    n: int,
) -> Seq<Seq<char>>
    decreases n,
{
    if n <= 0 || n > s.len() {
        Seq::empty()
    } else {
        match add_error(s[n - 1], attempt_error(attempts[n - 1])) {
            Some(x) => failures(s, attempts, n - 1).push(
                s[n - 1].config.name@ + ": "@ + error_text(x),
            ),
            None => failures(s, attempts, n - 1),
        }
    }
}

/// What connecting all servers comes to: an error exactly when there are
/// servers and every one of them failed.
pub open spec fn connect_error(
    s: Seq<EntryView>,
    attempts: Seq<Result<(), AgentError>>,
) -> Option<ErrorView> {
    let f = failures(s, attempts, s.len() as int);
    if f.len() > 0 && f.len() == s.len() {
        Some(
            ErrorView::Internal("All MCP servers failed to connect: "@ + joined(f, "; "@)),
        )
    } else {
        None
    }
}

pub open spec fn not_found(name: Seq<char>) -> ErrorView {
    ErrorView::ResourceUnavailable("MCP server '"@ + name + "' not found"@)
}

/// A connection to be used for a tool.
pub struct Registration {
    /// The position of the server.
    pub server: usize,
    /// The position of the tool among the server's.
    pub tool: usize,
    /// The position of the connection in the server's pool.
    pub client: usize,
}

impl EnhancedMcpHub {
    /// The servers.
    pub open spec fn entries(&self) -> Seq<EntryView> {
        entry_views(self.servers@)
    }

    /// Every server is known by a name of its own.
    pub open spec fn wf(&self) -> bool {
        distinct_names(self.entries())
    }

    pub fn new() -> (r: Self)
        ensures
            r.wf(),
            r.entries() == Seq::<EntryView>::empty(),
            whole_nanos(r.health_check_interval) == HEALTH_CHECK_SECS * 1_000_000_000,
            !r.shutdown,
    {
        let r = EnhancedMcpHub {
            servers: Vec::new(),
            health_check_interval: Duration::from_secs(HEALTH_CHECK_SECS),
            shutdown: false,
        };
        assert(r.entries() =~= Seq::empty());
        r
    }

    pub fn with_health_check_interval(self, interval: Duration) -> (r: Self)
        ensures
            r == (EnhancedMcpHub { health_check_interval: interval, ..self }),
    {
        EnhancedMcpHub { health_check_interval: interval, ..self }
    }

    /// The position of the server called `name`.
    pub fn find(&self, name: &str) -> (r: Option<usize>)
        ensures
            match r {
                Some(i) => position(self.entries(), name@) == Some(i as int) && i
                    < self.servers@.len(),
                None => position(self.entries(), name@) is None,
            },
    {
        let ghost all = self.entries();
        let mut n: usize = self.servers.len();
        assert(all.take(n as int) == all);
        while n > 0
            invariant
                n <= self.servers@.len(),
                all == self.entries(),
                position(all, name@) == position(all.take(n as int), name@),
            decreases n,
        {
            assert(all.take(n as int).drop_last() == all.take(n - 1));
            if same_text(self.servers[n - 1].config.name.as_str(), name) {
                return Some(n - 1);
            }
            n -= 1;
        }
        None
    }

    fn put_server(&mut self, config: McpServerConfig)
        requires
            old(self).wf(),
        ensures
            final(self).wf(),
            final(self).entries() == with_server(old(self).entries(), config),
            final(self).health_check_interval == old(self).health_check_interval,
            final(self).shutdown == old(self).shutdown,
    {
        let ghost before = self.entries();
        proof {
            lemma_position(before, config.name@);
        }
        match self.find(config.name.as_str()) {
            Some(i) => {
                let e = ServerEntry::new(config);
                self.servers.set(i, e);
                assert(self.entries() =~= before.update(i as int, fresh_entry(config)));
                proof {
                    let after = self.entries();
                    assert forall|a: int, b: int| 0 <= a < b < after.len() implies (
                    #[trigger] after[a]).config.name@ != (#[trigger] after[b]).config.name@ by {
                        assert(before[a].config.name@ != before[b].config.name@);
                    }
                }
            },
            None => {
                let e = ServerEntry::new(config);
                self.servers.push(e);
                assert(self.entries() =~= before.push(fresh_entry(config)));
            },
        }
    }

    /// Adds a server; one of the same name gives way to it.
    pub fn add_server(&mut self, config: McpServerConfig)
        requires
            old(self).wf(),
        ensures
            final(self).wf(),
            final(self).entries() == with_server(old(self).entries(), config),
            final(self).health_check_interval == old(self).health_check_interval,
            final(self).shutdown == old(self).shutdown,
    {
        self.put_server(config);
    }

    /// Puts a new configuration in the place of the server of its name; its
    /// connections are dropped.
    pub fn update_server(&mut self, config: McpServerConfig)
        requires
            old(self).wf(),
        ensures
            final(self).wf(),
            final(self).entries() == with_server(old(self).entries(), config),
            final(self).health_check_interval == old(self).health_check_interval,
            final(self).shutdown == old(self).shutdown,
    {
        self.put_server(config);
    }

    /// Removes a server and its connections; says whether it was there.
    pub fn remove_server(&mut self, name: &str) -> (r: bool)
        requires
            old(self).wf(),
        ensures
            final(self).wf(),
            match position(old(self).entries(), name@) {
                Some(i) => r && final(self).entries() == old(self).entries().remove(i),
                None => !r && final(self).entries() == old(self).entries(),
            },
            final(self).health_check_interval == old(self).health_check_interval,
            final(self).shutdown == old(self).shutdown,
    {
        let ghost before = self.entries();
        match self.find(name) {
            Some(i) => {
                let _ = self.servers.remove(i);
                assert(self.entries() =~= before.remove(i as int));
                proof {
                    let after = self.entries();
                    assert forall|a: int, b: int| 0 <= a < b < after.len() implies (
                    #[trigger] after[a]).config.name@ != (#[trigger] after[b]).config.name@ by {
                        let x = if a < i {
                            a
                        } else {
                            a + 1
                        };
                        let y = if b < i {
                            b
                        } else {
                            b + 1
                        };
                        assert(before[x].config.name@ != before[y].config.name@);
                    }
                }
                true
            },
            None => false,
        }
    }

    /// Connects to all servers, where `attempts` holds what trying to connect
    /// to each of them came to.  One that fails does not stop the others; it
    /// is an error only if all fail.
    pub fn connect_all(&mut self, attempts: &Vec<Result<(), AgentError>>) -> (r: Result<
        (),
        AgentError,
    >)
        requires
            attempts@.len() == old(self).servers@.len(),
        ensures
            old(self).wf() ==> final(self).wf(),
            attempt_error(r) == connect_error(old(self).entries(), attempts@),
            final(self).entries() == Seq::new(
                old(self).entries().len(),
                |i: int| after_connect(old(self).entries()[i], attempt_error(attempts@[i])),
            ),
            !final(self).shutdown,
            final(self).health_check_interval == old(self).health_check_interval,
    {
        let ghost before = self.entries();
        let ghost want = Seq::new(
            before.len(),
            |i: int| after_connect(before[i], attempt_error(attempts@[i])),
        );
        let total: usize = self.servers.len();
        let mut errors: Vec<String> = Vec::new();
        let mut i: usize = 0;
        assert(texts(errors@) == failures(before, attempts@, 0));
        while i < total
            invariant
                total == self.servers@.len(),
                total == before.len(),
                total == attempts@.len(),
                i <= total,
                want == Seq::new(
                    before.len(),
                    |i: int| after_connect(before[i], attempt_error(attempts@[i])),
                ),
                forall|k: int| 0 <= k < i ==> #[trigger] self.servers@[k]@ == want[k],
                forall|k: int| i <= k < total ==> #[trigger] self.servers@[k]@ == before[k],
                texts(errors@) == failures(before, attempts@, i as int),
                errors@.len() <= i,
                self.health_check_interval == old(self).health_check_interval,
            decreases total - i,
        {
            let ghost texts_before = texts(errors@);
            assert(self.servers@[i as int]@ == before[i as int]);
            let entry = &mut self.servers[i];
            match entry.add_client(&attempts[i]) {
                Ok(_) => {},
                Err(e) => {
                    let text = e.to_text();
                    let mut m = entry.config.name.clone();
                    m.append(": ");
                    m.append(text.as_str());
                    entry.state = ConnectionState::Failed(text);
                    errors.push(m);
                    assert(texts(errors@) == texts_before.push(m@));
                },
            }
            assert(self.servers@[i as int]@ == want[i as int]);
            i += 1;
        }
        assert(self.entries() =~= want);
        proof {
            lemma_same_configs(before, want);
        }
        self.shutdown = false;
        assert(errors@.len() == texts(errors@).len());
        if errors.len() > 0 && errors.len() == total {
            let m = join(&errors, "; ");
            Err(internal2("All MCP servers failed to connect: ", m.as_str()))
        } else {
            Ok(())
        }
    }

    /// Takes note of what asking the connected servers for their tools came
    /// to; gives the tools found, server by server.  Servers without a
    /// connection are passed over.
    pub fn discover_all(&mut self, outcomes: &Vec<Result<Vec<McpToolInfo>, AgentError>>) -> (r: Vec<
        (String, Vec<McpToolInfo>),
    >)
        requires
            outcomes@.len() == old(self).servers@.len(),
        ensures
            old(self).wf() ==> final(self).wf(),
            found_views(r@) == found_tools(
                old(self).entries(),
                outcomes@,
                old(self).entries().len() as int,
            ),
            final(self).entries() == Seq::new(
                old(self).entries().len(),
                |i: int| after_discovery(old(self).entries()[i], outcomes@[i]),
            ),
            final(self).health_check_interval == old(self).health_check_interval,
            final(self).shutdown == old(self).shutdown,
    {
        let ghost before = self.entries();
        let ghost want = Seq::new(
            before.len(),
            |i: int| after_discovery(before[i], outcomes@[i]),
        );
        let total: usize = self.servers.len();
        let mut found: Vec<(String, Vec<McpToolInfo>)> = Vec::new();
        let mut i: usize = 0;
        assert(found_views(found@) == found_tools(before, outcomes@, 0));
        while i < total
            invariant
                total == self.servers@.len(),
                total == before.len(),
                total == outcomes@.len(),
                i <= total,
                want == Seq::new(
                    before.len(),
                    |i: int| after_discovery(before[i], outcomes@[i]),
                ),
                forall|k: int| 0 <= k < i ==> #[trigger] self.servers@[k]@ == want[k],
                forall|k: int| i <= k < total ==> #[trigger] self.servers@[k]@ == before[k],
                found_views(found@) == found_tools(before, outcomes@, i as int),
                self.health_check_interval == old(self).health_check_interval,
                self.shutdown == old(self).shutdown,
            decreases total - i,
        {
            let ghost found_before = found_views(found@);
            assert(self.servers@[i as int]@ == before[i as int]);
            let entry = &mut self.servers[i];
            let ok = entry.on_discovered(&outcomes[i]);
            if ok {
                if let Ok(tools) = &outcomes[i] {
                    let item = (entry.config.name.clone(), copy_tools(tools));
                    found.push(item);
                    assert(found_views(found@) == found_before.push(
                        (item.0@, tool_views(item.1@)),
                    ));
                }
            }
            assert(self.servers@[i as int]@ == want[i as int]);
            i += 1;
        }
        assert(self.entries() =~= want);
        proof {
            lemma_same_configs(before, want);
        }
        found
    }

    /// Chooses a connection for every tool of every server.
    pub fn register_all(&mut self) -> (r: Vec<Registration>)
        ensures
            old(self).wf() ==> final(self).wf(),
            registrations(r@) == all_registrations(
                old(self).entries(),
                old(self).entries().len() as int,
            ),
            final(self).entries() == Seq::new(
                old(self).entries().len(),
                |i: int| after_register(old(self).entries()[i]),
            ),
            final(self).health_check_interval == old(self).health_check_interval,
            final(self).shutdown == old(self).shutdown,
    {
        let ghost before = self.entries();
        let ghost want = Seq::new(before.len(), |i: int| after_register(before[i]));
        let total: usize = self.servers.len();
        let mut out: Vec<Registration> = Vec::new();
        let mut i: usize = 0;
        assert(registrations(out@) == all_registrations(before, 0));
        while i < total
            invariant
                total == self.servers@.len(),
                total == before.len(),
                i <= total,
                want == Seq::new(before.len(), |i: int| after_register(before[i])),
                forall|k: int| 0 <= k < i ==> #[trigger] self.servers@[k]@ == want[k],
                forall|k: int| i <= k < total ==> #[trigger] self.servers@[k]@ == before[k],
                registrations(out@) == all_registrations(before, i as int),
                self.health_check_interval == old(self).health_check_interval,
                self.shutdown == old(self).shutdown,
            decreases total - i,
        {
            let ghost e = before[i as int];
            assert(self.servers@[i as int]@ == e);
            let chosen = self.servers[i].register();
            assert(self.servers@[i as int]@ == want[i as int]);
            let ghost start = registrations(out@);
            let ghost more = server_registrations(e, i as int);
            let mut j: usize = 0;
            assert(start + more.take(0) =~= start);
            while j < chosen.len()
                invariant
                    j <= chosen@.len(),
                    chosen@ == chosen_clients(e),
                    more == server_registrations(e, i as int),
                    registrations(out@) == start + more.take(j as int),
                decreases chosen@.len() - j,
            {
                let ghost so_far = registrations(out@);
                let reg = Registration { server: i, tool: j, client: chosen[j] };
                out.push(reg);
                assert(registrations(out@) == so_far.push((i as int, j as int, chosen@[j as int])));
                assert(more.take(j + 1) == more.take(j as int).push(more[j as int]));
                assert(start + more.take(j + 1) =~= (start + more.take(j as int)).push(
                    more[j as int],
                ));
                j += 1;
            }
            assert(more.take(more.len() as int) == more);
            i += 1;
        }
        assert(self.entries() =~= want);
        proof {
            lemma_same_configs(before, want);
        }
        out
    }

    /// Chooses a connection for every tool of one server; none where there is
    /// no such server.
    pub fn register_server(&mut self, name: &str) -> (r: Vec<usize>)
        ensures
            old(self).wf() ==> final(self).wf(),
            match position(old(self).entries(), name@) {
                Some(i) => r@ == chosen_clients(old(self).entries()[i]) && final(self).entries()
                    == old(self).entries().update(i, after_register(old(self).entries()[i])),
                None => r@.len() == 0 && final(self).entries() == old(self).entries(),
            },
            final(self).health_check_interval == old(self).health_check_interval,
            final(self).shutdown == old(self).shutdown,
    {
        let ghost before = self.entries();
        match self.find(name) {
            Some(i) => {
                let r = self.servers[i].register();
                assert(self.entries() =~= before.update(
                    i as int,
                    after_register(before[i as int]),
                ));
                proof {
                    lemma_position(before, name@);
                    lemma_same_configs(before, self.entries());
                }
                r
            },
            None => Vec::new(),
        }
    }

    /// Drops all connections of all servers and stops the health checks.
    pub fn disconnect_all(&mut self)
        ensures
            old(self).wf() ==> final(self).wf(),
            final(self).entries() == Seq::new(
                old(self).entries().len(),
                |i: int| disconnected(old(self).entries()[i]),
            ),
            final(self).shutdown,
            final(self).health_check_interval == old(self).health_check_interval,
    {
        self.shutdown = true;
        let ghost before = self.entries();
        let ghost want = Seq::new(before.len(), |i: int| disconnected(before[i]));
        let total: usize = self.servers.len();
        let mut i: usize = 0;
        while i < total
            invariant
                total == self.servers@.len(),
                total == before.len(),
                i <= total,
                want == Seq::new(before.len(), |i: int| disconnected(before[i])),
                forall|k: int| 0 <= k < i ==> #[trigger] self.servers@[k]@ == want[k],
                forall|k: int| i <= k < total ==> #[trigger] self.servers@[k]@ == before[k],
                self.health_check_interval == old(self).health_check_interval,
                self.shutdown,
            decreases total - i,
        {
            assert(self.servers@[i as int]@ == before[i as int]);
            self.servers[i].disconnect();
            assert(self.servers@[i as int]@ == want[i as int]);
            i += 1;
        }
        assert(self.entries() =~= want);
        proof {
            lemma_same_configs(before, want);
        }
    }

    /// Drops all connections of one server; says whether there is such a
    /// server, and so a change to announce.
    pub fn disconnect_one(&mut self, name: &str) -> (r: bool)
        ensures
            old(self).wf() ==> final(self).wf(),
            match position(old(self).entries(), name@) {
                Some(i) => r && final(self).entries() == old(self).entries().update(
                    i,
                    disconnected(old(self).entries()[i]),
                ),
                None => !r && final(self).entries() == old(self).entries(),
            },
            final(self).health_check_interval == old(self).health_check_interval,
            final(self).shutdown == old(self).shutdown,
    {
        let ghost before = self.entries();
        match self.find(name) {
            Some(i) => {
                self.servers[i].disconnect();
                assert(self.entries() =~= before.update(i as int, disconnected(before[i as int])));
                proof {
                    lemma_position(before, name@);
                    lemma_same_configs(before, self.entries());
                }
                true
            },
            None => false,
        }
    }

    /// Connects to one server, where `attempt` is what trying came to; gives
    /// the state to announce.
    pub fn connect_one(&mut self, name: &str, attempt: &Result<(), AgentError>) -> (r: Result<
        ConnectionState,
        AgentError,
    >)
        ensures
            old(self).wf() ==> final(self).wf(),
            match position(old(self).entries(), name@) {
                None => {
                    &&& r matches Err(e) && e@ == not_found(name@)
                    &&& final(self).entries() == old(self).entries()
                },
                Some(i) => {
                    let e = old(self).entries()[i];
                    &&& final(self).entries() == old(self).entries().update(
                        i,
                        after_add(e, attempt_error(*attempt)),
                    )
                    &&& match add_error(e, attempt_error(*attempt)) {
                        None => r matches Ok(s) && s is Connected,
                        Some(x) => r matches Err(y) && y@ == x,
                    }
                },
            },
            final(self).health_check_interval == old(self).health_check_interval,
            final(self).shutdown == old(self).shutdown,
    {
        let ghost before = self.entries();
        match self.find(name) {
            None => {
                let mut m = "MCP server '".to_owned();
                m.append(name);
                m.append("' not found");
                Err(AgentError::ResourceUnavailable(m))
            },
            Some(i) => {
                let outcome = self.servers[i].add_client(attempt);
                assert(self.entries() =~= before.update(
                    i as int,
                    after_add(before[i as int], attempt_error(*attempt)),
                ));
                proof {
                    lemma_position(before, name@);
                    lemma_same_configs(before, self.entries());
                }
                match outcome {
                    Ok(_) => Ok(ConnectionState::Connected),
                    Err(e) => Err(e),
                }
            },
        }
    }

    /// The state of one server's connection.
    pub fn get_connection_state(&self, name: &str) -> (r: Option<ConnectionState>)
        ensures
            match position(self.entries(), name@) {
                Some(i) => r matches Some(s) && s@ == self.entries()[i].state,
                None => r is None,
            },
    {
        match self.find(name) {
            Some(i) => Some(self.servers[i].state.copy()),
            None => None,
        }
    }

    /// The state of every server's connection.
    pub fn get_all_states(&self) -> (r: Vec<(String, ConnectionState)>)
        ensures
            r@.len() == self.servers@.len(),
            forall|i: int|
                0 <= i < r@.len() ==> (#[trigger] r@[i]).0@ == self.entries()[i].config.name@
                    && r@[i].1@ == self.entries()[i].state,
    {
        let mut out: Vec<(String, ConnectionState)> = Vec::new();
        let mut i: usize = 0;
        while i < self.servers.len()
            invariant
                i <= self.servers@.len(),
                out@.len() == i,
                forall|k: int|
                    0 <= k < i ==> (#[trigger] out@[k]).0@ == self.entries()[k].config.name@
                        && out@[k].1@ == self.entries()[k].state,
            decreases self.servers@.len() - i,
        {
            out.push((self.servers[i].config.name.clone(), self.servers[i].state.copy()));
            i += 1;
        }
        out
    }
}

impl Default for EnhancedMcpHub {
    fn default() -> (r: Self)
        ensures
            r.wf(),
            r.entries() == Seq::<EntryView>::empty(),
            whole_nanos(r.health_check_interval) == HEALTH_CHECK_SECS * 1_000_000_000,
            !r.shutdown,
    {
        EnhancedMcpHub::new()
    }
}

pub open spec fn found_views(r: Seq<(String, Vec<McpToolInfo>)>) -> Seq<(Seq<char>, Seq<ToolView>)> {
    Seq::new(r.len(), |i: int| (r[i].0@, tool_views(r[i].1@)))
}

/// The tools found at the first `n` servers: at those that have a connection
/// and answered.
pub open spec fn found_tools(
    s: Seq<EntryView>,
    outcomes: Seq<Result<Vec<McpToolInfo>, AgentError>>,
    n: int,
) -> Seq<(Seq<char>, Seq<ToolView>)>
    decreases n,
{
    if n <= 0 || n > s.len() {
        Seq::empty()
    } else if s[n - 1].clients > 0 && outcomes[n - 1] is Ok {
        found_tools(s, outcomes, n - 1).push(
            (s[n - 1].config.name@, tool_views(outcomes[n - 1]->Ok_0@)),
        )
    } else {
        found_tools(s, outcomes, n - 1)
    }
}

/// Registrations as server, tool and connection.
pub open spec fn registrations(r: Seq<Registration>) -> Seq<(int, int, usize)> {
    Seq::new(r.len(), |i: int| (r[i].server as int, r[i].tool as int, r[i].client))
}

/// The registrations of one server's tools.
pub open spec fn server_registrations(e: EntryView, server: int) -> Seq<(int, int, usize)> {
    let c = chosen_clients(e);
    Seq::new(c.len(), |j: int| (server, j, c[j]))
}

/// The registrations of the first `n` servers' tools.
pub open spec fn all_registrations(s: Seq<EntryView>, n: int) -> Seq<(int, int, usize)>
    decreases n,
{
    if n <= 0 || n > s.len() {
        Seq::empty()
    } else {
        all_registrations(s, n - 1) + server_registrations(s[n - 1], n - 1)
    }
}

// ---------------------------------------------------------------------------
// Laws
// ---------------------------------------------------------------------------

/// The wait before reconnecting never shrinks from one attempt to the next and
/// stays between two seconds and half a minute.
pub proof fn law_backoff_grows_within_bounds(attempt: nat)
    requires
        attempt >= 1,
    ensures
        2000 <= backoff(attempt) <= 30_000,
        backoff(attempt) <= backoff(attempt + 1),
{
    reveal_with_fuel(doubled, 7);
    if attempt >= 5 {
    } else if attempt == 1 {
    } else if attempt == 2 {
    } else if attempt == 3 {
    } else {
        assert(attempt == 4);
    }
}

/// A pool never grows beyond its limit.
pub proof fn law_pool_is_bounded(e: EntryView, attempt: Option<ErrorView>)
    requires
        e.clients <= MAX_CONNECTIONS,
    ensures
        after_add(e, attempt).clients <= MAX_CONNECTIONS,
        after_connect(e, attempt).clients <= MAX_CONNECTIONS,
{
}

proof fn lemma_failures_len(s: Seq<EntryView>, attempts: Seq<Result<(), AgentError>>, n: int)
    requires
        0 <= n <= s.len(),
    ensures
        failures(s, attempts, n).len() <= n,
        failures(s, attempts, n).len() == n <==> forall|i: int|
            0 <= i < n ==> add_error(#[trigger] s[i], attempt_error(attempts[i])) is Some,
    decreases n,
{
    if n > 0 {
        lemma_failures_len(s, attempts, n - 1);
        if failures(s, attempts, n).len() == n {
            assert(add_error(s[n - 1], attempt_error(attempts[n - 1])) is Some);
        }
    }
}

/// Connecting all servers fails exactly when there are servers and none of
/// them could be connected to: one that works is enough.
pub proof fn law_one_connection_is_enough(
    s: Seq<EntryView>,
    attempts: Seq<Result<(), AgentError>>,
)
    ensures
        connect_error(s, attempts) is Some <==> s.len() > 0 && forall|i: int|
            0 <= i < s.len() ==> add_error(#[trigger] s[i], attempt_error(attempts[i])) is Some,
{
    lemma_failures_len(s, attempts, s.len() as int);
}

proof fn lemma_counted_by(n: usize, k: nat)
    requires
        n + k <= usize::MAX,
    ensures
        counted_by(n, k) == n + k,
    decreases k,
{
    if k > 0 {
        lemma_counted_by(n, (k - 1) as nat);
    }
}

/// The connections are used in turn: of as many choices in a row as there are
/// connections, no two fall on the same one.
pub proof fn law_round_robin_is_fair(e: EntryView, i: nat, j: nat)
    requires
        i < j < e.clients,
        e.round_robin + e.clients <= usize::MAX,
    ensures
        counted_by(e.round_robin, i) % e.clients != counted_by(e.round_robin, j) % e.clients,
{
    lemma_counted_by(e.round_robin, i);
    lemma_counted_by(e.round_robin, j);
    let n = e.clients as int;
    let a = e.round_robin + i;
    let b = e.round_robin + j;
    if a % n == b % n {
        lemma_mod_equivalence(b as int, a as int, n);
        lemma_small_mod((j - i) as nat, n as nat);
        assert(b - a == j - i);
    }
}

/// Every tool is given a connection that exists.
pub proof fn law_chosen_clients_exist(e: EntryView, j: int)
    requires
        0 <= j < chosen_clients(e).len(),
    ensures
        chosen_clients(e)[j] < e.clients,
{
    let n = e.clients as int;
    let m = counted_by(e.round_robin, j as nat) as int;
    assert(0 <= m % n < n) by (nonlinear_arith)
        requires
            n > 0,
            m >= 0,
    ;
}

/// Adding a server that is there already leaves every other server as it is
/// and makes no second one of its name.
pub proof fn law_add_server_replaces(s: Seq<EntryView>, config: McpServerConfig)
    requires
        distinct_names(s),
    ensures
        distinct_names(with_server(s, config)),
        position(s, config.name@) is Some ==> with_server(s, config).len() == s.len(),
        forall|i: int|
            0 <= i < s.len() && (#[trigger] s[i]).config.name@ != config.name@ ==> with_server(
                s,
                config,
            )[i] == s[i],
{
    lemma_position(s, config.name@);
    let t = with_server(s, config);
    match position(s, config.name@) {
        Some(k) => {
            assert forall|a: int, b: int| 0 <= a < b < t.len() implies (
            #[trigger] t[a]).config.name@ != (#[trigger] t[b]).config.name@ by {
                assert(s[a].config.name@ != s[b].config.name@);
            }
        },
        None => {
            assert forall|a: int, b: int| 0 <= a < b < t.len() implies (
            #[trigger] t[a]).config.name@ != (#[trigger] t[b]).config.name@ by {
                if b < s.len() {
                    assert(s[a].config.name@ != s[b].config.name@);
                } else {
                    assert(s[a].config.name@ != config.name@);
                }
            }
        },
    }
}

/// A pool with room takes every connection that could be made, and only those:
/// a failure leaves the pool as it is, and connecting all servers keeps it as
/// the server's state.  A full pool takes none.
pub proof fn law_pools_take_what_there_is_room_for(e: EntryView, error: ErrorView)
    ensures
        e.clients < 5 ==> {
            let r = after_add(e, None);
            &&& add_error(e, None) is None
            &&& r.clients == e.clients + 1
            &&& r.state is Connected
            &&& r.config == e.config
            &&& r.tools == e.tools
            &&& r.attempts == e.attempts
            &&& r.round_robin == e.round_robin
            &&& after_connect(e, None) == r
            &&& add_error(e, Some(error)) == Some(error)
            &&& after_add(e, Some(error)) == e
            &&& after_connect(e, Some(error)) == (EntryView {
                state: StateView::Failed(error_text(error)),
                ..e
            })
        },
        e.clients >= 5 ==> {
            let full = ErrorView::ResourceUnavailable("Maximum connections reached"@);
            &&& add_error(e, None) == Some(full)
            &&& add_error(e, Some(error)) == Some(full)
            &&& after_add(e, None) == e
            &&& after_add(e, Some(error)) == e
            &&& after_connect(e, None) == (EntryView {
                state: StateView::Failed(error_text(full)),
                ..e
            })
            &&& after_connect(e, Some(error)) == after_connect(e, None)
        },
{
}

/// The first wait is two seconds, and each further one twice the one before
/// it, up to half a minute.
pub proof fn law_waits_double(attempt: nat)
    requires
        attempt >= 1,
    ensures
        backoff(1) == 2000,
        2 * backoff(attempt) <= 30_000 ==> backoff(attempt + 1) == 2 * backoff(attempt),
        2 * backoff(attempt) > 30_000 ==> backoff(attempt + 1) == 30_000,
{
    reveal_with_fuel(doubled, 7);
    if attempt >= 5 {
    } else if attempt == 1 {
    } else if attempt == 2 {
    } else if attempt == 3 {
    } else {
        assert(attempt == 4);
    }
}

/// A server is found by its name, and nothing is by a name that no server has.
pub proof fn law_servers_are_found_by_name(s: Seq<EntryView>, name: Seq<char>, i: int)
    requires
        distinct_names(s),
    ensures
        0 <= i < s.len() ==> (position(s, name) == Some(i) <==> s[i].config.name@ == name),
        position(s, name) is None <==> forall|k: int|
            0 <= k < s.len() ==> (#[trigger] s[k]).config.name@ != name,
{
    lemma_position(s, name);
    if 0 <= i < s.len() && s[i].config.name@ == name {
        let k = position(s, name)->0;
        if k < i {
            assert(s[k].config.name@ != s[i].config.name@);
        } else if i < k {
            assert(s[i].config.name@ != s[k].config.name@);
        }
    }
}

/// A server that was added is found under its name: with its configuration,
/// without connections or tools, and as not connected.
pub proof fn law_added_servers_are_found(s: Seq<EntryView>, config: McpServerConfig)
    requires
        distinct_names(s),
    ensures
        ({
            let t = with_server(s, config);
            &&& position(t, config.name@) matches Some(i)
            &&& 0 <= i < t.len()
            &&& t[i].config == config
            &&& t[i].clients == 0
            &&& t[i].tools.len() == 0
            &&& t[i].state is Disconnected
            &&& t[i].attempts == 0
        }),
        position(s, config.name@) is None ==> with_server(s, config).len() == s.len() + 1,
{
    law_add_server_replaces(s, config);
    lemma_position(s, config.name@);
    let t = with_server(s, config);
    let i = match position(s, config.name@) {
        Some(k) => k,
        None => s.len() as int,
    };
    assert(t[i] == fresh_entry(config));
    law_servers_are_found_by_name(t, config.name@, i);
}

proof fn lemma_failures_below(
    s: Seq<EntryView>,
    attempts: Seq<Result<(), AgentError>>,
    e: EntryView,
    attempt: Result<(), AgentError>,
    n: int,
)
    requires
        n <= s.len(),
        s.len() == attempts.len(),
    ensures
        failures(s.push(e), attempts.push(attempt), n) == failures(s, attempts, n),
    decreases n,
{
    if n > 0 {
        lemma_failures_below(s, attempts, e, attempt, n - 1);
    }
}

/// Every server that could not be connected to is told of, by its name and its
/// error and in the order of the servers; where all failed, the error of the
/// whole holds every one of them.
pub proof fn law_every_failure_is_told(
    s: Seq<EntryView>,
    attempts: Seq<Result<(), AgentError>>,
    e: EntryView,
    error: AgentError,
)
    requires
        s.len() == attempts.len(),
        e.clients < 5,
    ensures
        ({
            let n = s.len() as int;
            let before = failures(s, attempts, n);
            let failed = Err::<(), AgentError>(error);
            &&& failures(s.push(e), attempts.push(failed), n + 1) == before.push(
                e.config.name@ + ": "@ + error_text(error@),
            )
            &&& failures(s.push(e), attempts.push(Ok(())), n + 1) == before
            &&& connect_error(s.push(e), attempts.push(Ok(()))) is None
            &&& before.len() == n ==> connect_error(s.push(e), attempts.push(failed)) == Some(
                ErrorView::Internal(
                    "All MCP servers failed to connect: "@ + joined(
                        before.push(e.config.name@ + ": "@ + error_text(error@)),
                        "; "@,
                    ),
                ),
            )
        }),
        connect_error(Seq::empty(), Seq::empty()) is None,
{
    let n = s.len() as int;
    let failed = Err::<(), AgentError>(error);
    lemma_failures_below(s, attempts, e, failed, n);
    lemma_failures_below(s, attempts, e, Ok(()), n);
    lemma_failures_len(s, attempts, n);
}

/// The connections are chosen one after the other, starting anew behind the
/// last one; choosing changes nothing else of a server.
pub proof fn law_choices_take_turns(e: EntryView)
    ensures
        next_choice(e) is None <==> e.clients == 0,
        next_choice(e) matches Some(c) ==> c < e.clients,
        after_choice(e) == (EntryView { round_robin: after_choice(e).round_robin, ..e }),
        e.clients > 0 && e.round_robin < usize::MAX ==> {
            let c = next_choice(e)->0;
            next_choice(after_choice(e)) == Some(
                if c + 1 == e.clients {
                    0
                } else {
                    (c + 1) as usize
                },
            )
        },
{
    if e.clients > 0 {
        let n = e.clients as int;
        let m = e.round_robin as int;
        assert(0 <= m % n < n) by (nonlinear_arith)
            requires
                n > 0,
                m >= 0,
        ;
        if m < usize::MAX {
            lemma_next_remainder(m, n);
        }
    }
}

proof fn lemma_next_remainder(m: int, n: int)
    requires
        n > 0,
        m >= 0,
    ensures
        (m + 1) % n == (if m % n + 1 == n {
            0
        } else {
            m % n + 1
        }),
{
    lemma_fundamental_div_mod(m, n);
    let q = m / n;
    let c = m % n;
    assert(0 <= c < n) by (nonlinear_arith)
        requires
            n > 0,
            m >= 0,
            c == m % n,
    ;
    if c + 1 == n {
        assert(m + 1 == (q + 1) * n + 0) by (nonlinear_arith)
            requires
                m == n * q + c,
                c + 1 == n,
        ;
        lemma_fundamental_div_mod_converse(m + 1, n, q + 1, 0);
    } else {
        assert(m + 1 == q * n + (c + 1)) by (nonlinear_arith)
            requires
                m == n * q + c,
        ;
        lemma_fundamental_div_mod_converse(m + 1, n, q, c + 1);
    }
}

/// A health check tells how a server with a connection is, and changes nothing
/// else of it but whose turn it is; without a connection it changes nothing.
pub proof fn law_checks_tell_the_state(e: EntryView, error: ErrorView)
    ensures
        e.clients == 0 ==> after_check(e, None) == e && after_check(e, Some(error)) == e,
        e.clients > 0 ==> {
            let well = after_check(e, None);
            let ill = after_check(e, Some(error));
            &&& well.state is Connected
            &&& ill.state == StateView::Unhealthy(error_text(error))
            &&& well == (EntryView { state: StateView::Connected, ..after_choice(e) })
            &&& ill.clients == e.clients && ill.tools == e.tools && ill.config == e.config
                && ill.attempts == e.attempts && ill.round_robin == well.round_robin
        },
{
}

/// A server's answer to being asked for its tools takes the place of its tools,
/// a failure becomes its state; neither changes anything else but whose turn it
/// is, and a server without a connection stays as it is.
pub proof fn law_discoveries_replace_the_tools(
    e: EntryView,
    tools: Vec<McpToolInfo>,
    error: AgentError,
)
    ensures
        e.clients == 0 ==> after_discovery(e, Ok(tools)) == e && after_discovery(e, Err(error))
            == e,
        e.clients > 0 ==> {
            let found = after_discovery(e, Ok(tools));
            let failed = after_discovery(e, Err(error));
            &&& found.tools == tool_views(tools@)
            &&& found.state == e.state
            &&& failed.tools == e.tools
            &&& failed.state == StateView::Failed(error_text(error@))
            &&& found.clients == e.clients && failed.clients == e.clients
            &&& found.config == e.config && failed.config == e.config
            &&& found.attempts == e.attempts && failed.attempts == e.attempts
            &&& found.round_robin == after_choice(e).round_robin
            &&& failed.round_robin == after_choice(e).round_robin
        },
{
}

/// Dropping a server's connections leaves its configuration, its tools and its
/// counts as they are.
pub proof fn law_disconnecting_keeps_the_tools(e: EntryView)
    ensures
        disconnected(e).clients == 0,
        disconnected(e).state is Disconnected,
        disconnected(e).config == e.config,
        disconnected(e).tools == e.tools,
        disconnected(e).attempts == e.attempts,
        disconnected(e).round_robin == e.round_robin,
{
}

proof fn lemma_found_below(
    s: Seq<EntryView>,
    outcomes: Seq<Result<Vec<McpToolInfo>, AgentError>>,
    e: EntryView,
    outcome: Result<Vec<McpToolInfo>, AgentError>,
    n: int,
)
    requires
        n <= s.len(),
        s.len() == outcomes.len(),
    ensures
        found_tools(s.push(e), outcomes.push(outcome), n) == found_tools(s, outcomes, n),
    decreases n,
{
    if n > 0 {
        lemma_found_below(s, outcomes, e, outcome, n - 1);
    }
}

/// A server adds its tools under its name to what is found exactly when it has
/// a connection and answered.
pub proof fn law_each_answer_is_found(
    s: Seq<EntryView>,
    outcomes: Seq<Result<Vec<McpToolInfo>, AgentError>>,
    e: EntryView,
    outcome: Result<Vec<McpToolInfo>, AgentError>,
)
    requires
        s.len() == outcomes.len(),
    ensures
        ({
            let n = s.len() as int;
            let before = found_tools(s, outcomes, n);
            let after = found_tools(s.push(e), outcomes.push(outcome), n + 1);
            &&& e.clients > 0 ==> (outcome matches Ok(t) ==> after == before.push(
                (e.config.name@, tool_views(t@)),
            ))
            &&& e.clients == 0 || outcome is Err ==> after == before
        }),
        found_tools(s, outcomes, 0).len() == 0,
{
    lemma_found_below(s, outcomes, e, outcome, s.len() as int);
}

/// Every tool of a server with a connection is given one, and no tool of a
/// server without: the connections in turn, from the one whose turn it is.
pub proof fn law_every_tool_is_given_a_connection(e: EntryView, j: int)
    ensures
        e.clients == 0 ==> chosen_clients(e).len() == 0 && after_register(e) == e,
        e.clients > 0 ==> chosen_clients(e).len() == e.tools.len(),
        e.clients > 0 && 0 <= j < e.tools.len() && e.round_robin + e.tools.len() <= usize::MAX
            ==> chosen_clients(e)[j] == (e.round_robin + j) % (e.clients as int),
        e.clients > 0 && e.round_robin + e.tools.len() <= usize::MAX ==> after_register(e) == (
        EntryView { round_robin: (e.round_robin + e.tools.len()) as usize, ..e }),
{
    if e.clients > 0 && e.round_robin + e.tools.len() <= usize::MAX {
        lemma_counted_by(e.round_robin, e.tools.len());
        if 0 <= j < e.tools.len() {
            lemma_counted_by(e.round_robin, j as nat);
            let n = e.clients as int;
            let m = e.round_robin + j;
            assert(0 <= m % n < n) by (nonlinear_arith)
                requires
                    n > 0,
                    m >= 0,
            ;
        }
    }
}

/// Registered is every tool of every server with a connection and nothing else,
/// each once: in the order of the servers, and of each server's tools.
pub proof fn law_every_tool_is_registered_once(s: Seq<EntryView>, n: int)
    requires
        0 <= n <= s.len(),
    ensures
        forall|i: int, j: int, c: usize| #[trigger]
            all_registrations(s, n).contains((i, j, c)) <==> 0 <= i < n && s[i].clients > 0 && 0
                <= j < s[i].tools.len() && c == chosen_clients(s[i])[j],
        forall|a: int, b: int|
            0 <= a < b < all_registrations(s, n).len() ==> {
                let x = #[trigger] all_registrations(s, n)[a];
                let y = #[trigger] all_registrations(s, n)[b];
                x.0 < y.0 || (x.0 == y.0 && x.1 < y.1)
            },
    decreases n,
{
    if n > 0 {
        law_every_tool_is_registered_once(s, n - 1);
        let before = all_registrations(s, n - 1);
        let more = server_registrations(s[n - 1], n - 1);
        let all = all_registrations(s, n);
        assert forall|i: int, j: int, c: usize| #[trigger]
            all.contains((i, j, c)) <==> 0 <= i < n && s[i].clients > 0 && 0 <= j
                < s[i].tools.len() && c == chosen_clients(s[i])[j] by {
            if all.contains((i, j, c)) {
                let k = choose|k: int| 0 <= k < all.len() && all[k] == (i, j, c);
                if k < before.len() {
                    assert(before[k] == (i, j, c));
                    assert(before.contains((i, j, c)));
                } else {
                    assert(more[k - before.len()] == (i, j, c));
                }
            }
            if 0 <= i < n && s[i].clients > 0 && 0 <= j < s[i].tools.len() && c == chosen_clients(
                s[i],
            )[j] {
                if i < n - 1 {
                    assert(before.contains((i, j, c)));
                    let k = choose|k: int| 0 <= k < before.len() && before[k] == (i, j, c);
                    assert(all[k] == (i, j, c));
                } else {
                    assert(all[before.len() + j] == more[j]);
                }
            }
        }
        assert forall|a: int, b: int| 0 <= a < b < all.len() implies {
            let x = #[trigger] all[a];
            let y = #[trigger] all[b];
            x.0 < y.0 || (x.0 == y.0 && x.1 < y.1)
        } by {
            if a < before.len() {
                assert(all[a] == before[a]);
                assert(before.contains((before[a].0, before[a].1, before[a].2)));
            } else {
                assert(all[a] == more[a - before.len()]);
            }
            if b < before.len() {
                assert(all[b] == before[b]);
            } else {
                assert(all[b] == more[b - before.len()]);
            }
        }
    }
}

/// A server stands for its fields, and the state of its connection for its kind
/// and its message.
pub proof fn law_servers_stand_for_their_fields(
    s: Seq<ServerEntry>,
    i: int,
    state: ConnectionState,
    text: String,
)
    requires
        0 <= i < s.len(),
    ensures
        entry_views(s).len() == s.len(),
        ({
            let v = entry_views(s)[i];
            &&& v.config == s[i].config
            &&& v.clients == s[i].clients
            &&& v.tools == tool_views(s[i].tools@)
            &&& v.state == s[i].state@
            &&& v.attempts == s[i].reconnect_attempts
            &&& v.round_robin == s[i].round_robin_idx
        }),
        state@ is Disconnected <==> state is Disconnected,
        state@ is Connecting <==> state is Connecting,
        state@ is Connected <==> state is Connected,
        (ConnectionState::Failed(text))@ == StateView::Failed(text@),
        (ConnectionState::Unhealthy(text))@ == StateView::Unhealthy(text@),
{
}

/// What is found and what is registered stand for themselves: the names and
/// tools, the positions and the connections.
pub proof fn law_findings_stand_for_themselves(
    found: Seq<(String, Vec<McpToolInfo>)>,
    regs: Seq<Registration>,
    i: int,
)
    ensures
        found_views(found).len() == found.len(),
        registrations(regs).len() == regs.len(),
        0 <= i < found.len() ==> found_views(found)[i] == (
            found[i].0@,
            tool_views(found[i].1@),
        ),
        0 <= i < regs.len() ==> registrations(regs)[i] == (
            regs[i].server as int,
            regs[i].tool as int,
            regs[i].client,
        ),
{
}

/// The outcome of an attempt is its error, where it failed, and nothing where it
/// did not.
pub proof fn law_attempts_stand_for_their_error(a: Result<(), AgentError>)
    ensures
        a is Ok <==> attempt_error(a) is None,
        a matches Err(e) ==> attempt_error(a) == Some(e@),
{
}

} // verus!
