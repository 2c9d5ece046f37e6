//! A plain hub: servers in a list, one connection each.

use vstd::prelude::*;
use crate::error::{copy_error, error_text, AgentError};
use crate::mcp::enhanced_hub::{found_views, ConnectionState, StateView};
use crate::mcp::types::{copy_tools, tool_views, McpServerConfig, McpToolInfo, ToolView};

verus! {

/// One server of the hub.
pub struct HubEntry {
    pub config: McpServerConfig,
    pub connected: bool,
    pub tools: Vec<McpToolInfo>,
    pub state: ConnectionState,
}

/// The mathematical value of a [`HubEntry`].
pub struct HubEntryView {
    pub config: McpServerConfig,
    pub connected: bool,
    pub tools: Seq<ToolView>,
    pub state: StateView,
}

impl View for HubEntry {
    type V = HubEntryView;

    open spec fn view(&self) -> HubEntryView {
        HubEntryView {
            config: self.config,
            connected: self.connected,
            tools: tool_views(self.tools@),
            state: self.state@,
        }
    }
}

/// A hub of servers, in the order they were added.
pub struct McpHub {
    pub servers: Vec<HubEntry>,
}

pub open spec fn hub_views(s: Seq<HubEntry>) -> Seq<HubEntryView> {
    Seq::new(s.len(), |i: int| s[i]@)
}

/// A server that nothing has been done with.
pub open spec fn fresh(config: McpServerConfig) -> HubEntryView {
    HubEntryView {
        config,
        connected: false,
        tools: Seq::empty(),
        state: StateView::Disconnected,
    }
}

/// How many attempts come before the first that failed.
pub open spec fn connected_count(attempts: Seq<Result<(), AgentError>>) -> nat
    decreases attempts.len(),
{
    if attempts.len() > 0 && attempts[0] is Ok {
        1 + connected_count(attempts.drop_first())
    } else {
        0
    }
}

/// A server after its tools were asked for.
pub open spec fn after_listing(
    e: HubEntryView,
    outcome: Result<Vec<McpToolInfo>, AgentError>,
) -> HubEntryView {
    match outcome {
        Ok(t) => HubEntryView { tools: tool_views(t@), ..e },
        Err(x) => HubEntryView { state: StateView::Failed(error_text(x@)), ..e },
    }
}

/// The tools found among the first `n` servers, by the server's name: those of
/// every connected server that answered.
pub open spec fn listed(
    s: Seq<HubEntryView>,
    outcomes: Seq<Result<Vec<McpToolInfo>, AgentError>>,
    n: int,
) -> Seq<(Seq<char>, Seq<ToolView>)>
    decreases n,
{
    if n <= 0 || n > s.len() {
        Seq::empty()
    } else if s[n - 1].connected && outcomes[n - 1] is Ok {
        listed(s, outcomes, n - 1).push(
            (s[n - 1].config.name@, tool_views((outcomes[n - 1]->Ok_0)@)),
        )
    } else {
        listed(s, outcomes, n - 1)
    }
}

/// The servers after all of them were asked for their tools.
pub open spec fn after_all_listings(
    s: Seq<HubEntryView>,
    outcomes: Seq<Result<Vec<McpToolInfo>, AgentError>>,
) -> Seq<HubEntryView> {
    Seq::new(
        s.len(),
        |i: int|
            if s[i].connected {
                after_listing(s[i], outcomes[i])
            } else {
                s[i]
            },
    )
}

/// The tools to offer among the first `n` servers: every tool of every server
/// that is connected, as the positions of server and tool.
pub open spec fn offered(s: Seq<HubEntryView>, n: int) -> Seq<(int, int)>
    decreases n,
{
    if n <= 0 || n > s.len() {
        Seq::empty()
    } else if s[n - 1].connected {
        offered(s, n - 1) + Seq::new(s[n - 1].tools.len(), |j: int| (n - 1, j))
    } else {
        offered(s, n - 1)
    }
}

pub open spec fn pair_views(v: Seq<(usize, usize)>) -> Seq<(int, int)> {
    Seq::new(v.len(), |i: int| (v[i].0 as int, v[i].1 as int))
}

impl McpHub {
    /// The servers.
    pub open spec fn entries(&self) -> Seq<HubEntryView> {
        hub_views(self.servers@)
    }

    pub fn new() -> (r: Self)
        ensures
            r.entries() == Seq::<HubEntryView>::empty(),
    {
        let r = McpHub { servers: Vec::new() };
        assert(r.entries() =~= Seq::empty());
        r
    }

    /// Adds a server behind the others.
    pub fn add_server(&mut self, config: McpServerConfig)
        ensures
            final(self).entries() == old(self).entries().push(fresh(config)),
    {
        let ghost before = self.entries();
        let e = HubEntry {
            config,
            connected: false,
            tools: Vec::new(),
            state: ConnectionState::Disconnected,
        };
        assert(e@.tools =~= Seq::empty());
        self.servers.push(e);
        assert(self.entries() =~= before.push(fresh(config)));
    }

    /// Connects to the servers in order, up to the first failure, where
    /// `attempts` holds what trying came to: every server before the failure
    /// is connected, the others are as they were, and the failure is returned.
    pub fn connect_all(&mut self, attempts: &Vec<Result<(), AgentError>>) -> (r: Result<
        (),
        AgentError,
    >)
        requires
            attempts@.len() <= old(self).servers@.len(),
            connected_count(attempts@) == old(self).servers@.len() || connected_count(attempts@)
                < attempts@.len(),
        ensures
            ({
                let k = connected_count(attempts@) as int;
                &&& r is Ok <==> k == old(self).servers@.len()
                &&& r matches Err(e) ==> attempts@[k] == Err::<(), AgentError>(e)
                &&& final(self).entries() == Seq::new(
                    old(self).entries().len(),
                    |i: int|
                        if i < k {
                            HubEntryView {
                                connected: true,
                                state: StateView::Connected,
                                ..old(self).entries()[i]
                            }
                        } else {
                            old(self).entries()[i]
                        },
                )
            }),
    {
        let ghost before = self.entries();
        let ghost k = connected_count(attempts@) as int;
        let ghost want = Seq::new(
            before.len(),
            |i: int|
                if i < k {
                    HubEntryView { connected: true, state: StateView::Connected, ..before[i] }
                } else {
                    before[i]
                },
        );
        let total: usize = self.servers.len();
        let mut i: usize = 0;
        assert(attempts@.skip(0) == attempts@);
        while i < total && i < attempts.len()
            invariant
                total == self.servers@.len(),
                total == before.len(),
                i <= total,
                i <= attempts@.len() <= total,
                before == old(self).entries(),
                total == old(self).servers@.len(),
                k == connected_count(attempts@),
                k == i + connected_count(attempts@.skip(i as int)),
                want == Seq::new(
                    before.len(),
                    |i: int|
                        if i < k {
                            HubEntryView {
                                connected: true,
                                state: StateView::Connected,
                                ..before[i]
                            }
                        } else {
                            before[i]
                        },
                ),
                forall|j: int| 0 <= j < i ==> #[trigger] self.servers@[j]@ == want[j],
                forall|j: int| i <= j < total ==> #[trigger] self.servers@[j]@ == before[j],
            decreases total - i,
        {
            assert(attempts@.skip(i as int)[0] == attempts@[i as int]);
            assert(attempts@.skip(i as int).drop_first() == attempts@.skip(i + 1));
            assert(self.servers@[i as int]@ == before[i as int]);
            match &attempts[i] {
                Ok(_) => {
                    let entry = &mut self.servers[i];
                    entry.connected = true;
                    entry.state = ConnectionState::Connected;
                },
                Err(e) => {
                    assert(k == i);
                    assert(self.entries() =~= want);
                    return Err(copy_error(e));
                },
            }
            i += 1;
        }
        assert(attempts@.skip(i as int).len() == 0 || i == total);
        assert(k == total) by {
            if i < total {
                assert(connected_count(attempts@.skip(i as int)) == 0);
            }
        }
        assert(self.entries() =~= want);
        Ok(())
    }

    /// Takes note of what asking one server for its tools came to; a server
    /// without a connection is not asked.
    pub fn on_discovered(&mut self, i: usize, outcome: &Result<Vec<McpToolInfo>, AgentError>) -> (r:
        bool)
        requires
            i < old(self).servers@.len(),
        ensures
            r == (old(self).servers@[i as int].connected && *outcome is Ok),
            final(self).entries() == if old(self).servers@[i as int].connected {
                old(self).entries().update(
                    i as int,
                    after_listing(old(self).entries()[i as int], *outcome),
                )
            } else {
                old(self).entries()
            },
    {
        let ghost before = self.entries();
        if !self.servers[i].connected {
            return false;
        }
        let entry = &mut self.servers[i];
        match outcome {
            Ok(tools) => {
                entry.tools = copy_tools(tools);
                assert(self.entries() =~= before.update(
                    i as int,
                    after_listing(before[i as int], *outcome),
                ));
                true
            },
            Err(e) => {
                entry.state = ConnectionState::Failed(e.to_text());
                assert(self.entries() =~= before.update(
                    i as int,
                    after_listing(before[i as int], *outcome),
                ));
                false
            },
        }
    }

    /// Takes note of what asking every server for its tools came to; gives the
    /// tools found, server by server.
    pub fn discover_all(&mut self, outcomes: &Vec<Result<Vec<McpToolInfo>, AgentError>>) -> (r: Vec<
        (String, Vec<McpToolInfo>),
    >)
        requires
            outcomes@.len() == old(self).servers@.len(),
        ensures
            found_views(r@) == listed(
                old(self).entries(),
                outcomes@,
                old(self).entries().len() as int,
            ),
            final(self).entries() == after_all_listings(old(self).entries(), outcomes@),
    {
        let ghost before = self.entries();
        let total: usize = self.servers.len();
        let mut found: Vec<(String, Vec<McpToolInfo>)> = Vec::new();
        let mut i: usize = 0;
        assert(found_views(found@) =~= listed(before, outcomes@, 0));
        while i < total
            invariant
                total == before.len(),
                total == self.entries().len(),
                total == outcomes@.len(),
                i <= total,
                forall|k: int|
                    0 <= k < i ==> #[trigger] self.entries()[k] == after_all_listings(
                        before,
                        outcomes@,
                    )[k],
                forall|k: int| i <= k < total ==> #[trigger] self.entries()[k] == before[k],
                found_views(found@) == listed(before, outcomes@, i as int),
            decreases total - i,
        {
            let ghost found_before = found_views(found@);
            assert(self.entries()[i as int] == before[i as int]);
            assert(self.servers@[i as int].connected == before[i as int].connected);
            let ok = self.on_discovered(i, &outcomes[i]);
            assert(self.servers@.len() == self.entries().len());
            if ok {
                if let Ok(tools) = &outcomes[i] {
                    let item = (self.servers[i].config.name.clone(), copy_tools(tools));
                    assert(self.entries()[i as int].config == before[i as int].config);
                    assert(item.0@ == before[i as int].config.name@);
                    found.push(item);
                    assert(found_views(found@) =~= found_before.push(
                        (item.0@, tool_views(item.1@)),
                    ));
                }
            }
            i += 1;
        }
        assert(self.entries() =~= after_all_listings(before, outcomes@));
        found
    }

    /// The tools to offer, as the positions of server and tool.
    pub fn register_all(&self) -> (r: Vec<(usize, usize)>)
        ensures
            pair_views(r@) == offered(self.entries(), self.entries().len() as int),
    {
        let ghost all = self.entries();
        let mut out: Vec<(usize, usize)> = Vec::new();
        let mut i: usize = 0;
        assert(pair_views(out@) == offered(all, 0));
        while i < self.servers.len()
            invariant
                i <= self.servers@.len(),
                all == self.entries(),
                pair_views(out@) == offered(all, i as int),
            decreases self.servers@.len() - i,
        {
            let ghost start = pair_views(out@);
            if self.servers[i].connected {
                let ghost more = Seq::new(all[i as int].tools.len(), |j: int| (i as int, j));
                let mut j: usize = 0;
                assert(start + more.take(0) =~= start);
                while j < self.servers[i].tools.len()
                    invariant
                        i < self.servers@.len(),
                        all == self.entries(),
                        j <= self.servers@[i as int].tools@.len(),
                        more == Seq::new(all[i as int].tools.len(), |j: int| (i as int, j)),
                        pair_views(out@) == start + more.take(j as int),
                    decreases self.servers@[i as int].tools@.len() - j,
                {
                    let ghost so_far = pair_views(out@);
                    out.push((i, j));
                    assert(pair_views(out@) == so_far.push((i as int, j as int)));
                    assert(more.take(j + 1) == more.take(j as int).push(more[j as int]));
                    assert(start + more.take(j + 1) =~= (start + more.take(j as int)).push(
                        more[j as int],
                    ));
                    j += 1;
                }
                assert(more.take(more.len() as int) == more);
                assert(offered(all, i + 1) =~= start + more);
            }
            i += 1;
        }
        out
    }

    /// Drops all connections.
    pub fn disconnect_all(&mut self)
        ensures
            final(self).entries() == Seq::new(
                old(self).entries().len(),
                |i: int|
                    HubEntryView {
                        connected: false,
                        state: StateView::Disconnected,
                        ..old(self).entries()[i]
                    },
            ),
    {
        let ghost before = self.entries();
        let total: usize = self.servers.len();
        let mut i: usize = 0;
        while i < total
            invariant
                total == self.servers@.len(),
                total == before.len(),
                i <= total,
                forall|k: int|
                    0 <= k < i ==> #[trigger] self.servers@[k]@ == (HubEntryView {
                        connected: false,
                        state: StateView::Disconnected,
                        ..before[k]
                    }),
                forall|k: int| i <= k < total ==> #[trigger] self.servers@[k]@ == before[k],
            decreases total - i,
        {
            assert(self.servers@[i as int]@ == before[i as int]);
            let entry = &mut self.servers[i];
            entry.connected = false;
            entry.state = ConnectionState::Disconnected;
            i += 1;
        }
        assert(self.entries() =~= Seq::new(
            before.len(),
            |i: int|
                HubEntryView { connected: false, state: StateView::Disconnected, ..before[i] },
        ));
    }
}

impl Default for McpHub {
    fn default() -> (r: Self)
        ensures
            r.entries() == Seq::<HubEntryView>::empty(),
    {
        McpHub::new()
    }
}

/// After disconnecting no tool is offered.
pub proof fn law_disconnected_offers_nothing(s: Seq<HubEntryView>, n: int)
    requires
        forall|i: int| 0 <= i < s.len() ==> !(#[trigger] s[i]).connected,
    ensures
        offered(s, n).len() == 0,
    decreases n,
{
    if 0 < n <= s.len() {
        law_disconnected_offers_nothing(s, n - 1);
        assert(!s[n - 1].connected);
    }
}

/// Connecting stops at the first attempt that failed and at no other.
pub proof fn law_connecting_stops_at_the_first_failure(attempts: Seq<Result<(), AgentError>>)
    ensures
        connected_count(attempts) <= attempts.len(),
        forall|i: int| 0 <= i < connected_count(attempts) ==> #[trigger] attempts[i] is Ok,
        connected_count(attempts) < attempts.len() ==> attempts[connected_count(
            attempts,
        ) as int] is Err,
    decreases attempts.len(),
{
    if attempts.len() > 0 && attempts[0] is Ok {
        let rest = attempts.drop_first();
        law_connecting_stops_at_the_first_failure(rest);
        assert forall|i: int| 0 <= i < connected_count(attempts) implies #[trigger] attempts[i] is Ok by {
            if i > 0 {
                assert(rest[i - 1] == attempts[i]);
            }
        }
    }
}

proof fn lemma_listed_below(
    s: Seq<HubEntryView>,
    outcomes: Seq<Result<Vec<McpToolInfo>, AgentError>>,
    e: HubEntryView,
    outcome: Result<Vec<McpToolInfo>, AgentError>,
    n: int,
)
    requires
        n <= s.len(),
        s.len() == outcomes.len(),
    ensures
        listed(s.push(e), outcomes.push(outcome), n) == listed(s, outcomes, n),
    decreases n,
{
    if n > 0 {
        lemma_listed_below(s, outcomes, e, outcome, n - 1);
    }
}

/// A server adds its tools under its name to what is found exactly when it is
/// connected and answered; what the servers before it gave stays in front.
pub proof fn law_each_answer_is_found(
    s: Seq<HubEntryView>,
    outcomes: Seq<Result<Vec<McpToolInfo>, AgentError>>,
    e: HubEntryView,
    outcome: Result<Vec<McpToolInfo>, AgentError>,
)
    requires
        s.len() == outcomes.len(),
    ensures
        ({
            let n = s.len() as int;
            let before = listed(s, outcomes, n);
            let after = listed(s.push(e), outcomes.push(outcome), n + 1);
            &&& e.connected ==> (outcome matches Ok(t) ==> after == before.push(
                (e.config.name@, tool_views(t@)),
            ))
            &&& !e.connected || outcome is Err ==> after == before
        }),
        listed(s, outcomes, 0).len() == 0,
{
    lemma_listed_below(s, outcomes, e, outcome, s.len() as int);
}

/// Being asked for its tools changes a server only where it is connected: an
/// answer changes its tools alone, a failure its state alone.
pub proof fn law_asking_changes_only_what_was_asked(
    s: Seq<HubEntryView>,
    outcomes: Seq<Result<Vec<McpToolInfo>, AgentError>>,
    i: int,
)
    requires
        0 <= i < s.len(),
        s.len() == outcomes.len(),
    ensures
        ({
            let r = after_all_listings(s, outcomes);
            &&& r.len() == s.len()
            &&& r[i].config == s[i].config
            &&& r[i].connected == s[i].connected
            &&& !s[i].connected ==> r[i] == s[i]
            &&& s[i].connected ==> (outcomes[i] matches Ok(t) ==> r[i].tools == tool_views(t@)
                && r[i].state == s[i].state)
            &&& s[i].connected ==> (outcomes[i] matches Err(x) ==> r[i].tools == s[i].tools
                && r[i].state == StateView::Failed(error_text(x@)))
        }),
{
}

/// Offered is every tool of every connected server and nothing else, each once:
/// in the order of the servers, and of each server's tools.
pub proof fn law_every_tool_is_offered_once(s: Seq<HubEntryView>, n: int)
    requires
        0 <= n <= s.len(),
    ensures
        forall|i: int, j: int| #[trigger]
            offered(s, n).contains((i, j)) <==> 0 <= i < n && s[i].connected && 0 <= j
                < s[i].tools.len(),
        forall|a: int, b: int|
            0 <= a < b < offered(s, n).len() ==> {
                let x = #[trigger] offered(s, n)[a];
                let y = #[trigger] offered(s, n)[b];
                x.0 < y.0 || (x.0 == y.0 && x.1 < y.1)
            },
    decreases n,
{
    if n > 0 {
        law_every_tool_is_offered_once(s, n - 1);
        let before = offered(s, n - 1);
        let all = offered(s, n);
        if s[n - 1].connected {
            let more = Seq::new(s[n - 1].tools.len(), |j: int| (n - 1, j));
            assert forall|i: int, j: int| #[trigger]
                all.contains((i, j)) <==> 0 <= i < n && s[i].connected && 0 <= j
                    < s[i].tools.len() by {
                if all.contains((i, j)) {
                    let k = choose|k: int| 0 <= k < all.len() && all[k] == (i, j);
                    if k < before.len() {
                        assert(before[k] == (i, j));
                        assert(before.contains((i, j)));
                    } else {
                        assert(more[k - before.len()] == (i, j));
                    }
                }
                if 0 <= i < n && s[i].connected && 0 <= j < s[i].tools.len() {
                    if i < n - 1 {
                        assert(before.contains((i, j)));
                        let k = choose|k: int| 0 <= k < before.len() && before[k] == (i, j);
                        assert(all[k] == (i, j));
                    } else {
                        assert(all[before.len() + j] == more[j]);
                    }
                }
            }
            assert forall|a: int, b: int| 0 <= a < b < all.len() implies {
                let x = #[trigger] all[a];
                let y = #[trigger] all[b];
                x.0 < y.0 || (x.0 == y.0 && x.1 < y.1)
            } by {
                if a < before.len() {
                    assert(all[a] == before[a]);
                    assert(before.contains((before[a].0, before[a].1)));
                } else {
                    assert(all[a] == more[a - before.len()]);
                }
                if b < before.len() {
                    assert(all[b] == before[b]);
                } else {
                    assert(all[b] == more[b - before.len()]);
                }
            }
        }
    }
}

/// A server stands for its fields, and a pair of positions for itself.
pub proof fn law_servers_stand_for_their_fields(
    s: Seq<HubEntry>,
    pairs: Seq<(usize, usize)>,
    i: int,
)
    ensures
        hub_views(s).len() == s.len(),
        pair_views(pairs).len() == pairs.len(),
        0 <= i < s.len() ==> {
            let v = hub_views(s)[i];
            &&& v.config == s[i].config
            &&& v.connected == s[i].connected
            &&& v.tools == tool_views(s[i].tools@)
            &&& v.state == s[i].state@
        },
        0 <= i < pairs.len() ==> pair_views(pairs)[i] == (pairs[i].0 as int, pairs[i].1 as int),
{
}

} // verus!
