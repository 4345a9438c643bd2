//! The token budget of cooperating agents: a total and a per-agent limit, the
//! consumption reported so far, and the check made before a model call.
use vstd::prelude::*;
use crate::assoc::{keys_distinct, has_key, lookup, assoc_insert, key_index, lemma_lookup, lemma_lookup_insert, find_key};
use crate::json::{decimal_text, u64_text};
use crate::text::{concat, ToOwnedString};

verus! {

/// The limits of a budget; a limit of 0 means unlimited.
#[derive(Debug, Clone, Copy, PartialEq, Eq, Structural)]
pub struct BudgetConfig {
    /// Tokens for all agents together.
    pub total_budget: u32,
    /// Tokens for each agent.
    pub per_agent_budget: u32,
    /// The deepest an agent may delegate.
    pub max_depth: u32,
}

/// The default delegation depth.
pub fn default_max_depth() -> (d: u32)
    ensures
        d == 3,
{
    3
}

impl Default for BudgetConfig {
    fn default() -> (c: BudgetConfig)
        ensures
            c.total_budget == 0,
            c.per_agent_budget == 0,
            c.max_depth == 3,
    {
        BudgetConfig { total_budget: 0, per_agent_budget: 0, max_depth: default_max_depth() }
    }
}

/// What has been consumed of a budget.
#[derive(Debug)]
pub struct BudgetStatus {
    pub total_budget: u32,
    pub total_consumed: u32,
    /// Tokens reported by each agent, in the order agents first reported.
    pub per_agent: Vec<(String, u32)>,
    /// What is left of the total budget; `u32::MAX` when it is unlimited.
    pub remaining: u32,
}

/// Why a request for tokens was refused.
#[derive(Debug)]
pub enum BudgetError {
    /// The request would take the total over its limit.
    OverBudget { agent: String, requested: u32, remaining: u32 },
    /// The request would take the agent over its limit.
    PerAgentOverBudget { agent: String, requested: u32, consumed: u32, limit: u32 },
    /// A delegation would go deeper than allowed.
    DepthExceeded { agent: String, current_depth: u32, max_depth: u32 },
}

/// The text of a budget error.
pub open spec fn budget_error_text(e: BudgetError) -> Seq<char> {
    match e {
        BudgetError::OverBudget { agent, requested, remaining } => "Agent '"@ + agent@
            + "': over total budget (requested "@ + decimal_text(requested as nat) + ", remaining "@
            + decimal_text(remaining as nat) + ")"@,
        BudgetError::PerAgentOverBudget { agent, requested, consumed, limit } => "Agent '"@ + agent@
            + "': over per-agent budget (requested "@ + decimal_text(requested as nat) + ", consumed "@
            + decimal_text(consumed as nat) + "/"@ + decimal_text(limit as nat) + ")"@,
        BudgetError::DepthExceeded { agent, current_depth, max_depth } => "Agent '"@ + agent@
            + "': delegation depth "@ + decimal_text(current_depth as nat) + " exceeds max "@ + decimal_text(
            max_depth as nat,
        ),
    }
}

impl BudgetError {
    /// The error as displayed.
    pub fn to_string(&self) -> (s: String)
        ensures
            s@ == budget_error_text(*self),
    {
        match self {
            BudgetError::OverBudget { agent, requested, remaining } => {
                let mut s = concat("Agent '", agent.as_str());
                s.append("': over total budget (requested ");
                s.append(u64_text(*requested as u64).as_str());
                s.append(", remaining ");
                s.append(u64_text(*remaining as u64).as_str());
                s.append(")");
                s
            },
            BudgetError::PerAgentOverBudget { agent, requested, consumed, limit } => {
                let mut s = concat("Agent '", agent.as_str());
                s.append("': over per-agent budget (requested ");
                s.append(u64_text(*requested as u64).as_str());
                s.append(", consumed ");
                s.append(u64_text(*consumed as u64).as_str());
                s.append("/");
                s.append(u64_text(*limit as u64).as_str());
                s.append(")");
                s
            },
            BudgetError::DepthExceeded { agent, current_depth, max_depth } => {
                let mut s = concat("Agent '", agent.as_str());
                s.append("': delegation depth ");
                s.append(u64_text(*current_depth as u64).as_str());
                s.append(" exceeds max ");
                s.append(u64_text(*max_depth as u64).as_str());
                s
            },
        }
    }
}

/// The tokens that `agent` has reported: 0 when it has reported none.
pub open spec fn consumed_of(per_agent: Seq<(Seq<char>, u32)>, agent: Seq<char>) -> u32 {
    match lookup(per_agent, agent) {
        Some(n) => n,
        None => 0,
    }
}

/// Whether a request of `n` tokens is granted to an agent that has reported
/// `consumed` tokens, when `total` tokens are counted against the total:
/// neither a per-agent limit nor a total limit would be exceeded.
pub open spec fn budget_grants(cfg: BudgetConfig, consumed: int, total: int, n: int) -> bool {
    &&& !(cfg.per_agent_budget > 0 && consumed + n > cfg.per_agent_budget)
    &&& !(cfg.total_budget > 0 && total + n > cfg.total_budget)
}

/// Of two requests that would together exceed a total limit, at most one is
/// granted: once the first is granted, its tokens count against the total,
/// and the second is refused.
pub proof fn law_two_requests_one_granted(cfg: BudgetConfig, c1: int, c2: int, total: int, n1: int, n2: int)
    requires
        cfg.total_budget > 0,
        total + n1 + n2 > cfg.total_budget,
        n1 >= 0,
        n2 >= 0,
    ensures
        budget_grants(cfg, c1, total, n1) ==> !budget_grants(cfg, c2, total + n1, n2),
        budget_grants(cfg, c2, total, n2) ==> !budget_grants(cfg, c1, total + n2, n1),
{
}

/// The tokens consumed by agents, and the check of requests against the limits.
/// The caller serialises access.
pub struct BudgetController {
    config: BudgetConfig,
    total_consumed: u32,
    per_agent: Vec<(String, u32)>,
}

impl BudgetController {
    /// The limits.
    pub closed spec fn limits(&self) -> BudgetConfig {
        self.config
    }

    /// The tokens counted against the total: reported, plus those granted by
    /// `acquire` under a total limit.
    pub closed spec fn total(&self) -> u32 {
        self.total_consumed
    }

    /// The tokens each agent has reported, in the order agents first reported.
    pub closed spec fn per_agent(&self) -> Seq<(Seq<char>, u32)> {
        self.per_agent@.map_values(|p: (String, u32)| (p.0@, p.1))
    }

    /// No agent is counted twice.
    pub open spec fn wf(&self) -> bool {
        keys_distinct(self.per_agent())
    }

    /// A controller with nothing consumed.
    pub fn new(config: BudgetConfig) -> (c: Self)
        ensures
            c.wf(),
            c.limits() == config,
            c.total() == 0,
            c.per_agent().len() == 0,
    {
        let c = BudgetController { config, total_consumed: 0, per_agent: Vec::new() };
        assert(c.per_agent() =~= Seq::<(Seq<char>, u32)>::empty());
        c
    }

    /// The limits.
    pub fn config(&self) -> (c: &BudgetConfig)
        ensures
            *c == self.limits(),
    {
        &self.config
    }

    /// The tokens `agent` has reported.
    fn consumed(&self, agent: &str) -> (n: u32)
        requires
            self.wf(),
        ensures
            n == consumed_of(self.per_agent(), agent@),
    {
        proof {
            lemma_lookup(self.per_agent(), agent@);
        }
        match find_key(&self.per_agent, agent) {
            Some(j) => {
                proof {
                    self.lemma_index(j as int, agent@);
                }
                self.per_agent[j].1
            },
            None => {
                proof {
                    self.lemma_absent(agent@);
                }
                0
            },
        }
    }

    /// The position found for an agent is the one the model chooses for it.
    proof fn lemma_index(&self, j: int, agent: Seq<char>)
        requires
            self.wf(),
            0 <= j < self.per_agent@.len(),
            self.per_agent@[j].0@ == agent,
        ensures
            has_key(self.per_agent(), agent),
            key_index(self.per_agent(), agent) == j,
            self.per_agent()[j] == (agent, self.per_agent@[j].1),
    {
        let ps = self.per_agent();
        assert(ps[j].0 == agent);
        let c = key_index(ps, agent);
        if c != j {
            if c < j {
                assert(ps[c].0 != ps[j].0);
            } else {
                assert(ps[j].0 != ps[c].0);
            }
        }
    }

    /// An agent with no count is not a key of the model.
    proof fn lemma_absent(&self, agent: Seq<char>)
        requires
            forall|j: int| 0 <= j < self.per_agent@.len() ==> (#[trigger] self.per_agent@[j]).0@ != agent,
        ensures
            !has_key(self.per_agent(), agent),
    {
        if has_key(self.per_agent(), agent) {
            let c = key_index(self.per_agent(), agent);
            assert(self.per_agent@[c].0@ == agent);
        }
    }

    /// Checks a request of `estimated_tokens` for `agent` against the limits.
    ///
    /// `r is Ok` exactly when `budget_grants` holds of the state before.
    ///
    /// Refused with `PerAgentOverBudget` when the agent's reported tokens plus
    /// the request exceed a per-agent limit, else with `OverBudget` when the
    /// total plus the request exceed a total limit. When granted under a total
    /// limit, the request is counted against the total at once.
    pub fn acquire(&mut self, agent: &str, estimated_tokens: u32) -> (r: Result<(), BudgetError>)
        requires
            old(self).wf(),
            old(self).limits().per_agent_budget > 0 ==> consumed_of(old(self).per_agent(), agent@)
                + estimated_tokens <= u32::MAX,
            old(self).limits().total_budget > 0 ==> old(self).total() + estimated_tokens <= u32::MAX,
        ensures
            final(self).wf(),
            final(self).limits() == old(self).limits(),
            final(self).per_agent() == old(self).per_agent(),
            old(self).limits().total_budget == 0 && old(self).limits().per_agent_budget == 0 ==> r is Ok,
            r is Ok <==> budget_grants(
                old(self).limits(),
                consumed_of(old(self).per_agent(), agent@) as int,
                old(self).total() as int,
                estimated_tokens as int,
            ),
            old(self).limits().total_budget > 0 && old(self).total() <= old(self).limits().total_budget
                ==> final(self).total() <= final(self).limits().total_budget,
            ({
                let cfg = old(self).limits();
                let c = consumed_of(old(self).per_agent(), agent@);
                let per_agent_over = cfg.per_agent_budget > 0 && c + estimated_tokens > cfg.per_agent_budget;
                let total_over = cfg.total_budget > 0 && old(self).total() + estimated_tokens > cfg.total_budget;
                match r {
                    Ok(()) => !per_agent_over && !total_over && final(self).total() == (if cfg.total_budget > 0 {
                        (old(self).total() + estimated_tokens) as u32
                    } else {
                        old(self).total()
                    }),
                    Err(BudgetError::PerAgentOverBudget { agent: a, requested, consumed, limit }) => per_agent_over
                        && a@ == agent@ && requested == estimated_tokens && consumed == c && limit
                        == cfg.per_agent_budget && final(self).total() == old(self).total(),
                    Err(BudgetError::OverBudget { agent: a, requested, remaining }) => !per_agent_over && total_over
                        && a@ == agent@ && requested == estimated_tokens && remaining == (if old(self).total()
                        < cfg.total_budget {
                        (cfg.total_budget - old(self).total()) as u32
                    } else {
                        0u32
                    }) && final(self).total() == old(self).total(),
                    Err(BudgetError::DepthExceeded { .. }) => false,
                }
            }),
    {
        if self.config.per_agent_budget > 0 {
            let consumed = self.consumed(agent);
            if consumed + estimated_tokens > self.config.per_agent_budget {
                return Err(
                    BudgetError::PerAgentOverBudget {
                        agent: agent.to_owned_string(),
                        requested: estimated_tokens,
                        consumed,
                        limit: self.config.per_agent_budget,
                    },
                );
            }
        }
        if self.config.total_budget > 0 {
            let current = self.total_consumed;
            if current + estimated_tokens > self.config.total_budget {
                let remaining = if current < self.config.total_budget {
                    self.config.total_budget - current
                } else {
                    0
                };
                return Err(
                    BudgetError::OverBudget { agent: agent.to_owned_string(), requested: estimated_tokens, remaining },
                );
            }
            self.total_consumed = current + estimated_tokens;
        }
        Ok(())
    }

    /// Records `actual_tokens` consumed by `agent`: added to the agent's count
    /// and, wrapping around at `u32::MAX` as the counter does, to the total.
    pub fn report(&mut self, agent: &str, actual_tokens: u32)
        requires
            old(self).wf(),
            consumed_of(old(self).per_agent(), agent@) + actual_tokens <= u32::MAX,
        ensures
            final(self).wf(),
            final(self).limits() == old(self).limits(),
            final(self).total() == (old(self).total() + actual_tokens) % 0x1_0000_0000,
            final(self).per_agent() == assoc_insert(
                old(self).per_agent(),
                agent@,
                (consumed_of(old(self).per_agent(), agent@) + actual_tokens) as u32,
            ),
    {
        self.total_consumed = self.total_consumed.wrapping_add(actual_tokens);
        let ghost old_ps = self.per_agent();
        proof {
            lemma_lookup(old_ps, agent@);
        }
        match find_key(&self.per_agent, agent) {
            Some(j) => {
                proof {
                    self.lemma_index(j as int, agent@);
                }
                let k = self.per_agent[j].0.clone();
                let n = self.per_agent[j].1 + actual_tokens;
                self.per_agent.set(j, (k, n));
                assert(self.per_agent() =~= old_ps.update(j as int, (agent@, n)));
            },
            None => {
                proof {
                    self.lemma_absent(agent@);
                }
                self.per_agent.push((agent.to_owned_string(), actual_tokens));
                assert(self.per_agent() =~= old_ps.push((agent@, actual_tokens)));
            },
        }
        proof {
            lemma_lookup_insert(old_ps, agent@, (consumed_of(old_ps, agent@) + actual_tokens) as u32);
        }
    }

    /// The consumption so far and what is left of the total.
    pub fn status(&self) -> (s: BudgetStatus)
        ensures
            s.total_budget == self.limits().total_budget,
            s.total_consumed == self.total(),
            s.per_agent@.map_values(|p: (String, u32)| (p.0@, p.1)) == self.per_agent(),
            s.remaining == (if self.limits().total_budget == 0 {
                u32::MAX
            } else if self.total() < self.limits().total_budget {
                (self.limits().total_budget - self.total()) as u32
            } else {
                0u32
            }),
    {
        let remaining = if self.config.total_budget == 0 {
            u32::MAX
        } else if self.total_consumed < self.config.total_budget {
            self.config.total_budget - self.total_consumed
        } else {
            0
        };
        let mut per_agent: Vec<(String, u32)> = Vec::new();
        let mut i: usize = 0;
        while i < self.per_agent.len()
            invariant
                i <= self.per_agent.len(),
                per_agent@.map_values(|p: (String, u32)| (p.0@, p.1)) == self.per_agent().subrange(0, i as int),
            decreases self.per_agent.len() - i,
        {
            let ghost prev = per_agent@;
            let name = self.per_agent[i].0.clone();
            per_agent.push((name, self.per_agent[i].1));
            assert(per_agent@ == prev.push((name, self.per_agent@[i as int].1)));
            assert(self.per_agent()[i as int] == (self.per_agent@[i as int].0@, self.per_agent@[i as int].1));
            assert(self.per_agent().subrange(0, i + 1) =~= self.per_agent().subrange(0, i as int).push(
                self.per_agent()[i as int],
            ));
            assert(per_agent@.map_values(|p: (String, u32)| (p.0@, p.1)) =~= self.per_agent().subrange(0, i + 1));
            i = i + 1;
        }
        assert(self.per_agent().subrange(0, i as int) =~= self.per_agent());
        BudgetStatus { total_budget: self.config.total_budget, total_consumed: self.total_consumed, per_agent, remaining }
    }
}

// ---------------------------------------------------------------------------
// Reports
// ---------------------------------------------------------------------------

/// The lines that describe a budget and what has been consumed of it.
pub open spec fn budget_report(config: BudgetConfig, status: BudgetStatus) -> Seq<Seq<char>> {
    seq![
        if status.total_budget == 0 {
            "预算: 无限制"@
        } else {
            "预算: "@ + decimal_text(status.total_consumed as nat) + "/"@ + decimal_text(status.total_budget as nat)
                + " tokens (剩余 "@ + decimal_text(status.remaining as nat) + ")"@
        },
        if config.per_agent_budget == 0 {
            "每 Agent 上限: 无限制"@
        } else {
            "每 Agent 上限: "@ + decimal_text(config.per_agent_budget as nat) + " tokens"@
        },
        "最大递归深度: "@ + decimal_text(config.max_depth as nat),
    ]
}

/// Describes a budget and what has been consumed of it.
pub fn budget_report_lines(config: &BudgetConfig, status: &BudgetStatus) -> (r: Vec<String>)
    ensures
        crate::text::views(r@) == budget_report(*config, *status),
{
    let first = if status.total_budget == 0 {
        "预算: 无限制".to_owned_string()
    } else {
        let mut l = concat("预算: ", u64_text(status.total_consumed as u64).as_str());
        l.append("/");
        l.append(u64_text(status.total_budget as u64).as_str());
        l.append(" tokens (剩余 ");
        l.append(u64_text(status.remaining as u64).as_str());
        l.append(")");
        l
    };
    let second = if config.per_agent_budget == 0 {
        "每 Agent 上限: 无限制".to_owned_string()
    } else {
        let mut l = concat("每 Agent 上限: ", u64_text(config.per_agent_budget as u64).as_str());
        l.append(" tokens");
        l
    };
    let third = concat("最大递归深度: ", u64_text(config.max_depth as u64).as_str());
    let r = vec![first, second, third];
    assert(crate::text::views(r@) =~= budget_report(*config, *status)) by {
        assert(r@[0]@ == budget_report(*config, *status)[0]);
        assert(r@[1]@ == budget_report(*config, *status)[1]);
        assert(r@[2]@ == budget_report(*config, *status)[2]);
    }
    r
}

/// The lines that report the tokens consumed by a run: the total (against the
/// budget when there is one; nothing when unlimited and nothing was consumed),
/// then each agent's share.
pub open spec fn consumption_report(status: BudgetStatus) -> Seq<Seq<char>> {
    (if status.total_budget > 0 {
        seq!["📊 Token 消耗: "@ + decimal_text(status.total_consumed as nat) + "/"@ + decimal_text(status.total_budget as nat)]
    } else if status.total_consumed > 0 {
        seq!["📊 Token 消耗: "@ + decimal_text(status.total_consumed as nat) + " (无预算上限)"@]
    } else {
        Seq::empty()
    }) + status.per_agent@.map_values(
        |p: (String, u32)| "   - "@ + p.0@ + ": "@ + decimal_text(p.1 as nat) + " tokens"@,
    )
}

/// Reports the tokens consumed by a run.
pub fn consumption_report_lines(status: &BudgetStatus) -> (r: Vec<String>)
    ensures
        crate::text::views(r@) == consumption_report(*status),
{
    let mut r: Vec<String> = Vec::new();
    if status.total_budget > 0 {
        let mut l = concat("📊 Token 消耗: ", u64_text(status.total_consumed as u64).as_str());
        l.append("/");
        l.append(u64_text(status.total_budget as u64).as_str());
        r.push(l);
    } else if status.total_consumed > 0 {
        let mut l = concat("📊 Token 消耗: ", u64_text(status.total_consumed as u64).as_str());
        l.append(" (无预算上限)");
        r.push(l);
    }
    let ghost head = crate::text::views(r@);
    let ghost lines = status.per_agent@.map_values(
        |p: (String, u32)| "   - "@ + p.0@ + ": "@ + decimal_text(p.1 as nat) + " tokens"@,
    );
    let mut i: usize = 0;
    while i < status.per_agent.len()
        invariant
            i <= status.per_agent.len(),
            lines == status.per_agent@.map_values(
                |p: (String, u32)| "   - "@ + p.0@ + ": "@ + decimal_text(p.1 as nat) + " tokens"@,
            ),
            r@.len() == head.len() + i,
            forall|k: int| 0 <= k < head.len() ==> (#[trigger] r@[k])@ == head[k],
            forall|k: int| 0 <= k < i ==> (#[trigger] r@[head.len() + k])@ == lines[k],
        decreases status.per_agent.len() - i,
    {
        let mut l = concat("   - ", status.per_agent[i].0.as_str());
        l.append(": ");
        l.append(u64_text(status.per_agent[i].1 as u64).as_str());
        l.append(" tokens");
        r.push(l);
        i = i + 1;
    }
    assert forall|m: int| 0 <= m < r@.len() implies crate::text::views(r@)[m] == (head + lines)[m] by {
        if m >= head.len() {
            assert(r@[head.len() + (m - head.len())]@ == lines[m - head.len()]);
        }
    }
    assert(crate::text::views(r@) =~= head + lines);
    r
}

} // verus!
