//! Paginated search state.
//!
//! The state machine owns the query text, offset and limit. The triple
//! (query text, offset, limit) is the fetch key; whenever it changes, the
//! generation counter advances and one fetch is owed for the new key.
//! A response carrying a stale generation is discarded, so a late result
//! for an old key never overwrites state produced by a newer key.
//!
//! The pure pagination navigator maps a navigation intent to a new
//! offset; callers clamp the raw target into `[0, max(0, total - 1)]`
//! before applying it, which this module's `apply_navigation` does.

use vstd::prelude::*;

verus! {

/// A pagination intent.
pub enum Navigation {
    First,
    Last,
    Next,
    Previous,
    Page(u64),
}

/// The raw, unclamped offset a navigation intent asks for. `Page(0)`
/// yields `-1` under the page formula; callers clamp.
pub open spec fn nav_target(nav: Navigation, offset: int, limit: int, total: int) -> int {
    match nav {
        Navigation::First => 0,
        Navigation::Last => total - limit,
        Navigation::Next => offset + limit,
        Navigation::Previous => offset - limit,
        Navigation::Page(n) => limit * n - 1,
    }
}

/// A raw navigation target clamped into `[0, max(0, total - 1)]`.
pub open spec fn clamp_offset(raw: int, total: int) -> int {
    if total <= 0 {
        0
    } else if raw < 0 {
        0
    } else if raw >= total {
        total - 1
    } else {
        raw
    }
}

/// A clamped target is a valid offset: whenever the total is known and
/// nonzero, the offset navigation applies stays below it.
pub proof fn lemma_clamp_in_range(raw: int, total: int)
    requires
        total > 0,
    ensures
        0 <= clamp_offset(raw, total) < total,
{
}

/// Pure pagination navigator: the raw target offset for an intent. It
/// does not clamp; the caller is responsible for clamping the result.
pub fn navigate(nav: &Navigation, offset: u64, limit: u64, total: u64) -> (r: i128)
    requires
        *nav matches Navigation::Page(n) ==> limit * n <= u64::MAX,
    ensures
        r == nav_target(*nav, offset as int, limit as int, total as int),
{
    match nav {
        Navigation::First => 0,
        Navigation::Last => total as i128 - limit as i128,
        Navigation::Next => offset as i128 + limit as i128,
        Navigation::Previous => offset as i128 - limit as i128,
        Navigation::Page(n) => {
            proof {
                assert(limit as i128 * *n as i128 == limit * *n) by (nonlinear_arith);
                assert(limit * *n >= 0) by (nonlinear_arith);
            }
            limit as i128 * *n as i128 - 1
        },
    }
}

/// Clamp a raw navigation target into the valid offset range.
pub fn clamp_nav_offset(raw: i128, total: u64) -> (r: u64)
    ensures
        r == clamp_offset(raw as int, total as int),
{
    if total == 0 {
        0
    } else if raw < 0 {
        0
    } else if raw >= total as i128 {
        total - 1
    } else {
        raw as u64
    }
}

/// One row of a search result, as plain values.
pub struct PackageSummary {
    pub name: String,
    pub supplier: String,
    pub description: String,
    pub dependents: u64,
    pub vulnerabilities: u64,
    pub purl: String,
    pub sboms: Vec<String>,
}

/// What the search collaborator returned: the rows of the current page
/// and, where the backend reports it, the total number of matches.
pub struct SearchResult {
    pub items: Vec<PackageSummary>,
    pub total: Option<u64>,
}

/// The most recent fetch outcome for the current fetch key.
pub enum FetchOutcome {
    Pending,
    Success { result: SearchResult },
    Failure { message: String },
}

/// The search query state: the submitted query text, the draft in the
/// input field, the pagination window, the fetch generation, and the
/// latest outcome.
pub struct SearchState {
    pub query_text: String,
    pub draft: String,
    pub offset: u64,
    pub limit: u64,
    pub generation: u64,
    pub total: Option<u64>,
    pub outcome: FetchOutcome,
}

impl SearchState {
    /// The initial state. The query text is resolved in priority order:
    /// an explicitly supplied query, then text restored from persisted
    /// history state, then the empty string. Generation 0 is the first
    /// fetch key, already owed.
    pub fn new(explicit_query: Option<String>, persisted: Option<String>) -> (s: SearchState)
        ensures
            s.query_text@ == match explicit_query {
                Option::Some(q) => q@,
                Option::None => match persisted {
                    Option::Some(p) => p@,
                    Option::None => Seq::<char>::empty(),
                },
            },
            s.draft@ == s.query_text@,
            s.offset == 0,
            s.limit == 10,
            s.generation == 0,
            s.total is None,
            s.outcome is Pending,
    {
        let query_text = match explicit_query {
            Option::Some(q) => q,
            Option::None => match persisted {
                Option::Some(p) => p,
                Option::None => String::new(),
            },
        };
        let draft = query_text.clone();
        SearchState {
            query_text,
            draft,
            offset: 0,
            limit: 10,
            generation: 0,
            total: Option::None,
            outcome: FetchOutcome::Pending,
        }
    }

    /// Edit the draft text. Only the draft changes: editing does not
    /// submit.
    pub fn set_draft(&mut self, text: String)
        ensures
            final(self).draft == text,
            final(self).query_text == old(self).query_text,
            final(self).offset == old(self).offset,
            final(self).limit == old(self).limit,
            final(self).generation == old(self).generation,
            final(self).total == old(self).total,
            final(self).outcome == old(self).outcome,
    {
        self.draft = text;
    }

    /// Clear the draft text. Clearing does not submit.
    pub fn clear_draft(&mut self)
        ensures
            final(self).draft@ == Seq::<char>::empty(),
            final(self).query_text == old(self).query_text,
            final(self).offset == old(self).offset,
            final(self).limit == old(self).limit,
            final(self).generation == old(self).generation,
            final(self).total == old(self).total,
            final(self).outcome == old(self).outcome,
    {
        self.draft = String::new();
    }

    /// Submit the draft as the query text. Where the text changes, the
    /// fetch key changes: a new fetch is owed and the new text must be
    /// written to the history collaborator, which the returned value
    /// asks the caller to do (replace, not push).
    pub fn submit(&mut self) -> (persist: Option<String>)
        requires
            old(self).generation < u64::MAX,
        ensures
            old(self).draft@ == old(self).query_text@ ==> *final(self) == *old(self) && persist
                is None,
            old(self).draft@ != old(self).query_text@ ==> {
                &&& final(self).query_text == old(self).draft
                &&& final(self).draft == old(self).draft
                &&& final(self).offset == old(self).offset
                &&& final(self).limit == old(self).limit
                &&& final(self).generation == old(self).generation + 1
                &&& final(self).total == old(self).total
                &&& final(self).outcome is Pending
                &&& persist matches Some(p) && p@ == old(self).draft@
            },
    {
        if self.draft.eq(&self.query_text) {
            return Option::None;
        }
        self.query_text = self.draft.clone();
        self.generation = self.generation + 1;
        self.outcome = FetchOutcome::Pending;
        Option::Some(self.query_text.clone())
    }

    /// Change the page size. Where it differs from the current one, the
    /// fetch key changes and a new fetch is owed.
    pub fn set_limit(&mut self, limit: u64)
        requires
            limit > 0,
            old(self).generation < u64::MAX,
        ensures
            limit == old(self).limit ==> *final(self) == *old(self),
            limit != old(self).limit ==> {
                &&& final(self).limit == limit
                &&& final(self).query_text == old(self).query_text
                &&& final(self).draft == old(self).draft
                &&& final(self).offset == old(self).offset
                &&& final(self).generation == old(self).generation + 1
                &&& final(self).total == old(self).total
                &&& final(self).outcome is Pending
            },
    {
        if limit == self.limit {
            return ;
        }
        self.limit = limit;
        self.generation = self.generation + 1;
        self.outcome = FetchOutcome::Pending;
    }

    /// Apply a navigation intent. With no known total the intent is
    /// inert. Otherwise the raw navigator target is clamped into the
    /// valid range and applied; where the offset changes, the fetch key
    /// changes and a new fetch is owed.
    pub fn apply_navigation(&mut self, nav: &Navigation)
        requires
            old(self).generation < u64::MAX,
        ensures
            old(self).total is None ==> *final(self) == *old(self),
            old(self).total matches Some(t) ==> {
                let target = clamp_offset(
                    nav_target(*nav, old(self).offset as int, old(self).limit as int, t as int),
                    t as int,
                );
                &&& final(self).offset == target
                &&& final(self).query_text == old(self).query_text
                &&& final(self).draft == old(self).draft
                &&& final(self).limit == old(self).limit
                &&& final(self).total == old(self).total
                &&& (target == old(self).offset as int ==> final(self).generation == old(
                    self,
                ).generation && final(self).outcome == old(self).outcome)
                &&& (target != old(self).offset as int ==> final(self).generation == old(
                    self,
                ).generation + 1 && final(self).outcome is Pending)
            },
    {
        let t = match self.total {
            Option::None => {
                return ;
            },
            Option::Some(t) => t,
        };
        let target: u64 = match nav {
            Navigation::First => clamp_nav_offset(0, t),
            Navigation::Last => clamp_nav_offset(t as i128 - self.limit as i128, t),
            Navigation::Next => clamp_nav_offset(self.offset as i128 + self.limit as i128, t),
            Navigation::Previous => clamp_nav_offset(
                self.offset as i128 - self.limit as i128,
                t,
            ),
            Navigation::Page(n) => {
                proof {
                    assert((self.limit as int) * (*n as int) <= (u64::MAX as int) * (
                    u64::MAX as int) && (self.limit as int) * (*n as int) >= 0) by (nonlinear_arith)
                        requires
                            0 <= self.limit as int <= u64::MAX as int,
                            0 <= *n as int <= u64::MAX as int,
                    ;
                }
                let raw: u128 = (self.limit as u128) * (*n as u128);
                if raw == 0 {
                    clamp_nav_offset(-1, t)
                } else if raw - 1 >= t as u128 {
                    if t == 0 {
                        0
                    } else {
                        t - 1
                    }
                } else {
                    clamp_nav_offset((raw - 1) as i128, t)
                }
            },
        };
        if target == self.offset {
            return ;
        }
        self.offset = target;
        self.generation = self.generation + 1;
        self.outcome = FetchOutcome::Pending;
    }

    /// Apply a fetch outcome that arrived for the given generation. A
    /// stale generation is discarded silently: the state reflects only
    /// the newest fetch key's outcome. A successful outcome records the
    /// total the backend reported.
    pub fn apply_fetch(&mut self, generation: u64, outcome: FetchOutcome)
        ensures
            generation != old(self).generation ==> *final(self) == *old(self),
            generation == old(self).generation ==> {
                &&& final(self).outcome == outcome
                &&& final(self).total == match outcome {
                    FetchOutcome::Success { result } => result.total,
                    _ => old(self).total,
                }
                &&& final(self).query_text == old(self).query_text
                &&& final(self).draft == old(self).draft
                &&& final(self).offset == old(self).offset
                &&& final(self).limit == old(self).limit
                &&& final(self).generation == old(self).generation
            },
    {
        if generation != self.generation {
            return ;
        }
        let total = match &outcome {
            FetchOutcome::Success { result } => result.total,
            _ => self.total,
        };
        self.total = total;
        self.outcome = outcome;
    }
}

} // verus!
