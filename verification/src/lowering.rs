//! Lowering of one complete condition path to firewall chains and rules.
//!
//! A path is walked from its first predicate to its last. Filters and the
//! family splitter add matches to a pending buffer; NAT nodes, the local
//! machine and the verdicts flush the buffer into a chain with one rule.

use vstd::prelude::*;
use crate::error::Error;
use crate::predicate::{lookup, path_seed, path_view, seed_of, Predicate, PredicateView};
use crate::text::{find_last, last_index_of, lemma_last_index_of, parse_u32, parse_u32_spec, str_equal};

verus! {

/// The packet field that a match looks at.
#[derive(Debug, Clone, Copy, PartialEq, Eq, Structural)]
pub enum Field {
    SourceAddress,
    DestinationAddress,
    /// Source port of a TCP or UDP segment.
    SourcePort,
    /// Destination port of a TCP or UDP segment.
    DestinationPort,
    /// The IP protocol number or name.
    Protocol,
    /// The interface a packet came in through.
    InputInterface,
    /// The interface a packet leaves through.
    OutputInterface,
    /// The network-layer family.
    Family,
}

/// How a match compares the field with its value.
#[derive(Debug, Clone, Copy, PartialEq, Eq, Structural)]
pub enum Comparison {
    Equal,
    NotEqual,
}

/// The kind of a chain.
#[derive(Debug, Clone, Copy, PartialEq, Eq, Structural)]
pub enum ChainKind {
    Filter,
    Nat,
}

/// Where a chain is attached.
#[derive(Debug, Clone, Copy, PartialEq, Eq, Structural)]
pub enum Hook {
    Input,
    Output,
}

/// What a chain does with a packet that no rule decided.
#[derive(Debug, Clone, Copy, PartialEq, Eq, Structural)]
pub enum Policy {
    Accept,
    Drop,
}

/// A chain. Chains are named by a counter; the name written out is the
/// counter in decimal.
#[derive(Debug, Clone, Copy, PartialEq, Eq, Structural)]
pub struct Chain {
    pub name: u64,
    pub kind: ChainKind,
    pub hook: Hook,
    pub policy: Policy,
}

/// A match as mathematics.
pub struct MatchView {
    pub field: Field,
    pub value: Seq<char>,
    pub op: Comparison,
}

/// A condition of a rule: a packet field compared with a value.
#[derive(Debug)]
pub struct Match {
    pub field: Field,
    pub value: String,
    pub op: Comparison,
}

impl View for Match {
    type V = MatchView;

    open spec fn view(&self) -> MatchView {
        MatchView { field: self.field, value: self.value@, op: self.op }
    }
}

impl Clone for Match {
    fn clone(&self) -> (copy: Self)
        ensures
            copy@ == self@,
    {
        Match { field: self.field, value: self.value.clone(), op: self.op }
    }
}

/// An action as mathematics.
pub enum ActionView {
    Accept,
    Drop,
    SourceNat { addr: Seq<char>, port: u32 },
    DestinationNat { addr: Seq<char>, port: u32 },
}

/// What a rule does with a packet that met all its matches.
#[derive(Debug)]
pub enum Action {
    Accept,
    Drop,
    /// Rewrite the source to this address and port.
    SourceNat { addr: String, port: u32 },
    /// Rewrite the destination to this address and port.
    DestinationNat { addr: String, port: u32 },
}

impl View for Action {
    type V = ActionView;

    open spec fn view(&self) -> ActionView {
        match self {
            Action::Accept => ActionView::Accept,
            Action::Drop => ActionView::Drop,
            Action::SourceNat { addr, port } => ActionView::SourceNat { addr: addr@, port: *port },
            Action::DestinationNat { addr, port } => ActionView::DestinationNat {
                addr: addr@,
                port: *port,
            },
        }
    }
}

/// A rule as mathematics.
pub struct RuleView {
    pub chain: u64,
    pub matches: Seq<MatchView>,
    pub action: ActionView,
}

/// A rule: the chain it belongs to, its matches in order, and its action.
#[derive(Debug)]
pub struct Rule {
    pub chain: u64,
    pub matches: Vec<Match>,
    pub action: Action,
}

/// Matches as mathematics.
pub open spec fn matches_view(matches: Seq<Match>) -> Seq<MatchView> {
    matches.map_values(|m: Match| m@)
}

impl View for Rule {
    type V = RuleView;

    open spec fn view(&self) -> RuleView {
        RuleView { chain: self.chain, matches: matches_view(self.matches@), action: self.action@ }
    }
}

/// A command as mathematics.
pub enum CommandView {
    AddTable,
    AddChain(Chain),
    AddRule(RuleView),
}

/// One command of the exported ruleset.
#[derive(Debug)]
pub enum Command {
    /// Create the table that holds every chain.
    AddTable,
    AddChain(Chain),
    AddRule(Rule),
}

impl View for Command {
    type V = CommandView;

    open spec fn view(&self) -> CommandView {
        match self {
            Command::AddTable => CommandView::AddTable,
            Command::AddChain(chain) => CommandView::AddChain(*chain),
            Command::AddRule(rule) => CommandView::AddRule(rule@),
        }
    }
}

/// Commands as mathematics.
pub open spec fn commands_view(commands: Seq<Command>) -> Seq<CommandView> {
    commands.map_values(|c: Command| c@)
}

/// The address of a NAT target: what stands before the last colon, or all of
/// it where there is no colon.
pub open spec fn target_address(target: Seq<char>) -> Seq<char> {
    match last_index_of(target, ':') {
        Some(at) => target.subrange(0, at),
        None => target,
    }
}

/// The port of a NAT target: the number after the last colon, or the whole
/// target read as a number where there is no colon.
pub open spec fn target_port(target: Seq<char>) -> Option<u32> {
    match last_index_of(target, ':') {
        Some(at) => parse_u32_spec(target.subrange(at + 1, target.len() as int)),
        None => parse_u32_spec(target),
    }
}

/// Where lowering stands between two predicates.
pub struct LowerState {
    /// Matches collected since the last flush.
    pub pending: Seq<MatchView>,
    /// Whether the walk is still on the inbound side.
    pub incoming: bool,
    /// The name of the next chain.
    pub counter: u64,
    /// The commands emitted so far.
    pub commands: Seq<CommandView>,
    /// Whether a verdict has ended the path.
    pub finished: bool,
}

/// The state before the first predicate.
pub open spec fn initial_state(seed: u64) -> LowerState {
    LowerState {
        pending: Seq::empty(),
        incoming: true,
        counter: seed,
        commands: Seq::empty(),
        finished: false,
    }
}

/// The hook on the side where the walk stands.
pub open spec fn side_hook(incoming: bool) -> Hook {
    if incoming {
        Hook::Input
    } else {
        Hook::Output
    }
}

/// The match of a filter predicate on `field`: it needs a `rule` and a
/// `filter`, and compares for equality exactly when the rule is `match`.
pub open spec fn filter_match(predicate: PredicateView, field: Field) -> Result<MatchView, Error> {
    match (lookup(predicate.params, "rule"@), lookup(predicate.params, "filter"@)) {
        (Some(rule), Some(filter)) => Ok(
            MatchView {
                field,
                value: filter,
                op: if rule == "match"@ {
                    Comparison::Equal
                } else {
                    Comparison::NotEqual
                },
            },
        ),
        _ => Err(Error::ConfigurationError),
    }
}

/// The state after one more pending match.
pub open spec fn with_match(state: LowerState, found: Result<MatchView, Error>) -> Result<
    LowerState,
    Error,
> {
    match found {
        Ok(m) => Ok(LowerState { pending: state.pending.push(m), ..state }),
        Err(e) => Err(e),
    }
}

/// The commands after a flush: a new chain named by the counter, and one rule
/// in it that holds the pending matches and ends in `action`.
pub open spec fn flushed(
    state: LowerState,
    kind: ChainKind,
    hook: Hook,
    policy: Policy,
    action: ActionView,
) -> Seq<CommandView> {
    state.commands.push(
        CommandView::AddChain(Chain { name: state.counter, kind, hook, policy }),
    ).push(CommandView::AddRule(RuleView { chain: state.counter, matches: state.pending, action }))
}

/// The state after a NAT predicate: the pending matches are flushed into a
/// NAT chain on the current side, and the walk goes on with one match on the
/// translated address.
pub open spec fn nat_step(state: LowerState, predicate: PredicateView, source: bool) -> Result<
    LowerState,
    Error,
> {
    match lookup(predicate.params, "addr"@) {
        Some(target) => match target_port(target) {
            Some(port) => {
                let addr = target_address(target);
                let action = if source {
                    ActionView::SourceNat { addr, port }
                } else {
                    ActionView::DestinationNat { addr, port }
                };
                let field = if source {
                    Field::SourceAddress
                } else {
                    Field::DestinationAddress
                };
                Ok(
                    LowerState {
                        pending: seq![MatchView { field, value: addr, op: Comparison::Equal }],
                        incoming: state.incoming,
                        counter: state.counter.wrapping_add(1),
                        commands: flushed(
                            state,
                            ChainKind::Nat,
                            side_hook(state.incoming),
                            Policy::Accept,
                            action,
                        ),
                        finished: state.finished,
                    },
                )
            },
            None => Err(Error::ConfigurationError),
        },
        None => Err(Error::ConfigurationError),
    }
}

/// The state after one predicate, or why the path cannot be lowered.
pub open spec fn lower_step(state: LowerState, predicate: PredicateView) -> Result<
    LowerState,
    Error,
> {
    let variant = predicate.variant;
    if variant == "core:source_address_filter"@ {
        with_match(state, filter_match(predicate, Field::SourceAddress))
    } else if variant == "core:destination_address_filter"@ {
        with_match(state, filter_match(predicate, Field::DestinationAddress))
    } else if variant == "core:source_port_filter"@ {
        with_match(state, filter_match(predicate, Field::SourcePort))
    } else if variant == "core:destination_port_filter"@ {
        with_match(state, filter_match(predicate, Field::DestinationPort))
    } else if variant == "core:protocol_filter"@ {
        with_match(state, filter_match(predicate, Field::Protocol))
    } else if variant == "core:interface_filter"@ {
        with_match(
            state,
            filter_match(
                predicate,
                if state.incoming {
                    Field::InputInterface
                } else {
                    Field::OutputInterface
                },
            ),
        )
    } else if variant == "core:family_splitter"@ {
        match lookup(predicate.params, "family"@) {
            Some(family) => Ok(
                LowerState {
                    pending: state.pending.push(
                        MatchView { field: Field::Family, value: family, op: Comparison::Equal },
                    ),
                    ..state
                },
            ),
            None => Err(Error::ConfigurationError),
        }
    } else if variant == "core:file_ip_list"@ {
        Err(Error::UnsupportedLowering)
    } else if variant == "core:source_nat"@ {
        nat_step(state, predicate, true)
    } else if variant == "core:destination_nat"@ {
        nat_step(state, predicate, false)
    } else if variant == "core:source"@ {
        Ok(LowerState { incoming: true, ..state })
    } else if variant == "core:localhost"@ {
        Ok(
            LowerState {
                pending: Seq::empty(),
                incoming: false,
                counter: state.counter.wrapping_add(1),
                commands: flushed(
                    state,
                    ChainKind::Filter,
                    Hook::Input,
                    Policy::Drop,
                    ActionView::Accept,
                ),
                finished: state.finished,
            },
        )
    } else if variant == "core:drop"@ {
        Ok(
            LowerState {
                commands: flushed(
                    state,
                    ChainKind::Filter,
                    side_hook(state.incoming),
                    Policy::Accept,
                    ActionView::Drop,
                ),
                finished: true,
                ..state
            },
        )
    } else if variant == "core:accept"@ {
        Ok(
            LowerState {
                commands: flushed(
                    state,
                    ChainKind::Filter,
                    Hook::Output,
                    Policy::Accept,
                    ActionView::Accept,
                ),
                finished: true,
                ..state
            },
        )
    } else {
        Err(Error::UnknownNodeKind)
    }
}

/// The state after the predicates of `path` from index `from` on. A verdict
/// ends the path: what follows it is not looked at.
pub open spec fn lower_from(state: LowerState, path: Seq<PredicateView>, from: int) -> Result<
    LowerState,
    Error,
>
    decreases path.len() - from,
{
    if from < 0 || from >= path.len() || state.finished {
        Ok(state)
    } else {
        match lower_step(state, path[from]) {
            Ok(next) => lower_from(next, path, from + 1),
            Err(e) => Err(e),
        }
    }
}

/// The commands that a path lowers to when its first chain is named `seed`.
pub open spec fn lowered(path: Seq<PredicateView>, seed: u64) -> Result<Seq<CommandView>, Error> {
    match lower_from(initial_state(seed), path, 0) {
        Ok(state) => Ok(state.commands),
        Err(e) => Err(e),
    }
}

/// The running state of one lowering.
struct Lowering {
    pending: Vec<Match>,
    incoming: bool,
    counter: u64,
    commands: Vec<Command>,
    finished: bool,
}

impl View for Lowering {
    type V = LowerState;

    closed spec fn view(&self) -> LowerState {
        LowerState {
            pending: matches_view(self.pending@),
            incoming: self.incoming,
            counter: self.counter,
            commands: commands_view(self.commands@),
            finished: self.finished,
        }
    }
}

/// A copy of the matches.
fn clone_matches(matches: &Vec<Match>) -> (copy: Vec<Match>)
    ensures
        matches_view(copy@) == matches_view(matches@),
{
    let mut copy: Vec<Match> = Vec::new();
    let mut i: usize = 0;
    while i < matches.len()
        invariant
            i <= matches.len(),
            copy@.len() == i,
            forall|j: int| 0 <= j < i ==> (#[trigger] copy@[j])@ == matches@[j]@,
        decreases matches.len() - i,
    {
        copy.push(matches[i].clone());
        i += 1;
    }
    assert(matches_view(copy@) =~= matches_view(matches@));
    copy
}

impl Lowering {
    /// Adds a match to the pending buffer.
    fn push_match(&mut self, found: Match)
        ensures
            final(self)@ == (LowerState { pending: old(self)@.pending.push(found@), ..old(self)@ }),
    {
        self.pending.push(found);
        assert(matches_view(self.pending@) =~= matches_view(old(self).pending@).push(found@));
    }

    /// Emits a chain named by the counter and its one rule.
    fn flush(&mut self, kind: ChainKind, hook: Hook, policy: Policy, action: Action)
        ensures
            final(self)@ == (LowerState {
                commands: flushed(old(self)@, kind, hook, policy, action@),
                ..old(self)@
            }),
    {
        let chain = Chain { name: self.counter, kind, hook, policy };
        let rule = Rule { chain: self.counter, matches: clone_matches(&self.pending), action };
        let ghost before = commands_view(self.commands@);
        self.commands.push(Command::AddChain(chain));
        assert(commands_view(self.commands@) =~= before.push(CommandView::AddChain(chain)));
        let ghost between = commands_view(self.commands@);
        let ghost rule_view = rule@;
        self.commands.push(Command::AddRule(rule));
        assert(commands_view(self.commands@) =~= between.push(CommandView::AddRule(rule_view)));
    }

    /// Handles a filter predicate on `field`.
    fn filter(&mut self, predicate: &Predicate, field: Field) -> (done: Result<(), Error>)
        ensures
            match done {
                Ok(_) => with_match(old(self)@, filter_match(predicate@, field)) == Ok::<
                    LowerState,
                    Error,
                >(final(self)@),
                Err(e) => with_match(old(self)@, filter_match(predicate@, field)) == Err::<
                    LowerState,
                    Error,
                >(e),
            },
    {
        let rule = match predicate.params().get("rule") {
            Some(rule) => rule,
            None => {
                return Err(Error::ConfigurationError);
            },
        };
        let filter = match predicate.params().get("filter") {
            Some(filter) => filter,
            None => {
                return Err(Error::ConfigurationError);
            },
        };
        let op = if str_equal(rule.as_str(), "match") {
            Comparison::Equal
        } else {
            Comparison::NotEqual
        };
        self.push_match(Match { field, value: filter.clone(), op });
        Ok(())
    }

    /// Handles a NAT predicate.
    fn translate(&mut self, predicate: &Predicate, source: bool) -> (done: Result<(), Error>)
        ensures
            match done {
                Ok(_) => nat_step(old(self)@, predicate@, source) == Ok::<LowerState, Error>(
                    final(self)@,
                ),
                Err(e) => nat_step(old(self)@, predicate@, source) == Err::<LowerState, Error>(e),
            },
    {
        let target = match predicate.params().get("addr") {
            Some(target) => target,
            None => {
                return Err(Error::ConfigurationError);
            },
        };
        let (addr, port) = match split_target(target.as_str()) {
            Some(parts) => parts,
            None => {
                return Err(Error::ConfigurationError);
            },
        };
        let action = if source {
            Action::SourceNat { addr: addr.clone(), port }
        } else {
            Action::DestinationNat { addr: addr.clone(), port }
        };
        let field = if source {
            Field::SourceAddress
        } else {
            Field::DestinationAddress
        };
        let hook = if self.incoming {
            Hook::Input
        } else {
            Hook::Output
        };
        self.flush(ChainKind::Nat, hook, Policy::Accept, action);
        self.counter = self.counter.wrapping_add(1);
        self.pending = Vec::new();
        self.pending.push(Match { field, value: addr, op: Comparison::Equal });
        assert(matches_view(self.pending@) =~= seq![
            MatchView { field, value: target_address(target@), op: Comparison::Equal },
        ]);
        Ok(())
    }

    /// Handles one predicate.
    fn step(&mut self, predicate: &Predicate) -> (done: Result<(), Error>)
        ensures
            match done {
                Ok(_) => lower_step(old(self)@, predicate@) == Ok::<LowerState, Error>(final(self)@),
                Err(e) => lower_step(old(self)@, predicate@) == Err::<LowerState, Error>(e),
            },
    {
        let variant = predicate.variant().as_str();
        if str_equal(variant, "core:source_address_filter") {
            self.filter(predicate, Field::SourceAddress)
        } else if str_equal(variant, "core:destination_address_filter") {
            self.filter(predicate, Field::DestinationAddress)
        } else if str_equal(variant, "core:source_port_filter") {
            self.filter(predicate, Field::SourcePort)
        } else if str_equal(variant, "core:destination_port_filter") {
            self.filter(predicate, Field::DestinationPort)
        } else if str_equal(variant, "core:protocol_filter") {
            self.filter(predicate, Field::Protocol)
        } else if str_equal(variant, "core:interface_filter") {
            let field = if self.incoming {
                Field::InputInterface
            } else {
                Field::OutputInterface
            };
            self.filter(predicate, field)
        } else if str_equal(variant, "core:family_splitter") {
            match predicate.params().get("family") {
                Some(family) => {
                    self.push_match(
                        Match { field: Field::Family, value: family.clone(), op: Comparison::Equal },
                    );
                    Ok(())
                },
                None => Err(Error::ConfigurationError),
            }
        } else if str_equal(variant, "core:file_ip_list") {
            Err(Error::UnsupportedLowering)
        } else if str_equal(variant, "core:source_nat") {
            self.translate(predicate, true)
        } else if str_equal(variant, "core:destination_nat") {
            self.translate(predicate, false)
        } else if str_equal(variant, "core:source") {
            self.incoming = true;
            Ok(())
        } else if str_equal(variant, "core:localhost") {
            self.flush(ChainKind::Filter, Hook::Input, Policy::Drop, Action::Accept);
            self.counter = self.counter.wrapping_add(1);
            self.pending = Vec::new();
            self.incoming = false;
            assert(matches_view(self.pending@) =~= Seq::<MatchView>::empty());
            Ok(())
        } else if str_equal(variant, "core:drop") {
            let hook = if self.incoming {
                Hook::Input
            } else {
                Hook::Output
            };
            self.flush(ChainKind::Filter, hook, Policy::Accept, Action::Drop);
            self.finished = true;
            Ok(())
        } else if str_equal(variant, "core:accept") {
            self.flush(ChainKind::Filter, Hook::Output, Policy::Accept, Action::Accept);
            self.finished = true;
            Ok(())
        } else {
            Err(Error::UnknownNodeKind)
        }
    }
}

/// Splits a NAT target into its address and its port.
pub fn split_target(target: &str) -> (parts: Option<(String, u32)>)
    ensures
        match parts {
            Some((addr, port)) => addr@ == target_address(target@) && target_port(target@) == Some(
                port,
            ),
            None => target_port(target@) is None,
        },
{
    proof {
        lemma_last_index_of(target@, ':');
    }
    match find_last(target, ':') {
        Some(at) => {
            let len = target.unicode_len();
            let port = parse_u32(target.substring_char(at + 1, len));
            match port {
                Some(port) => Some((target.substring_char(0, at).to_string(), port)),
                None => None,
            }
        },
        None => {
            match parse_u32(target) {
                Some(port) => Some((target.to_string(), port)),
                None => None,
            }
        },
    }
}

/// Lowers a path whose first chain is to be named `seed`; each further chain
/// is named by the next number, going round from the largest to zero.
pub fn lower_path(path: &Vec<Predicate>, seed: u64) -> (result: Result<Vec<Command>, Error>)
    ensures
        match result {
            Ok(commands) => lowered(path_view(path@), seed) == Ok::<Seq<CommandView>, Error>(
                commands_view(commands@),
            ),
            Err(e) => lowered(path_view(path@), seed) == Err::<Seq<CommandView>, Error>(e),
        },
{
    let mut state = Lowering {
        pending: Vec::new(),
        incoming: true,
        counter: seed,
        commands: Vec::new(),
        finished: false,
    };
    assert(state@.pending =~= Seq::<MatchView>::empty());
    assert(state@.commands =~= Seq::<CommandView>::empty());
    assert(state@ == initial_state(seed));
    let mut i: usize = 0;
    while i < path.len() && !state.finished
        invariant
            i <= path.len(),
            lower_from(initial_state(seed), path_view(path@), 0) == lower_from(
                state@,
                path_view(path@),
                i as int,
            ),
        decreases path.len() - i,
    {
        assert(path_view(path@)[i as int] == path@[i as int]@);
        match state.step(&path[i]) {
            Ok(_) => {},
            Err(e) => {
                return Err(e);
            },
        }
        i += 1;
    }
    Ok(state.commands)
}

/// Lowers a path to chains and rules. The first chain is named by the content
/// hash of the whole path, so that the same path always gets the same names.
pub fn evaluate_path(path: &Vec<Predicate>) -> (result: Result<Vec<Command>, Error>)
    ensures
        match result {
            Ok(commands) => lowered(path_view(path@), seed_of(path_view(path@))) == Ok::<
                Seq<CommandView>,
                Error,
            >(commands_view(commands@)),
            Err(e) => lowered(path_view(path@), seed_of(path_view(path@))) == Err::<
                Seq<CommandView>,
                Error,
            >(e),
        },
{
    lower_path(path, path_seed(path))
}

} // verus!
