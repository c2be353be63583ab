//! The exported ruleset in the object grammar of the firewall's JSON API.
//!
//! Commands are turned into objects of the `nftables` crate one for one, and
//! the objects are written out as one JSON document. The constructors of that
//! crate and its serialisation are taken on trust; which constructor is
//! called with which values is verified.

use nftables::expr::Expression;
use nftables::schema::{NfCmd, NfListObject, NfObject};
use nftables::stmt::{NATFamily, Statement, NAT};
use nftables::types::{NfChainPolicy, NfChainType, NfFamily, NfHook};
use vstd::prelude::*;
use crate::lowering::{
    Action,
    ActionView,
    Chain,
    ChainKind,
    Command,
    CommandView,
    Comparison,
    Field,
    Hook,
    Match,
    MatchView,
    Policy,
    Rule,
};
use crate::text::{decimal_string, decimal_text};

verus! {

/// A command or listed object of the `nftables` crate; carried through, never looked into.
#[verifier::external_type_specification]
#[verifier::external_body]
pub struct ExNfObject(nftables::schema::NfObject);

/// A statement of a rule, of the `nftables` crate; carried through, never looked into.
#[verifier::external_type_specification]
#[verifier::external_body]
pub struct ExStatement(nftables::stmt::Statement);

/// A table family of the `nftables` crate.
#[verifier::external_type_specification]
#[verifier::external_body]
pub struct ExNfFamily(nftables::types::NfFamily);

/// A chain type of the `nftables` crate.
#[verifier::external_type_specification]
#[verifier::external_body]
pub struct ExNfChainType(nftables::types::NfChainType);

/// A hook of the `nftables` crate.
#[verifier::external_type_specification]
#[verifier::external_body]
pub struct ExNfHook(nftables::types::NfHook);

/// A chain policy of the `nftables` crate.
#[verifier::external_type_specification]
#[verifier::external_body]
pub struct ExNfChainPolicy(nftables::types::NfChainPolicy);

/// A match operator of the `nftables` crate.
#[verifier::external_type_specification]
#[verifier::external_body]
pub struct ExOperator(nftables::stmt::Operator);

/// An address family for NAT, of the `nftables` crate.
#[verifier::external_type_specification]
#[verifier::external_body]
pub struct ExNATFamily(nftables::stmt::NATFamily);

/// The family of a table, chain or rule.
#[derive(Debug, Clone, Copy, PartialEq, Eq, Structural)]
pub enum Family {
    Ip,
    Ip6,
    Inet,
    Arp,
    Bridge,
    NetDev,
}

/// The family of the address of a NAT statement.
#[derive(Debug, Clone, Copy, PartialEq, Eq, Structural)]
pub enum NatFamily {
    Ip,
    Ip6,
}

/// What a statement object holds.
pub enum StatementView {
    /// A comparison of two immediate strings.
    Match { left: Seq<char>, right: Seq<char>, op: Comparison },
    Accept,
    Drop,
    /// Source NAT to an immediate address of the given family, and a port.
    SourceNat { addr: Seq<char>, family: NatFamily, port: u32 },
    /// Destination NAT to an immediate address of the given family, and a port.
    DestinationNat { addr: Seq<char>, family: NatFamily, port: u32 },
    /// Any statement that this library does not build.
    Other,
}

/// What a command object holds: one of the three commands that this library
/// builds, each without handle, priority, device, index or comment.
pub enum ObjectView {
    AddTable { family: Family, name: Seq<char> },
    AddChain {
        family: Family,
        table: Seq<char>,
        name: Seq<char>,
        kind: ChainKind,
        hook: Hook,
        policy: Policy,
    },
    AddRule { family: Family, table: Seq<char>, chain: Seq<char>, statements: Seq<StatementView> },
    /// Any object that this library does not build.
    Other,
}

/// What a family value of `nftables` stands for.
pub uninterp spec fn family_model(family: NfFamily) -> Family;

/// What a NAT family value of `nftables` stands for.
pub uninterp spec fn nat_family_model(family: NATFamily) -> NatFamily;

/// What a chain type value of `nftables` stands for, if it is one that
/// this library uses.
pub uninterp spec fn chain_type_model(kind: NfChainType) -> Option<ChainKind>;

/// What a hook value of `nftables` stands for, if it is one that this
/// library uses.
pub uninterp spec fn hook_model(hook: NfHook) -> Option<Hook>;

/// What a chain policy value of `nftables` stands for.
pub uninterp spec fn policy_model(policy: NfChainPolicy) -> Policy;

/// What an operator value of `nftables` stands for, if it is one that this
/// library uses.
pub uninterp spec fn operator_model(op: nftables::stmt::Operator) -> Option<Comparison>;

/// What a statement of `nftables` holds.
pub uninterp spec fn statement_model(statement: Statement) -> StatementView;

/// What an object of `nftables` holds.
pub uninterp spec fn object_model(object: NfObject) -> ObjectView;

/// What `serde_json::to_string_pretty` gives for an `Nftables` document
/// whose objects hold the given contents, in order: the text, or nothing
/// where the document cannot be serialised.
pub uninterp spec fn ruleset_json(objects: Seq<ObjectView>) -> Option<Seq<char>>;

/// The value `NfFamily::INet` of `nftables`: the family of tables that see
/// both IPv4 and IPv6.
#[verifier::external_body]
fn inet_family() -> (family: NfFamily)
    ensures
        family_model(family) == Family::Inet,
{
    NfFamily::INet
}

/// The value `NATFamily::IP` of `nftables`: a NAT address is an IPv4 address.
#[verifier::external_body]
fn ip_nat_family() -> (family: NATFamily)
    ensures
        nat_family_model(family) == NatFamily::Ip,
{
    NATFamily::IP
}

/// The value `NfChainType::Filter` of `nftables`.
#[verifier::external_body]
fn filter_chain_type() -> (kind: NfChainType)
    ensures
        chain_type_model(kind) == Some(ChainKind::Filter),
{
    NfChainType::Filter
}

/// The value `NfChainType::NAT` of `nftables`.
#[verifier::external_body]
fn nat_chain_type() -> (kind: NfChainType)
    ensures
        chain_type_model(kind) == Some(ChainKind::Nat),
{
    NfChainType::NAT
}

/// The value `NfHook::Input` of `nftables`.
#[verifier::external_body]
fn input_hook() -> (hook: NfHook)
    ensures
        hook_model(hook) == Some(Hook::Input),
{
    NfHook::Input
}

/// The value `NfHook::Output` of `nftables`.
#[verifier::external_body]
fn output_hook() -> (hook: NfHook)
    ensures
        hook_model(hook) == Some(Hook::Output),
{
    NfHook::Output
}

/// The value `NfChainPolicy::Accept` of `nftables`.
#[verifier::external_body]
fn accept_policy() -> (policy: NfChainPolicy)
    ensures
        policy_model(policy) == Policy::Accept,
{
    NfChainPolicy::Accept
}

/// The value `NfChainPolicy::Drop` of `nftables`.
#[verifier::external_body]
fn drop_policy() -> (policy: NfChainPolicy)
    ensures
        policy_model(policy) == Policy::Drop,
{
    NfChainPolicy::Drop
}

/// The value `Operator::EQ` of `nftables`: compare for equality.
#[verifier::external_body]
fn equal_operator() -> (op: nftables::stmt::Operator)
    ensures
        operator_model(op) == Some(Comparison::Equal),
{
    nftables::stmt::Operator::EQ
}

/// The value `Operator::NEQ` of `nftables`: compare for inequality.
#[verifier::external_body]
fn not_equal_operator() -> (op: nftables::stmt::Operator)
    ensures
        operator_model(op) == Some(Comparison::NotEqual),
{
    nftables::stmt::Operator::NEQ
}

/// `Statement::Match` of two `Expression::String` values, for one of the
/// operators that this library uses: the statement holds the two strings
/// and the operator as given.
#[verifier::external_body]
fn match_statement(left: String, right: String, op: nftables::stmt::Operator) -> (statement:
    Statement)
    requires
        operator_model(op) is Some,
    ensures
        statement_model(statement) == (StatementView::Match {
            left: left@,
            right: right@,
            op: operator_model(op)->0,
        }),
{
    let found = nftables::stmt::Match { left: Expression::String(left), right: Expression::String(right), op };
    Statement::Match(found)
}

/// `Statement::Accept` with an `Accept` value inside.
#[verifier::external_body]
fn accept_statement() -> (statement: Statement)
    ensures
        statement_model(statement) == StatementView::Accept,
{
    Statement::Accept(Some(nftables::stmt::Accept {  }))
}

/// `Statement::Drop` with a `Drop` value inside.
#[verifier::external_body]
fn drop_statement() -> (statement: Statement)
    ensures
        statement_model(statement) == StatementView::Drop,
{
    Statement::Drop(Some(nftables::stmt::Drop {  }))
}

/// `Statement::SNAT` of a `NAT` value with the address as an
/// `Expression::String`, the family and the port as given, and no flags.
#[verifier::external_body]
fn snat_statement(addr: String, family: NATFamily, port: u32) -> (statement:
    Statement)
    ensures
        statement_model(statement) == (StatementView::SourceNat {
            addr: addr@,
            family: nat_family_model(family),
            port,
        }),
{
    let addr = Some(Expression::String(addr));
    Statement::SNAT(Some(NAT { addr, family: Some(family), port: Some(port), flags: None }))
}

/// `Statement::DNAT` of a `NAT` value with the address as an
/// `Expression::String`, the family and the port as given, and no flags.
#[verifier::external_body]
fn dnat_statement(addr: String, family: NATFamily, port: u32) -> (statement:
    Statement)
    ensures
        statement_model(statement) == (StatementView::DestinationNat {
            addr: addr@,
            family: nat_family_model(family),
            port,
        }),
{
    let addr = Some(Expression::String(addr));
    Statement::DNAT(Some(NAT { addr, family: Some(family), port: Some(port), flags: None }))
}

/// `Table::new`, as the object of an `add` command: a table of the given
/// family and name, without a handle.
#[verifier::external_body]
fn table_object(family: NfFamily, name: String) -> (object:
    NfObject)
    ensures
        object_model(object) == (ObjectView::AddTable { family: family_model(family), name: name@ }),
{
    let table = nftables::schema::Table::new(family, name);
    NfObject::CmdObject(NfCmd::Add(NfListObject::Table(table)))
}

/// `Chain::new`, as the object of an `add` command, for a chain type and a
/// hook that this library uses: a base chain of the given family, table,
/// name, type, hook and policy, without priority or device.
#[verifier::external_body]
fn chain_object(
    family: NfFamily,
    table: String,
    name: String,
    kind: NfChainType,
    hook: NfHook,
    policy: NfChainPolicy,
) -> (object: NfObject)
    requires
        chain_type_model(kind) is Some,
        hook_model(hook) is Some,
    ensures
        object_model(object) == (ObjectView::AddChain {
            family: family_model(family),
            table: table@,
            name: name@,
            kind: chain_type_model(kind)->0,
            hook: hook_model(hook)->0,
            policy: policy_model(policy),
        }),
{
    let (kind, hook, policy) = (Some(kind), Some(hook), Some(policy));
    let chain = nftables::schema::Chain::new(family, table, name, kind, hook, None, None, policy);
    NfObject::CmdObject(NfCmd::Add(NfListObject::Chain(chain)))
}

/// `Rule::new`, as the object of an `add` command, for statements that this
/// library builds: a rule of the given family, table and chain that holds
/// the statements in order.
#[verifier::external_body]
fn rule_object(
    family: NfFamily,
    table: String,
    chain: String,
    statements: Vec<Statement>,
) -> (object: NfObject)
    requires
        forall|i: int| 0 <= i < statements@.len() ==> !(statement_model(#[trigger] statements@[i]) is Other),
    ensures
        object_model(object) == (ObjectView::AddRule {
            family: family_model(family),
            table: table@,
            chain: chain@,
            statements: statements@.map_values(|s: Statement| statement_model(s)),
        }),
{
    let rule = nftables::schema::Rule::new(family, table, chain, statements);
    NfObject::CmdObject(NfCmd::Add(NfListObject::Rule(rule)))
}

/// `serde_json::to_string_pretty` of an `Nftables` document that holds the
/// objects, for objects that this library builds: whether serialising
/// succeeds, and the text it gives, depend on what the objects hold and on
/// nothing else. That it succeeds is not claimed.
#[verifier::external_body]
fn document_json(objects: Vec<NfObject>) -> (text: Option<String>)
    requires
        forall|i: int| 0 <= i < objects@.len() ==> !(object_model(#[trigger] objects@[i]) is Other),
    ensures
        match text {
            Some(json) => ruleset_json(objects@.map_values(|o: NfObject| object_model(o)))
                == Some(json@),
            None => ruleset_json(objects@.map_values(|o: NfObject| object_model(o))) is None,
        },
{
    serde_json::to_string_pretty(&nftables::schema::Nftables { objects }).ok()
}

/// The name of the table that holds every chain.
pub open spec fn table_name() -> Seq<char> {
    "netgraph"@
}

/// How a packet field is written in a match.
pub open spec fn field_text(field: Field) -> Seq<char> {
    match field {
        Field::SourceAddress => "saddr"@,
        Field::DestinationAddress => "daddr"@,
        Field::SourcePort => "meta l4proto { tcp, udp } th sport"@,
        Field::DestinationPort => "meta l4proto { tcp, udp } th dport"@,
        Field::Protocol => "ip protocol"@,
        Field::InputInterface => "iifname"@,
        Field::OutputInterface => "oifname"@,
        Field::Family => "nfproto"@,
    }
}

/// The statement that a match is written as.
pub open spec fn rendered_match(found: MatchView) -> StatementView {
    StatementView::Match { left: field_text(found.field), right: found.value, op: found.op }
}

/// The statement that an action is written as. NAT addresses are IPv4.
pub open spec fn rendered_action(action: ActionView) -> StatementView {
    match action {
        ActionView::Accept => StatementView::Accept,
        ActionView::Drop => StatementView::Drop,
        ActionView::SourceNat { addr, port } => StatementView::SourceNat {
            addr,
            family: NatFamily::Ip,
            port,
        },
        ActionView::DestinationNat { addr, port } => StatementView::DestinationNat {
            addr,
            family: NatFamily::Ip,
            port,
        },
    }
}

/// The object that a command is written as: everything is of the `inet`
/// family and in the one table, and a chain's name is its number in decimal.
pub open spec fn rendered_command(command: CommandView) -> ObjectView {
    match command {
        CommandView::AddTable => ObjectView::AddTable { family: Family::Inet, name: table_name() },
        CommandView::AddChain(chain) => ObjectView::AddChain {
            family: Family::Inet,
            table: table_name(),
            name: decimal_text(chain.name as nat),
            kind: chain.kind,
            hook: chain.hook,
            policy: chain.policy,
        },
        CommandView::AddRule(rule) => ObjectView::AddRule {
            family: Family::Inet,
            table: table_name(),
            chain: decimal_text(rule.chain as nat),
            statements: rule.matches.map_values(|found: MatchView| rendered_match(found)).push(
                rendered_action(rule.action),
            ),
        },
    }
}

/// Whether the objects are the given commands written out, one for one.
pub open spec fn objects_render(
    objects: Seq<NfObject>,
    commands: Seq<CommandView>,
) -> bool {
    &&& objects.len() == commands.len()
    &&& forall|i: int|
        0 <= i < objects.len() ==> object_model(#[trigger] objects[i]) == rendered_command(
            commands[i],
        )
}

/// How a packet field is written in a match.
fn field_name(field: Field) -> (text: String)
    ensures
        text@ == field_text(field),
{
    match field {
        Field::SourceAddress => "saddr".to_string(),
        Field::DestinationAddress => "daddr".to_string(),
        Field::SourcePort => "meta l4proto { tcp, udp } th sport".to_string(),
        Field::DestinationPort => "meta l4proto { tcp, udp } th dport".to_string(),
        Field::Protocol => "ip protocol".to_string(),
        Field::InputInterface => "iifname".to_string(),
        Field::OutputInterface => "oifname".to_string(),
        Field::Family => "nfproto".to_string(),
    }
}

/// Writes a match as a statement.
fn to_match_statement(found: &Match) -> (statement: Statement)
    ensures
        statement_model(statement) == rendered_match(found@),
{
    let op = match found.op {
        Comparison::Equal => equal_operator(),
        Comparison::NotEqual => not_equal_operator(),
    };
    match_statement(field_name(found.field), found.value.clone(), op)
}

/// Writes an action as a statement.
fn to_action_statement(action: &Action) -> (statement: Statement)
    ensures
        statement_model(statement) == rendered_action(action@),
{
    match action {
        Action::Accept => accept_statement(),
        Action::Drop => drop_statement(),
        Action::SourceNat { addr, port } => snat_statement(addr.clone(), ip_nat_family(), *port),
        Action::DestinationNat { addr, port } => dnat_statement(
            addr.clone(),
            ip_nat_family(),
            *port,
        ),
    }
}

/// Writes a chain as the object that adds it.
fn to_chain_object(chain: &Chain) -> (object: NfObject)
    ensures
        object_model(object) == rendered_command(CommandView::AddChain(*chain)),
{
    let kind = match chain.kind {
        ChainKind::Filter => filter_chain_type(),
        ChainKind::Nat => nat_chain_type(),
    };
    let hook = match chain.hook {
        Hook::Input => input_hook(),
        Hook::Output => output_hook(),
    };
    let policy = match chain.policy {
        Policy::Accept => accept_policy(),
        Policy::Drop => drop_policy(),
    };
    chain_object(
        inet_family(),
        "netgraph".to_string(),
        decimal_string(chain.name),
        kind,
        hook,
        policy,
    )
}

/// Writes a rule as the object that adds it.
fn to_rule_object(rule: &Rule) -> (object: NfObject)
    ensures
        object_model(object) == rendered_command(CommandView::AddRule(rule@)),
{
    let mut statements: Vec<Statement> = Vec::new();
    let mut i: usize = 0;
    while i < rule.matches.len()
        invariant
            i <= rule.matches.len(),
            statements@.len() == i,
            forall|j: int|
                0 <= j < i ==> statement_model(#[trigger] statements@[j]) == rendered_match(
                    rule.matches@[j]@,
                ),
        decreases rule.matches.len() - i,
    {
        statements.push(to_match_statement(&rule.matches[i]));
        i += 1;
    }
    statements.push(to_action_statement(&rule.action));
    assert(statements@.map_values(|s: Statement| statement_model(s))
        =~= rule@.matches.map_values(|found: MatchView| rendered_match(found)).push(
        rendered_action(rule@.action),
    ));
    rule_object(inet_family(), "netgraph".to_string(), decimal_string(rule.chain), statements)
}

/// Writes a command as an object of the firewall's JSON API.
pub fn to_nf_object(command: &Command) -> (object: NfObject)
    ensures
        object_model(object) == rendered_command(command@),
{
    match command {
        Command::AddTable => table_object(inet_family(), "netgraph".to_string()),
        Command::AddChain(chain) => to_chain_object(chain),
        Command::AddRule(rule) => to_rule_object(rule),
    }
}

/// Writes commands as objects of the firewall's JSON API, one for one.
pub fn to_nf_objects(commands: &Vec<Command>) -> (objects: Vec<NfObject>)
    ensures
        objects_render(objects@, crate::lowering::commands_view(commands@)),
{
    let mut objects: Vec<NfObject> = Vec::new();
    let mut i: usize = 0;
    while i < commands.len()
        invariant
            i <= commands.len(),
            objects@.len() == i,
            forall|j: int|
                0 <= j < i ==> object_model(#[trigger] objects@[j]) == rendered_command(
                    commands@[j]@,
                ),
        decreases commands.len() - i,
    {
        objects.push(to_nf_object(&commands[i]));
        i += 1;
    }
    objects
}

/// What the objects hold that the commands are written as, one for one.
pub open spec fn rendered_commands(commands: Seq<CommandView>) -> Seq<ObjectView> {
    commands.map_values(|command: CommandView| rendered_command(command))
}

/// The JSON document of the given commands: what serialising the objects
/// gives that the commands are written as, the text or nothing.
pub fn render(commands: &Vec<Command>) -> (text: Option<String>)
    ensures
        match text {
            Some(json) => ruleset_json(
                rendered_commands(crate::lowering::commands_view(commands@)),
            ) == Some(json@),
            None => ruleset_json(
                rendered_commands(crate::lowering::commands_view(commands@)),
            ) is None,
        },
{
    let objects = to_nf_objects(commands);
    assert(objects@.map_values(|o: NfObject| object_model(o)) =~= rendered_commands(
        crate::lowering::commands_view(commands@),
    ));
    document_json(objects)
}

} // verus!
