//! Scenario files: TOML documents that script the events an example receives.
use vstd::prelude::*;
use crate::dd::{
    bval, BVal, BoonNumber, BoonValue, NodeId, OwnerKey, Scenario, ScenarioCommand, ScenarioEvent,
    ScenarioStep, SourceAction, TagName,
};
use crate::strmap::{ins, StrMap};
use crate::text::{copy_string, push_str, string_eq_str};
use crate::toplevel::svs;

verus! {

// ---------------------------------------------------------------------------
// TOML documents
// ---------------------------------------------------------------------------

/// A TOML value as the scenario reader sees it. A float is kept as its
/// IEEE-754 bits, a datetime as its TOML text, a table in key order.
#[derive(Debug, PartialEq, Eq)]
pub enum TomlValue {
    String(String),
    Integer(i64),
    Float(u64),
    Boolean(bool),
    Datetime(String),
    Array(Vec<TomlNode>),
    Table(Vec<(String, TomlNode)>),
}

/// A TOML value with the text that `Debug` gives it.
#[derive(Debug, PartialEq, Eq)]
pub struct TomlNode {
    pub value: TomlValue,
    pub debug: String,
}

pub enum TomlV {
    String(Seq<char>),
    Integer(i64),
    Float(u64),
    Boolean(bool),
    Datetime(Seq<char>),
    Array(Seq<NodeV>),
    Table(Seq<(Seq<char>, NodeV)>),
}

pub struct NodeV {
    pub value: TomlV,
    pub debug: Seq<char>,
}

pub open spec fn node_v(n: TomlNode) -> NodeV
    decreases n,
{
    NodeV { value: toml_v(n.value), debug: n.debug@ }
}

pub open spec fn toml_v(v: TomlValue) -> TomlV
    decreases v,
{
    match v {
        TomlValue::String(s) => TomlV::String(s@),
        TomlValue::Integer(i) => TomlV::Integer(i),
        TomlValue::Float(b) => TomlV::Float(b),
        TomlValue::Boolean(b) => TomlV::Boolean(b),
        TomlValue::Datetime(s) => TomlV::Datetime(s@),
        TomlValue::Array(vs) => TomlV::Array(node_vs(vs@)),
        TomlValue::Table(es) => TomlV::Table(entry_vs(es@)),
    }
}

pub open spec fn node_vs(vs: Seq<TomlNode>) -> Seq<NodeV>
    decreases vs,
{
    Seq::new(
        vs.len(),
        |i: int|
            if 0 <= i < vs.len() {
                node_v(vs[i])
            } else {
                NodeV { value: TomlV::Boolean(false), debug: Seq::empty() }
            },
    )
}

pub open spec fn entry_vs(es: Seq<(String, TomlNode)>) -> Seq<(Seq<char>, NodeV)>
    decreases es,
{
    Seq::new(
        es.len(),
        |i: int|
            if 0 <= i < es.len() {
                (es[i].0@, node_v(es[i].1))
            } else {
                (Seq::empty(), NodeV { value: TomlV::Boolean(false), debug: Seq::empty() })
            },
    )
}

impl View for TomlNode {
    type V = NodeV;

    open spec fn view(&self) -> NodeV {
        node_v(*self)
    }
}

#[verifier::external_type_specification]
#[verifier::external_body]
pub struct ExTomlValue(toml::Value);

/// A name for what `toml` reads from a document text: its value, or the
/// text of its error.
pub uninterp spec fn toml_document(text: Seq<char>) -> Result<NodeV, Seq<char>>;

/// `<toml::Value as FromStr>::from_str` on the text, with the value copied
/// into the library's types, or the `Display` text of the error. The result
/// is named, as a function of the text; nothing more is claimed.
#[verifier::external_body]
fn parse_toml_document(text: &str) -> (r: Result<TomlNode, String>)
    ensures
        match toml_document(text@) {
            Ok(v) => r matches Ok(x) && x@ == v,
            Err(e) => r matches Err(m) && m@ == e,
        },
{
    match text.parse::<toml::Value>() {
        Ok(v) => Ok(toml_node(v)),
        Err(e) => Err(e.to_string()),
    }
}

/// Copies a `toml::Value` into the library's types, node for node, each
/// with its `Debug` text; the conversion step of `parse_toml_document`.
#[verifier::external_body]
fn toml_node(v: toml::Value) -> TomlNode {
    let debug = format!("{:?}", v);
    let value = match v {
        toml::Value::String(s) => TomlValue::String(s),
        toml::Value::Integer(n) => TomlValue::Integer(n),
        toml::Value::Float(f) => TomlValue::Float(f.to_bits()),
        toml::Value::Boolean(b) => TomlValue::Boolean(b),
        toml::Value::Datetime(d) => TomlValue::Datetime(d.to_string()),
        toml::Value::Array(a) => TomlValue::Array(a.into_iter().map(toml_node).collect()),
        toml::Value::Table(t) => TomlValue::Table(t.into_iter().map(|e| (e.0, toml_node(e.1))).collect()),
    };
    TomlNode { value, debug }
}

// ---------------------------------------------------------------------------
// Reading TOML values
// ---------------------------------------------------------------------------

/// The value under the first entry with this key.
pub open spec fn entry_get(es: Seq<(Seq<char>, NodeV)>, key: Seq<char>) -> Option<NodeV>
    decreases es.len(),
{
    if es.len() == 0 {
        None
    } else if es[0].0 == key {
        Some(es[0].1)
    } else {
        entry_get(es.drop_first(), key)
    }
}

/// The value under a key of a table; nothing for other values.
pub open spec fn get_key(v: TomlV, key: Seq<char>) -> Option<NodeV> {
    match v {
        TomlV::Table(es) => entry_get(es, key),
        _ => None,
    }
}

pub open spec fn as_str(n: Option<NodeV>) -> Option<Seq<char>> {
    match n {
        Some(x) => match x.value {
            TomlV::String(s) => Some(s),
            _ => None,
        },
        None => None,
    }
}

pub open spec fn str_or_empty(n: Option<NodeV>) -> Seq<char> {
    match as_str(n) {
        Some(s) => s,
        None => Seq::empty(),
    }
}

pub open spec fn as_array(n: Option<NodeV>) -> Seq<NodeV> {
    match n {
        Some(x) => match x.value {
            TomlV::Array(vs) => vs,
            _ => Seq::empty(),
        },
        None => Seq::empty(),
    }
}

/// The first key that is not allowed.
pub open spec fn unknown_key(es: Seq<(Seq<char>, NodeV)>, allowed: Seq<Seq<char>>) -> Option<Seq<char>>
    decreases es.len(),
{
    if es.len() == 0 {
        None
    } else if !allowed.contains(es[0].0) {
        Some(es[0].0)
    } else {
        unknown_key(es.drop_first(), allowed)
    }
}

/// The error for a table with a key that is not allowed in `context`.
pub open spec fn reject_keys(es: Seq<(Seq<char>, NodeV)>, allowed: Seq<Seq<char>>, context: Seq<char>) -> Option<
    Seq<char>,
> {
    match unknown_key(es, allowed) {
        Some(k) => Some("unknown "@ + context + " key `"@ + k + "`"@),
        None => None,
    }
}

pub open spec fn opt_node_ok(r: Option<&TomlNode>, s: Option<NodeV>) -> bool {
    match s {
        Some(x) => r matches Some(y) && y@ == x,
        None => r is None,
    }
}

fn get_key_exec<'a>(v: &'a TomlValue, key: &str) -> (r: Option<&'a TomlNode>)
    ensures
        opt_node_ok(r, get_key(toml_v(*v), key@)),
{
    match v {
        TomlValue::Table(es) => {
            let ghost s = entry_vs(es@);
            let mut i: usize = 0;
            proof {
                assert(s.skip(0) =~= s);
            }
            while i < es.len()
                invariant
                    s == entry_vs(es@),
                    toml_v(*v) == TomlV::Table(s),
                    i <= es@.len(),
                    entry_get(s, key@) == entry_get(s.skip(i as int), key@),
                decreases es@.len() - i,
            {
                proof {
                    assert(s.skip(i as int).drop_first() =~= s.skip(i + 1));
                    assert(s.skip(i as int)[0] == s[i as int]);
                }
                if string_eq_str(&es[i].0, key) {
                    return Some(&es[i].1);
                }
                i = i + 1;
            }
            None
        },
        _ => None,
    }
}

fn as_str_exec(n: Option<&TomlNode>) -> (r: Option<String>)
    ensures
        match as_str(match n {
            Some(x) => Some(x@),
            None => None,
        }) {
            Some(s) => r matches Some(x) && x@ == s,
            None => r is None,
        },
{
    match n {
        Some(x) => match &x.value {
            TomlValue::String(s) => Some(copy_string(s)),
            _ => None,
        },
        None => None,
    }
}

fn str_or_empty_exec(n: Option<&TomlNode>) -> (r: String)
    ensures
        r@ == str_or_empty(match n {
            Some(x) => Some(x@),
            None => None,
        }),
{
    match as_str_exec(n) {
        Some(s) => s,
        None => String::new(),
    }
}

fn reject_keys_exec(es: &Vec<(String, TomlNode)>, allowed: &Vec<&str>, context: &str) -> (r: Option<
    String,
>)
    ensures
        match reject_keys(entry_vs(es@), allowed@.map_values(|a: &str| a@), context@) {
            Some(m) => r matches Some(x) && x@ == m,
            None => r is None,
        },
{
    let ghost s = entry_vs(es@);
    let ghost al = allowed@.map_values(|a: &str| a@);
    let mut i: usize = 0;
    proof {
        assert(s.skip(0) =~= s);
    }
    while i < es.len()
        invariant
            s == entry_vs(es@),
            al == allowed@.map_values(|a: &str| a@),
            i <= es@.len(),
            unknown_key(s, al) == unknown_key(s.skip(i as int), al),
        decreases es@.len() - i,
    {
        proof {
            assert(s.skip(i as int).drop_first() =~= s.skip(i + 1));
            assert(s.skip(i as int)[0].0 == es@[i as int].0@);
        }
        let mut found = false;
        let mut j: usize = 0;
        while j < allowed.len()
            invariant
                al == allowed@.map_values(|a: &str| a@),
                i < es@.len(),
                j <= allowed@.len(),
                found == (exists|t: int| 0 <= t < j && al[t] == es@[i as int].0@),
            decreases allowed@.len() - j,
        {
            proof {
                assert(al[j as int] == allowed@[j as int]@);
            }
            if string_eq_str(&es[i].0, allowed[j]) {
                found = true;
            }
            j = j + 1;
        }
        proof {
            if al.contains(es@[i as int].0@) {
                let t = choose|t: int| 0 <= t < al.len() && al[t] == es@[i as int].0@;
                assert(0 <= t < j);
            }
        }
        if !found {
            let mut m = "unknown ".to_owned();
            push_str(&mut m, context);
            push_str(&mut m, " key `");
            push_str(&mut m, es[i].0.as_str());
            push_str(&mut m, "`");
            return Some(m);
        }
        i = i + 1;
    }
    None
}


// ---------------------------------------------------------------------------
// Scenario values
// ---------------------------------------------------------------------------

/// The tags a scenario can name with a bare string.
pub open spec fn is_tag_text(t: Seq<char>) -> bool {
    t == "True"@ || t == "False"@ || t == "Enter"@ || t == "Escape"@ || t == "Active"@ || t
        == "Completed"@
}

pub open spec fn text_value(t: Seq<char>) -> BVal {
    if is_tag_text(t) {
        BVal::Tag(t, None)
    } else {
        BVal::Text(t)
    }
}

/// A scenario value from a TOML value: strings are texts or tags, booleans
/// tags, an empty array the empty record, arrays lists and tables records.
pub open spec fn parse_value(n: NodeV) -> BVal
    decreases n,
{
    match n.value {
        TomlV::String(t) => text_value(t),
        TomlV::Integer(i) => BVal::Number(BoonNumber::Int(i)),
        TomlV::Float(b) => BVal::Number(BoonNumber::Float(b)),
        TomlV::Boolean(b) => BVal::Tag(
            if b {
                "True"@
            } else {
                "False"@
            },
            None,
        ),
        TomlV::Datetime(s) => BVal::Text(s),
        TomlV::Array(vs) => if vs.len() == 0 {
            BVal::EmptyRecord
        } else {
            BVal::List(parse_values(vs))
        },
        TomlV::Table(es) => BVal::Record(parse_entries(es)),
    }
}

pub open spec fn parse_values(vs: Seq<NodeV>) -> Seq<BVal>
    decreases vs,
{
    if vs.len() == 0 {
        Seq::empty()
    } else {
        parse_values(vs.drop_last()).push(parse_value(vs[vs.len() - 1]))
    }
}

pub open spec fn parse_entries(es: Seq<(Seq<char>, NodeV)>) -> Seq<(Seq<char>, BVal)>
    decreases es,
{
    if es.len() == 0 {
        Seq::empty()
    } else {
        let e = es[es.len() - 1];
        ins(parse_entries(es.drop_last()), e.0, parse_value(e.1))
    }
}

fn text_to_value(t: &String) -> (r: BoonValue)
    ensures
        bval(r) == text_value(t@),
{
    if string_eq_str(t, "True") || string_eq_str(t, "False") || string_eq_str(t, "Enter")
        || string_eq_str(t, "Escape") || string_eq_str(t, "Active") || string_eq_str(
        t,
        "Completed",
    ) {
        BoonValue::Tag { name: TagName(copy_string(t)), payload: None }
    } else {
        BoonValue::Text(copy_string(t))
    }
}

fn parse_value_exec(n: &TomlNode) -> (r: BoonValue)
    ensures
        bval(r) == parse_value(n@),
    decreases n,
{
    match &n.value {
        TomlValue::String(t) => text_to_value(t),
        TomlValue::Integer(i) => BoonValue::Number(BoonNumber::Int(*i)),
        TomlValue::Float(b) => BoonValue::Number(BoonNumber::Float(*b)),
        TomlValue::Boolean(b) => {
            let name = if *b {
                "True".to_owned()
            } else {
                "False".to_owned()
            };
            BoonValue::Tag { name: TagName(name), payload: None }
        },
        TomlValue::Datetime(s) => BoonValue::Text(copy_string(s)),
        TomlValue::Array(vs) => {
            if vs.len() == 0 {
                return BoonValue::EmptyRecord;
            }
            let ghost s = node_vs(vs@);
            let mut out: Vec<BoonValue> = Vec::new();
            let mut i: usize = 0;
            proof {
                assert(s.take(0) =~= Seq::<NodeV>::empty());
                assert(crate::dd::bvals(out@) =~= Seq::<BVal>::empty());
            }
            while i < vs.len()
                invariant
                    s == node_vs(vs@),
                    i <= vs@.len(),
                    crate::dd::bvals(out@) == parse_values(s.take(i as int)),
                    decreases_to!(*n => *vs),
                decreases vs@.len() - i,
            {
                proof {
                    assert(decreases_to!(*vs => vs@));
                    assert(decreases_to!(vs@ => vs@[i as int]));
                    assert(s.take(i + 1).drop_last() =~= s.take(i as int));
                    assert(s[i as int] == node_v(vs@[i as int]));
                }
                let x = parse_value_exec(&vs[i]);
                proof {
                    assert(crate::dd::bvals(out@.push(x)) =~= crate::dd::bvals(out@).push(bval(x)));
                }
                out.push(x);
                i = i + 1;
            }
            proof {
                assert(s.take(i as int) =~= s);
            }
            BoonValue::List(out)
        },
        TomlValue::Table(es) => {
            let ghost s = entry_vs(es@);
            let mut m: StrMap<BoonValue> = StrMap::new();
            let mut i: usize = 0;
            proof {
                assert(s.take(0) =~= Seq::<(Seq<char>, NodeV)>::empty());
            }
            while i < es.len()
                invariant
                    s == entry_vs(es@),
                    i <= es@.len(),
                    m.model() == parse_entries(s.take(i as int)),
                    decreases_to!(*n => *es),
                decreases es@.len() - i,
            {
                proof {
                    assert(decreases_to!(*es => es@));
                    assert(decreases_to!(es@ => es@[i as int]));
                    assert(decreases_to!(es@[i as int] => es@[i as int].1));
                    assert(s.take(i + 1).drop_last() =~= s.take(i as int));
                    assert(s[i as int] == (es@[i as int].0@, node_v(es@[i as int].1)));
                }
                let x = parse_value_exec(&es[i].1);
                m.insert(copy_string(&es[i].0), x);
                i = i + 1;
            }
            proof {
                assert(s.take(i as int) =~= s);
                assert(m.model() =~= crate::dd::bval_entries(m.entries@));
            }
            BoonValue::Record(m)
        },
    }
}

// ---------------------------------------------------------------------------
// Actions, steps and scenarios
// ---------------------------------------------------------------------------

pub struct ActionV {
    pub source: Seq<char>,
    pub owner: Option<Seq<char>>,
    pub generation: Option<u32>,
    pub value: BVal,
}

pub open spec fn action_v(a: SourceAction) -> ActionV {
    ActionV {
        source: a.source@,
        owner: match a.owner {
            Some(o) => Some(o.0@),
            None => None,
        },
        generation: a.generation,
        value: bval(a.value),
    }
}

pub open spec fn action_keys() -> Seq<Seq<char>> {
    seq!["source"@, "owner"@, "generation"@, "value"@, "command"@]
}

/// An integer in `u32` range.
pub open spec fn as_u32(n: Option<NodeV>) -> Option<u32> {
    match n {
        Some(x) => match x.value {
            TomlV::Integer(i) => if 0 <= i <= u32::MAX {
                Some(i as u32)
            } else {
                None
            },
            _ => None,
        },
        None => None,
    }
}

/// A source action: a table with a `source`, and maybe an `owner`, a
/// `generation` and a `value` (the empty record if none).
pub open spec fn parse_action(n: NodeV) -> Result<ActionV, Seq<char>> {
    match n.value {
        TomlV::Table(es) => match reject_keys(es, action_keys(), "action"@) {
            Some(e) => Err(e),
            None => match as_str(get_key(n.value, "source"@)) {
                None => Err("scenario action missing source: "@ + n.debug),
                Some(source) => Ok(
                    ActionV {
                        source,
                        owner: as_str(get_key(n.value, "owner"@)),
                        generation: as_u32(get_key(n.value, "generation"@)),
                        value: match get_key(n.value, "value"@) {
                            Some(v) => parse_value(v),
                            None => BVal::EmptyRecord,
                        },
                    },
                ),
            },
        },
        _ => Err("scenario action must be a table: "@ + n.debug),
    }
}

pub enum EventV {
    Source(ActionV),
    Command(Seq<char>),
}

/// The events of a step's `actions` array, in order: a `command` entry is a
/// host command, anything else a source action.
pub open spec fn parse_events(items: Seq<NodeV>) -> Result<Seq<EventV>, Seq<char>>
    decreases items.len(),
{
    if items.len() == 0 {
        Ok(Seq::empty())
    } else {
        match parse_events(items.drop_last()) {
            Err(e) => Err(e),
            Ok(prev) => {
                let a = items[items.len() - 1];
                match as_str(get_key(a.value, "command"@)) {
                    Some(c) => Ok(prev.push(EventV::Command(c))),
                    None => match parse_action(a) {
                        Ok(x) => Ok(prev.push(EventV::Source(x))),
                        Err(e) => Err(e),
                    },
                }
            },
        }
    }
}

pub open spec fn event_v(e: ScenarioEvent) -> EventV {
    match e {
        ScenarioEvent::Source(a) => EventV::Source(action_v(a)),
        ScenarioEvent::Command(c) => EventV::Command(c.command@),
    }
}

/// The source actions among the events, in order.
pub open spec fn event_actions(evs: Seq<EventV>) -> Seq<ActionV>
    decreases evs.len(),
{
    if evs.len() == 0 {
        Seq::empty()
    } else {
        let p = event_actions(evs.drop_last());
        match evs[evs.len() - 1] {
            EventV::Source(a) => p.push(a),
            EventV::Command(_) => p,
        }
    }
}

/// The host commands among the events, in order.
pub open spec fn event_commands(evs: Seq<EventV>) -> Seq<Seq<char>>
    decreases evs.len(),
{
    if evs.len() == 0 {
        Seq::empty()
    } else {
        let p = event_commands(evs.drop_last());
        match evs[evs.len() - 1] {
            EventV::Source(_) => p,
            EventV::Command(c) => p.push(c),
        }
    }
}

/// The strings of an array, skipping other values.
pub open spec fn array_strs(vs: Seq<NodeV>) -> Seq<Seq<char>>
    decreases vs.len(),
{
    if vs.len() == 0 {
        Seq::empty()
    } else {
        let p = array_strs(vs.drop_last());
        match vs[vs.len() - 1].value {
            TomlV::String(s) => p.push(s),
            _ => p,
        }
    }
}

pub struct StepV {
    pub description: Seq<char>,
    pub events: Seq<EventV>,
    pub actions: Seq<ActionV>,
    pub commands: Seq<Seq<char>>,
    pub expect_text: Seq<char>,
    pub expect_monitor_changed: Seq<Seq<char>>,
}

pub open spec fn step_v(s: ScenarioStep) -> StepV {
    StepV {
        description: s.description@,
        events: s.events@.map_values(|e: ScenarioEvent| event_v(e)),
        actions: s.actions@.map_values(|a: SourceAction| action_v(a)),
        commands: s.commands@.map_values(|c: ScenarioCommand| c.command@),
        expect_text: s.expect_text@,
        expect_monitor_changed: s.expect_monitor_changed@.map_values(|n: NodeId| n.0@),
    }
}

pub open spec fn step_keys() -> Seq<Seq<char>> {
    seq!["description"@, "actions"@, "expect_text"@, "expect_monitor_changed"@]
}

/// A step: a table with a description, its events, the text it expects and
/// the monitor nodes it expects to change.
pub open spec fn parse_step(n: NodeV) -> Result<StepV, Seq<char>> {
    match n.value {
        TomlV::Table(es) => match reject_keys(es, step_keys(), "step"@) {
            Some(e) => Err(e),
            None => match parse_events(as_array(get_key(n.value, "actions"@))) {
                Err(e) => Err(e),
                Ok(evs) => Ok(
                    StepV {
                        description: str_or_empty(get_key(n.value, "description"@)),
                        events: evs,
                        actions: event_actions(evs),
                        commands: event_commands(evs),
                        expect_text: str_or_empty(get_key(n.value, "expect_text"@)),
                        expect_monitor_changed: array_strs(
                            as_array(get_key(n.value, "expect_monitor_changed"@)),
                        ),
                    },
                ),
            },
        },
        _ => Err("scenario step must be a table: "@ + n.debug),
    }
}

/// The steps, in order, up to the first that fails.
pub open spec fn parse_steps(vs: Seq<NodeV>) -> Result<Seq<StepV>, Seq<char>>
    decreases vs.len(),
{
    if vs.len() == 0 {
        Ok(Seq::empty())
    } else {
        match parse_steps(vs.drop_last()) {
            Err(e) => Err(e),
            Ok(p) => match parse_step(vs[vs.len() - 1]) {
                Ok(s) => Ok(p.push(s)),
                Err(e) => Err(e),
            },
        }
    }
}

pub struct ScenarioV {
    pub initial_expect_text: Seq<char>,
    pub steps: Seq<StepV>,
}

pub open spec fn scenario_v(s: Scenario) -> ScenarioV {
    ScenarioV {
        initial_expect_text: s.initial_expect_text@,
        steps: s.steps@.map_values(|x: ScenarioStep| step_v(x)),
    }
}

/// A scenario from its TOML document: a table with an optional `initial`
/// table and an array of `step` tables, and no other keys.
pub open spec fn scenario_from(root: NodeV) -> Result<ScenarioV, Seq<char>> {
    match root.value {
        TomlV::Table(es) => match reject_keys(es, seq!["initial"@, "step"@], "scenario root"@) {
            Some(e) => Err(e),
            None => {
                let initial = get_key(root.value, "initial"@);
                let initial_error = match initial {
                    Some(i) => match i.value {
                        TomlV::Table(ies) => reject_keys(ies, seq!["expect_text"@], "initial"@),
                        _ => None,
                    },
                    None => None,
                };
                match initial_error {
                    Some(e) => Err(e),
                    None => {
                        let text = match initial {
                            Some(i) => str_or_empty(get_key(i.value, "expect_text"@)),
                            None => Seq::empty(),
                        };
                        match parse_steps(as_array(get_key(root.value, "step"@))) {
                            Err(e) => Err(e),
                            Ok(steps) => Ok(ScenarioV { initial_expect_text: text, steps }),
                        }
                    },
                }
            },
        },
        _ => Err("scenario root must be a TOML table"@),
    }
}

/// What reading a scenario text gives.
pub open spec fn scenario_result(text: Seq<char>) -> Result<ScenarioV, Seq<char>> {
    match toml_document(text) {
        Err(e) => Err("invalid scenario TOML: "@ + e),
        Ok(root) => scenario_from(root),
    }
}

// ----- reading, in executable code -----

/// A copy of a scenario value.
pub(crate) fn copy_value(v: &BoonValue) -> (r: BoonValue)
    ensures
        bval(r) == bval(*v),
    decreases v,
{
    match v {
        BoonValue::EmptyRecord => BoonValue::EmptyRecord,
        BoonValue::Record(m) => {
            let mut entries: Vec<(String, BoonValue)> = Vec::new();
            let mut i: usize = 0;
            while i < m.entries.len()
                invariant
                    i <= m.entries@.len(),
                    crate::dd::bval_entries(entries@) == crate::dd::bval_entries(m.entries@).take(i as int),
                    decreases_to!(*v => m.entries),
                decreases m.entries@.len() - i,
            {
                proof {
                    assert(decreases_to!(m.entries => m.entries@));
                    assert(decreases_to!(m.entries@ => m.entries@[i as int]));
                    assert(decreases_to!(m.entries@[i as int] => m.entries@[i as int].1));
                }
                let e = (copy_string(&m.entries[i].0), copy_value(&m.entries[i].1));
                proof {
                    assert(crate::dd::bval_entries(entries@.push(e)) =~= crate::dd::bval_entries(entries@).push(
                        (e.0@, bval(e.1)),
                    ));
                }
                entries.push(e);
                i = i + 1;
                proof {
                    assert(crate::dd::bval_entries(m.entries@).take(i as int) =~= crate::dd::bval_entries(
                        m.entries@,
                    ).take(i - 1).push((m.entries@[i - 1].0@, bval(m.entries@[i - 1].1))));
                }
            }
            proof {
                assert(crate::dd::bval_entries(m.entries@).take(i as int) =~= crate::dd::bval_entries(m.entries@));
            }
            BoonValue::Record(StrMap { entries })
        },
        BoonValue::List(vs) => {
            let mut out: Vec<BoonValue> = Vec::new();
            let mut i: usize = 0;
            while i < vs.len()
                invariant
                    i <= vs@.len(),
                    crate::dd::bvals(out@) == crate::dd::bvals(vs@).take(i as int),
                    decreases_to!(*v => *vs),
                decreases vs@.len() - i,
            {
                proof {
                    assert(decreases_to!(*vs => vs@));
                    assert(decreases_to!(vs@ => vs@[i as int]));
                }
                let x = copy_value(&vs[i]);
                proof {
                    assert(crate::dd::bvals(out@.push(x)) =~= crate::dd::bvals(out@).push(bval(x)));
                }
                out.push(x);
                i = i + 1;
                proof {
                    assert(crate::dd::bvals(vs@).take(i as int) =~= crate::dd::bvals(vs@).take(i - 1).push(
                        bval(vs@[i - 1]),
                    ));
                }
            }
            proof {
                assert(crate::dd::bvals(vs@).take(i as int) =~= crate::dd::bvals(vs@));
            }
            BoonValue::List(out)
        },
        BoonValue::Text(t) => BoonValue::Text(copy_string(t)),
        BoonValue::Number(n) => BoonValue::Number(*n),
        BoonValue::Tag { name, payload } => BoonValue::Tag {
            name: TagName(copy_string(&name.0)),
            payload: match payload {
                Some(p) => Some(Box::new(copy_value(p))),
                None => None,
            },
        },
    }
}

fn copy_action(a: &SourceAction) -> (r: SourceAction)
    ensures
        action_v(r) == action_v(*a),
{
    SourceAction {
        source: copy_string(&a.source),
        owner: match &a.owner {
            Some(o) => Some(OwnerKey(copy_string(&o.0))),
            None => None,
        },
        generation: a.generation,
        value: copy_value(&a.value),
    }
}

pub open spec fn opt_node(n: Option<&TomlNode>) -> Option<NodeV> {
    match n {
        Some(x) => Some(x@),
        None => None,
    }
}

fn array_of<'a>(n: Option<&'a TomlNode>) -> (r: Option<&'a Vec<TomlNode>>)
    ensures
        as_array(opt_node(n)) == match r {
            Some(v) => node_vs(v@),
            None => Seq::empty(),
        },
{
    match n {
        Some(x) => match &x.value {
            TomlValue::Array(vs) => Some(vs),
            _ => None,
        },
        None => None,
    }
}

fn parse_action_exec(n: &TomlNode) -> (r: Result<SourceAction, String>)
    ensures
        match parse_action(n@) {
            Ok(a) => r matches Ok(x) && action_v(x) == a,
            Err(e) => r matches Err(m) && m@ == e,
        },
{
    let es = match &n.value {
        TomlValue::Table(es) => es,
        _ => {
            let mut m = "scenario action must be a table: ".to_owned();
            push_str(&mut m, n.debug.as_str());
            return Err(m);
        },
    };
    let allowed = vec!["source", "owner", "generation", "value", "command"];
    proof {
        assert(allowed@.map_values(|a: &str| a@) =~= action_keys());
    }
    if let Some(e) = reject_keys_exec(es, &allowed, "action") {
        return Err(e);
    }
    let source = match as_str_exec(get_key_exec(&n.value, "source")) {
        Some(s) => s,
        None => {
            let mut m = "scenario action missing source: ".to_owned();
            push_str(&mut m, n.debug.as_str());
            return Err(m);
        },
    };
    let owner = match as_str_exec(get_key_exec(&n.value, "owner")) {
        Some(o) => Some(OwnerKey(o)),
        None => None,
    };
    let generation = match get_key_exec(&n.value, "generation") {
        Some(g) => match &g.value {
            TomlValue::Integer(i) => if 0 <= *i && *i <= 4294967295 {
                Some(*i as u32)
            } else {
                None
            },
            _ => None,
        },
        None => None,
    };
    let value = match get_key_exec(&n.value, "value") {
        Some(v) => parse_value_exec(v),
        None => BoonValue::EmptyRecord,
    };
    Ok(SourceAction { source, owner, generation, value })
}

proof fn lemma_parse_events_err(items: Seq<NodeV>, i: int)
    requires
        0 <= i <= items.len(),
        parse_events(items.take(i)) is Err,
    ensures
        parse_events(items) == parse_events(items.take(i)),
    decreases items.len() - i,
{
    if i < items.len() {
        assert(items.take(i + 1).drop_last() =~= items.take(i));
        lemma_parse_events_err(items, i + 1);
    } else {
        assert(items.take(i) =~= items);
    }
}

fn parse_step_exec(n: &TomlNode) -> (r: Result<ScenarioStep, String>)
    ensures
        match parse_step(n@) {
            Ok(s) => r matches Ok(x) && step_v(x) == s,
            Err(e) => r matches Err(m) && m@ == e,
        },
{
    let es = match &n.value {
        TomlValue::Table(es) => es,
        _ => {
            let mut m = "scenario step must be a table: ".to_owned();
            push_str(&mut m, n.debug.as_str());
            return Err(m);
        },
    };
    let allowed = vec!["description", "actions", "expect_text", "expect_monitor_changed"];
    proof {
        assert(allowed@.map_values(|a: &str| a@) =~= step_keys());
    }
    if let Some(e) = reject_keys_exec(es, &allowed, "step") {
        return Err(e);
    }
    let description = str_or_empty_exec(get_key_exec(&n.value, "description"));
    let expect_text = str_or_empty_exec(get_key_exec(&n.value, "expect_text"));
    let mut expect_monitor_changed: Vec<NodeId> = Vec::new();
    match array_of(get_key_exec(&n.value, "expect_monitor_changed")) {
        Some(vs) => {
            let ghost s = node_vs(vs@);
            let mut i: usize = 0;
            proof {
                assert(s.take(0) =~= Seq::<NodeV>::empty());
                assert(expect_monitor_changed@.map_values(|x: NodeId| x.0@) =~= Seq::<Seq<char>>::empty());
            }
            while i < vs.len()
                invariant
                    s == node_vs(vs@),
                    i <= vs@.len(),
                    expect_monitor_changed@.map_values(|x: NodeId| x.0@) == array_strs(s.take(i as int)),
                decreases vs@.len() - i,
            {
                proof {
                    assert(s.take(i + 1).drop_last() =~= s.take(i as int));
                    assert(s[i as int] == node_v(vs@[i as int]));
                }
                if let TomlValue::String(t) = &vs[i].value {
                    let x = NodeId(copy_string(t));
                    proof {
                        assert(expect_monitor_changed@.push(x).map_values(|x: NodeId| x.0@)
                            =~= expect_monitor_changed@.map_values(|x: NodeId| x.0@).push(x.0@));
                    }
                    expect_monitor_changed.push(x);
                }
                i = i + 1;
            }
            proof {
                assert(s.take(i as int) =~= s);
            }
        },
        None => {
            proof {
                assert(expect_monitor_changed@.map_values(|x: NodeId| x.0@) =~= Seq::<Seq<char>>::empty());
            }
        },
    }
    let mut events: Vec<ScenarioEvent> = Vec::new();
    let mut actions: Vec<SourceAction> = Vec::new();
    let mut commands: Vec<ScenarioCommand> = Vec::new();
    let items = array_of(get_key_exec(&n.value, "actions"));
    let ghost s = as_array(get_key(n@.value, "actions"@));
    let count = match items {
        Some(vs) => vs.len(),
        None => 0,
    };
    let mut i: usize = 0;
    proof {
        assert(s.take(0) =~= Seq::<NodeV>::empty());
        assert(events@.map_values(|e: ScenarioEvent| event_v(e)) =~= Seq::<EventV>::empty());
        assert(actions@.map_values(|a: SourceAction| action_v(a)) =~= Seq::<ActionV>::empty());
        assert(commands@.map_values(|c: ScenarioCommand| c.command@) =~= Seq::<Seq<char>>::empty());
    }
    while i < count
        invariant
            s == as_array(get_key(n@.value, "actions"@)),
            s == match items {
                Some(v) => node_vs(v@),
                None => Seq::empty(),
            },
            count == s.len(),
            i <= count,
            parse_events(s) is Err ==> parse_step(n@) == Err::<StepV, Seq<char>>(parse_events(s)->Err_0),
            parse_events(s.take(i as int)) == Ok::<Seq<EventV>, Seq<char>>(
                events@.map_values(|e: ScenarioEvent| event_v(e)),
            ),
            actions@.map_values(|a: SourceAction| action_v(a)) == event_actions(
                events@.map_values(|e: ScenarioEvent| event_v(e)),
            ),
            commands@.map_values(|c: ScenarioCommand| c.command@) == event_commands(
                events@.map_values(|e: ScenarioEvent| event_v(e)),
            ),
        decreases count - i,
    {
        let vs = match items {
            Some(vs) => vs,
            None => {
                return Err(String::new());
            },
        };
        let a = &vs[i];
        let ghost ev0 = events@.map_values(|e: ScenarioEvent| event_v(e));
        proof {
            assert(s.take(i + 1).drop_last() =~= s.take(i as int));
            assert(s.take(i + 1)[i as int] == a@);
        }
        match as_str_exec(get_key_exec(&a.value, "command")) {
            Some(c) => {
                let e = ScenarioEvent::Command(ScenarioCommand { command: copy_string(&c) });
                let cmd = ScenarioCommand { command: c };
                proof {
                    assert(events@.push(e).map_values(|e: ScenarioEvent| event_v(e)) =~= ev0.push(event_v(e)));
                    assert(ev0.push(event_v(e)).drop_last() =~= ev0);
                    assert(commands@.push(cmd).map_values(|c: ScenarioCommand| c.command@)
                        =~= commands@.map_values(|c: ScenarioCommand| c.command@).push(cmd.command@));
                }
                events.push(e);
                commands.push(cmd);
            },
            None => {
                match parse_action_exec(a) {
                    Ok(x) => {
                        let y = copy_action(&x);
                        let e = ScenarioEvent::Source(x);
                        proof {
                            assert(events@.push(e).map_values(|e: ScenarioEvent| event_v(e)) =~= ev0.push(
                                event_v(e),
                            ));
                            assert(ev0.push(event_v(e)).drop_last() =~= ev0);
                            assert(actions@.push(y).map_values(|a: SourceAction| action_v(a))
                                =~= actions@.map_values(|a: SourceAction| action_v(a)).push(action_v(y)));
                        }
                        events.push(e);
                        actions.push(y);
                    },
                    Err(m) => {
                        proof {
                            assert(as_str(get_key(a@.value, "command"@)) is None);
                            assert(parse_action(a@) == Err::<ActionV, Seq<char>>(m@));
                            assert(parse_events(s.take(i + 1)) == Err::<Seq<EventV>, Seq<char>>(m@));
                            lemma_parse_events_err(s, i + 1);
                            assert(parse_events(s) == Err::<Seq<EventV>, Seq<char>>(m@));
                        }
                        return Err(m);
                    },
                }
            },
        }
        i = i + 1;
    }
    proof {
        assert(s.take(i as int) =~= s);
    }
    Ok(
        ScenarioStep {
            description,
            events,
            actions,
            commands,
            expect_text,
            expect_monitor_changed,
        },
    )
}

proof fn lemma_parse_steps_err(items: Seq<NodeV>, i: int)
    requires
        0 <= i <= items.len(),
        parse_steps(items.take(i)) is Err,
    ensures
        parse_steps(items) == parse_steps(items.take(i)),
    decreases items.len() - i,
{
    if i < items.len() {
        assert(items.take(i + 1).drop_last() =~= items.take(i));
        lemma_parse_steps_err(items, i + 1);
    } else {
        assert(items.take(i) =~= items);
    }
}

/// Reads a scenario, or says why it cannot: the TOML error, or the first
/// key, step or action that is not as a scenario needs it.
pub fn parse_scenario_result(text: &str) -> (r: Result<Scenario, String>)
    ensures
        match scenario_result(text@) {
            Ok(s) => r matches Ok(x) && scenario_v(x) == s,
            Err(e) => r matches Err(m) && m@ == e,
        },
{
    let root = match parse_toml_document(text) {
        Ok(v) => v,
        Err(e) => {
            let mut m = "invalid scenario TOML: ".to_owned();
            push_str(&mut m, e.as_str());
            return Err(m);
        },
    };
    let es = match &root.value {
        TomlValue::Table(es) => es,
        _ => {
            return Err("scenario root must be a TOML table".to_owned());
        },
    };
    let allowed = vec!["initial", "step"];
    proof {
        assert(allowed@.map_values(|a: &str| a@) =~= seq!["initial"@, "step"@]);
    }
    if let Some(e) = reject_keys_exec(es, &allowed, "scenario root") {
        return Err(e);
    }
    let initial = get_key_exec(&root.value, "initial");
    if let Some(i) = initial {
        if let TomlValue::Table(ies) = &i.value {
            let allowed_initial = vec!["expect_text"];
            proof {
                assert(allowed_initial@.map_values(|a: &str| a@) =~= seq!["expect_text"@]);
            }
            if let Some(e) = reject_keys_exec(ies, &allowed_initial, "initial") {
                return Err(e);
            }
        }
    }
    let initial_expect_text = match initial {
        Some(i) => str_or_empty_exec(get_key_exec(&i.value, "expect_text")),
        None => String::new(),
    };
    let mut steps: Vec<ScenarioStep> = Vec::new();
    let items = array_of(get_key_exec(&root.value, "step"));
    let ghost s = as_array(get_key(root@.value, "step"@));
    let count = match items {
        Some(vs) => vs.len(),
        None => 0,
    };
    let mut k: usize = 0;
    proof {
        assert(s.take(0) =~= Seq::<NodeV>::empty());
        assert(steps@.map_values(|x: ScenarioStep| step_v(x)) =~= Seq::<StepV>::empty());
    }
    while k < count
        invariant
            s == as_array(get_key(root@.value, "step"@)),
            s == match items {
                Some(v) => node_vs(v@),
                None => Seq::empty(),
            },
            count == s.len(),
            k <= count,
            parse_steps(s) is Err ==> scenario_result(text@) == Err::<ScenarioV, Seq<char>>(
                parse_steps(s)->Err_0,
            ),
            parse_steps(s.take(k as int)) == Ok::<Seq<StepV>, Seq<char>>(
                steps@.map_values(|x: ScenarioStep| step_v(x)),
            ),
        decreases count - k,
    {
        let vs = match items {
            Some(vs) => vs,
            None => {
                return Err(String::new());
            },
        };
        proof {
            assert(s.take(k + 1).drop_last() =~= s.take(k as int));
            assert(s.take(k + 1)[k as int] == vs@[k as int]@);
        }
        match parse_step_exec(&vs[k]) {
            Ok(x) => {
                proof {
                    assert(steps@.push(x).map_values(|x: ScenarioStep| step_v(x)) =~= steps@.map_values(
                        |x: ScenarioStep| step_v(x),
                    ).push(step_v(x)));
                }
                steps.push(x);
            },
            Err(m) => {
                proof {
                    assert(parse_step(vs@[k as int]@) == Err::<StepV, Seq<char>>(m@));
                    assert(parse_steps(s.take(k + 1)) == Err::<Seq<StepV>, Seq<char>>(m@));
                    lemma_parse_steps_err(s, k + 1);
                    assert(parse_steps(s) == Err::<Seq<StepV>, Seq<char>>(m@));
                }
                return Err(m);
            },
        }
        k = k + 1;
    }
    proof {
        assert(s.take(k as int) =~= s);
    }
    Ok(Scenario { initial_expect_text, steps })
}

/// Reads a scenario that is known to be well formed.
pub fn parse_scenario(text: &str) -> (r: Scenario)
    requires
        scenario_result(text@) is Ok,
    ensures
        scenario_v(r) == scenario_result(text@)->Ok_0,
{
    match parse_scenario_result(text) {
        Ok(s) => s,
        Err(_) => Scenario { initial_expect_text: String::new(), steps: Vec::new() },
    }
}

/// The steps of a well-formed scenario.
pub fn scenario_steps_for_text(scenario_text: &str) -> (r: Vec<ScenarioStep>)
    requires
        scenario_result(scenario_text@) is Ok,
    ensures
        r@.map_values(|x: ScenarioStep| step_v(x)) == scenario_result(scenario_text@)->Ok_0.steps,
{
    let s = parse_scenario(scenario_text);
    s.steps
}

/// The source actions of all steps, in order.
pub open spec fn all_actions(steps: Seq<StepV>) -> Seq<ActionV>
    decreases steps.len(),
{
    if steps.len() == 0 {
        Seq::empty()
    } else {
        all_actions(steps.drop_last()) + event_actions(steps[steps.len() - 1].events)
    }
}

proof fn lemma_event_actions_step(evs: Seq<EventV>, i: int)
    requires
        0 <= i < evs.len(),
    ensures
        event_actions(evs.take(i + 1)) == (match evs[i] {
            EventV::Source(a) => event_actions(evs.take(i)).push(a),
            EventV::Command(_) => event_actions(evs.take(i)),
        }),
{
    assert(evs.take(i + 1).drop_last() =~= evs.take(i));
}

/// The source actions of a well-formed scenario, step by step, in order.
pub fn scenario_source_actions_for_text(scenario_text: &str) -> (r: Vec<SourceAction>)
    requires
        scenario_result(scenario_text@) is Ok,
    ensures
        r@.map_values(|a: SourceAction| action_v(a)) == all_actions(
            scenario_result(scenario_text@)->Ok_0.steps,
        ),
{
    let s = parse_scenario(scenario_text);
    let ghost steps = s.steps@.map_values(|x: ScenarioStep| step_v(x));
    let mut out: Vec<SourceAction> = Vec::new();
    let mut k: usize = 0;
    proof {
        assert(steps.take(0) =~= Seq::<StepV>::empty());
        assert(out@.map_values(|a: SourceAction| action_v(a)) =~= Seq::<ActionV>::empty());
    }
    while k < s.steps.len()
        invariant
            steps == s.steps@.map_values(|x: ScenarioStep| step_v(x)),
            k <= s.steps@.len(),
            out@.map_values(|a: SourceAction| action_v(a)) == all_actions(steps.take(k as int)),
        decreases s.steps@.len() - k,
    {
        let step = &s.steps[k];
        let ghost evs = step.events@.map_values(|e: ScenarioEvent| event_v(e));
        let ghost before = out@.map_values(|a: SourceAction| action_v(a));
        let mut j: usize = 0;
        proof {
            assert(evs.take(0) =~= Seq::<EventV>::empty());
            assert(before + event_actions(evs.take(0)) =~= before);
        }
        while j < step.events.len()
            invariant
                evs == step.events@.map_values(|e: ScenarioEvent| event_v(e)),
                j <= step.events@.len(),
                out@.map_values(|a: SourceAction| action_v(a)) == before + event_actions(evs.take(j as int)),
            decreases step.events@.len() - j,
        {
            proof {
                lemma_event_actions_step(evs, j as int);
            }
            if let ScenarioEvent::Source(a) = &step.events[j] {
                let x = copy_action(a);
                proof {
                    assert(out@.push(x).map_values(|a: SourceAction| action_v(a)) =~= out@.map_values(
                        |a: SourceAction| action_v(a),
                    ).push(action_v(x)));
                    assert(before + event_actions(evs.take(j as int)).push(action_v(x)) =~= (before
                        + event_actions(evs.take(j as int))).push(action_v(x)));
                }
                out.push(x);
            }
            j = j + 1;
        }
        proof {
            assert(evs.take(j as int) =~= evs);
            assert(steps.take(k + 1).drop_last() =~= steps.take(k as int));
            assert(steps.take(k + 1)[k as int] == step_v(*step));
        }
        k = k + 1;
    }
    proof {
        assert(steps.take(k as int) =~= steps);
    }
    out
}

/// The steps of a scenario text, or nothing where it is not well formed.
pub fn try_scenario_steps_for_text(scenario_text: &str) -> (r: Option<Vec<ScenarioStep>>)
    ensures
        match scenario_result(scenario_text@) {
            Ok(s) => r matches Some(v) && v@.map_values(|x: ScenarioStep| step_v(x)) == s.steps,
            Err(_) => r is None,
        },
{
    match parse_scenario_result(scenario_text) {
        Ok(_) => Some(scenario_steps_for_text(scenario_text)),
        Err(_) => None,
    }
}

/// The source actions of a scenario text, or nothing where it is not well
/// formed.
pub fn try_scenario_source_actions_for_text(scenario_text: &str) -> (r: Option<Vec<SourceAction>>)
    ensures
        match scenario_result(scenario_text@) {
            Ok(s) => r matches Some(v) && v@.map_values(|a: SourceAction| action_v(a)) == all_actions(
                s.steps,
            ),
            Err(_) => r is None,
        },
{
    match parse_scenario_result(scenario_text) {
        Ok(_) => Some(scenario_source_actions_for_text(scenario_text)),
        Err(_) => None,
    }
}
} // verus!
