//! The decisions of the runtime host around its dataflow session: when an
//! epoch is complete, what each scenario event asks of the session, when a
//! host tick is due, what persisted text carries over a reload, and how a
//! step's output is reported.
use vstd::prelude::*;
use crate::dd::{
    bval, bval_entries, bvals, BVal, BoonNumber, BoonValue, GeneratedSourceEvent, GeneratedSourceEventPayload,
    SourceAction, TagName, BoonTime, CompiledScenarioStepOutput, OwnerKey, PersistenceCommand, ScenarioCommand, ScenarioEvent,
    ScenarioStep, SmokeOutput, SourceId, DdOutputSink, NodeId, MonitorRecord, RenderCommand,
    EffectCommand, SourceFamilyId,
};
use crate::strmap::StrMap;
use crate::scenario::copy_value;
use crate::literal::{i64_decimal, i64_text};
use crate::text::{copy_string, push_str, string_eq_str, string_eq_string};

verus! {

/// The time at which an epoch is complete: its last phase.
pub fn completion_time(epoch: u64) -> (r: u64)
    requires
        epoch * 4 + 3 <= u64::MAX,
    ensures
        r == epoch * 4 + 3,
{
    BoonTime { epoch, phase: 3 }.encode()
}

/// The output of a run in which nothing happened.
pub fn empty_structured_output() -> (r: SmokeOutput)
    ensures
        r.monitor@.len() == 0,
        r.render@.len() == 0,
        r.effects@.len() == 0,
        r.persistence@.len() == 0,
{
    SmokeOutput { monitor: Vec::new(), render: Vec::new(), effects: Vec::new(), persistence: Vec::new() }
}

/// The owner of every static source: `Root`.
pub fn root_owner_key() -> (r: OwnerKey)
    ensures
        r.0@ == "Root"@,
{
    OwnerKey("Root".to_owned())
}

/// How an event is listed in a step's event order: `source:` and the
/// source's path, or `command:` and the command.
pub open spec fn event_label(e: ScenarioEvent) -> Seq<char> {
    match e {
        ScenarioEvent::Source(a) => "source:"@ + a.source@,
        ScenarioEvent::Command(c) => "command:"@ + c.command@,
    }
}

/// The labels of a step's events, in order.
pub fn event_order(events: &Vec<ScenarioEvent>) -> (r: Vec<String>)
    ensures
        r@.map_values(|s: String| s@) == events@.map_values(|e: ScenarioEvent| event_label(e)),
{
    let mut out: Vec<String> = Vec::new();
    let mut i: usize = 0;
    while i < events.len()
        invariant
            i <= events@.len(),
            out@.map_values(|s: String| s@) == events@.take(i as int).map_values(
                |e: ScenarioEvent| event_label(e),
            ),
        decreases events@.len() - i,
    {
        let label = match &events[i] {
            ScenarioEvent::Source(a) => {
                let mut l = "source:".to_owned();
                push_str(&mut l, a.source.as_str());
                l
            },
            ScenarioEvent::Command(c) => {
                let mut l = "command:".to_owned();
                push_str(&mut l, c.command.as_str());
                l
            },
        };
        let ghost before = out@;
        out.push(label);
        assert(out@.map_values(|s: String| s@) =~= before.map_values(|s: String| s@).push(label@));
        assert(events@.take(i + 1).map_values(|e: ScenarioEvent| event_label(e)) =~= events@.take(
            i as int,
        ).map_values(|e: ScenarioEvent| event_label(e)).push(event_label(events@[i as int])));
        i = i + 1;
    }
    assert(events@.take(events@.len() as int) =~= events@);
    out
}

/// The text of the last request to save, if there is one.
pub open spec fn last_saved(ps: Seq<PersistenceCommand>) -> Option<Seq<char>>
    decreases ps.len(),
{
    if ps.len() == 0 {
        None
    } else {
        match ps[ps.len() - 1] {
            PersistenceCommand::SaveText { value, .. } => Some(value@),
            PersistenceCommand::LoadText { .. } => last_saved(ps.drop_last()),
        }
    }
}

/// The text of the last request to save in a step's output.
pub fn last_saved_text(output: &SmokeOutput) -> (r: Option<String>)
    ensures
        match last_saved(output.persistence@) {
            Some(t) => r matches Some(x) && x@ == t,
            None => r is None,
        },
{
    let ps = &output.persistence;
    let mut k: usize = ps.len();
    assert(ps@.take(k as int) =~= ps@);
    while k > 0
        invariant
            k <= ps@.len(),
            ps@ == output.persistence@,
            last_saved(ps@.take(k as int)) == last_saved(ps@),
        decreases k,
    {
        assert(ps@.take(k as int).drop_last() =~= ps@.take(k - 1));
        assert(ps@.take(k as int)[k - 1] == ps@[k - 1]);
        match &ps[k - 1] {
            PersistenceCommand::SaveText { value, .. } => {
                assert(last_saved(ps@.take(k as int)) == Some(value@));
                return Some(copy_string(value));
            },
            PersistenceCommand::LoadText { .. } => {},
        }
        k = k - 1;
    }
    assert(ps@.take(0) =~= Seq::<PersistenceCommand>::empty());
    None
}

/// What the host keeps between steps for persistence: whether it is on, the
/// text a reload replays, and the text the graph last asked to save.
#[derive(Debug, PartialEq, Eq)]
pub struct PersistenceState {
    pub enabled: bool,
    pub persisted_text: Option<String>,
    pub last_saved_text: Option<String>,
}

/// The text of an optional string.
pub open spec fn opt_text(o: Option<String>) -> Option<Seq<char>> {
    match o {
        Some(s) => Some(s@),
        None => None,
    }
}

fn copy_opt_text(o: &Option<String>) -> (r: Option<String>)
    ensures
        opt_text(r) == opt_text(*o),
{
    match o {
        Some(s) => Some(copy_string(s)),
        None => None,
    }
}

/// The persistence state as values.
pub struct PersistV {
    pub enabled: bool,
    pub persisted: Option<Seq<char>>,
    pub last_saved: Option<Seq<char>>,
}

pub open spec fn persist_v(s: PersistenceState) -> PersistV {
    PersistV {
        enabled: s.enabled,
        persisted: opt_text(s.persisted_text),
        last_saved: opt_text(s.last_saved_text),
    }
}

/// What the host does with the session for one scenario event.
#[derive(Debug, PartialEq, Eq)]
pub enum HostStep {
    /// Submit the event's source action.
    SubmitSource,
    /// Start a fresh session, then submit the replayed text if there is one.
    Reload { replay: Option<String> },
    /// Nothing.
    Nothing,
}

/// What the host does, as values.
pub enum StepV {
    SubmitSource,
    Reload(Option<Seq<char>>),
    Nothing,
}

pub open spec fn step_v(h: HostStep) -> StepV {
    match h {
        HostStep::SubmitSource => StepV::SubmitSource,
        HostStep::Reload { replay } => StepV::Reload(opt_text(replay)),
        HostStep::Nothing => StepV::Nothing,
    }
}

/// The host's answer to one scenario event: a source action is submitted;
/// enabling persistence, where the graph has a persistence tap, takes the last
/// saved text as the text to replay; a reload starts a fresh session and
/// replays that text when persistence is on; other commands do nothing.
pub open spec fn host_model(st: PersistV, e: ScenarioEvent, tap: bool) -> (PersistV, StepV) {
    match e {
        ScenarioEvent::Source(_) => (st, StepV::SubmitSource),
        ScenarioEvent::Command(c) => if c.command@ == "enable_persistence"@ {
            if tap {
                (PersistV { enabled: true, persisted: st.last_saved, last_saved: st.last_saved }, StepV::Nothing)
            } else {
                (st, StepV::Nothing)
            }
        } else if c.command@ == "reload"@ {
            (st, StepV::Reload(if st.enabled { st.persisted } else { None }))
        } else {
            (st, StepV::Nothing)
        },
    }
}

/// Handles one scenario event.
pub fn host_step(state: &mut PersistenceState, event: &ScenarioEvent, has_persistence_tap: bool) -> (r:
    HostStep)
    ensures
        persist_v(*final(state)) == host_model(persist_v(*old(state)), *event, has_persistence_tap).0,
        step_v(r) == host_model(persist_v(*old(state)), *event, has_persistence_tap).1,
{
    match event {
        ScenarioEvent::Source(_) => HostStep::SubmitSource,
        ScenarioEvent::Command(c) => {
            if string_eq_str(&c.command, "enable_persistence") {
                if has_persistence_tap {
                    state.enabled = true;
                    state.persisted_text = copy_opt_text(&state.last_saved_text);
                }
                HostStep::Nothing
            } else if string_eq_str(&c.command, "reload") {
                let replay = if state.enabled {
                    copy_opt_text(&state.persisted_text)
                } else {
                    None
                };
                HostStep::Reload { replay }
            } else {
                HostStep::Nothing
            }
        },
    }
}

/// Records what a drained step asked to save.
pub fn record_saved(state: &mut PersistenceState, output: &SmokeOutput)
    ensures
        persist_v(*final(state)) == (PersistV {
            last_saved: last_saved(output.persistence@),
            ..persist_v(*old(state))
        }),
{
    state.last_saved_text = last_saved_text(output);
}

/// With a persistence tap, enabling persistence and then reloading replays
/// the text the graph last asked to save.
pub proof fn lemma_reload_replays_last_save(st: PersistV, enable: ScenarioCommand, reload: ScenarioCommand, tap: bool)
    requires
        enable.command@ == "enable_persistence"@,
        reload.command@ == "reload"@,
    ensures
        host_model(
            host_model(st, ScenarioEvent::Command(enable), true).0,
            ScenarioEvent::Command(reload),
            tap,
        ).1 == StepV::Reload(st.last_saved),
{
    reveal_strlit("enable_persistence");
    reveal_strlit("reload");
    assert("enable_persistence"@ != "reload"@) by {
        assert("enable_persistence"@[0] != "reload"@[0]);
    }
}

/// Until persistence is enabled, a reload replays nothing.
pub proof fn lemma_reload_without_persistence(st: PersistV, reload: ScenarioCommand, tap: bool)
    requires
        !st.enabled,
        reload.command@ == "reload"@,
    ensures
        host_model(st, ScenarioEvent::Command(reload), tap).1 == StepV::Reload(None),
        host_model(st, ScenarioEvent::Command(reload), tap).0 == st,
{
    reveal_strlit("enable_persistence");
    reveal_strlit("reload");
    assert("enable_persistence"@ != "reload"@) by {
        assert("enable_persistence"@[0] != "reload"@[0]);
    }
}

/// Whether a step ends with a host tick: when nothing was submitted, or the
/// graph binds no source.
pub fn needs_host_tick(submitted: bool, has_bound_sources: bool) -> (r: bool)
    ensures
        r == (!submitted || !has_bound_sources),
{
    !submitted || !has_bound_sources
}

/// The commands' texts.
pub open spec fn command_texts(cs: Seq<ScenarioCommand>) -> Seq<Seq<char>> {
    cs.map_values(|c: ScenarioCommand| c.command@)
}

fn copy_commands(cs: &Vec<ScenarioCommand>) -> (r: Vec<ScenarioCommand>)
    ensures
        command_texts(r@) == command_texts(cs@),
{
    let mut out: Vec<ScenarioCommand> = Vec::new();
    let mut i: usize = 0;
    while i < cs.len()
        invariant
            i <= cs@.len(),
            command_texts(out@) == command_texts(cs@.take(i as int)),
        decreases cs@.len() - i,
    {
        let c = ScenarioCommand { command: copy_string(&cs[i].command) };
        let ghost before = out@;
        out.push(c);
        assert(command_texts(out@) =~= command_texts(before).push(c.command@));
        assert(command_texts(cs@.take(i + 1)) =~= command_texts(cs@.take(i as int)).push(
            cs@[i as int].command@,
        ));
        i = i + 1;
    }
    assert(cs@.take(cs@.len() as int) =~= cs@);
    out
}

/// The report of one step: its index, description, events, actions,
/// commands and expected text, with what the session produced.
pub fn step_output(step_index: usize, step: &ScenarioStep, output: SmokeOutput) -> (r:
    CompiledScenarioStepOutput)
    ensures
        r.step_index == step_index,
        r.description@ == step.description@,
        r.event_count == step.events@.len(),
        r.event_order@.map_values(|s: String| s@) == step.events@.map_values(
            |e: ScenarioEvent| event_label(e),
        ),
        r.action_count == step.actions@.len(),
        command_texts(r.commands@) == command_texts(step.commands@),
        r.expected_text@ == step.expect_text@,
        r.output == output,
{
    CompiledScenarioStepOutput {
        step_index,
        description: copy_string(&step.description),
        event_count: step.events.len(),
        event_order: event_order(&step.events),
        action_count: step.actions.len(),
        commands: copy_commands(&step.commands),
        expected_text: copy_string(&step.expect_text),
        output,
    }
}

/// The mathematical value of an event payload.
pub enum PayloadV {
    EmptyRecord,
    Text(Seq<char>),
    Number(BoonNumber),
    Tag(Seq<char>, Option<BVal>),
    Record(Seq<(Seq<char>, BVal)>),
    List(Seq<BVal>),
}

pub open spec fn payload_v(p: GeneratedSourceEventPayload) -> PayloadV {
    match p {
        GeneratedSourceEventPayload::EmptyRecord => PayloadV::EmptyRecord,
        GeneratedSourceEventPayload::Text(t) => PayloadV::Text(t@),
        GeneratedSourceEventPayload::Number(n) => PayloadV::Number(n),
        GeneratedSourceEventPayload::Tag { name, payload } => PayloadV::Tag(
            name.0@,
            match payload {
                Some(v) => Some(bval(v)),
                None => None,
            },
        ),
        GeneratedSourceEventPayload::Record(m) => PayloadV::Record(bval_entries(m.entries@)),
        GeneratedSourceEventPayload::List(vs) => PayloadV::List(bvals(vs@)),
    }
}

/// The payload that a source action's value becomes: the same value, with a
/// tag's boxed payload unboxed.
pub open spec fn value_payload(v: BVal) -> PayloadV {
    match v {
        BVal::EmptyRecord => PayloadV::EmptyRecord,
        BVal::Text(t) => PayloadV::Text(t),
        BVal::Number(n) => PayloadV::Number(n),
        BVal::Tag(name, p) => PayloadV::Tag(
            name,
            match p {
                Some(b) => Some(*b),
                None => None,
            },
        ),
        BVal::Record(es) => PayloadV::Record(es),
        BVal::List(vs) => PayloadV::List(vs),
    }
}

/// The payload of the event that a source action sends.
pub fn source_action_payload(action: &SourceAction) -> (r: GeneratedSourceEventPayload)
    ensures
        payload_v(r) == value_payload(action.value@),
{
    let v = copy_value(&action.value);
    match v {
        BoonValue::EmptyRecord => GeneratedSourceEventPayload::EmptyRecord,
        BoonValue::Text(t) => GeneratedSourceEventPayload::Text(t),
        BoonValue::Number(n) => GeneratedSourceEventPayload::Number(n),
        BoonValue::Tag { name, payload } => GeneratedSourceEventPayload::Tag {
            name,
            payload: match payload {
                Some(b) => Some(*b),
                None => None,
            },
        },
        BoonValue::Record(m) => GeneratedSourceEventPayload::Record(m),
        BoonValue::List(vs) => GeneratedSourceEventPayload::List(vs),
    }
}

/// The event of a static source that carries no value.
pub fn static_empty(source_id: String) -> (r: GeneratedSourceEvent)
    ensures
        r matches GeneratedSourceEvent::Static { source_id: id, payload }
            && id.0@ == source_id@ && payload is EmptyRecord,
{
    GeneratedSourceEvent::Static { source_id: SourceId(source_id), payload: GeneratedSourceEventPayload::EmptyRecord }
}

/// Whether `id` is one of `ids`.
pub open spec fn listed(ids: Seq<String>, id: Seq<char>) -> bool {
    exists|i: int| 0 <= i < ids.len() && #[trigger] ids[i]@ == id
}

/// Whether the graph bound the source of an event: persisted text always
/// is; a static source when its id is bound; an instance of a dynamic
/// family when the family is bound and the instance has an owner.
pub open spec fn event_bound(e: GeneratedSourceEvent, ids: Seq<String>) -> bool {
    match e {
        GeneratedSourceEvent::Static { source_id, .. } => source_id.0@ == "__persisted_text"@
            || listed(ids, source_id.0@),
        GeneratedSourceEvent::Dynamic { family_id, owner_key, .. } => listed(ids, family_id.0@)
            && owner_key.0@.len() > 0,
    }
}

fn is_listed(ids: &Vec<String>, id: &String) -> (r: bool)
    ensures
        r == listed(ids@, id@),
{
    let mut i: usize = 0;
    while i < ids.len()
        invariant
            i <= ids@.len(),
            forall|j: int| 0 <= j < i ==> ids@[j]@ != id@,
        decreases ids@.len() - i,
    {
        if string_eq_string(&ids[i], id) {
            return true;
        }
        i = i + 1;
    }
    false
}

/// Whether an event belongs to a source that the graph bound.
pub fn runtime_event_matches_bound_source(event: &GeneratedSourceEvent, source_ids: &Vec<String>) -> (r: bool)
    ensures
        r == event_bound(*event, source_ids@),
{
    match event {
        GeneratedSourceEvent::Static { source_id, .. } => {
            string_eq_str(&source_id.0, "__persisted_text") || is_listed(source_ids, &source_id.0)
        },
        GeneratedSourceEvent::Dynamic { family_id, owner_key, .. } => {
            is_listed(source_ids, &family_id.0) && owner_key.0.as_str().unicode_len() > 0
        },
    }
}

/// Whether an event is the host's own tick.
pub fn runtime_event_is_host_tick(event: &GeneratedSourceEvent) -> (r: bool)
    ensures
        r == (event matches GeneratedSourceEvent::Static { source_id, .. } && source_id.0@
            == "__host_tick"@),
{
    match event {
        GeneratedSourceEvent::Static { source_id, .. } => string_eq_str(&source_id.0, "__host_tick"),
        GeneratedSourceEvent::Dynamic { .. } => false,
    }
}

/// The owner an event acts for: `Root` for a static source, the instance's
/// owner for a dynamic one.
pub fn runtime_source_event_owner(event: &GeneratedSourceEvent) -> (r: OwnerKey)
    ensures
        r.0@ == match *event {
            GeneratedSourceEvent::Static { .. } => "Root"@,
            GeneratedSourceEvent::Dynamic { owner_key, .. } => owner_key.0@,
        },
{
    match event {
        GeneratedSourceEvent::Static { .. } => root_owner_key(),
        GeneratedSourceEvent::Dynamic { owner_key, .. } => OwnerKey(copy_string(&owner_key.0)),
    }
}


/// The effect sinks of an output protocol, as node and effect name, in order.
pub open spec fn effect_sinks(sinks: Seq<DdOutputSink>) -> Seq<(Seq<char>, Seq<char>)>
    decreases sinks.len(),
{
    if sinks.len() == 0 {
        Seq::empty()
    } else {
        let rest = effect_sinks(sinks.drop_last());
        match sinks.last() {
            DdOutputSink::Effect { node, name, .. } => rest.push((node.0@, name@)),
            _ => rest,
        }
    }
}

/// The persistence sinks of an output protocol, as nodes, in order.
pub open spec fn persistence_sinks(sinks: Seq<DdOutputSink>) -> Seq<Seq<char>>
    decreases sinks.len(),
{
    if sinks.len() == 0 {
        Seq::empty()
    } else {
        let rest = persistence_sinks(sinks.drop_last());
        match sinks.last() {
            DdOutputSink::Persistence { node, .. } => rest.push(node.0@),
            _ => rest,
        }
    }
}

/// The effects a session requests with every rendered text.
pub fn effect_requests(sinks: &Vec<DdOutputSink>) -> (r: Vec<(NodeId, String)>)
    ensures
        r@.map_values(|e: (NodeId, String)| (e.0.0@, e.1@)) == effect_sinks(sinks@),
{
    let mut out: Vec<(NodeId, String)> = Vec::new();
    let mut i: usize = 0;
    while i < sinks.len()
        invariant
            i <= sinks@.len(),
            out@.map_values(|e: (NodeId, String)| (e.0.0@, e.1@)) == effect_sinks(sinks@.take(i as int)),
        decreases sinks@.len() - i,
    {
        assert(sinks@.take(i + 1).drop_last() =~= sinks@.take(i as int));
        assert(sinks@.take(i + 1).last() == sinks@[i as int]);
        match &sinks[i] {
            DdOutputSink::Effect { node, name, .. } => {
                let ghost before = out@.map_values(|e: (NodeId, String)| (e.0.0@, e.1@));
                out.push((NodeId(copy_string(&node.0)), copy_string(name)));
                assert(out@.map_values(|e: (NodeId, String)| (e.0.0@, e.1@)) =~= before.push((node.0@, name@)));
            },
            _ => {},
        }
        i = i + 1;
    }
    assert(sinks@.take(i as int) =~= sinks@);
    out
}

/// The nodes a session saves every rendered text to.
pub fn persistence_nodes(sinks: &Vec<DdOutputSink>) -> (r: Vec<NodeId>)
    ensures
        r@.map_values(|n: NodeId| n.0@) == persistence_sinks(sinks@),
{
    let mut out: Vec<NodeId> = Vec::new();
    let mut i: usize = 0;
    while i < sinks.len()
        invariant
            i <= sinks@.len(),
            out@.map_values(|n: NodeId| n.0@) == persistence_sinks(sinks@.take(i as int)),
        decreases sinks@.len() - i,
    {
        assert(sinks@.take(i + 1).drop_last() =~= sinks@.take(i as int));
        assert(sinks@.take(i + 1).last() == sinks@[i as int]);
        match &sinks[i] {
            DdOutputSink::Persistence { node, .. } => {
                let ghost before = out@.map_values(|n: NodeId| n.0@);
                out.push(NodeId(copy_string(&node.0)));
                assert(out@.map_values(|n: NodeId| n.0@) =~= before.push(node.0@));
            },
            _ => {},
        }
        i = i + 1;
    }
    assert(sinks@.take(i as int) =~= sinks@);
    out
}

/// What a session reports when it renders `text` for `owner` at `time`: the
/// monitor value in the time's epoch, the text patch, every effect request
/// and a save of the text to every persistence node.
pub fn rendered_output(
    owner: &OwnerKey,
    text: &String,
    time: u64,
    monitor: &NodeId,
    render: &NodeId,
    effects: &Vec<(NodeId, String)>,
    persistence: &Vec<NodeId>,
) -> (r: SmokeOutput)
    ensures
        r.monitor@.len() == 1,
        r.monitor@[0] matches MonitorRecord::NodeValue { epoch, node, owner: o, value_preview }
            && epoch == time / 4 && node.0@ == monitor.0@ && o.0@ == owner.0@ && value_preview@ == text@,
        r.render@.len() == 1,
        r.render@[0] matches RenderCommand::PatchText { node, text: t } && node.0@ == render.0@ && t@ == text@,
        r.effects@.len() == effects@.len(),
        forall|i: int| 0 <= i < effects@.len() ==> ((#[trigger] r.effects@[i]) matches EffectCommand::Requested { node, name }
            && node.0@ == effects@[i].0.0@ && name@ == effects@[i].1@),
        r.persistence@.len() == persistence@.len(),
        forall|i: int| 0 <= i < persistence@.len() ==> ((#[trigger] r.persistence@[i]) matches PersistenceCommand::SaveText { node, value }
            && node.0@ == persistence@[i].0@ && value@ == text@),
{
    let mut es: Vec<EffectCommand> = Vec::new();
    let mut i: usize = 0;
    while i < effects.len()
        invariant
            i <= effects@.len(),
            es@.len() == i,
            forall|j: int| 0 <= j < i ==> ((#[trigger] es@[j]) matches EffectCommand::Requested { node, name }
                && node.0@ == effects@[j].0.0@ && name@ == effects@[j].1@),
        decreases effects@.len() - i,
    {
        es.push(EffectCommand::Requested { node: NodeId(copy_string(&effects[i].0.0)), name: copy_string(&effects[i].1) });
        i = i + 1;
    }
    let mut ps: Vec<PersistenceCommand> = Vec::new();
    let mut k: usize = 0;
    while k < persistence.len()
        invariant
            k <= persistence@.len(),
            ps@.len() == k,
            forall|j: int| 0 <= j < k ==> ((#[trigger] ps@[j]) matches PersistenceCommand::SaveText { node, value }
                && node.0@ == persistence@[j].0@ && value@ == text@),
        decreases persistence@.len() - k,
    {
        ps.push(PersistenceCommand::SaveText { node: NodeId(copy_string(&persistence[k].0)), value: copy_string(text) });
        k = k + 1;
    }
    SmokeOutput {
        monitor: vec![MonitorRecord::NodeValue {
            epoch: BoonTime::decode(time).epoch,
            node: NodeId(copy_string(&monitor.0)),
            owner: OwnerKey(copy_string(&owner.0)),
            value_preview: copy_string(text),
        }],
        render: vec![RenderCommand::PatchText { node: NodeId(copy_string(&render.0)), text: copy_string(text) }],
        effects: es,
        persistence: ps,
    }
}


/// The source id bound to a path: that of the first pair with the path.
pub open spec fn bound_id(ids: Seq<(String, SourceId)>, path: Seq<char>) -> Option<Seq<char>>
    decreases ids.len(),
{
    if ids.len() == 0 {
        None
    } else if ids[0].0@ == path {
        Some(ids[0].1.0@)
    } else {
        bound_id(ids.drop_first(), path)
    }
}

/// The id an action's source goes by: its bound id, or else its path.
pub open spec fn action_source_id(ids: Seq<(String, SourceId)>, path: Seq<char>) -> Seq<char> {
    match bound_id(ids, path) {
        Some(id) => id,
        None => path,
    }
}

fn bound_id_exec(ids: &Vec<(String, SourceId)>, path: &String) -> (r: Option<String>)
    ensures
        match bound_id(ids@, path@) {
            Some(x) => r matches Some(y) && y@ == x,
            None => r is None,
        },
{
    let mut i: usize = 0;
    assert(ids@.skip(0) =~= ids@);
    while i < ids.len()
        invariant
            i <= ids@.len(),
            bound_id(ids@, path@) == bound_id(ids@.skip(i as int), path@),
        decreases ids@.len() - i,
    {
        assert(ids@.skip(i as int)[0] == ids@[i as int]);
        if string_eq_string(&ids[i].0, path) {
            return Some(copy_string(&ids[i].1.0));
        }
        assert(ids@.skip(i as int).drop_first() =~= ids@.skip(i + 1));
        i = i + 1;
    }
    assert(ids@.skip(i as int).len() == 0);
    None
}

/// The event a source action submits: for an action with an owner, an
/// event of that instance of the source's family; otherwise an event of the
/// static source. `ids` pairs the bound source paths with their ids.
pub fn source_action_event(action: &SourceAction, ids: &Vec<(String, SourceId)>) -> (r: GeneratedSourceEvent)
    requires
        action.owner is Some ==> action.generation is Some,
    ensures
        match action.owner {
            Some(o) => r matches GeneratedSourceEvent::Dynamic { family_id, owner_key, generation, payload }
                && family_id.0@ == action_source_id(ids@, action.source@) && owner_key.0@ == o.0@
                && Some(generation) == action.generation && payload_v(payload) == value_payload(action.value@),
            None => r matches GeneratedSourceEvent::Static { source_id, payload }
                && source_id.0@ == action_source_id(ids@, action.source@)
                && payload_v(payload) == value_payload(action.value@),
        },
{
    let id = match bound_id_exec(ids, &action.source) {
        Some(x) => x,
        None => copy_string(&action.source),
    };
    let payload = source_action_payload(action);
    match &action.owner {
        Some(o) => {
            let generation = match action.generation {
                Some(g) => g,
                None => 0,
            };
            GeneratedSourceEvent::Dynamic {
                family_id: SourceFamilyId(id),
                owner_key: OwnerKey(copy_string(&o.0)),
                generation,
                payload,
            }
        },
        None => GeneratedSourceEvent::Static { source_id: SourceId(id), payload },
    }
}


/// The text of a value, as the event texts show it: nothing for an empty
/// record, `<record>` for a record, the items' texts joined by `,` for a
/// list, a text as it is, an integer in decimal, and a tag by its name with
/// its payload's text in brackets. A float's text is written by the float
/// formatting, which the library does not hold: a value with a float has no
/// text here.
pub open spec fn value_text(v: BVal) -> Option<Seq<char>>
    decreases v, 0nat,
{
    match v {
        BVal::EmptyRecord => Some(Seq::empty()),
        BVal::Record(_) => Some("<record>"@),
        BVal::List(vs) => items_text(vs, vs.len() as nat),
        BVal::Text(t) => Some(t),
        BVal::Number(BoonNumber::Int(n)) => Some(i64_decimal(n)),
        BVal::Number(BoonNumber::Float(_)) => None,
        BVal::Tag(name, p) => match p {
            Some(b) => match value_text(*b) {
                Some(t) => Some(name + "("@ + t + ")"@),
                None => None,
            },
            None => Some(name),
        },
    }
}

/// The texts of the first `n` items, joined by `,`.
pub open spec fn items_text(vs: Seq<BVal>, n: nat) -> Option<Seq<char>>
    decreases vs, n,
{
    if n == 0 || n > vs.len() {
        Some(Seq::empty())
    } else {
        match items_text(vs, (n - 1) as nat) {
            Some(a) => match value_text(vs[n - 1]) {
                Some(b) => Some(if n == 1 { b } else { a + ","@ + b }),
                None => None,
            },
            None => None,
        }
    }
}

/// The text of a value, or nothing where it holds a float.
pub fn value_to_text(v: &BoonValue) -> (r: Option<String>)
    ensures
        match value_text(v@) {
            Some(t) => r matches Some(s) && s@ == t,
            None => r is None,
        },
    decreases v, 1nat,
{
    match v {
        BoonValue::EmptyRecord => Some(String::new()),
        BoonValue::Record(_) => Some("<record>".to_owned()),
        BoonValue::List(vs) => items_to_text(vs, Ghost(*v)),
        BoonValue::Text(t) => Some(copy_string(t)),
        BoonValue::Number(BoonNumber::Int(n)) => Some(i64_text(*n)),
        BoonValue::Number(BoonNumber::Float(_)) => None,
        BoonValue::Tag { name, payload } => match payload {
            Some(p) => match value_to_text(p) {
                Some(t) => {
                    let mut s = copy_string(&name.0);
                    push_str(&mut s, "(");
                    push_str(&mut s, t.as_str());
                    push_str(&mut s, ")");
                    Some(s)
                },
                None => None,
            },
            None => Some(copy_string(&name.0)),
        },
    }
}

fn items_to_text(vs: &Vec<BoonValue>, Ghost(owner): Ghost<BoonValue>) -> (r: Option<String>)
    requires
        decreases_to!(owner => *vs),
    ensures
        match items_text(bvals(vs@), vs@.len() as nat) {
            Some(t) => r matches Some(s) && s@ == t,
            None => r is None,
        },
    decreases owner, 0nat,
{
    let ghost bs = bvals(vs@);
    let mut out = String::new();
    let mut i: usize = 0;
    while i < vs.len()
        invariant
            i <= vs@.len(),
            bs == bvals(vs@),
            bs.len() == vs@.len(),
            items_text(bs, i as nat) == Some(out@),
            decreases_to!(owner => *vs),
        decreases vs@.len() - i,
    {
        proof {
            assert(decreases_to!(*vs => vs@));
            assert(decreases_to!(vs@ => vs@[i as int]));
        }
        match value_to_text(&vs[i]) {
            Some(t) => {
                if i > 0 {
                    push_str(&mut out, ",");
                }
                push_str(&mut out, t.as_str());
            },
            None => {
                proof {
                    lemma_items_text_none(bs, i as nat + 1, vs@.len() as nat);
                }
                return None;
            },
        }
        i = i + 1;
    }
    Some(out)
}

proof fn lemma_items_text_none(vs: Seq<BVal>, k: nat, n: nat)
    requires
        0 < k <= n <= vs.len(),
        items_text(vs, k) is None,
    ensures
        items_text(vs, n) is None,
    decreases n - k,
{
    if k < n {
        lemma_items_text_none(vs, k + 1, n);
    }
}

/// The text of an event payload, as the value it carries shows it.
pub open spec fn payload_text(p: PayloadV) -> Option<Seq<char>> {
    match p {
        PayloadV::EmptyRecord => Some(Seq::empty()),
        PayloadV::Text(t) => Some(t),
        PayloadV::Number(n) => value_text(BVal::Number(n)),
        PayloadV::Tag(name, v) => value_text(BVal::Tag(name, match v {
            Some(b) => Some(Box::new(b)),
            None => None,
        })),
        PayloadV::Record(_) => Some("<record>"@),
        PayloadV::List(vs) => items_text(vs, vs.len() as nat),
    }
}

/// The text of an event payload, or nothing where it holds a float.
pub fn generated_payload_text(payload: &GeneratedSourceEventPayload) -> (r: Option<String>)
    ensures
        match payload_text(payload_v(*payload)) {
            Some(t) => r matches Some(s) && s@ == t,
            None => r is None,
        },
{
    match payload {
        GeneratedSourceEventPayload::EmptyRecord => Some(String::new()),
        GeneratedSourceEventPayload::Text(t) => Some(copy_string(t)),
        GeneratedSourceEventPayload::Number(n) => value_to_text(&BoonValue::Number(*n)),
        GeneratedSourceEventPayload::Tag { name, payload } => match payload {
            Some(p) => match value_to_text(p) {
                Some(t) => {
                    let mut s = copy_string(&name.0);
                    push_str(&mut s, "(");
                    push_str(&mut s, t.as_str());
                    push_str(&mut s, ")");
                    Some(s)
                },
                None => None,
            },
            None => Some(copy_string(&name.0)),
        },
        GeneratedSourceEventPayload::Record(_) => Some("<record>".to_owned()),
        GeneratedSourceEventPayload::List(vs) => {
            let ghost owner = BoonValue::List(*vs);
            assert(owner->List_0 == *vs);
            assert(decreases_to!(owner => owner->List_0));
            items_to_text(vs, Ghost(owner))
        },
    }
}

/// The text of an event's payload, or nothing where it holds a float.
pub fn generated_source_event_text(event: &GeneratedSourceEvent) -> (r: Option<String>)
    ensures
        match payload_text(payload_v(match *event {
            GeneratedSourceEvent::Static { payload, .. } => payload,
            GeneratedSourceEvent::Dynamic { payload, .. } => payload,
        })) {
            Some(t) => r matches Some(s) && s@ == t,
            None => r is None,
        },
{
    match event {
        GeneratedSourceEvent::Static { payload, .. } => generated_payload_text(payload),
        GeneratedSourceEvent::Dynamic { payload, .. } => generated_payload_text(payload),
    }
}

} // verus!
